//! Text substitutions of the expansion phase: a label's span in a line
//! replaced by a number, and a line replaced by several lines.

use vstd::prelude::*;

use crate::name_map::NameMap;
use crate::parser::chars::is_ident_start;
use crate::parser::grammar::{self, tokens_of, Rule, Token};
use crate::text::{self, decimal, digit_char, nat_digits};

use super::{labels_model, LabelValue, SpecLabelValue};

verus! {

/// The number of characters of `s` that can start a label.
pub open spec fn letter_count(s: Seq<char>) -> nat
    decreases s.len(),
{
    if s.len() == 0 {
        0
    } else {
        letter_count(s.drop_last()) + if is_ident_start(s.last()) {
            1nat
        } else {
            0nat
        }
    }
}

/// Letters of a concatenation are those of its parts.
pub proof fn lemma_letter_count_concat(a: Seq<char>, b: Seq<char>)
    ensures
        letter_count(a + b) == letter_count(a) + letter_count(b),
    decreases b.len(),
{
    if b.len() == 0 {
        assert(a + b =~= a);
    } else {
        lemma_letter_count_concat(a, b.drop_last());
        assert((a + b).drop_last() =~= a + b.drop_last());
    }
}

proof fn lemma_nat_digits_no_letters(n: nat)
    ensures
        letter_count(nat_digits(n)) == 0,
    decreases n,
{
    assert(letter_count(Seq::<char>::empty()) == 0);
    if n < 10 {
        let c = digit_char(n as int);
        assert(c as int == '0' as int + n);
        assert(seq![c].drop_last() =~= Seq::<char>::empty());
    } else {
        lemma_nat_digits_no_letters(n / 10);
        let c = digit_char((n % 10) as int);
        assert(c as int == '0' as int + (n % 10));
        lemma_letter_count_concat(nat_digits(n / 10), seq![c]);
        assert(seq![c].drop_last() =~= Seq::<char>::empty());
        assert(nat_digits(n / 10).push(c) =~= nat_digits(n / 10) + seq![c]);
    }
}

/// A number written in decimal holds no letters.
pub proof fn lemma_decimal_no_letters(n: int)
    ensures
        letter_count(decimal(n)) == 0,
{
    if n < 0 {
        lemma_nat_digits_no_letters((-n) as nat);
        lemma_letter_count_concat(seq!['-'], nat_digits((-n) as nat));
        assert(seq!['-'].drop_last() =~= Seq::<char>::empty());
        assert(letter_count(Seq::<char>::empty()) == 0);
    } else {
        lemma_nat_digits_no_letters(n as nat);
    }
}

/// `s` with `s[start..end]` replaced by `r`.
pub open spec fn splice(s: Seq<char>, start: int, end: int, r: Seq<char>) -> Seq<char> {
    s.take(start) + r + s.skip(end)
}

/// Replacing a span that starts with a letter by a number leaves fewer letters.
pub proof fn lemma_splice_fewer_letters(s: Seq<char>, start: int, end: int, d: int)
    requires
        0 <= start < end <= s.len(),
        is_ident_start(s[start]),
    ensures
        letter_count(splice(s, start, end, decimal(d))) < letter_count(s),
{
    let a = s.take(start);
    let m = s.subrange(start, end);
    let b = s.skip(end);
    assert(s =~= a + m + b);
    lemma_letter_count_concat(a + m, b);
    lemma_letter_count_concat(a, m);
    lemma_letter_count_concat(seq![s[start]], s.subrange(start + 1, end));
    assert(m =~= seq![s[start]] + s.subrange(start + 1, end));
    assert(seq![s[start]].drop_last() =~= Seq::<char>::empty());
    lemma_decimal_no_letters(d);
    lemma_letter_count_concat(a + decimal(d), b);
    lemma_letter_count_concat(a, decimal(d));
}

/// The characters of a token.
pub open spec fn token_text(s: Seq<char>, t: Token) -> Seq<char> {
    s.subrange(t.start as int, t.end as int)
}

/// The first label token, from the `k`-th on, whose value is an offset
/// (not a substitution), with that value.
pub open spec fn first_offset_label(
    s: Seq<char>,
    tokens: Seq<Token>,
    k: int,
    labels: Map<Seq<char>, SpecLabelValue>,
) -> Option<(Token, SpecLabelValue)>
    decreases tokens.len() - k,
{
    if k < 0 || k >= tokens.len() {
        None
    } else {
        let t = tokens[k];
        let name = token_text(s, t);
        if t.rule == Rule::Label && labels.contains_key(name) && !(labels[name] is Substitution) {
            Some((t, labels[name]))
        } else {
            first_offset_label(s, tokens, k + 1, labels)
        }
    }
}

/// What [`first_offset_label`] finds is one of the label tokens.
pub proof fn lemma_first_offset_label(
    s: Seq<char>,
    tokens: Seq<Token>,
    k: int,
    labels: Map<Seq<char>, SpecLabelValue>,
)
    ensures
        first_offset_label(s, tokens, k, labels) matches Some((t, v)) ==> exists|j: int|
            0 <= j < tokens.len() && tokens[j] == t && t.rule == Rule::Label && !(v is Substitution),
    decreases tokens.len() - k,
{
    if 0 <= k < tokens.len() {
        lemma_first_offset_label(s, tokens, k + 1, labels);
    }
}

/// The number an offset label stands for on the line with offset `from`:
/// an absolute offset becomes relative to `from`. `None` where that
/// difference does not fit in `i32`.
pub open spec fn offset_number(v: SpecLabelValue, from: u32) -> Option<i32> {
    match v {
        SpecLabelValue::AbsoluteOffset(a) => (a as i32).checked_sub(from as i32),
        SpecLabelValue::RelativeOffset(r) => Some(r),
        SpecLabelValue::Substitution(_) => None,
    }
}

/// `s` with every label that stands for an offset replaced by its number,
/// the first one first, on the line with offset `from`; `None` where a
/// number does not fit in `i32`.
pub open spec fn substituted(s: Seq<char>, labels: Map<Seq<char>, SpecLabelValue>, from: u32) -> Option<Seq<char>>
    decreases letter_count(s),
{
    match tokens_of(s) {
        None => Some(s),
        Some(tokens) => match first_offset_label(s, tokens, 0, labels) {
            None => Some(s),
            Some((t, v)) => match offset_number(v, from) {
                None => None,
                Some(d) => if t.start < t.end <= s.len() && is_ident_start(s[t.start as int]) {
                    proof {
                        lemma_splice_fewer_letters(s, t.start as int, t.end as int, d as int);
                    }
                    substituted(splice(s, t.start as int, t.end as int, decimal(d as int)), labels, from)
                } else {
                    Some(s)
                },
            },
        },
    }
}

/// Finds the first label token from the `k`-th on whose value is an offset.
fn find_offset_label(s: &[char], tokens: &Vec<Token>, labels: &NameMap<LabelValue>) -> (res: Option<(Token, LabelValue)>)
    requires
        labels.wf(),
        grammar::tokens_within(s@, 0, tokens@),
    ensures
        match res {
            Some((t, v)) => first_offset_label(s@, tokens@, 0, labels_model(labels.map())) == Some((t, v@)),
            None => first_offset_label(s@, tokens@, 0, labels_model(labels.map())) is None,
        },
{
    let ghost m = labels_model(labels.map());
    let mut k: usize = 0;
    while k < tokens.len()
        invariant
            k <= tokens@.len(),
            labels.wf(),
            m == labels_model(labels.map()),
            grammar::tokens_within(s@, 0, tokens@),
            first_offset_label(s@, tokens@, 0, m) == first_offset_label(s@, tokens@, k as int, m),
        decreases tokens@.len() - k,
    {
        let t = tokens[k];
        assert(0 <= t.start <= t.end <= s@.len());
        if t.rule == Rule::Label {
            let name = text::slice_range(s, t.start, t.end);
            match labels.get(name.as_slice()) {
                Some(v) => {
                    assert(m[name@] == v@);
                    match v {
                        LabelValue::Substitution(_) => {},
                        _ => {
                            return Some((t, v.clone()));
                        },
                    }
                },
                None => {},
            }
        }
        k = k + 1;
    }
    None
}

/// Replaces `s[start..end]` by `r`.
pub fn splice_chars(s: &[char], start: usize, end: usize, r: &[char]) -> (res: Vec<char>)
    requires
        start <= end <= s@.len(),
    ensures
        res@ == splice(s@, start as int, end as int, r@),
{
    let mut res = text::slice_range(s, 0, start);
    let mut i: usize = 0;
    while i < r.len()
        invariant
            i <= r@.len(),
            res@ == s@.take(start as int) + r@.take(i as int),
        decreases r@.len() - i,
    {
        res.push(r[i]);
        i = i + 1;
        assert(res@ =~= s@.take(start as int) + r@.take(i as int));
    }
    let mut tail = text::slice_range(s, end, s.len());
    res.append(&mut tail);
    assert(r@.take(r@.len() as int) =~= r@);
    assert(res@ =~= splice(s@, start as int, end as int, r@));
    res
}

/// Replaces, one after the other, every label in `line` that stands for an
/// offset by its number, relative to the line's offset `from_offset`.
/// Returns `false` (the line then being unspecified) where a number does
/// not fit in `i32`.
pub fn substitute_offsets_in_line(line: &mut Vec<char>, labels: &NameMap<LabelValue>, from_offset: u32) -> (ok: bool)
    requires
        labels.wf(),
    ensures
        match substituted(old(line)@, labels_model(labels.map()), from_offset) {
            Some(r) => ok && final(line)@ == r,
            None => !ok,
        },
{
    let ghost m = labels_model(labels.map());
    let ghost goal = substituted(line@, m, from_offset);
    loop
        invariant
            labels.wf(),
            m == labels_model(labels.map()),
            goal == substituted(line@, m, from_offset),
            goal == substituted(old(line)@, m, from_offset),
        decreases letter_count(line@),
    {
        let tokens = match grammar::tokenize(line.as_slice()) {
            Some(t) => t,
            None => {
                return true;
            },
        };
        let len = line.len();
        proof {
            grammar::lemma_tokens_in_bounds(line@);
        }
        match find_offset_label(line.as_slice(), &tokens, labels) {
            None => {
                return true;
            },
            Some((t, v)) => {
                let number = match v {
                    LabelValue::AbsoluteOffset(a) => (a as i32).checked_sub(from_offset as i32),
                    LabelValue::RelativeOffset(r) => Some(r),
                    LabelValue::Substitution(_) => None,
                };
                match number {
                    None => {
                        return false;
                    },
                    Some(d) => {
                        proof {
                            lemma_first_offset_label(line@, tokens@, 0, m);
                            let j = choose|j: int| 0 <= j < tokens@.len() && tokens@[j] == t && t.rule == Rule::Label;
                            assert(tokens@[j].rule == Rule::Label);
                            lemma_splice_fewer_letters(line@, t.start as int, t.end as int, d as int);
                        }
                        let digits = text::i32_to_chars(d);
                        let next = splice_chars(line.as_slice(), t.start, t.end, digits.as_slice());
                        *line = next;
                    },
                }
            },
        }
    }
}

/// The models of a sequence of lines.
pub open spec fn lines_model(v: Seq<Vec<char>>) -> Seq<Seq<char>> {
    v.map_values(|l: Vec<char>| l@)
}

/// `lines` with line `index` replaced by the lines of `subst`: the text of
/// the line before `start` goes in front of the first, and the text after
/// `end` after the last.
pub open spec fn expanded_lines(
    lines: Seq<Seq<char>>,
    index: int,
    start: int,
    end: int,
    subst: Seq<Seq<char>>,
) -> Seq<Seq<char>> {
    let line = lines[index];
    let before = line.take(start);
    let after = line.skip(end);
    let n = subst.len() as int;
    let new_lines = if n == 1 {
        seq![before + subst[0] + after]
    } else {
        seq![before + subst[0]] + subst.subrange(1, n - 1) + seq![subst[n - 1] + after]
    };
    lines.take(index) + new_lines + lines.skip(index + 1)
}

/// Replaces line `index` by the lines of `substitution`, keeping the text
/// before `start` and after `end` around them.
pub fn expand_lines(lines: &mut Vec<Vec<char>>, index: usize, start: usize, end: usize, substitution: &Vec<Vec<char>>)
    requires
        index < old(lines)@.len(),
        start <= end <= old(lines)@[index as int]@.len(),
        substitution@.len() > 0,
    ensures
        lines_model(final(lines)@) == expanded_lines(lines_model(old(lines)@), index as int, start as int, end as int, lines_model(substitution@)),
{
    let ghost old_lines = lines_model(lines@);
    let n = substitution.len();
    let count = lines.len();
    assert(index + 1 <= count);
    let mut tail = lines.split_off(index + 1);
    let line = match lines.pop() {
        Some(l) => l,
        None => {
            proof {
                assert(false);
            }
            Vec::new()
        },
    };
    let ghost l0 = line@;
    assert(l0 == old_lines[index as int]);
    let before = text::slice_range(line.as_slice(), 0, start);
    let after = text::slice_range(line.as_slice(), end, line.len());
    let mut new_lines: Vec<Vec<char>> = Vec::new();
    let mut j: usize = 0;
    while j < n
        invariant
            n == substitution@.len(),
            j <= n,
            n > 0,
            new_lines@.len() == j,
            forall|k: int| 0 <= k < j ==> (#[trigger] new_lines@[k])@ == (if k == 0 {
                before@
            } else {
                Seq::<char>::empty()
            }) + substitution@[k]@ + (if k == n - 1 {
                after@
            } else {
                Seq::<char>::empty()
            }),
        decreases n - j,
    {
        let mut l: Vec<char> = if j == 0 {
            text::slice_range(before.as_slice(), 0, before.len())
        } else {
            Vec::new()
        };
        let mut body = text::slice_range(substitution[j].as_slice(), 0, substitution[j].len());
        l.append(&mut body);
        if j == n - 1 {
            let mut a = text::slice_range(after.as_slice(), 0, after.len());
            l.append(&mut a);
        }
        proof {
            assert(before@.subrange(0, before@.len() as int) =~= before@);
            assert(after@.subrange(0, after@.len() as int) =~= after@);
            assert(substitution@[j as int]@.subrange(0, substitution@[j as int]@.len() as int) =~= substitution@[j as int]@);
            assert(l@ =~= (if j == 0 {
                before@
            } else {
                Seq::<char>::empty()
            }) + substitution@[j as int]@ + (if j == n - 1 {
                after@
            } else {
                Seq::<char>::empty()
            }));
        }
        new_lines.push(l);
        j = j + 1;
    }
    let ghost nl = new_lines@;
    lines.append(&mut new_lines);
    lines.append(&mut tail);
    proof {
        let subst = lines_model(substitution@);
        let ni = n as int;
        let expected_new = if ni == 1 {
            seq![before@ + subst[0] + after@]
        } else {
            seq![before@ + subst[0]] + subst.subrange(1, ni - 1) + seq![subst[ni - 1] + after@]
        };
        assert(lines_model(nl) =~= expected_new) by {
            assert forall|k: int| 0 <= k < ni implies lines_model(nl)[k] == expected_new[k] by {
                assert(nl[k]@ == (if k == 0 {
                    before@
                } else {
                    Seq::<char>::empty()
                }) + substitution@[k]@ + (if k == ni - 1 {
                    after@
                } else {
                    Seq::<char>::empty()
                }));
                if k == 0 {
                    assert(Seq::<char>::empty() + substitution@[k]@ =~= substitution@[k]@);
                }
                if k != 0 && k != ni - 1 {
                    assert(Seq::<char>::empty() + substitution@[k]@ + Seq::<char>::empty() =~= substitution@[k]@);
                }
                if k != 0 && k == ni - 1 {
                    assert(Seq::<char>::empty() + substitution@[k]@ =~= substitution@[k]@);
                }
                if k == 0 && k != ni - 1 {
                    assert(before@ + substitution@[k]@ + Seq::<char>::empty() =~= before@ + substitution@[k]@);
                }
            }
        }
        assert(before@ == l0.take(start as int));
        assert(after@ == l0.skip(end as int));
        assert(lines_model(lines@) =~= old_lines.take(index as int) + lines_model(nl) + old_lines.skip(index + 1));
    }
}

} // verus!

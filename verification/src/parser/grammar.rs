//! The lexical grammar of a Redcode line: it splits a line into tokens
//! (labels, opcodes, modifiers, address modes, numbers, operators and the
//! `EQU`, `FOR` and `ROF` keywords).

use vstd::prelude::*;

use crate::load_file::{Opcode, PseudoOpcode};
use crate::text::{self, ascii_uppercase, is_digit, trim_end};

use super::chars::{
    char_is_ident_start, digits_end, ident_end, is_ident_start, scan_digits, scan_ident,
    skip_whitespace, skip_ws,
};

verus! {

/// The kind of a token.
#[derive(Clone, Copy, Debug, PartialEq, Eq, Structural)]
pub enum Rule {
    /// A label: a name that is not a keyword.
    Label,
    /// An opcode, or the `ORG` and `END` pseudo-opcodes.
    Opcode,
    /// The modifier after an opcode's `.`.
    Modifier,
    /// An address mode symbol at the start of a field.
    AddressMode,
    /// A decimal number.
    Number,
    /// The text after an `EQU` keyword (the substitution it defines).
    Substitution,
    /// The `FOR` keyword.
    For,
    /// The `ROF` keyword.
    Rof,
    /// An arithmetic, comparison or boolean operator.
    Operator,
}

/// A token: its kind and its span `start..end` in the line's characters.
#[derive(Clone, Copy, Debug, PartialEq, Eq, Structural)]
pub struct Token {
    pub rule: Rule,
    pub start: usize,
    pub end: usize,
}

/// Whether a word (already in upper case) is an opcode, `ORG` or `END`.
pub open spec fn is_opcode_word(w: Seq<char>) -> bool {
    Opcode::from_name(w) is Some || w == PseudoOpcode::Org.name() || w == PseudoOpcode::End.name()
}

/// The start of the text after `EQU` at `e`, with white space skipped.
pub open spec fn substitution_start(s: Seq<char>, e: int) -> int {
    skip_ws(s, e)
}

/// The end of the (right-trimmed) text from `start` to the end of the line.
pub open spec fn substitution_end(s: Seq<char>, start: int) -> int {
    start + trim_end(s.subrange(start, s.len() as int)).len()
}

/// Whether `c` is a symbol that is always an address mode.
pub open spec fn is_mode_only_symbol(c: char) -> bool {
    c == '#' || c == '$' || c == '@' || c == '{' || c == '}'
}

/// Whether `c` is an address mode symbol that is an operator elsewhere.
pub open spec fn is_mode_or_operator_symbol(c: char) -> bool {
    c == '*' || c == '<' || c == '>'
}

/// Whether `s[k..k+2]` is a two-character operator.
pub open spec fn is_two_char_op(s: Seq<char>, k: int) -> bool {
    0 <= k && k + 1 < s.len() && ((s[k] == '&' && s[k + 1] == '&') || (s[k] == '|' && s[k + 1]
        == '|') || (s[k] == '>' && s[k + 1] == '=') || (s[k] == '<' && s[k + 1] == '=') || (s[k]
        == '=' && s[k + 1] == '=') || (s[k] == '!' && s[k + 1] == '='))
}

/// Whether `c` is a one-character operator.
pub open spec fn is_one_char_op(c: char) -> bool {
    c == '+' || c == '-' || c == '*' || c == '/' || c == '%' || c == '!' || c == '<' || c == '>'
}

/// Whether `c` is punctuation that separates tokens and is not itself a token.
pub open spec fn is_punctuation(c: char) -> bool {
    c == ',' || c == '(' || c == ')' || c == ':'
}

/// The tokens of `s` from position `i` on, or `None` if some character there
/// cannot start a token. `field_start` tells whether an address mode may
/// come next (after an opcode, a modifier or a comma).
pub open spec fn lex(s: Seq<char>, i: int, field_start: bool) -> Option<Seq<Token>>
    decreases s.len() - i,
{
    let k = skip_ws(s, i);
    if !(0 <= i <= k <= s.len()) {
        None
    } else if k == s.len() {
        Some(Seq::empty())
    } else if is_ident_start(s[k]) {
        let e = ident_end(s, k);
        let word = ascii_uppercase(s.subrange(k, e));
        if !(k < e <= s.len()) {
            None
        } else if word == PseudoOpcode::Equ.name() {
            let st = substitution_start(s, e);
            let en = substitution_end(s, st);
            Some(seq![Token { rule: Rule::Substitution, start: st as usize, end: en as usize }])
        } else if word == PseudoOpcode::For.name() {
            match lex(s, e, false) {
                Some(rest) => Some(seq![Token { rule: Rule::For, start: k as usize, end: e as usize }] + rest),
                None => None,
            }
        } else if word == seq!['R', 'O', 'F'] {
            match lex(s, e, false) {
                Some(rest) => Some(seq![Token { rule: Rule::Rof, start: k as usize, end: e as usize }] + rest),
                None => None,
            }
        } else if is_opcode_word(word) {
            let op = Token { rule: Rule::Opcode, start: k as usize, end: e as usize };
            if e < s.len() && s[e] == '.' {
                let me = ident_end(s, e + 1);
                if e + 1 < me <= s.len() && is_ident_start(s[e + 1]) {
                    match lex(s, me, true) {
                        Some(rest) => Some(seq![op, Token { rule: Rule::Modifier, start: (e + 1) as usize, end: me as usize }] + rest),
                        None => None,
                    }
                } else {
                    None
                }
            } else {
                match lex(s, e, true) {
                    Some(rest) => Some(seq![op] + rest),
                    None => None,
                }
            }
        } else {
            match lex(s, e, false) {
                Some(rest) => Some(seq![Token { rule: Rule::Label, start: k as usize, end: e as usize }] + rest),
                None => None,
            }
        }
    } else if is_digit(s[k]) {
        let e = digits_end(s, k);
        if k < e <= s.len() {
            match lex(s, e, false) {
                Some(rest) => Some(seq![Token { rule: Rule::Number, start: k as usize, end: e as usize }] + rest),
                None => None,
            }
        } else {
            None
        }
    } else if is_mode_only_symbol(s[k]) || (field_start && is_mode_or_operator_symbol(s[k])) {
        match lex(s, k + 1, false) {
            Some(rest) => Some(seq![Token { rule: Rule::AddressMode, start: k as usize, end: (k + 1) as usize }] + rest),
            None => None,
        }
    } else if is_two_char_op(s, k) {
        match lex(s, k + 2, false) {
            Some(rest) => Some(seq![Token { rule: Rule::Operator, start: k as usize, end: (k + 2) as usize }] + rest),
            None => None,
        }
    } else if is_one_char_op(s[k]) {
        match lex(s, k + 1, false) {
            Some(rest) => Some(seq![Token { rule: Rule::Operator, start: k as usize, end: (k + 1) as usize }] + rest),
            None => None,
        }
    } else if is_punctuation(s[k]) {
        lex(s, k + 1, s[k] == ',')
    } else {
        None
    }
}

/// The tokens of a whole line, or `None` if it is not valid Redcode.
pub open spec fn tokens_of(s: Seq<char>) -> Option<Seq<Token>> {
    lex(s, 0, false)
}

/// The result of tokenizing from a given state, relative to the tokens found so far.
pub open spec fn lex_from(s: Seq<char>, acc: Seq<Token>, i: int, field_start: bool) -> Option<Seq<Token>> {
    match lex(s, i, field_start) {
        Some(rest) => Some(acc + rest),
        None => None,
    }
}

/// Whether the upper-case word `w[..]` is `ORG`, `END` or an opcode.
fn opcode_word(w: &[char]) -> (res: bool)
    ensures
        res == is_opcode_word(w@),
{
    Opcode::from_chars(w).is_some() || text::chars_equal(w, PseudoOpcode::Org.name_chars().as_slice())
        || text::chars_equal(w, PseudoOpcode::End.name_chars().as_slice())
}

fn two_char_op(s: &[char], k: usize) -> (res: bool)
    requires
        k <= s@.len(),
    ensures
        res == is_two_char_op(s@, k as int),
{
    let n = s.len();
    if k < n && k + 1 < n {
        let a = s[k];
        let b = s[k + 1];
        (a == '&' && b == '&') || (a == '|' && b == '|') || (a == '>' && b == '=') || (a == '<'
            && b == '=') || (a == '=' && b == '=') || (a == '!' && b == '=')
    } else {
        false
    }
}

/// Splits a line into its tokens; `None` when the line is not valid Redcode.
pub fn tokenize(s: &[char]) -> (res: Option<Vec<Token>>)
    ensures
        match res {
            Some(tokens) => tokens_of(s@) == Some(tokens@),
            None => tokens_of(s@) is None,
        },
{
    let mut acc: Vec<Token> = Vec::new();
    let mut i: usize = 0;
    let mut field_start = false;
    let n = s.len();
    loop
        invariant
            n == s@.len(),
            i <= n,
            tokens_of(s@) == lex_from(s@, acc@, i as int, field_start),
        decreases n - i,
    {
        let ghost acc0 = acc@;
        let ghost i0 = i as int;
        let ghost fs0 = field_start;
        let k = skip_whitespace(s, i);
        if k == n {
            assert(acc@ + Seq::<Token>::empty() =~= acc@);
            return Some(acc);
        }
        let c = s[k];
        if char_is_ident_start(c) {
            let e = scan_ident(s, k);
            proof {
                super::chars::lemma_ident_end(s@, k + 1);
            }
            assert(e > k);
            let raw = text::slice_range(s, k, e);
            let word = text::to_ascii_uppercase(raw.as_slice());
            assert(raw@ == s@.subrange(k as int, e as int));
            if text::chars_equal(word.as_slice(), PseudoOpcode::Equ.name_chars().as_slice()) {
                let st = skip_whitespace(s, e);
                let trail = text::count_trailing_ws(s, st, n);
                proof {
                    text::lemma_trailing_ws(s@.subrange(st as int, n as int));
                }
                let en = n - trail;
                acc.push(Token { rule: Rule::Substitution, start: st, end: en });
                proof {
                    assert(substitution_end(s@, st as int) == en);
                    assert(acc@ =~= acc0 + seq![Token { rule: Rule::Substitution, start: st, end: en }]);
                }
                return Some(acc);
            } else if text::chars_equal(word.as_slice(), PseudoOpcode::For.name_chars().as_slice()) {
                acc.push(Token { rule: Rule::For, start: k, end: e });
                i = e;
                field_start = false;
                proof {
                    lemma_lex_from_push(s@, acc0, i0, fs0, Token { rule: Rule::For, start: k, end: e }, e as int, false);
                }
            } else if text::chars_equal(word.as_slice(), vec!['R', 'O', 'F'].as_slice()) {
                acc.push(Token { rule: Rule::Rof, start: k, end: e });
                i = e;
                field_start = false;
                proof {
                    assert(word@ == seq!['R', 'O', 'F']);
                    lemma_lex_from_push(s@, acc0, i0, fs0, Token { rule: Rule::Rof, start: k, end: e }, e as int, false);
                }
            } else if opcode_word(word.as_slice()) {
                let op = Token { rule: Rule::Opcode, start: k, end: e };
                if e < n && s[e] == '.' {
                    let me = scan_ident(s, e + 1);
                    if e + 1 < me && char_is_ident_start(s[e + 1]) {
                        let m = Token { rule: Rule::Modifier, start: e + 1, end: me };
                        acc.push(op);
                        acc.push(m);
                        i = me;
                        field_start = true;
                        proof {
                            assert(acc@ =~= acc0 + seq![op, m]);
                            match lex(s@, me as int, true) {
                                Some(rest) => {
                                    assert(acc0 + (seq![op, m] + rest) =~= acc@ + rest);
                                },
                                None => {},
                            }
                        }
                    } else {
                        return None;
                    }
                } else {
                    acc.push(op);
                    i = e;
                    field_start = true;
                    proof {
                        lemma_lex_from_push(s@, acc0, i0, fs0, op, e as int, true);
                    }
                }
            } else {
                let t = Token { rule: Rule::Label, start: k, end: e };
                acc.push(t);
                i = e;
                field_start = false;
                proof {
                    lemma_lex_from_push(s@, acc0, i0, fs0, t, e as int, false);
                }
            }
        } else if '0' <= c && c <= '9' {
            let e = scan_digits(s, k);
            proof {
                super::chars::lemma_digits_end(s@, k + 1);
            }
            assert(e > k);
            let t = Token { rule: Rule::Number, start: k, end: e };
            acc.push(t);
            i = e;
            field_start = false;
            proof {
                lemma_lex_from_push(s@, acc0, i0, fs0, t, e as int, false);
            }
        } else if c == '#' || c == '$' || c == '@' || c == '{' || c == '}' || (field_start && (c
            == '*' || c == '<' || c == '>')) {
            let t = Token { rule: Rule::AddressMode, start: k, end: k + 1 };
            acc.push(t);
            i = k + 1;
            field_start = false;
            proof {
                lemma_lex_from_push(s@, acc0, i0, fs0, t, k + 1, false);
            }
        } else if two_char_op(s, k) {
            let t = Token { rule: Rule::Operator, start: k, end: k + 2 };
            acc.push(t);
            i = k + 2;
            field_start = false;
            proof {
                lemma_lex_from_push(s@, acc0, i0, fs0, t, k + 2, false);
            }
        } else if c == '+' || c == '-' || c == '*' || c == '/' || c == '%' || c == '!' || c == '<'
            || c == '>' {
            let t = Token { rule: Rule::Operator, start: k, end: k + 1 };
            acc.push(t);
            i = k + 1;
            field_start = false;
            proof {
                lemma_lex_from_push(s@, acc0, i0, fs0, t, k + 1, false);
            }
        } else if c == ',' || c == '(' || c == ')' || c == ':' {
            i = k + 1;
            field_start = c == ',';
        } else {
            return None;
        }
    }
}

/// Moving on after one token: the tokens so far grow by `t`.
proof fn lemma_lex_from_push(
    s: Seq<char>,
    acc0: Seq<Token>,
    i0: int,
    fs0: bool,
    t: Token,
    e: int,
    fs: bool,
)
    requires
        lex(s, i0, fs0) == (match lex(s, e, fs) {
            Some(rest) => Some(seq![t] + rest),
            None => None,
        }),
    ensures
        lex_from(s, acc0, i0, fs0) == lex_from(s, acc0.push(t), e, fs),
{
    match lex(s, e, fs) {
        Some(rest) => {
            assert(acc0 + (seq![t] + rest) =~= acc0.push(t) + rest);
        },
        None => {},
    }
}

/// Every token lies within `i..s.len()`, the tokens are in order, and each
/// label starts with a letter or underscore.
pub open spec fn tokens_within(s: Seq<char>, i: int, tokens: Seq<Token>) -> bool {
    &&& forall|j: int| 0 <= j < tokens.len() ==> i <= (#[trigger] tokens[j]).start <= tokens[j].end <= s.len()
    &&& forall|j: int|
        0 <= j < tokens.len() && (#[trigger] tokens[j]).rule == Rule::Label ==> tokens[j].start
            < tokens[j].end && is_ident_start(s[tokens[j].start as int])
    &&& forall|j1: int, j2: int|
        0 <= j1 < j2 < tokens.len() ==> (#[trigger] tokens[j1]).end <= (#[trigger] tokens[j2]).start
}

proof fn lemma_cons_within(s: Seq<char>, i: int, t: Token, e: int, rest: Seq<Token>)
    requires
        i <= t.start <= t.end <= e,
        t.rule == Rule::Label ==> t.start < t.end && is_ident_start(s[t.start as int]),
        tokens_within(s, e, rest),
        e <= s.len(),
    ensures
        tokens_within(s, i, seq![t] + rest),
{
    let all = seq![t] + rest;
    assert forall|j: int| 0 <= j < all.len() implies i <= (#[trigger] all[j]).start <= all[j].end <= s.len() by {
        if j > 0 {
            assert(all[j] == rest[j - 1]);
        }
    }
    assert forall|j1: int, j2: int| 0 <= j1 < j2 < all.len() implies (#[trigger] all[j1]).end <= (
    #[trigger] all[j2]).start by {
        if j1 > 0 {
            assert(all[j1] == rest[j1 - 1]);
        }
        assert(all[j2] == rest[j2 - 1]);
    }
}

proof fn lemma_within_weaken(s: Seq<char>, i: int, e: int, rest: Seq<Token>)
    requires
        i <= e,
        tokens_within(s, e, rest),
    ensures
        tokens_within(s, i, rest),
{
}

/// Every token of `lex(s, i, fs)` lies within `i..s.len()`, and the tokens are in order.
#[verifier::spinoff_prover]
pub proof fn lemma_lex_in_bounds(s: Seq<char>, i: int, fs: bool)
    requires
        0 <= i,
        s.len() <= usize::MAX,
    ensures
        lex(s, i, fs) matches Some(tokens) ==> tokens_within(s, i, tokens),
    decreases s.len() - i,
{
    let k = skip_ws(s, i);
    super::chars::lemma_skip_ws(s, i);
    if 0 <= i <= k < s.len() {
        if is_ident_start(s[k]) {
            let e = ident_end(s, k);
            super::chars::lemma_ident_end(s, k);
            let word = ascii_uppercase(s.subrange(k, e));
            if k < e <= s.len() {
                if word == PseudoOpcode::Equ.name() {
                    let st = substitution_start(s, e);
                    super::chars::lemma_skip_ws(s, e);
                    text::lemma_trailing_ws(s.subrange(st, s.len() as int));
                    let en = substitution_end(s, st);
                    let t = Token { rule: Rule::Substitution, start: st as usize, end: en as usize };
                    lemma_cons_within(s, i, t, s.len() as int, Seq::empty());
                    assert(seq![t] + Seq::<Token>::empty() =~= seq![t]);
                } else if word == PseudoOpcode::For.name() || word == seq!['R', 'O', 'F'] {
                    lemma_lex_in_bounds(s, e, false);
                    if let Some(rest) = lex(s, e, false) {
                        let rule = if word == PseudoOpcode::For.name() { Rule::For } else { Rule::Rof };
                        lemma_cons_within(s, i, Token { rule, start: k as usize, end: e as usize }, e, rest);
                    }
                } else if is_opcode_word(word) {
                    let op = Token { rule: Rule::Opcode, start: k as usize, end: e as usize };
                    if e < s.len() && s[e] == '.' {
                        let me = ident_end(s, e + 1);
                        super::chars::lemma_ident_end(s, e + 1);
                        lemma_lex_in_bounds(s, me, true);
                        if let Some(rest) = lex(s, me, true) {
                            let m = Token { rule: Rule::Modifier, start: (e + 1) as usize, end: me as usize };
                            lemma_cons_within(s, e + 1, m, me, rest);
                            lemma_cons_within(s, i, op, e + 1, seq![m] + rest);
                            assert(seq![op, m] + rest =~= seq![op] + (seq![m] + rest));
                        }
                    } else {
                        lemma_lex_in_bounds(s, e, true);
                        if let Some(rest) = lex(s, e, true) {
                            lemma_cons_within(s, i, op, e, rest);
                        }
                    }
                } else {
                    lemma_lex_in_bounds(s, e, false);
                    if let Some(rest) = lex(s, e, false) {
                        lemma_cons_within(s, i, Token { rule: Rule::Label, start: k as usize, end: e as usize }, e, rest);
                    }
                }
            }
        } else if is_digit(s[k]) {
            let e = digits_end(s, k);
            super::chars::lemma_digits_end(s, k);
            if k < e <= s.len() {
                lemma_lex_in_bounds(s, e, false);
                if let Some(rest) = lex(s, e, false) {
                    lemma_cons_within(s, i, Token { rule: Rule::Number, start: k as usize, end: e as usize }, e, rest);
                }
            }
        } else if is_mode_only_symbol(s[k]) || (fs && is_mode_or_operator_symbol(s[k])) {
            lemma_lex_in_bounds(s, k + 1, false);
            if let Some(rest) = lex(s, k + 1, false) {
                lemma_cons_within(s, i, Token { rule: Rule::AddressMode, start: k as usize, end: (k + 1) as usize }, k + 1, rest);
            }
        } else if is_two_char_op(s, k) {
            lemma_lex_in_bounds(s, k + 2, false);
            if let Some(rest) = lex(s, k + 2, false) {
                lemma_cons_within(s, i, Token { rule: Rule::Operator, start: k as usize, end: (k + 2) as usize }, k + 2, rest);
            }
        } else if is_one_char_op(s[k]) {
            lemma_lex_in_bounds(s, k + 1, false);
            if let Some(rest) = lex(s, k + 1, false) {
                lemma_cons_within(s, i, Token { rule: Rule::Operator, start: k as usize, end: (k + 1) as usize }, k + 1, rest);
            }
        } else if is_punctuation(s[k]) {
            lemma_lex_in_bounds(s, k + 1, s[k] == ',');
            if let Some(rest) = lex(s, k + 1, s[k] == ',') {
                lemma_within_weaken(s, i, k + 1, rest);
            }
        }
    }
}

/// The tokens of a line lie within it, in order.
pub proof fn lemma_tokens_in_bounds(s: Seq<char>)
    requires
        s.len() <= usize::MAX,
    ensures
        tokens_of(s) matches Some(tokens) ==> tokens_within(s, 0, tokens),
{
    lemma_lex_in_bounds(s, 0, false);
}

} // verus!

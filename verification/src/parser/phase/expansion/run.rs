//! The executable steps of label collection, each proved to do what
//! [`step`](super::machine::step) says.

use vstd::prelude::*;

use crate::load_file::PseudoOpcode;
use crate::name_map::NameMap;
use crate::parser::grammar::{self, tokens_of, tokens_within, Rule, Token};
use crate::text;

use super::machine::{
    find_expansion, replacement, run, step, step_for, step_label, step_other, step_rof, ExpansionState, Found, Step,
    STEP_LIMIT, UNROLL_LIMIT, initial_state, is_org, unrolled_line, unrolled_lines,
};
use super::substitute::{self, expand_lines, expanded_lines, lines_model, substitute_offsets_in_line, token_text};
use super::{labels_model, texts, Collector, LabelValue, SpecCollector, SpecFor, SpecLabelValue};

verus! {

/// The model of the state of label collection.
pub open spec fn state_model(lines: Seq<Vec<char>>, index: usize, offset: u32, c: Collector) -> ExpansionState {
    ExpansionState { lines: lines_model(lines), index: index as int, offset, collector: c.model() }
}

/// The lines of a list of strings, as characters.
pub fn strings_to_lines(v: &Vec<String>) -> (res: Vec<Vec<char>>)
    ensures
        lines_model(res@) == texts(v@),
{
    let mut res: Vec<Vec<char>> = Vec::new();
    let mut i: usize = 0;
    while i < v.len()
        invariant
            i <= v@.len(),
            res@.len() == i,
            lines_model(res@) == texts(v@.take(i as int)),
        decreases v@.len() - i,
    {
        let l = text::chars_of(v[i].as_str());
        let ghost before = res@;
        res.push(l);
        proof {
            assert forall|j: int| 0 <= j < i + 1 implies lines_model(res@)[j] == texts(v@.take(i + 1))[j] by {
                if j < i {
                    assert(res@[j] == before[j]);
                    assert(lines_model(before)[j] == texts(v@.take(i as int))[j]);
                    assert(v@.take(i + 1)[j] == v@.take(i as int)[j]);
                } else {
                    assert(v@.take(i + 1)[j] == v@[i as int]);
                }
            }
            assert(lines_model(res@) =~= texts(v@.take(i + 1)));
        }
        i = i + 1;
    }
    assert(v@.take(v@.len() as int) =~= v@);
    res
}

/// What [`exec_find_expansion`] finds.
pub enum ExecFound {
    Replace(Token, Vec<Vec<char>>),
    NotFound,
    Fail,
}

/// The lines a label's value stands for, as [`replacement`] says.
fn exec_replacement(v: LabelValue, offset: u32) -> (res: Option<Vec<Vec<char>>>)
    ensures
        match res {
            Some(r) => replacement(v@, offset) == Some(lines_model(r@)),
            None => replacement(v@, offset) is None,
        },
{
    match v {
        LabelValue::AbsoluteOffset(a) => match (a as i32).checked_sub(offset as i32) {
            Some(d) => {
                let mut r: Vec<Vec<char>> = Vec::new();
                r.push(text::i32_to_chars(d));
                assert(lines_model(r@) =~= seq![text::decimal(d as int)]);
                Some(r)
            },
            None => None,
        },
        LabelValue::RelativeOffset(x) => {
            let mut r: Vec<Vec<char>> = Vec::new();
            r.push(text::i32_to_chars(x));
            assert(lines_model(r@) =~= seq![text::decimal(x as int)]);
            Some(r)
        },
        LabelValue::Substitution(s) => if s.len() > 0 {
            Some(strings_to_lines(&s))
        } else {
            None
        },
    }
}

/// Finds the first label, from the second token on, that has a value, as
/// [`find_expansion`] says.
pub fn exec_find_expansion(line: &[char], tokens: &Vec<Token>, c: &Collector, offset: u32, is_for: bool) -> (res: ExecFound)
    requires
        c.wf(),
        tokens_within(line@, 0, tokens@),
    ensures
        match res {
            ExecFound::Replace(t, r) => find_expansion(line@, tokens@, 1, c.model(), offset, is_for) == Found::Replace(t, lines_model(r@))
                && t.start <= t.end <= line@.len() && r@.len() > 0,
            ExecFound::NotFound => find_expansion(line@, tokens@, 1, c.model(), offset, is_for) == Found::NotFound,
            ExecFound::Fail => find_expansion(line@, tokens@, 1, c.model(), offset, is_for) == Found::Fail,
        },
{
    let ghost m = c.model();
    let mut k: usize = 1;
    while k < tokens.len()
        invariant
            1 <= k,
            k <= tokens@.len() || tokens@.len() == 0,
            c.wf(),
            m == c.model(),
            tokens_within(line@, 0, tokens@),
            find_expansion(line@, tokens@, 1, m, offset, is_for) == find_expansion(line@, tokens@, k as int, m, offset, is_for),
        decreases tokens@.len() - k,
    {
        let t = tokens[k];
        assert(0 <= t.start <= t.end <= line@.len());
        if t.rule == Rule::Label {
            let name = text::slice_range(line, t.start, t.end);
            match c.get_label_value(name.as_slice(), offset) {
                Some(v) => {
                    return match exec_replacement(v, offset) {
                        Some(r) => {
                            proof {
                                if r@.len() == 0 {
                                    assert(lines_model(r@).len() == 0);
                                }
                            }
                            ExecFound::Replace(t, r)
                        },
                        None => ExecFound::Fail,
                    };
                },
                None => {
                    if is_for {
                        return ExecFound::Fail;
                    }
                },
            }
        }
        k = k + 1;
    }
    ExecFound::NotFound
}

/// The model of an optional label.
pub open spec fn label_model(l: Option<String>) -> Option<Seq<char>> {
    match l {
        Some(s) => Some(s@),
        None => None,
    }
}

/// The steps' shared facts about the line being looked at.
pub open spec fn at_line(lines: Seq<Vec<char>>, index: usize, line: Seq<char>, tokens: Seq<Token>) -> bool {
    &&& index < lines.len()
    &&& line == lines[index as int]@
    &&& tokens_of(line) == Some(tokens)
    &&& tokens_within(line, 0, tokens)
    &&& tokens.len() > 0
}

/// A line that opens a `FOR` block, as [`step_for`] says.
fn exec_step_for(
    lines: &mut Vec<Vec<char>>,
    index: &mut usize,
    offset: &mut u32,
    c: &mut Collector,
    line: &Vec<char>,
    tokens: &Vec<Token>,
    label: Option<String>,
    kw: usize,
) -> (ok: bool)
    requires
        old(c).wf(),
        at_line(old(lines)@, *old(index), line@, tokens@),
        kw < tokens@.len(),
    ensures
        final(c).wf(),
        match step_for(state_model(old(lines)@, *old(index), *old(offset), *old(c)), line@, tokens@, label_model(label), kw as int) {
            Step::Next(s) => ok && s == state_model(final(lines)@, *final(index), *final(offset), *final(c)),
            _ => !ok,
        },
{
    let count = lines.len();
    c.resolve_pending_labels(*offset);
    match exec_find_expansion(line.as_slice(), tokens, c, *offset, true) {
        ExecFound::Replace(t, r) => {
            expand_lines(lines, *index, t.start, t.end, &r);
            true
        },
        ExecFound::Fail => false,
        ExecFound::NotFound => {
            let end = tokens[kw].end;
            assert(end <= line@.len());
            let rem = text::slice_range(line.as_slice(), end, line.len());
            let rem_s = text::string_from(rem.as_slice());
            assert(rem_s@ =~= line@.skip(end as int));
            if c.push_for(label, *index, *offset, rem_s.as_str()) {
                *index = *index + 1;
                true
            } else {
                false
            }
        },
    }
}

/// A copy of a line.
pub fn copy_line(l: &Vec<char>) -> (res: Vec<char>)
    ensures
        res@ == l@,
{
    let res = text::slice_range(l.as_slice(), 0, l.len());
    assert(res@ =~= l@);
    res
}

/// Whether a token is the `ORG` pseudo-opcode.
fn exec_is_org(line: &[char], t: Token) -> (res: bool)
    requires
        t.start <= t.end <= line@.len(),
    ensures
        res == is_org(line@, t),
{
    if t.rule == Rule::Opcode {
        let word = text::slice_range(line, t.start, t.end);
        let upper = text::to_ascii_uppercase(word.as_slice());
        text::chars_equal(upper.as_slice(), PseudoOpcode::Org.name_chars().as_slice())
    } else {
        false
    }
}

/// Any other line, as [`step_other`] says.
fn exec_step_other(
    lines: &mut Vec<Vec<char>>,
    index: &mut usize,
    offset: &mut u32,
    c: &mut Collector,
    line: &Vec<char>,
    tokens: &Vec<Token>,
) -> (ok: bool)
    requires
        old(c).wf(),
        at_line(old(lines)@, *old(index), line@, tokens@),
    ensures
        final(c).wf(),
        match step_other(state_model(old(lines)@, *old(index), *old(offset), *old(c)), line@, tokens@) {
            Step::Next(s) => ok && s == state_model(final(lines)@, *final(index), *final(offset), *final(c)),
            _ => !ok,
        },
{
    let count = lines.len();
    c.resolve_pending_labels(*offset);
    match exec_find_expansion(line.as_slice(), tokens, c, *offset, false) {
        ExecFound::Replace(t, r) => {
            expand_lines(lines, *index, t.start, t.end, &r);
            true
        },
        ExecFound::Fail => false,
        ExecFound::NotFound => {
            if tokens.len() > 1 && !exec_is_org(line.as_slice(), tokens[0]) {
                if *offset == u32::MAX {
                    return false;
                }
                *offset = *offset + 1;
            }
            *index = *index + 1;
            true
        },
    }
}

/// A line that starts with a label, as [`step_label`] says.
fn exec_step_label(
    lines: &mut Vec<Vec<char>>,
    index: &mut usize,
    offset: &mut u32,
    c: &mut Collector,
    line: &Vec<char>,
    tokens: &Vec<Token>,
) -> (ok: bool)
    requires
        old(c).wf(),
        at_line(old(lines)@, *old(index), line@, tokens@),
        tokens@[0].rule == Rule::Label,
    ensures
        final(c).wf(),
        match step_label(state_model(old(lines)@, *old(index), *old(offset), *old(c)), line@, tokens@) {
            Step::Next(s) => ok && s == state_model(final(lines)@, *final(index), *final(offset), *final(c)),
            _ => !ok,
        },
{
    let count = lines.len();
    let ghost lines0 = lines@;
    let t0 = tokens[0];
    let label_chars = text::slice_range(line.as_slice(), t0.start, t0.end);
    let label_s = text::string_from(label_chars.as_slice());
    if tokens.len() > 1 && tokens[1].rule == Rule::Substitution {
        let t1 = tokens[1];
        let sub_chars = text::slice_range(line.as_slice(), t1.start, t1.end);
        let sub = text::string_from(sub_chars.as_slice());
        c.process_equ(label_s.as_str(), sub.as_str());
        lines.remove(*index);
        assert(lines_model(lines@) =~= lines_model(lines0).remove(*index as int));
        return true;
    }
    if tokens.len() > 1 && tokens[1].rule == Rule::For {
        return exec_step_for(lines, index, offset, c, line, tokens, Some(label_s), 1);
    }
    c.resolve_pending_equ();
    match c.get_label_value(label_chars.as_slice(), *offset) {
        Some(LabelValue::Substitution(s)) => {
            if s.len() == 0 {
                return false;
            }
            let r = strings_to_lines(&s);
            expand_lines(lines, *index, t0.start, t0.end, &r);
            return true;
        },
        _ => {},
    }
    c.add_pending_label(label_s.as_str());
    match exec_find_expansion(line.as_slice(), tokens, c, *offset, false) {
        ExecFound::Replace(t, r) => {
            expand_lines(lines, *index, t.start, t.end, &r);
            true
        },
        ExecFound::Fail => false,
        ExecFound::NotFound => {
            if tokens.len() > 1 {
                if *offset == u32::MAX {
                    return false;
                }
                let t1 = tokens[1];
                let rest = text::slice_range(line.as_slice(), t1.start, line.len());
                c.resolve_pending_labels(*offset);
                lines.set(*index, rest);
                proof {
                    assert(rest@ =~= line@.skip(t1.start as int));
                    assert(lines_model(lines@) =~= lines_model(lines0).update(*old(index) as int, line@.skip(t1.start as int)));
                }
                *offset = *offset + 1;
                *index = *index + 1;
                true
            } else {
                lines.remove(*index);
                assert(lines_model(lines@) =~= lines_model(lines0).remove(*index as int));
                true
            }
        },
    }
}

/// The lines `from..to` of `lines`, copied.
fn copy_lines(lines: &Vec<Vec<char>>, from: usize, to: usize) -> (res: Vec<Vec<char>>)
    requires
        from <= to <= lines@.len(),
    ensures
        lines_model(res@) == lines_model(lines@).subrange(from as int, to as int),
{
    let mut res: Vec<Vec<char>> = Vec::new();
    let mut j = from;
    while j < to
        invariant
            from <= j <= to <= lines@.len(),
            res@.len() == j - from,
            lines_model(res@) == lines_model(lines@).subrange(from as int, j as int),
        decreases to - j,
    {
        let l = copy_line(&lines[j]);
        res.push(l);
        j = j + 1;
        assert(lines_model(res@) =~= lines_model(lines@).subrange(from as int, j as int));
    }
    res
}

/// A `ROF` line, as [`step_rof`] says.
#[verifier::rlimit(30)]
fn exec_step_rof(lines: &mut Vec<Vec<char>>, index: &mut usize, offset: &mut u32, c: &mut Collector) -> (ok: bool)
    requires
        old(c).wf(),
        *old(index) < old(lines)@.len(),
    ensures
        final(c).wf(),
        match step_rof(state_model(old(lines)@, *old(index), *old(offset), *old(c))) {
            Step::Next(s) => ok && s == state_model(final(lines)@, *final(index), *final(offset), *final(c)),
            _ => !ok,
        },
{
    let ghost st = state_model(lines@, *index, *offset, *c);
    let total = lines.len();
    let f = match c.pop_for() {
        Some(f) => f,
        None => {
            return false;
        },
    };
    let ghost c1 = c.model();
    let ghost big_l = c1.labels;
    let start = f.start_line;
    if !(start < *index) {
        return false;
    }
    let n = *index - start - 1;
    if (n as u64) > (*offset as u64) {
        return false;
    }
    let count64 = match (f.iter_count as u64).checked_mul(n as u64) {
        Some(x) => x,
        None => {
            return false;
        },
    };
    if count64 > UNROLL_LIMIT {
        return false;
    }
    if count64 > 0 && (f.start_offset as u64) + (count64 - 1) > 0xFFFF_FFFFu64 {
        return false;
    }
    let count = count64 as usize;
    let body = copy_lines(lines, start + 1, *index);
    let ghost body_m = lines_model(lines@).subrange(start + 1, *index as int);
    let mut new_lines: Vec<Vec<char>> = Vec::new();
    let mut k: usize = 0;
    while k < count
        invariant
            st == state_model(old(lines)@, *old(index), *old(offset), *old(c)),
            lines@ == old(lines)@,
            *index == *old(index),
            *offset == *old(offset),
            st.collector.fors.len() > 0,
            c1 == st.collector.pop_for(),
            f@ == st.collector.fors.last(),
            big_l == c1.labels,
            start == f.start_line,
            start < *index,
            n == *index - start - 1,
            n <= *offset,
            body_m == st.lines.subrange(start + 1, st.index),
            k <= count,
            count == f.iter_count * n,
            count <= UNROLL_LIMIT,
            count > 0 ==> f.start_offset + count - 1 <= u32::MAX,
            n == body@.len(),
            lines_model(body@) == body_m,
            c.wf(),
            c.model() == (SpecCollector {
                labels: if k > 0 && f@.index_label is Some {
                    big_l.remove(f@.index_label->Some_0)
                } else {
                    big_l
                },
                ..c1
            }),
            new_lines@.len() == k,
            forall|j: int|
                0 <= j < k ==> unrolled_line(body_m[j % (n as int)], big_l, f@.index_label, j / (n as int) + 1, f.start_offset + j)
                    == Some((#[trigger] new_lines@[j])@),
        decreases count - k,
    {
        assert(n > 0);
        let mut l = copy_line(&body[k % n]);
        assert(l@ == body_m[(k % n) as int]);
        match &f.index_label {
            Some(lbl) => {
                let lc = text::chars_of(lbl.as_str());
                let ghost before = c.label_map();
                let rep = (k / n + 1) as i32;
                c.labels.insert(lc.as_slice(), LabelValue::RelativeOffset(rep));
                proof {
                    assert(lc@ == lbl@);
                    assert(c.label_map() =~= before.insert(lbl@, SpecLabelValue::RelativeOffset(rep)));
                    assert(before.insert(lbl@, SpecLabelValue::RelativeOffset(rep)) =~= big_l.insert(lbl@, SpecLabelValue::RelativeOffset(rep)));
                }
                let ok = substitute_offsets_in_line(&mut l, &c.labels, f.start_offset + (k as u32));
                c.labels.remove(lc.as_slice());
                proof {
                    assert(c.label_map() =~= big_l.remove(lbl@));
                }
                if !ok {
                    proof {
                        let kk = k as int;
                        assert(unrolled_line(body_m[kk % (n as int)], big_l, f@.index_label, kk / (n as int) + 1, f.start_offset + kk) is None);
                        assert(body_m.len() == n);
                        assert(0 <= kk < count);
                    }
                    return false;
                }
            },
            None => {},
        }
        new_lines.push(l);
        k = k + 1;
    }
    let ghost nl = new_lines@;
    proof {
        assert(lines_model(nl) =~= unrolled_lines(body_m, count as int, big_l, f@));
        assert forall|kk: int| 0 <= kk < count implies !(#[trigger] unrolled_line(body_m[kk % (n as int)], big_l, f@.index_label, kk / (n as int) + 1, f.start_offset + kk) is None) by {
            assert(unrolled_line(body_m[kk % (n as int)], big_l, f@.index_label, kk / (n as int) + 1, f.start_offset + kk) == Some(nl[kk]@));
        }
        assert(!(exists|kk: int|
            0 <= kk < count && (#[trigger] unrolled_line(body_m[kk % (n as int)], big_l, f@.index_label, kk / (n as int) + 1, f.start_offset + kk)) is None));
    }
    let mut tail = lines.split_off(*index + 1);
    let mut dropped = lines.split_off(start);
    lines.append(&mut new_lines);
    lines.append(&mut tail);
    *offset = *offset - (n as u32);
    *index = start;
    proof {
        assert(lines_model(lines@) =~= st.lines.take(start as int) + lines_model(nl) + st.lines.skip(st.index + 1));
    }
    true
}

/// What one executed step did.
pub enum StepKind {
    Next,
    Done,
    Fail,
}

/// One step of label collection, as [`step`] says.
pub fn exec_step(lines: &mut Vec<Vec<char>>, index: &mut usize, offset: &mut u32, c: &mut Collector) -> (res: StepKind)
    requires
        old(c).wf(),
    ensures
        final(c).wf(),
        match step(state_model(old(lines)@, *old(index), *old(offset), *old(c))) {
            Step::Next(s) => res is Next && s == state_model(final(lines)@, *final(index), *final(offset), *final(c)),
            Step::Done => res is Done && *final(lines) == *old(lines) && *final(c) == *old(c),
            Step::Fail => res is Fail,
        },
{
    if *index >= lines.len() {
        return StepKind::Done;
    }
    let line = copy_line(&lines[*index]);
    let ghost lines0 = lines@;
    assert(line@ == lines_model(lines@)[*index as int]);
    let tokens = match grammar::tokenize(line.as_slice()) {
        Some(t) => t,
        None => {
            return StepKind::Fail;
        },
    };
    let len = line.len();
    proof {
        grammar::lemma_tokens_in_bounds(line@);
    }
    if tokens.len() == 0 {
        return StepKind::Fail;
    }
    let t0 = tokens[0];
    let ok = match t0.rule {
        Rule::For => exec_step_for(lines, index, offset, c, &line, &tokens, None, 0),
        Rule::Rof => exec_step_rof(lines, index, offset, c),
        Rule::Label => exec_step_label(lines, index, offset, c, &line, &tokens),
        Rule::Substitution => {
            let sub_chars = text::slice_range(line.as_slice(), t0.start, t0.end);
            let sub = text::string_from(sub_chars.as_slice());
            c.process_equ_continuation(sub.as_str());
            lines.remove(*index);
            assert(lines_model(lines@) =~= lines_model(lines0).remove(*index as int));
            true
        },
        _ => exec_step_other(lines, index, offset, c, &line, &tokens),
    };
    if ok {
        StepKind::Next
    } else {
        StepKind::Fail
    }
}

/// Collects the labels of `lines`, expanding substitutions and unrolling
/// `FOR` blocks in place, as [`collected`](super::machine::collected) says.
/// `None` where a step fails or the steps run out.
pub fn collect_and_expand(lines: &mut Vec<Vec<char>>) -> (res: Option<NameMap<LabelValue>>)
    ensures
        match res {
            Some(labels) => labels.wf() && super::machine::collected(lines_model(old(lines)@)) == Some(
                (lines_model(final(lines)@), labels_model(labels.map())),
            ),
            None => super::machine::collected(lines_model(old(lines)@)) is None,
        },
{
    let mut index: usize = 0;
    let mut offset: u32 = 0;
    let mut c = Collector::new();
    let mut fuel: u64 = STEP_LIMIT;
    let ghost goal = super::machine::collected(lines_model(lines@));
    assert(state_model(lines@, index, offset, c) == initial_state(lines_model(lines@)));
    loop
        invariant
            c.wf(),
            goal == super::machine::collected(lines_model(old(lines)@)),
            goal == run(state_model(lines@, index, offset, c), fuel as nat),
        decreases fuel,
    {
        if fuel == 0 {
            return None;
        }
        match exec_step(lines, &mut index, &mut offset, &mut c) {
            StepKind::Done => {
                return Some(c.finish());
            },
            StepKind::Fail => {
                return None;
            },
            StepKind::Next => {
                fuel = fuel - 1;
            },
        }
    }
}

} // verus!

//! Label collection as a state machine over the lines of a program: each
//! step looks at one line, and either moves on, rewrites lines (expanding
//! a label, unrolling a `FOR` block), or fails.

use vstd::prelude::*;

use crate::load_file::PseudoOpcode;
use crate::parser::grammar::{tokens_of, Rule, Token};
use crate::parser::phase::evaluation::expression_result;
use crate::text::{ascii_uppercase, decimal};

use super::substitute::{expanded_lines, substituted, token_text};
use super::{default_labels, SpecCollector, SpecFor, SpecLabelValue};

verus! {

/// The most lines one `FOR` block may unroll to: instruction offsets are
/// `u32` values, so no block can unroll to more lines than that.
pub const UNROLL_LIMIT: u64 = 0xFFFF_FFFF;

/// The most steps label collection may take: the range of a `u64` counter.
/// Each step looks at one line, so only an expansion that never ends (such
/// as a substitution that names itself) runs out of steps.
pub const STEP_LIMIT: u64 = 0xFFFF_FFFF_FFFF_FFFF;

/// The state of label collection: the lines, the line being looked at, the
/// number of instructions before it, and the collector.
pub struct ExpansionState {
    pub lines: Seq<Seq<char>>,
    pub index: int,
    pub offset: u32,
    pub collector: SpecCollector,
}

/// What one step does.
pub enum Step {
    /// The next state.
    Next(ExpansionState),
    /// All lines are done.
    Done,
    /// The lines cannot be expanded.
    Fail,
}

/// The lines that a label's value stands for on the line with offset
/// `offset`: an absolute offset as a number relative to the line; `None`
/// where that does not fit in `i32`, or a substitution is empty.
pub open spec fn replacement(v: SpecLabelValue, offset: u32) -> Option<Seq<Seq<char>>> {
    match v {
        SpecLabelValue::AbsoluteOffset(a) => match (a as i32).checked_sub(offset as i32) {
            Some(d) => Some(seq![decimal(d as int)]),
            None => None,
        },
        SpecLabelValue::RelativeOffset(r) => Some(seq![decimal(r as int)]),
        SpecLabelValue::Substitution(s) => if s.len() > 0 {
            Some(s)
        } else {
            None
        },
    }
}

/// What looking for a label to expand finds.
pub enum Found {
    /// The label token and the lines to put in its place.
    Replace(Token, Seq<Seq<char>>),
    /// No label has a value.
    NotFound,
    /// A label in a `FOR` count has no value, or its value cannot be written.
    Fail,
}

/// The first label, from the `k`-th token on, that has a value: in a `FOR`
/// count (`is_for`), a label without a value is a failure.
pub open spec fn find_expansion(
    line: Seq<char>,
    tokens: Seq<Token>,
    k: int,
    c: SpecCollector,
    offset: u32,
    is_for: bool,
) -> Found
    decreases tokens.len() - k,
{
    if k < 0 || k >= tokens.len() {
        Found::NotFound
    } else if tokens[k].rule == Rule::Label {
        match c.label_value(token_text(line, tokens[k]), offset) {
            Some(v) => match replacement(v, offset) {
                Some(r) => Found::Replace(tokens[k], r),
                None => Found::Fail,
            },
            None => if is_for {
                Found::Fail
            } else {
                find_expansion(line, tokens, k + 1, c, offset, is_for)
            },
        }
    } else {
        find_expansion(line, tokens, k + 1, c, offset, is_for)
    }
}

/// Whether a token is the `ORG` pseudo-opcode, which takes no place in memory.
pub open spec fn is_org(line: Seq<char>, t: Token) -> bool {
    t.rule == Rule::Opcode && ascii_uppercase(token_text(line, t)) == PseudoOpcode::Org.name()
}

/// A line that opens a `FOR` block (with the keyword at token `kw` and an
/// optional index label): a label in the count is expanded first;
/// otherwise the block is opened, after the pending labels get this offset.
pub open spec fn step_for(st: ExpansionState, line: Seq<char>, tokens: Seq<Token>, label: Option<Seq<char>>, kw: int) -> Step {
    let c1 = st.collector.resolve_pending(st.offset);
    match find_expansion(line, tokens, 1, c1, st.offset, true) {
        Found::Replace(t, r) => Step::Next(ExpansionState {
            lines: expanded_lines(st.lines, st.index, t.start as int, t.end as int, r),
            collector: c1,
            ..st
        }),
        Found::Fail => Step::Fail,
        Found::NotFound => match expression_result(line.skip(tokens[kw].end as int)) {
            Ok(n) => Step::Next(ExpansionState {
                index: st.index + 1,
                collector: c1.push_for(SpecFor {
                    index_label: label,
                    iter_count: n,
                    start_line: st.index as usize,
                    start_offset: st.offset,
                }),
                ..st
            }),
            Err(_) => Step::Fail,
        },
    }
}

/// Line `k` of an unrolled block: with the index label, if any, standing
/// for the repetition number `rep` and `from` the line's offset.
pub open spec fn unrolled_line(
    line: Seq<char>,
    labels: Map<Seq<char>, SpecLabelValue>,
    index_label: Option<Seq<char>>,
    rep: int,
    from: int,
) -> Option<Seq<char>> {
    match index_label {
        Some(l) => substituted(line, labels.insert(l, SpecLabelValue::RelativeOffset(rep as i32)), from as u32),
        None => Some(line),
    }
}

/// The lines a block unrolls to: its `n` lines `count / n` times over.
pub open spec fn unrolled_lines(
    body: Seq<Seq<char>>,
    count: int,
    labels: Map<Seq<char>, SpecLabelValue>,
    f: SpecFor,
) -> Seq<Seq<char>> {
    let n = body.len() as int;
    Seq::new(count as nat, |k: int| unrolled_line(body[k % n], labels, f.index_label, k / n + 1, f.start_offset + k)->Some_0)
}

/// A `ROF` line: the innermost block's lines (between its `FOR` and this
/// line) replace the whole block, repeated as often as its count says;
/// collection goes on from the first of them.
pub open spec fn step_rof(st: ExpansionState) -> Step {
    let c = st.collector;
    if c.fors.len() == 0 {
        Step::Fail
    } else {
        let f = c.fors.last();
        let c1 = c.pop_for();
        let start = f.start_line as int;
        if !(start < st.index) {
            Step::Fail
        } else {
            let body = st.lines.subrange(start + 1, st.index);
            let n = body.len() as int;
            let count = f.iter_count * n;
            if n > st.offset || count > UNROLL_LIMIT || (count > 0 && f.start_offset + count - 1 > u32::MAX) {
                Step::Fail
            } else if exists|k: int|
                0 <= k < count && (#[trigger] unrolled_line(body[k % n], c1.labels, f.index_label, k / n + 1, f.start_offset + k)) is None {
                Step::Fail
            } else {
                let labels = match f.index_label {
                    Some(l) => if count > 0 {
                        c1.labels.remove(l)
                    } else {
                        c1.labels
                    },
                    None => c1.labels,
                };
                Step::Next(ExpansionState {
                    lines: st.lines.take(start) + unrolled_lines(body, count, c1.labels, f) + st.lines.skip(st.index + 1),
                    index: start,
                    offset: (st.offset - n) as u32,
                    collector: SpecCollector { labels, ..c1 },
                })
            }
        }
    }
}

/// A line that starts with a label: an `EQU` definition, a labelled `FOR`,
/// a use of a substitution, or a label for the next instruction.
pub open spec fn step_label(st: ExpansionState, line: Seq<char>, tokens: Seq<Token>) -> Step {
    let c = st.collector;
    let i = st.index;
    let label = token_text(line, tokens[0]);
    if tokens.len() > 1 && tokens[1].rule == Rule::Substitution {
        Step::Next(ExpansionState {
            lines: st.lines.remove(i),
            collector: c.process_equ(label, token_text(line, tokens[1])),
            ..st
        })
    } else if tokens.len() > 1 && tokens[1].rule == Rule::For {
        step_for(st, line, tokens, Some(label), 1)
    } else {
        let c1 = c.resolve_equ();
        match c1.label_value(label, st.offset) {
            Some(SpecLabelValue::Substitution(s)) => if s.len() > 0 {
                Step::Next(ExpansionState {
                    lines: expanded_lines(st.lines, i, tokens[0].start as int, tokens[0].end as int, s),
                    collector: c1,
                    ..st
                })
            } else {
                Step::Fail
            },
            _ => {
                let c2 = c1.add_pending(label);
                match find_expansion(line, tokens, 1, c2, st.offset, false) {
                    Found::Replace(t, r) => Step::Next(ExpansionState {
                        lines: expanded_lines(st.lines, i, t.start as int, t.end as int, r),
                        collector: c2,
                        ..st
                    }),
                    Found::Fail => Step::Fail,
                    Found::NotFound => if tokens.len() > 1 {
                        if st.offset == u32::MAX {
                            Step::Fail
                        } else {
                            Step::Next(ExpansionState {
                                lines: st.lines.update(i, line.skip(tokens[1].start as int)),
                                index: i + 1,
                                offset: (st.offset + 1) as u32,
                                collector: c2.resolve_pending(st.offset),
                            })
                        }
                    } else {
                        Step::Next(ExpansionState { lines: st.lines.remove(i), collector: c2, ..st })
                    },
                }
            },
        }
    }
}

/// Any other line: the pending labels get this offset, a label in it is
/// expanded, and an instruction (not `ORG`) counts one offset.
pub open spec fn step_other(st: ExpansionState, line: Seq<char>, tokens: Seq<Token>) -> Step {
    let c1 = st.collector.resolve_pending(st.offset);
    match find_expansion(line, tokens, 1, c1, st.offset, false) {
        Found::Replace(t, r) => Step::Next(ExpansionState {
            lines: expanded_lines(st.lines, st.index, t.start as int, t.end as int, r),
            collector: c1,
            ..st
        }),
        Found::Fail => Step::Fail,
        Found::NotFound => if tokens.len() > 1 && !is_org(line, tokens[0]) {
            if st.offset == u32::MAX {
                Step::Fail
            } else {
                Step::Next(ExpansionState { index: st.index + 1, offset: (st.offset + 1) as u32, collector: c1, ..st })
            }
        } else {
            Step::Next(ExpansionState { index: st.index + 1, collector: c1, ..st })
        },
    }
}

/// One step of label collection.
pub open spec fn step(st: ExpansionState) -> Step {
    if st.index < 0 || st.index >= st.lines.len() {
        Step::Done
    } else {
        let line = st.lines[st.index];
        match tokens_of(line) {
            None => Step::Fail,
            Some(tokens) => if tokens.len() == 0 {
                Step::Fail
            } else {
                match tokens[0].rule {
                    Rule::For => step_for(st, line, tokens, None, 0),
                    Rule::Rof => step_rof(st),
                    Rule::Label => step_label(st, line, tokens),
                    Rule::Substitution => Step::Next(ExpansionState {
                        lines: st.lines.remove(st.index),
                        collector: st.collector.equ_continuation(token_text(line, tokens[0])),
                        ..st
                    }),
                    _ => step_other(st, line, tokens),
                }
            },
        }
    }
}

/// The lines and labels after at most `fuel` steps, or `None` if a step
/// fails or the steps run out.
pub open spec fn run(st: ExpansionState, fuel: nat) -> Option<(Seq<Seq<char>>, Map<Seq<char>, SpecLabelValue>)>
    decreases fuel,
{
    if fuel == 0 {
        None
    } else {
        match step(st) {
            Step::Done => Some((st.lines, st.collector.finish())),
            Step::Fail => None,
            Step::Next(next) => run(next, (fuel - 1) as nat),
        }
    }
}

/// The state label collection starts in.
pub open spec fn initial_state(lines: Seq<Seq<char>>) -> ExpansionState {
    ExpansionState {
        lines,
        index: 0,
        offset: 0,
        collector: SpecCollector {
            labels: default_labels(),
            equ: None,
            pending: Set::empty(),
            fors: Seq::empty(),
            for_offsets: Map::empty(),
        },
    }
}

/// The lines and labels that label collection ends with.
pub open spec fn collected(lines: Seq<Seq<char>>) -> Option<(Seq<Seq<char>>, Map<Seq<char>, SpecLabelValue>)> {
    run(initial_state(lines), STEP_LIMIT as nat)
}

/// A line that needs no expansion: it is valid, starts with an opcode, and
/// names no label.
pub open spec fn plain_line(line: Seq<char>) -> bool {
    &&& tokens_of(line) is Some
    &&& tokens_of(line)->Some_0.len() > 0
    &&& tokens_of(line)->Some_0[0].rule == Rule::Opcode
    &&& forall|k: int| 0 <= k < tokens_of(line)->Some_0.len() ==> (#[trigger] tokens_of(line)->Some_0[k]).rule != Rule::Label
}

/// Without label tokens there is nothing to expand.
proof fn lemma_no_labels_not_found(line: Seq<char>, tokens: Seq<Token>, k: int, c: SpecCollector, offset: u32, is_for: bool)
    requires
        forall|j: int| 0 <= j < tokens.len() ==> (#[trigger] tokens[j]).rule != Rule::Label,
    ensures
        find_expansion(line, tokens, k, c, offset, is_for) == Found::NotFound,
    decreases tokens.len() - k,
{
    if 0 <= k < tokens.len() {
        lemma_no_labels_not_found(line, tokens, k + 1, c, offset, is_for);
    }
}

/// Collection from a state among plain lines goes through them unchanged.
proof fn lemma_run_plain(st: ExpansionState, fuel: nat)
    requires
        forall|i: int| 0 <= i < st.lines.len() ==> plain_line(#[trigger] st.lines[i]),
        0 <= st.index <= st.lines.len(),
        st.offset <= st.index,
        st.lines.len() < u32::MAX,
        fuel >= st.lines.len() - st.index + 1,
    ensures
        run(st, fuel) matches Some((out, _)) && out == st.lines,
    decreases st.lines.len() - st.index,
{
    if st.index < st.lines.len() {
        let line = st.lines[st.index];
        assert(plain_line(line));
        let tokens = tokens_of(line)->Some_0;
        let c1 = st.collector.resolve_pending(st.offset);
        lemma_no_labels_not_found(line, tokens, 1, c1, st.offset, false);
        let next = if tokens.len() > 1 && !is_org(line, tokens[0]) {
            ExpansionState { index: st.index + 1, offset: (st.offset + 1) as u32, collector: c1, ..st }
        } else {
            ExpansionState { index: st.index + 1, collector: c1, ..st }
        };
        assert(step(st) == Step::Next(next));
        lemma_run_plain(next, (fuel - 1) as nat);
    }
}

/// Expansion leaves a program that names no label (and has no `EQU`,
/// `FOR` or `ROF`) unchanged, for programs with fewer lines than the
/// largest instruction offset.
pub proof fn law_plain_lines_unchanged(lines: Seq<Seq<char>>)
    requires
        forall|i: int| 0 <= i < lines.len() ==> plain_line(#[trigger] lines[i]),
        lines.len() < u32::MAX,
    ensures
        collected(lines) matches Some((out, _)) && out == lines,
{
    lemma_run_plain(initial_state(lines), STEP_LIMIT as nat);
}

} // verus!

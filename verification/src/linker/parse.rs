//! Parsing of a Redcode file into a [`Core`] whose labels are declared at
//! the address of the instruction that follows them, then resolved.

use vstd::prelude::*;

use crate::load_file::metadata::code_of_line;
use crate::load_file::SpecInstruction;
use crate::parser::error::{error_message, Error as SyntaxError};
use crate::parser::grammar::{self, tokens_of, Rule, Token};
use crate::parser::phase::comment::lines_of;
use crate::parser::phase::evaluation::{line_head, stored_instruction};
use crate::parser::phase::expansion::substitute::token_text;
use crate::text;

use super::memory::{resolved_cells, Core};
use super::{declare_label, invalid_address, DEFAULT_CORE_SIZE};

verus! {

/// An error of parsing a file into a core, with its description.
#[derive(Debug)]
pub struct Error {
    pub details: String,
}

impl Error {
    /// An error with the given description.
    pub fn new(details: String) -> (res: Error)
        ensures
            res.details@ == details@,
    {
        Error { details }
    }

    /// The error for an empty input.
    pub fn no_input() -> (res: Error)
        ensures
            res.details@ == "No input found"@,
    {
        Error { details: "No input found".to_string() }
    }
}

/// The labels at the start of the tokens, from the `k`-th on.
pub open spec fn leading_labels(line: Seq<char>, tokens: Seq<Token>, k: int) -> Seq<Seq<char>>
    decreases tokens.len() - k,
{
    if 0 <= k < tokens.len() && tokens[k].rule == Rule::Label {
        seq![token_text(line, tokens[k])] + leading_labels(line, tokens, k + 1)
    } else {
        Seq::empty()
    }
}

/// The labels declared one after the other at `index`, or the first error.
pub open spec fn declare_all(
    labels: Map<Seq<char>, usize>,
    names: Seq<Seq<char>>,
    size: usize,
    index: usize,
) -> Result<Map<Seq<char>, usize>, Seq<char>>
    decreases names.len(),
{
    if names.len() == 0 {
        Ok(labels)
    } else {
        let (m, r) = declare_label(labels, "core"@, size, index, names[0]);
        match r {
            Ok(()) => declare_all(m, names.drop_first(), size, index),
            Err(e) => Err(e),
        }
    }
}

/// The state of parsing: the cells, the labels, and the index of the next instruction.
pub struct LinkState {
    pub cells: Seq<Option<SpecInstruction>>,
    pub labels: Map<Seq<char>, usize>,
    pub next: usize,
}

/// The state after one line (its comment already dropped): its labels are
/// declared at the next instruction's index, and its instruction, if any,
/// written there.
pub open spec fn link_line(st: LinkState, code: Seq<char>) -> Result<LinkState, Seq<char>> {
    match tokens_of(code) {
        None => Err(error_message(crate::parser::error::SpecError::InvalidSyntax)),
        Some(tokens) => {
            let names = leading_labels(code, tokens, 0);
            match declare_all(st.labels, names, st.cells.len() as usize, st.next) {
                Err(e) => Err(e),
                Ok(labels) => if names.len() >= tokens.len() {
                    Ok(LinkState { labels, ..st })
                } else {
                    let rest = code.skip(tokens[names.len() as int].start as int);
                    match line_head(rest) {
                        Err(e) => Err(error_message(e)),
                        Ok(None) => Ok(LinkState { labels, ..st }),
                        Ok(Some((opcode, modifier, start))) => match stored_instruction(opcode, modifier, rest.skip(start)) {
                            Err(e) => Err(error_message(e)),
                            Ok(i) => if st.next >= st.cells.len() {
                                Err(invalid_address("core"@, st.next, st.cells.len() as usize))
                            } else {
                                Ok(LinkState { cells: st.cells.update(st.next as int, Some(i)), labels, next: (st.next + 1) as usize })
                            },
                        },
                    }
                },
            }
        },
    }
}

/// The state after all of `lines`, or the first error.
pub open spec fn link_lines(st: LinkState, lines: Seq<Seq<char>>) -> Result<LinkState, Seq<char>>
    decreases lines.len(),
{
    if lines.len() == 0 {
        Ok(st)
    } else {
        match link_line(st, code_of_line(lines[0])) {
            Err(e) => Err(e),
            Ok(next) => link_lines(next, lines.drop_first()),
        }
    }
}

/// What parsing a file gives: the resolved cells and the labels, or the
/// error's description.
pub open spec fn link_result(input: Seq<char>) -> Result<(Seq<Option<SpecInstruction>>, Map<Seq<char>, usize>), Seq<char>> {
    if input.len() == 0 {
        Err("No input found"@)
    } else {
        let start = LinkState {
            cells: Seq::new(DEFAULT_CORE_SIZE as nat, |_i: int| None::<SpecInstruction>),
            labels: Map::empty(),
            next: 0,
        };
        match link_lines(start, lines_of(input)) {
            Err(e) => Err(e),
            Ok(st) => match resolved_cells(st.cells, st.labels) {
                Ok(r) => Ok((r, st.labels)),
                Err(e) => Err(e),
            },
        }
    }
}

/// Parses one line (without its comment) into the core.
#[verifier::rlimit(40)]
fn link_one(core: &mut Core, next: &mut usize, code: &[char]) -> (res: Result<(), String>)
    requires
        old(core).wf(),
    ensures
        final(core).wf(),
        final(core).resolved_model() == old(core).resolved_model(),
        match link_line(LinkState { cells: old(core).cells(), labels: old(core).label_map(), next: *old(next) }, code@) {
            Ok(st) => res is Ok && st == (LinkState { cells: final(core).cells(), labels: final(core).label_map(), next: *final(next) }),
            Err(e) => res == Err::<(), String>(res->Err_0) && res->Err_0@ == e,
        },
{
    let tokens = match grammar::tokenize(code) {
        Some(t) => t,
        None => {
            return Err(SyntaxError::InvalidSyntax.message());
        },
    };
    let len = code.len();
    proof {
        grammar::lemma_tokens_in_bounds(code@);
    }
    let ghost all_names = leading_labels(code@, tokens@, 0);
    let ghost size = core.cells().len() as usize;
    let ghost labels0 = core.label_map();
    let mut k: usize = 0;
    while k < tokens.len() && tokens[k].rule == Rule::Label
        invariant
            k <= tokens@.len(),
            labels0 == old(core).label_map(),
            size == old(core).cells().len() as usize,
            grammar::tokens_of(code@) == Some(tokens@),
            core.wf(),
            core.cells() == old(core).cells(),
            core.resolved_model() == old(core).resolved_model(),
            *next == *old(next),
            size == core.cells().len() as usize,
            grammar::tokens_within(code@, 0, tokens@),
            all_names == leading_labels(code@, tokens@, 0),
            all_names == Seq::new(k as nat, |j: int| token_text(code@, tokens@[j])) + leading_labels(code@, tokens@, k as int),
            declare_all(labels0, all_names, size, *next) == declare_all(core.label_map(), leading_labels(code@, tokens@, k as int), size, *next),
        decreases tokens@.len() - k,
    {
        let t = tokens[k];
        let name = text::slice_range(code, t.start, t.end);
        let ghost rest_names = leading_labels(code@, tokens@, k as int);
        assert(rest_names.len() > 0);
        assert(rest_names[0] == name@);
        assert(rest_names.drop_first() =~= leading_labels(code@, tokens@, k + 1));
        let ghost labels_before = core.label_map();
        match core.add_label(*next, text::string_from(name.as_slice())) {
            Ok(()) => {},
            Err(m) => {
                assert(declare_all(labels_before, rest_names, size, *next) == Err::<Map<Seq<char>, usize>, Seq<char>>(m@));
                return Err(m);
            },
        }
        proof {
            assert(Seq::new(k as nat, |j: int| token_text(code@, tokens@[j])) + rest_names =~= Seq::new(
                (k + 1) as nat,
                |j: int| token_text(code@, tokens@[j]),
            ) + leading_labels(code@, tokens@, k + 1));
        }
        k = k + 1;
    }
    assert(leading_labels(code@, tokens@, k as int) =~= Seq::<Seq<char>>::empty());
    assert(all_names =~= Seq::new(k as nat, |j: int| token_text(code@, tokens@[j])));
    if k >= tokens.len() {
        return Ok(());
    }
    let rest = text::slice_range(code, tokens[k].start, code.len());
    assert(rest@ =~= code@.skip(tokens@[k as int].start as int));
    let head = crate::parser::phase::evaluation::parse_line_head(rest.as_slice());
    match head {
        Err(e) => Err(e.message()),
        Ok(None) => Ok(()),
        Ok(Some((opcode, modifier, start))) => match crate::parser::phase::evaluation::parse_stored_fields(rest.as_slice(), start, opcode, modifier) {
            Err(e) => Err(e.message()),
            Ok(i) => {
                let cells = core.cells_len();
                if *next >= cells {
                    return Err(super::invalid_address_message("core", *next, cells));
                }
                core.set(*next, super::Instruction::from_parsed(i));
                *next = *next + 1;
                Ok(())
            },
        },
    }
}

/// Parses all lines (each without its comment) into the core.
#[verifier::rlimit(50)]
fn link_all(core: &mut Core, next: &mut usize, lines: &Vec<String>) -> (res: Result<(), String>)
    requires
        old(core).wf(),
        old(core).resolved_model() is None,
    ensures
        final(core).wf(),
        final(core).resolved_model() is None,
        match link_lines(LinkState { cells: old(core).cells(), labels: old(core).label_map(), next: *old(next) }, crate::parser::phase::comment::strings_model(lines@)) {
            Ok(st) => res is Ok && st == (LinkState { cells: final(core).cells(), labels: final(core).label_map(), next: *final(next) }),
            Err(e) => res is Err && res->Err_0@ == e,
        },
{
    let ghost all = crate::parser::phase::comment::strings_model(lines@);
    let ghost start = LinkState { cells: core.cells(), labels: core.label_map(), next: *next };
    let mut j: usize = 0;
    assert(all.skip(0) =~= all);
    while j < lines.len()
        invariant
            j <= lines@.len(),
            core.wf(),
            core.resolved_model() is None,
            all == crate::parser::phase::comment::strings_model(lines@),
            start == (LinkState { cells: old(core).cells(), labels: old(core).label_map(), next: *old(next) }),
            link_lines(start, all) == link_lines(LinkState { cells: core.cells(), labels: core.label_map(), next: *next }, all.skip(j as int)),
        decreases lines@.len() - j,
    {
        let mut scratch = crate::load_file::Metadata::default();
        let code_string = scratch.parse_line(lines[j].as_str());
        let code = text::chars_of(code_string.as_str());
        proof {
            assert(all[j as int] == lines@[j as int]@);
            assert(all.skip(j as int)[0] == all[j as int]);
            assert(all.skip(j as int).drop_first() =~= all.skip(j + 1));
        }
        match link_one(core, next, code.as_slice()) {
            Ok(()) => {},
            Err(m) => {
                return Err(m);
            },
        }
        j = j + 1;
    }
    assert(all.skip(j as int) =~= Seq::<Seq<char>>::empty());
    Ok(())
}

/// Parses a Redcode file into a core: each label is declared at the address
/// of the next instruction, each instruction goes into the next cell, and
/// the labels are then resolved, as [`link_result`] says. The core's cells
/// are the resolved instructions.
pub fn parse(file_contents: &str) -> (res: Result<Core, Error>)
    ensures
        match res {
            Ok(core) => link_result(file_contents@) == Ok::<(Seq<Option<SpecInstruction>>, Map<Seq<char>, usize>), Seq<char>>(
                (core.cells(), core.label_map()),
            ) && core.resolved_model() == Some(core.cells()),
            Err(e) => link_result(file_contents@) == Err::<(Seq<Option<SpecInstruction>>, Map<Seq<char>, usize>), Seq<char>>(e.details@),
        },
{
    if file_contents.is_empty() {
        return Err(Error::no_input());
    }
    let ghost input = file_contents@;
    let mut core = Core::default();
    let mut next: usize = 0;
    let lines = crate::parser::phase::comment::split_lines(file_contents);
    match link_all(&mut core, &mut next, &lines) {
        Ok(()) => {},
        Err(m) => {
            return Err(Error::new(m));
        },
    }
    match core.resolve() {
        Ok(()) => {
            core.keep_resolved();
            Ok(core)
        },
        Err(m) => Err(Error::new(m)),
    }
}

} // verus!

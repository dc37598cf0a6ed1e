//! The phases of the parser. The data passed from phase to phase is a
//! [`Phase`] holding the input and the state of the current
//! phase; each phase makes the next state from the one before.

pub mod comment;
pub mod evaluation;
pub mod expansion;

use vstd::prelude::*;

use crate::load_file::metadata::SpecMetadata;
use crate::load_file::program::instructions_model;
use crate::load_file::{Metadata, Program, SpecInstruction, Warrior};
use crate::parser::error::{Error, SpecError, SpecWarning, Warning};

use comment::{remove_comments, strings_model, warnings_model};
use evaluation::{evaluated, expression_result, result_matches};
use expansion::{expansion_result, opt_model, texts};

verus! {

/// The input of the parser and the state of its current phase.
#[derive(Debug)]
pub struct Phase<PhaseState> {
    /// The input to the parser.
    pub buffer: String,
    /// The state of the current phase.
    pub state: PhaseState,
}

/// The state before any processing.
#[derive(Debug)]
pub struct Raw;

/// The phase after comments have been removed and metadata parsed from them.
/// This phase also parses `ORG` and `END`, and removes any text after `END`.
#[derive(Debug)]
pub struct CommentsRemoved {
    pub lines: Vec<String>,
    pub metadata: Metadata,
    pub origin: Option<String>,
    pub warnings: Vec<Warning>,
}

/// The phase in which labels are collected and expanded: the expanded lines,
/// the metadata, and the origin, still an expression to be evaluated.
#[derive(Debug)]
pub struct Expanded {
    pub lines: Vec<String>,
    pub metadata: Metadata,
    pub origin: Option<String>,
}

/// The program after all expressions have been evaluated.
#[derive(Debug)]
pub struct Evaluated {
    pub metadata: Metadata,
    pub program: Program,
}

/// The final output of the parser, ready for simulation.
#[derive(Debug)]
pub struct Output {
    pub warrior: Warrior,
}

/// What the whole parser makes of an input: the instructions, origin and
/// metadata of the warrior, or the error.
pub open spec fn parse_result(input: Seq<char>) -> Result<(Seq<SpecInstruction>, Option<u32>, SpecMetadata), SpecError> {
    let st = remove_comments(input);
    match expansion_result(st.lines, st.origin) {
        None => Err(SpecError::InvalidSyntax),
        Some((lines, origin)) => match evaluated(lines) {
            Err(e) => Err(e),
            Ok(instructions) => match origin {
                None => Ok((instructions, None, st.metadata)),
                Some(o) => match expression_result(o) {
                    Ok(n) => Ok((instructions, Some(n), st.metadata)),
                    Err(e) => Err(e),
                },
            },
        },
    }
}

impl Phase<Raw> {
    /// The first phase: the input as it is.
    pub fn new(buffer: &str) -> (res: Self)
        ensures
            res.buffer@ == buffer@,
    {
        Phase { buffer: buffer.to_string(), state: Raw }
    }
}

impl Phase<CommentsRemoved> {
    /// Removes comments, collecting metadata, origin and end.
    pub fn from_raw(prev: Phase<Raw>) -> (res: Self)
        ensures
            res.buffer@ == prev.buffer@,
            comment::agrees_with(res.state, remove_comments(prev.buffer@)),
    {
        let state = comment::extract_from_string(prev.buffer.as_str());
        Phase { buffer: prev.buffer, state }
    }
}

impl Phase<Expanded> {
    /// Collects and expands labels.
    pub fn from_comments_removed(prev: Phase<CommentsRemoved>) -> (res: Result<Self, Error>)
        ensures
            match res {
                Ok(p) => p.buffer@ == prev.buffer@ && p.state.metadata@ == prev.state.metadata@
                    && expansion_result(strings_model(prev.state.lines@), opt_model(prev.state.origin))
                    == Some((texts(p.state.lines@), opt_model(p.state.origin))),
                Err(e) => e@ == SpecError::InvalidSyntax
                    && expansion_result(strings_model(prev.state.lines@), opt_model(prev.state.origin)) is None,
            },
    {
        let ghost lines_before = prev.state.lines@;
        assert(texts(lines_before) =~= strings_model(lines_before));
        match expansion::expand(prev.state.lines, prev.state.origin) {
            Ok(lines) => Ok(Phase {
                buffer: prev.buffer,
                state: Expanded { lines: lines.text, metadata: prev.state.metadata, origin: lines.origin },
            }),
            Err(e) => Err(e),
        }
    }
}

impl Phase<Evaluated> {
    /// Evaluates the instructions and the origin.
    pub fn from_expanded(prev: Phase<Expanded>) -> (res: Result<Self, Error>)
        ensures
            match res {
                Ok(p) => p.buffer@ == prev.buffer@ && p.state.metadata@ == prev.state.metadata@
                    && evaluated(texts(prev.state.lines@)) == Ok::<Seq<SpecInstruction>, SpecError>(p.state.program.model())
                    && match opt_model(prev.state.origin) {
                        None => p.state.program.origin is None,
                        Some(o) => expression_result(o) == Ok::<u32, SpecError>(p.state.program.origin->Some_0)
                            && p.state.program.origin is Some,
                    },
                Err(e) => match evaluated(texts(prev.state.lines@)) {
                    Err(e2) => e@ == e2,
                    Ok(_) => match opt_model(prev.state.origin) {
                        Some(o) => expression_result(o) == Err::<u32, SpecError>(e@),
                        None => false,
                    },
                },
            },
    {
        let instructions = match evaluation::evaluate(prev.state.lines) {
            Ok(i) => i,
            Err(e) => {
                return Err(e);
            },
        };
        let origin = match prev.state.origin {
            None => None,
            Some(o) => match evaluation::evaluate_expression(o.as_str()) {
                Ok(n) => Some(n),
                Err(e) => {
                    return Err(e);
                },
            },
        };
        Ok(Phase {
            buffer: prev.buffer,
            state: Evaluated { metadata: prev.state.metadata, program: Program { instructions, origin } },
        })
    }
}

impl Phase<Output> {
    /// The warrior, ready for simulation.
    pub fn from_evaluated(prev: Phase<Evaluated>) -> (res: Self)
        ensures
            res.buffer@ == prev.buffer@,
            res.state.warrior.metadata@ == prev.state.metadata@,
            res.state.warrior.program.model() == prev.state.program.model(),
            res.state.warrior.program.origin == prev.state.program.origin,
    {
        Phase {
            buffer: prev.buffer,
            state: Output { warrior: Warrior { program: prev.state.program, metadata: prev.state.metadata } },
        }
    }
}

/// The warnings the parser gives for an input: those of the comment phase
/// (an origin defined again, an `ORG` without an argument), in order.
pub open spec fn parse_warnings(input: Seq<char>) -> Seq<SpecWarning> {
    remove_comments(input).warnings
}

/// Parses an input into a warrior, as [`parse_result`] says, with the
/// warnings found on the way, as [`parse_warnings`] says.
pub fn parse_warrior(input: &str) -> (res: (Result<Warrior, Error>, Vec<Warning>))
    ensures
        warnings_model(res.1@) == parse_warnings(input@),
        match res.0 {
            Ok(w) => parse_result(input@) == Ok::<(Seq<SpecInstruction>, Option<u32>, SpecMetadata), SpecError>(
                (w.program.model(), w.program.origin, w.metadata@),
            ),
            Err(e) => parse_result(input@) == Err::<(Seq<SpecInstruction>, Option<u32>, SpecMetadata), SpecError>(e@),
        },
{
    let raw = Phase::<Raw>::new(input);
    let cleaned = Phase::<CommentsRemoved>::from_raw(raw);
    let Phase { buffer, state } = cleaned;
    let CommentsRemoved { lines, metadata, origin, warnings } = state;
    let cleaned = Phase { buffer, state: CommentsRemoved { lines, metadata, origin, warnings: Vec::new() } };
    let expanded = match Phase::<Expanded>::from_comments_removed(cleaned) {
        Ok(p) => p,
        Err(e) => {
            return (Err(e), warnings);
        },
    };
    let evaluated = match Phase::<Evaluated>::from_expanded(expanded) {
        Ok(p) => p,
        Err(e) => {
            return (Err(e), warnings);
        },
    };
    let output = Phase::<Output>::from_evaluated(evaluated);
    (Ok(output.state.warrior), warnings)
}

} // verus!

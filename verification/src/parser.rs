//! Parsing of Redcode source text into a [`Warrior`](crate::load_file::Warrior).
//! Parsing runs in phases: comments are removed, labels and substitutions are
//! expanded, and the remaining lines are evaluated into instructions.

pub mod chars;
pub mod error;
pub mod expression;
pub mod grammar;
pub mod phase;
pub mod result;

pub use error::{Error, Warning};
pub use result::Result;

use vstd::prelude::*;

use crate::load_file::metadata::SpecMetadata;
use crate::load_file::{SpecInstruction, Warrior};
use error::SpecError;

verus! {

/// Parses a Redcode input into a [`Warrior`], as [`phase::parse_result`]
/// says, with the warnings of [`phase::parse_warnings`] (an origin defined
/// again, an `ORG` without an argument) whether parsing succeeds or not.
pub fn parse(input: &str) -> (res: Result<Warrior>)
    ensures
        match res {
            Result::Success(w, warnings) => phase::comment::warnings_model(warnings@) == phase::parse_warnings(input@) && phase::parse_result(input@) == Ok::<
                (Seq<SpecInstruction>, Option<u32>, SpecMetadata),
                SpecError,
            >((w.program.model(), w.program.origin, w.metadata@)),
            Result::Failure(e, warnings) => phase::comment::warnings_model(warnings@) == phase::parse_warnings(input@) && phase::parse_result(input@) == Err::<
                (Seq<SpecInstruction>, Option<u32>, SpecMetadata),
                SpecError,
            >(e@),
        },
{
    let (result, warnings) = phase::parse_warrior(input);
    match result {
        Ok(w) => Result::Success(w, warnings),
        Err(e) => Result::Failure(e, warnings),
    }
}

} // verus!

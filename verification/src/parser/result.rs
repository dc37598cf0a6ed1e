//! The outcome of parsing: like `std::result::Result`, except that either
//! variant also carries the warnings found on the way.

use vstd::prelude::*;

use super::error::{Error, Warning};

verus! {

/// A success value or an error, each with zero or more warnings.
#[derive(Debug)]
pub enum Result<T> {
    /// The success value and the warnings.
    Success(T, Vec<Warning>),
    /// The error and the warnings.
    Failure(Error, Vec<Warning>),
}

impl<T> Result<T> {
    /// A `Success` with no warnings.
    pub fn ok(value: T) -> (res: Self)
        ensures
            res matches Result::Success(v, w) && v == value && w@.len() == 0,
    {
        Result::Success(value, Vec::new())
    }

    /// A `Failure` with no warnings.
    pub fn err(err: Error) -> (res: Self)
        ensures
            res matches Result::Failure(e, w) && e == err && w@.len() == 0,
    {
        Result::Failure(err, Vec::new())
    }

    /// The success value. Only a `Success` can be unwrapped.
    pub fn unwrap(self) -> (res: T)
        requires
            self is Success,
        ensures
            self matches Result::Success(v, _) && v == res,
    {
        match self {
            Result::Success(value, _) => value,
            Result::Failure(_, _) => vstd::pervasive::unreached(),
        }
    }

    /// The success value, as [`unwrap`](Self::unwrap); `msg` describes what
    /// was expected. Only a `Success` can be unwrapped.
    pub fn expect(self, msg: &str) -> (res: T)
        requires
            self is Success,
        ensures
            self matches Result::Success(v, _) && v == res,
    {
        self.unwrap()
    }

    /// The result of a `std` result, with no warnings.
    pub fn from_std(result: core::result::Result<T, Error>) -> (res: Self)
        ensures
            match result {
                core::result::Result::Ok(v) => res matches Result::Success(x, w) && x == v && w@.len() == 0,
                core::result::Result::Err(e) => res matches Result::Failure(x, w) && x == e && w@.len() == 0,
            },
    {
        match result {
            core::result::Result::Ok(v) => Result::Success(v, Vec::new()),
            core::result::Result::Err(e) => Result::Failure(e, Vec::new()),
        }
    }
}

} // verus!

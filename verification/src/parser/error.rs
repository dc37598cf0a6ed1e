//! The errors and warnings of parsing a warrior.

use vstd::prelude::*;

use crate::load_file::Opcode;
use crate::text;

verus! {

/// An error that occurred while parsing a warrior.
#[derive(Debug)]
pub enum Error {
    /// The warrior refers to a label that does not exist.
    LabelNotFound { label: String, line: Option<usize> },
    /// An invalid warrior origin (not a non-negative integer) was given.
    InvalidOrigin,
    /// The input is not well-formed Redcode, or an expression in it cannot
    /// be computed within `i32` (overflow, division by zero).
    InvalidSyntax,
    /// The opcode was not given enough arguments.
    InvalidArguments { opcode: Opcode },
}

/// The mathematical model of an [`Error`].
pub enum SpecError {
    LabelNotFound { label: Seq<char>, line: Option<usize> },
    InvalidOrigin,
    InvalidSyntax,
    InvalidArguments { opcode: Opcode },
}

impl View for Error {
    type V = SpecError;

    open spec fn view(&self) -> SpecError {
        match self {
            Error::LabelNotFound { label, line } => SpecError::LabelNotFound { label: label@, line: *line },
            Error::InvalidOrigin => SpecError::InvalidOrigin,
            Error::InvalidSyntax => SpecError::InvalidSyntax,
            Error::InvalidArguments { opcode } => SpecError::InvalidArguments { opcode: *opcode },
        }
    }
}

impl PartialEq for Error {
    fn eq(&self, other: &Self) -> (res: bool) {
        match (self, other) {
            (Error::LabelNotFound { label: a, line: la }, Error::LabelNotFound { label: b, line: lb }) => {
                a.eq(b) && match (la, lb) {
                    (Some(x), Some(y)) => *x == *y,
                    (None, None) => true,
                    _ => false,
                }
            },
            (Error::InvalidOrigin, Error::InvalidOrigin) => true,
            (Error::InvalidSyntax, Error::InvalidSyntax) => true,
            (Error::InvalidArguments { opcode: a }, Error::InvalidArguments { opcode: b }) => *a == *b,
            _ => false,
        }
    }
}

impl vstd::std_specs::cmp::PartialEqSpecImpl for Error {
    open spec fn obeys_eq_spec() -> bool {
        true
    }

    open spec fn eq_spec(&self, other: &Self) -> bool {
        self@ == other@
    }
}

/// A text in double quotes.
pub open spec fn quoted(s: Seq<char>) -> Seq<char> {
    seq!['"'] + s + seq!['"']
}

/// The message describing an error.
pub open spec fn error_message(e: SpecError) -> Seq<char> {
    match e {
        SpecError::LabelNotFound { label, .. } => "no such label "@ + quoted(label),
        SpecError::InvalidOrigin => "invalid origin specified"@,
        SpecError::InvalidSyntax => "invalid syntax"@,
        SpecError::InvalidArguments { opcode } => "expected additional arguments for "@ + opcode.name()
            + " opcode"@,
    }
}

/// A warning that occurred while parsing a warrior.
#[derive(Debug)]
pub enum Warning {
    /// The origin was defined more than once.
    OriginRedefinition { old: String, new: String },
    /// An `ORG` without an argument; the line is ignored.
    MissingOrigin,
    /// An `EQU` with nothing on its right-hand side.
    EmptySubstitution(String),
    /// An offset label declared with no instruction after it.
    EmptyOffset(String),
}

/// The mathematical model of a [`Warning`].
pub enum SpecWarning {
    OriginRedefinition { old: Seq<char>, new: Seq<char> },
    MissingOrigin,
    EmptySubstitution(Seq<char>),
    EmptyOffset(Seq<char>),
}

impl View for Warning {
    type V = SpecWarning;

    open spec fn view(&self) -> SpecWarning {
        match self {
            Warning::OriginRedefinition { old, new } => SpecWarning::OriginRedefinition { old: old@, new: new@ },
            Warning::MissingOrigin => SpecWarning::MissingOrigin,
            Warning::EmptySubstitution(l) => SpecWarning::EmptySubstitution(l@),
            Warning::EmptyOffset(l) => SpecWarning::EmptyOffset(l@),
        }
    }
}

impl PartialEq for Warning {
    fn eq(&self, other: &Self) -> (res: bool) {
        match (self, other) {
            (Warning::OriginRedefinition { old: a, new: b }, Warning::OriginRedefinition { old: c, new: d }) => a.eq(c)
                && b.eq(d),
            (Warning::MissingOrigin, Warning::MissingOrigin) => true,
            (Warning::EmptySubstitution(a), Warning::EmptySubstitution(b)) => a.eq(b),
            (Warning::EmptyOffset(a), Warning::EmptyOffset(b)) => a.eq(b),
            _ => false,
        }
    }
}

impl vstd::std_specs::cmp::PartialEqSpecImpl for Warning {
    open spec fn obeys_eq_spec() -> bool {
        true
    }

    open spec fn eq_spec(&self, other: &Self) -> bool {
        self@ == other@
    }
}

/// The message describing a warning.
pub open spec fn warning_message(w: SpecWarning) -> Seq<char> {
    match w {
        SpecWarning::OriginRedefinition { old, new } => "origin already defined as "@ + quoted(old)
            + ", new definition "@ + quoted(new) + " will be ignored"@,
        SpecWarning::MissingOrigin => "ORG must be given an argument"@,
        SpecWarning::EmptySubstitution(l) => "right-hand side of substitution for label "@ + quoted(l)
            + " is empty"@,
        SpecWarning::EmptyOffset(l) => "no instruction offset for label "@ + quoted(l)
            + ", it will not be used"@,
    }
}

/// `s` in double quotes.
fn quote(s: &str) -> (res: Vec<char>)
    ensures
        res@ == quoted(s@),
{
    let mut v: Vec<char> = vec!['"'];
    let mut body = text::chars_of(s);
    v.append(&mut body);
    v.push('"');
    v
}

/// The characters of a literal text.
fn literal(s: &str) -> (res: Vec<char>)
    ensures
        res@ == s@,
{
    text::chars_of(s)
}

impl Error {
    /// The message describing this error.
    pub fn message(&self) -> (res: String)
        ensures
            res@ == error_message(self@),
    {
        let mut v: Vec<char>;
        match self {
            Error::LabelNotFound { label, .. } => {
                v = literal("no such label ");
                let mut q = quote(label.as_str());
                v.append(&mut q);
            },
            Error::InvalidOrigin => {
                v = literal("invalid origin specified");
            },
            Error::InvalidSyntax => {
                v = literal("invalid syntax");
            },
            Error::InvalidArguments { opcode } => {
                v = literal("expected additional arguments for ");
                let mut n = opcode.name_chars();
                v.append(&mut n);
                let mut t = literal(" opcode");
                v.append(&mut t);
            },
        }
        text::string_from(v.as_slice())
    }
}

impl Warning {
    /// The message describing this warning.
    pub fn message(&self) -> (res: String)
        ensures
            res@ == warning_message(self@),
    {
        let mut v: Vec<char>;
        match self {
            Warning::OriginRedefinition { old, new } => {
                v = literal("origin already defined as ");
                let mut a = quote(old.as_str());
                v.append(&mut a);
                let mut b = literal(", new definition ");
                v.append(&mut b);
                let mut c = quote(new.as_str());
                v.append(&mut c);
                let mut d = literal(" will be ignored");
                v.append(&mut d);
            },
            Warning::MissingOrigin => {
                v = literal("ORG must be given an argument");
            },
            Warning::EmptySubstitution(l) => {
                v = literal("right-hand side of substitution for label ");
                let mut a = quote(l.as_str());
                v.append(&mut a);
                let mut b = literal(" is empty");
                v.append(&mut b);
            },
            Warning::EmptyOffset(l) => {
                v = literal("no instruction offset for label ");
                let mut a = quote(l.as_str());
                v.append(&mut a);
                let mut b = literal(", it will not be used");
                v.append(&mut b);
            },
        }
        text::string_from(v.as_slice())
    }
}

} // verus!

//! The two ways a scanner can turn down its input.

use vstd::prelude::*;

verus! {

/// The kind of a refusal: the input is not this construct at all, or it was
/// meant to be one and is malformed.
#[derive(PartialEq, Eq, Structural, Clone, Copy, Debug)]
pub enum Fault {
    Mismatch,
    Fail,
}

/// A refusal from a scanner, with the reason of a failure.
#[derive(Debug, Clone)]
pub enum ParserError {
    /// Definitely not this construct.
    Mismatch,
    /// Meant to be this construct, but malformed.
    Fail(String),
}

impl ParserError {
    /// The kind of this refusal.
    pub open spec fn fault(&self) -> Fault {
        match self {
            ParserError::Mismatch => Fault::Mismatch,
            ParserError::Fail(_) => Fault::Fail,
        }
    }

    /// A failure with the given reason.
    pub fn fail(s: &str) -> (r: Self)
        ensures
            r matches ParserError::Fail(m) && m@ == s@,
    {
        ParserError::Fail(s.to_owned())
    }

    /// Whether this is a mismatch rather than a failure.
    pub fn mismatches(&self) -> (r: bool)
        ensures
            r == (self.fault() == Fault::Mismatch),
    {
        match self {
            ParserError::Mismatch => true,
            ParserError::Fail(_) => false,
        }
    }
}

impl PartialEq for ParserError {
    fn eq(&self, other: &ParserError) -> (r: bool) {
        match (self, other) {
            (ParserError::Mismatch, ParserError::Mismatch) => true,
            (ParserError::Fail(a), ParserError::Fail(b)) => *a == *b,
            _ => false,
        }
    }
}

impl vstd::std_specs::cmp::PartialEqSpecImpl for ParserError {
    open spec fn obeys_eq_spec() -> bool {
        true
    }

    open spec fn eq_spec(&self, other: &ParserError) -> bool {
        match (self, other) {
            (ParserError::Mismatch, ParserError::Mismatch) => true,
            (ParserError::Fail(a), ParserError::Fail(b)) => a@ == b@,
            _ => false,
        }
    }
}

impl Eq for ParserError {}

/// A construct read from one line of text, which tells a mismatch from a
/// failure.
pub trait Parser: Sized {
    fn parse(s: &str) -> Result<Self, ParserError>;
}

} // verus!

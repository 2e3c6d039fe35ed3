//! Why a catalogue row yields no rule.
use vstd::prelude::*;

verus! {

#[derive(Debug, Clone, Copy, PartialEq, Eq, Structural)]
pub enum ParseError {
    /// The pattern is empty once normalised.
    EmptyPattern,
    /// The pattern is a bare `*`, which only the catch-all rule may be.
    FixedPattern,
    /// The row has too few columns, or no pattern column.
    InvalidRecord,
}

impl ParseError {
    /// A short description of the error.
    pub fn message(&self) -> (r: &'static str)
        ensures
            r@ == match self {
                ParseError::EmptyPattern => "empty pattern"@,
                ParseError::FixedPattern => "fixed wild_card"@,
                ParseError::InvalidRecord => "invalid record"@,
            },
    {
        match self {
            ParseError::EmptyPattern => "empty pattern",
            ParseError::FixedPattern => "fixed wild_card",
            ParseError::InvalidRecord => "invalid record",
        }
    }
}

} // verus!

//! Compile-time failures.
use vstd::prelude::*;

verus! {

/// Why a compile failed.
#[derive(Debug, PartialEq)]
pub enum CompError {
    /// The input, or the program a jump walks through, ran out.
    UnexpectedEOF(String),
    /// A token where it does not belong, an unknown name, or a zero jump.
    UnexpectedChar(String),
    /// An internal invariant does not hold.
    Impossible(String),
    /// A numeric literal fits none of the number domains.
    Overflow(String),
}

/// The kinds of compile failure, as contracts speak of them.
#[derive(Debug, Clone, Copy, PartialEq, Eq, Structural)]
pub enum Failure {
    EndOfInput,
    UnexpectedChar,
    Impossible,
    Overflow,
}

impl CompError {
    /// The kind of this failure.
    pub open spec fn kind(&self) -> Failure {
        match self {
            CompError::UnexpectedEOF(_) => Failure::EndOfInput,
            CompError::UnexpectedChar(_) => Failure::UnexpectedChar,
            CompError::Impossible(_) => Failure::Impossible,
            CompError::Overflow(_) => Failure::Overflow,
        }
    }

    /// A failure of the given kind, with a message.
    pub fn of_kind(k: Failure, message: &str) -> (r: CompError)
        ensures
            r.kind() == k,
    {
        let m = message.to_owned();
        match k {
            Failure::EndOfInput => CompError::UnexpectedEOF(m),
            Failure::UnexpectedChar => CompError::UnexpectedChar(m),
            Failure::Impossible => CompError::Impossible(m),
            Failure::Overflow => CompError::Overflow(m),
        }
    }
}

} // verus!

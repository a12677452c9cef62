//! The error kinds a line of input can be rejected with.

use vstd::prelude::*;

verus! {

/// Everything that can go wrong while tokenizing or parsing one line.
///
/// The first two are syntactic, the last three lexical; any of them aborts
/// the whole line.
#[derive(Debug, PartialEq)]
pub enum Error {
    /// A binary-continuation position held a token that is not a binary
    /// operator (this includes a missing or mismatched terminator).
    InvalidBinOp(),
    /// A primary position held neither a unary operator, `(`, nor a number.
    InvalidUnaryOp(),
    /// An `i` was not followed by exactly `nf`.
    InvalidIdent(),
    /// A run of digits and dots is not a valid number literal; carries the
    /// offending text.
    InvalidNumber(String),
    /// A character outside the grammar's alphabet; carries that character.
    UnexpectedChar(char),
}

/// The mathematical shadow of [`Error`]: the same kinds over `Seq<char>`.
pub ghost enum ErrorV {
    InvalidBinOp,
    InvalidUnaryOp,
    InvalidIdent,
    InvalidNumber(Seq<char>),
    UnexpectedChar(char),
}

impl View for Error {
    type V = ErrorV;

    open spec fn view(&self) -> ErrorV {
        match self {
            Error::InvalidBinOp() => ErrorV::InvalidBinOp,
            Error::InvalidUnaryOp() => ErrorV::InvalidUnaryOp,
            Error::InvalidIdent() => ErrorV::InvalidIdent,
            Error::InvalidNumber(text) => ErrorV::InvalidNumber(text@),
            Error::UnexpectedChar(c) => ErrorV::UnexpectedChar(*c),
        }
    }
}

} // verus!

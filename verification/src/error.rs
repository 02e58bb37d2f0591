//! The error taxonomy of the interpreter.

use vstd::prelude::*;

verus! {

/// An execution error. Every error aborts the run that raised it; the payload
/// names the offending token or condition.
#[derive(Debug)]
pub enum Error {
    /// Malformed input: a bad integer literal, a wrong argument count, a
    /// malformed quoted variable name, or an unmatched loop instruction.
    Syntax(String),
    /// An opcode token outside the recognized set; carries the token.
    InvalidOp(String),
    /// `READ_VAR` on a name that was never written; carries the token.
    UndefinedVar(String),
    /// An invariant violation not attributable to the input's shape: an opcode
    /// required operands the stack did not have, or an arithmetic fault.
    Internal(String),
    /// A push would exceed the fixed stack capacity.
    StackOverflow,
}

/// The mathematical image of an [`Error`]: the same variants over `Seq<char>`.
pub enum ErrView {
    Syntax(Seq<char>),
    InvalidOp(Seq<char>),
    UndefinedVar(Seq<char>),
    Internal(Seq<char>),
    StackOverflow,
}

impl View for Error {
    type V = ErrView;

    open spec fn view(&self) -> ErrView {
        match self {
            Error::Syntax(s) => ErrView::Syntax(s@),
            Error::InvalidOp(s) => ErrView::InvalidOp(s@),
            Error::UndefinedVar(s) => ErrView::UndefinedVar(s@),
            Error::Internal(s) => ErrView::Internal(s@),
            Error::StackOverflow => ErrView::StackOverflow,
        }
    }
}

/// The mathematical image of a whole run's outcome.
pub open spec fn outcome_view(r: Result<i32, Error>) -> Result<i32, ErrView> {
    match r {
        Ok(v) => Ok(v),
        Err(e) => Err(e@),
    }
}

} // verus!

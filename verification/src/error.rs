//! The ways in which evaluating an expression can fail.

use vstd::prelude::*;

verus! {

/// Why an expression has no value.
#[derive(Debug, PartialEq)]
pub enum CalcError {
    /// The scanner met text that is no token: the byte offset at which the
    /// offending text starts, its length in bytes, and the text.
    LexicalError(usize, usize, String),
    /// A run of letters that is no keyword.
    UnknownIdentifier,
    /// The tokens do not form an expression.
    SyntaxError,
    /// A postfix sequence that underflows the stack or does not leave exactly
    /// one value on it.
    EvaluationDefect,
    /// A remainder by zero.
    DivisionByZero,
}

/// The mathematical model of a [`CalcError`].
pub enum Failure {
    LexicalError(int, int, Seq<char>),
    UnknownIdentifier,
    SyntaxError,
    EvaluationDefect,
    DivisionByZero,
}

impl View for CalcError {
    type V = Failure;

    open spec fn view(&self) -> Failure {
        match self {
            CalcError::LexicalError(start, length, text) => Failure::LexicalError(
                *start as int,
                *length as int,
                text@,
            ),
            CalcError::UnknownIdentifier => Failure::UnknownIdentifier,
            CalcError::SyntaxError => Failure::SyntaxError,
            CalcError::EvaluationDefect => Failure::EvaluationDefect,
            CalcError::DivisionByZero => Failure::DivisionByZero,
        }
    }
}

impl Clone for CalcError {
    fn clone(&self) -> (copy: Self)
        ensures
            copy == *self,
    {
        match self {
            CalcError::LexicalError(start, length, text) => CalcError::LexicalError(
                *start,
                *length,
                text.clone(),
            ),
            CalcError::UnknownIdentifier => CalcError::UnknownIdentifier,
            CalcError::SyntaxError => CalcError::SyntaxError,
            CalcError::EvaluationDefect => CalcError::EvaluationDefect,
            CalcError::DivisionByZero => CalcError::DivisionByZero,
        }
    }
}

} // verus!

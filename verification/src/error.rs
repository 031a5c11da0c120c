//! The closed error taxonomy of the expression engine.
//!
//! Every error is a value carrying the minimal context needed to reproduce
//! the fault; nothing here is ever a panic.  Rendering an error as a message
//! is the embedding front end's business.

use vstd::prelude::*;

use crate::token::{Token, TokenModel};

verus! {

/// Why parsing or evaluation rejected an expression.
#[derive(Debug, Clone, PartialEq)]
pub enum InvalidExpressionError {
    /// An identifier before a parenthesized argument names no known function.
    UnknownFunction(String),
    /// A variable lookup failed during evaluation.
    UnknownVariable(String),
    /// A single-token slice held neither a number nor an identifier; carries
    /// a description of the expected shape and the offending token, if there
    /// was one.
    InvalidToken { expected: &'static str, found: Option<Token> },
    /// An opening parenthesis has no matching close; carries the opener and
    /// the last token the scan observed.
    NoMatchingToken { start: Token, end: Option<Token> },
    /// A multi-token slice has no top-level operator and does not match the
    /// function-call shape; carries the offending tokens.
    AmbiguousOperation(Vec<Token>),
}

/// The mathematical model of an error.
pub enum ErrorModel {
    UnknownFunction(Seq<char>),
    UnknownVariable(Seq<char>),
    InvalidToken { expected: Seq<char>, found: Option<TokenModel> },
    NoMatchingToken { start: TokenModel, end: Option<TokenModel> },
    AmbiguousOperation(Seq<TokenModel>),
}

impl View for InvalidExpressionError {
    type V = ErrorModel;

    open spec fn view(&self) -> ErrorModel {
        match self {
            InvalidExpressionError::UnknownFunction(name) => ErrorModel::UnknownFunction(name@),
            InvalidExpressionError::UnknownVariable(name) => ErrorModel::UnknownVariable(name@),
            InvalidExpressionError::InvalidToken { expected, found } => ErrorModel::InvalidToken {
                expected: expected.view(),
                found: found.deep_view(),
            },
            InvalidExpressionError::NoMatchingToken { start, end } => ErrorModel::NoMatchingToken {
                start: start@,
                end: end.deep_view(),
            },
            InvalidExpressionError::AmbiguousOperation(tokens) => ErrorModel::AmbiguousOperation(
                tokens.deep_view(),
            ),
        }
    }
}

} // verus!

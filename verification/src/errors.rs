//! The unified error taxonomy: lexical and syntactic failures, each paired
//! with the span of the offending source region.

pub mod diagnostics;

use crate::span::Spanned;
use vstd::prelude::*;

verus! {

/// A failure of the lexical scan: source bytes that begin no token.
#[derive(Debug, Clone, PartialEq)]
pub enum LexicalError {
    UnrecognizedCharacterSequence,
}

/// A failure of the parse. The expected-token lists hold quoted
/// grammar-symbol names, plus the literal string `number` for the numeric
/// terminal.
#[derive(Debug, Clone, PartialEq)]
pub enum SyntaxError {
    UnrecognizedToken { token: String, expected: Vec<String> },
    UnrecognizedEOF { expected: Vec<String> },
    ExtraToken { token: String },
    InvalidToken,
}

/// Every error of the pipeline, lexical or syntactic, as one sum type.
#[derive(Debug, Clone, PartialEq)]
pub enum ExprError {
    LexicalError(LexicalError),
    SyntaxError(SyntaxError),
}

/// An error paired with its source span.
pub type ExprErrorS = Spanned<ExprError>;

/// The result of a whole pipeline run: a value, or every error found, in
/// order of discovery.
pub type ExprResult<T> = Result<T, Vec<ExprErrorS>>;

/// Mathematical image of a spanned error: token names and expected lists as
/// character sequences, spans as unbounded integers.
pub enum ErrorModel {
    Lexical { start: int, end: int },
    UnrecognizedToken { token: Seq<char>, expected: Seq<Seq<char>>, start: int, end: int },
    UnrecognizedEof { expected: Seq<Seq<char>>, start: int, end: int },
    ExtraToken { token: Seq<char>, start: int, end: int },
    InvalidToken { start: int, end: int },
}

impl ErrorModel {
    pub open spec fn start(self) -> int {
        match self {
            ErrorModel::Lexical { start, .. } => start,
            ErrorModel::UnrecognizedToken { start, .. } => start,
            ErrorModel::UnrecognizedEof { start, .. } => start,
            ErrorModel::ExtraToken { start, .. } => start,
            ErrorModel::InvalidToken { start, .. } => start,
        }
    }

    pub open spec fn end(self) -> int {
        match self {
            ErrorModel::Lexical { end, .. } => end,
            ErrorModel::UnrecognizedToken { end, .. } => end,
            ErrorModel::UnrecognizedEof { end, .. } => end,
            ErrorModel::ExtraToken { end, .. } => end,
            ErrorModel::InvalidToken { end, .. } => end,
        }
    }
}

/// The mathematical image of a spanned error.
pub open spec fn error_model(e: ExprErrorS) -> ErrorModel {
    let start = e.1.start as int;
    let end = e.1.end as int;
    match e.0 {
        ExprError::LexicalError(_) => ErrorModel::Lexical { start, end },
        ExprError::SyntaxError(se) => match se {
            SyntaxError::UnrecognizedToken { token, expected } => ErrorModel::UnrecognizedToken {
                token: token@,
                expected: expected.deep_view(),
                start,
                end,
            },
            SyntaxError::UnrecognizedEOF { expected } => ErrorModel::UnrecognizedEof {
                expected: expected.deep_view(),
                start,
                end,
            },
            SyntaxError::ExtraToken { token } => ErrorModel::ExtraToken { token: token@, start, end },
            SyntaxError::InvalidToken => ErrorModel::InvalidToken { start, end },
        },
    }
}

} // verus!

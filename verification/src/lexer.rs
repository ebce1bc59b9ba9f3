//! Errors and context of the lexer, and definition flags.
use vstd::prelude::*;
use crate::owned::{conv_spec, OwnedToken};
use crate::span::SourceSpan;
use crate::tast::{Token, TreeV};

verus! {

/// Why the lexer failed.
#[derive(Debug)]
pub enum Error {
    /// A token that does not fit here.
    UnexpectedToken { token: OwnedToken, span: SourceSpan },
    /// The tokens ran out.
    Eof { span: SourceSpan },
    /// A meta attribute given twice.
    DuplicateMeta { kind: &'static str, span: SourceSpan },
    /// A binary operation without its operator.
    MissingOp { span: SourceSpan },
    /// This branch does not apply; another one should be tried.
    Skip,
}

/// The kind of a lexer error, with what it carries.
pub enum ErrorV {
    UnexpectedToken { token: TreeV, span: SourceSpan },
    Eof { span: SourceSpan },
    DuplicateMeta { kind: Seq<char>, span: SourceSpan },
    MissingOp { span: SourceSpan },
    Skip,
}

impl View for Error {
    type V = ErrorV;

    open spec fn view(&self) -> ErrorV {
        match self {
            Error::UnexpectedToken { token, span } => ErrorV::UnexpectedToken { token: token@, span: *span },
            Error::Eof { span } => ErrorV::Eof { span: *span },
            Error::DuplicateMeta { kind, span } => ErrorV::DuplicateMeta { kind: kind@, span: *span },
            Error::MissingOp { span } => ErrorV::MissingOp { span: *span },
            Error::Skip => ErrorV::Skip,
        }
    }
}

/// The error for an unexpected token: its owned copy (a group keeps its items one level
/// deep) and its span.
pub open spec fn unexpected_error(token: TreeV, span: SourceSpan) -> ErrorV {
    ErrorV::UnexpectedToken { token: conv_spec(token, true), span }
}

/// The context that the lexer's parsers share.
pub struct ParseCx {}

impl Default for ParseCx {
    fn default() -> (r: ParseCx) {
        ParseCx {}
    }
}

impl ParseCx {
    pub fn new() -> ParseCx {
        ParseCx {}
    }

    /// The error for the unexpected token `tkn`.
    pub fn unexpected<'a>(&self, tkn: (Token<'a>, SourceSpan)) -> (r: Error)
        ensures
            r@ == unexpected_error(tkn.0@, tkn.1),
    {
        Error::UnexpectedToken { token: tkn.0.conv(true), span: tkn.1 }
    }

    /// The error for running out of tokens at `span`.
    pub fn eof(&self, span: SourceSpan) -> (r: Error)
        ensures
            r@ == (ErrorV::Eof { span }),
    {
        Error::Eof { span }
    }

    /// The error that tells a parser to try another branch.
    pub fn skip(&self) -> (r: Error)
        ensures
            r@ == ErrorV::Skip,
    {
        Error::Skip
    }
}

} // verus!

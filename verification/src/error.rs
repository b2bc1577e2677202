//! Positions in the source and the errors that the parser reports.

use crate::lexer::SyntaxKind;
use vstd::prelude::*;

verus! {

/// A range of bytes of the source text.
#[derive(Clone, Copy, Debug, PartialEq, Eq, Structural)]
pub struct Span {
    /// The offset of the first byte
    pub start: usize,
    /// The offset behind the last byte
    pub end: usize,
}

impl Span {
    /// How many bytes the range holds
    pub fn len(&self) -> (len: usize)
        ensures
            len == if self.start <= self.end {
                self.end - self.start
            } else {
                0
            },
    {
        if self.start <= self.end {
            self.end - self.start
        } else {
            0
        }
    }
}

/// The reason for the parsing failure
#[derive(Clone, Debug, PartialEq, Eq)]
pub enum Reason {
    /// Expected a token, but found something else
    Expected(Vec<SyntaxKind>),
    /// Encountered an escape sequence that is not valid
    UnknownEscapeSequence(char),
    /// Encountered an unescaped control character
    UnescapedControlCharacter(char),
}

/// A [`Reason`] with the expected kinds as a sequence.
pub enum ReasonView {
    Expected(Seq<SyntaxKind>),
    UnknownEscapeSequence(char),
    UnescapedControlCharacter(char),
}

impl View for Reason {
    type V = ReasonView;

    open spec fn view(&self) -> ReasonView {
        match self {
            Reason::Expected(kinds) => ReasonView::Expected(kinds@),
            Reason::UnknownEscapeSequence(c) => ReasonView::UnknownEscapeSequence(*c),
            Reason::UnescapedControlCharacter(c) => ReasonView::UnescapedControlCharacter(*c),
        }
    }
}

/// An error that occurred while parsing
#[derive(Clone, Debug, PartialEq, Eq)]
pub struct Error {
    /// Where the parser stood: the bytes of the lexeme ahead, `None` at the end of the
    /// input
    pub span: Option<Span>,
    /// The kind of the lexeme ahead, [`SyntaxKind::Eof`] at the end of the input
    pub at: SyntaxKind,
    /// What went wrong
    pub reason: Reason,
}

/// An [`Error`] with the view of its reason.
pub struct ErrorView {
    pub span: Option<Span>,
    pub at: SyntaxKind,
    pub reason: ReasonView,
}

impl View for Error {
    type V = ErrorView;

    open spec fn view(&self) -> ErrorView {
        ErrorView { span: self.span, at: self.at, reason: self.reason@ }
    }
}

/// The views of the errors of a sequence.
pub open spec fn error_views(errors: Seq<Error>) -> Seq<ErrorView> {
    errors.map_values(|error: Error| error@)
}

} // verus!

//! The parser: from lexemes to a tree of tokens and a list of errors.

use crate::ast::{tidy_all, views, Token, TokenView, Tokens};
use crate::chars::offset;
use crate::error::{error_views, Error, ErrorView, Reason, ReasonView};
use crate::lexer::{
    lemma_scan_advances, lexed, scan, span_between, LexError, Lexeme, Lexer, Scan, SyntaxKind,
};
use crate::parser::text::{
    lemma_text_advances, lemma_text_keeps_errors, lemma_text_tidy, text, text_from,
};
use vstd::pervasive::unreached;
use vstd::prelude::*;

pub mod content;
pub mod markup;
pub mod style;
pub mod text;

verus! {

/// An error that occurred while parsing
pub type ParseError = Error;

/// The reason for the parsing failure
pub type ParseErrorReason = Reason;

/// How far a parse has come: the position in the source, in characters, and the errors
/// recorded so far.
pub struct State {
    pub position: int,
    pub errors: Seq<ErrorView>,
}

/// What a rule of the grammar comes to: the state behind it, and its value where it
/// has one.
pub struct Outcome<T> {
    pub state: State,
    pub value: Option<T>,
}

/// Whether a lexeme of the kind of `kind` stands at position `at`.
pub open spec fn is_at(source: Seq<char>, at: int, kind: SyntaxKind) -> bool {
    &&& 0 <= at < source.len()
    &&& scan(source, at).valid
    &&& scan(source, at).kind.same_kind(kind)
}

/// The error that is recorded for `reason` at position `at`: with the span and the kind
/// of what stands there, or without span and with [`SyntaxKind::Eof`] at the end.
pub open spec fn failure(source: Seq<char>, at: int, reason: ReasonView) -> ErrorView {
    if 0 <= at < source.len() {
        ErrorView {
            span: Some(span_between(source, at, scan(source, at).end)),
            at: scan(source, at).kind,
            reason,
        }
    } else {
        ErrorView { span: None, at: SyntaxKind::Eof, reason }
    }
}

/// The state with one more error, for `reason` at the position of the state.
pub open spec fn report(source: Seq<char>, state: State, reason: ReasonView) -> State {
    State {
        position: state.position,
        errors: state.errors.push(failure(source, state.position, reason)),
    }
}

/// The state behind what stands at its position.
pub open spec fn bumped(source: Seq<char>, state: State) -> State {
    State { position: scan(source, state.position).end, errors: state.errors }
}

/// The state after a lexeme of the kind of `kind` was asked for: behind it where it is
/// there, else with the error that it was expected.
pub open spec fn expected(source: Seq<char>, state: State, kind: SyntaxKind) -> State {
    if is_at(source, state.position, kind) {
        bumped(source, state)
    } else {
        report(source, state, ReasonView::Expected(seq![kind]))
    }
}

/// What is reported for a lexeme that text stops at and no span takes: a backslash that
/// starts no escape sequence as an unknown escape sequence, a bracket as an unescaped
/// control character, and anything else as standing where the input should end.
pub open spec fn stray(found: Scan) -> ReasonView {
    if !found.valid {
        ReasonView::UnknownEscapeSequence(found.kind->EscapeCharacter_0)
    } else {
        match found.kind {
            SyntaxKind::ParenthesisOpen => ReasonView::UnescapedControlCharacter('('),
            SyntaxKind::ParenthesisClose => ReasonView::UnescapedControlCharacter(')'),
            SyntaxKind::SquareBracketOpen => ReasonView::UnescapedControlCharacter('['),
            SyntaxKind::SquareBracketClose => ReasonView::UnescapedControlCharacter(']'),
            _ => ReasonView::Expected(seq![SyntaxKind::Eof]),
        }
    }
}

/// The tokens and the errors of a whole parse.
pub struct Parsed {
    pub tokens: Seq<TokenView>,
    pub errors: Seq<ErrorView>,
}

/// The parse of the rest of the source, from the position of the state on, behind
/// `tokens`.
///
/// Text is parsed, and its tokens, if it has a value, follow those before them as they
/// are. Where the text ends before the source does, what stands there is reported (see
/// [`stray`]) and skipped, and the parse goes on behind it. So every error costs at
/// least one lexeme, and the parse comes to the end of the source.
pub open spec fn parsed_from(source: Seq<char>, state: State, tokens: Seq<TokenView>) -> Parsed
    decreases source.len() - state.position,
{
    let text = text_from(source, state, Seq::empty());
    let tokens = tokens + match text.value {
        Some(found) => found,
        None => Seq::empty(),
    };
    let at = text.state.position;
    if 0 <= at < source.len() {
        proof {
            if 0 <= state.position <= source.len() {
                lemma_text_advances(source, state, Seq::empty());
            }
            lemma_scan_advances(source, at);
        }
        parsed_from(
            source,
            bumped(source, report(source, text.state, stray(scan(source, at)))),
            tokens,
        )
    } else {
        Parsed { tokens, errors: text.state.errors }
    }
}

/// The parse of a whole source.
pub open spec fn parsed(source: Seq<char>) -> Parsed {
    parsed_from(source, State { position: 0, errors: Seq::empty() }, Seq::empty())
}

/// A parse records an error for each lexeme that it skips. Where it leaves as many
/// errors as it found, it skipped none: the text from its start came to the end of the
/// source, and its tokens are all the tokens of the parse.
pub proof fn lemma_parsed_errors(source: Seq<char>, state: State, tokens: Seq<TokenView>)
    requires
        0 <= state.position <= source.len(),
    ensures
        state.errors.len() <= parsed_from(source, state, tokens).errors.len(),
        state.errors.len() == parsed_from(source, state, tokens).errors.len() ==> {
            let text = text_from(source, state, Seq::empty());
            &&& text.state.position == source.len()
            &&& parsed_from(source, state, tokens).tokens == tokens + match text.value {
                Some(found) => found,
                None => Seq::empty(),
            }
        },
    decreases source.len() - state.position,
{
    let text = text_from(source, state, Seq::empty());
    let found = tokens + match text.value {
        Some(found) => found,
        None => Seq::empty(),
    };
    let at = text.state.position;
    lemma_text_advances(source, state, Seq::empty());
    lemma_text_keeps_errors(source, state, Seq::empty());
    if at < source.len() {
        lemma_scan_advances(source, at);
        lemma_parsed_errors(
            source,
            bumped(source, report(source, text.state, stray(scan(source, at)))),
            found,
        );
    }
}

/// A parse without errors leaves tidy tokens: no two text tokens stand side by side, at
/// any depth, and no text token is empty.
pub proof fn lemma_parsed_tidy(source: Seq<char>)
    requires
        parsed(source).errors.len() == 0,
    ensures
        tidy_all(parsed(source).tokens),
{
    let start = State { position: 0, errors: Seq::empty() };
    lemma_parsed_errors(source, start, Seq::empty());
    lemma_text_tidy(source, start, Seq::empty());
    let text = text_from(source, start, Seq::empty());
    match text.value {
        Some(found) => {
            assert(Seq::<TokenView>::empty() + found =~= found);
        },
        None => {
            assert(Seq::<TokenView>::empty() + Seq::<TokenView>::empty() =~= Seq::<
                TokenView,
            >::empty());
        },
    }
}

/// Convert a piece of text, potentially containing styled markup, to a sequence of tokens
pub struct Parser {
    lexer: Lexer,
    errors: Vec<Error>,
}

impl Parser {
    /// The characters of the source.
    pub closed spec fn source(&self) -> Seq<char> {
        self.lexer.source()
    }

    /// The position of the parser and the errors that it has recorded.
    pub closed spec fn state(&self) -> State {
        State { position: self.lexer.position(), errors: error_views(self.errors@) }
    }

    /// A parser at the start of `input`, without errors.
    pub fn new(input: &str) -> (parser: Parser)
        ensures
            parser.source() == input@,
            parser.state() == (State { position: 0, errors: Seq::empty() }),
            offset(input@, input@.len() as int) <= usize::MAX,
    {
        let parser = Parser { lexer: Lexer::new(input), errors: Vec::new() };
        assert(parser.state().errors =~= Seq::empty());
        parser
    }

    /// Perform the parsing operation
    pub fn parse(self) -> (done: (Vec<Token>, Vec<ParseError>))
        ensures
            views(done.0@) == parsed_from(self.source(), self.state(), Seq::empty()).tokens,
            error_views(done.1@) == parsed_from(self.source(), self.state(), Seq::empty()).errors,
    {
        let ghost source = self.source();
        let ghost all = parsed_from(source, self.state(), Seq::empty());
        let mut parser = self;
        let mut tokens = Tokens::default();

        loop
            invariant_except_break
                all == parsed_from(source, parser.state(), tokens@),
            invariant
                parser.source() == source,
            ensures
                all.tokens == tokens@,
                all.errors == parser.state().errors,
            decreases source.len() - parser.state().position,
        {
            let ghost before = parser.state();
            match text(&mut parser) {
                Some(found) => tokens.extend(found),
                None => {
                    assert(tokens@ + Seq::<TokenView>::empty() =~= tokens@);
                },
            }

            let reason = match parser.peek() {
                Some(Ok(SyntaxKind::ParenthesisOpen)) => Reason::UnescapedControlCharacter('('),
                Some(Ok(SyntaxKind::ParenthesisClose)) => Reason::UnescapedControlCharacter(')'),
                Some(Ok(SyntaxKind::SquareBracketOpen)) => Reason::UnescapedControlCharacter('['),
                Some(Ok(SyntaxKind::SquareBracketClose)) => Reason::UnescapedControlCharacter(']'),
                Some(Ok(_)) => {
                    let mut kinds = Vec::with_capacity(1);
                    kinds.push(SyntaxKind::Eof);
                    Reason::Expected(kinds)
                },
                Some(Err(c)) => Reason::UnknownEscapeSequence(c),
                None => {
                    break ;
                },
            };
            proof {
                lemma_scan_advances(source, parser.state().position);
            }
            parser.error(reason);
            let _ = parser.bump();
        }

        (tokens.into(), parser.errors)
    }

    /// Get the next syntax item from the lexer without consuming it: `None` at the end
    /// of the input, `Err` with the character behind it at a backslash that starts no
    /// escape sequence.
    pub fn peek(&self) -> (kind: Option<Result<SyntaxKind, char>>)
        ensures
            0 <= self.state().position <= self.source().len(),
            self.state().position == self.source().len() ==> kind is None,
            self.state().position < self.source().len() ==> {
                let found = scan(self.source(), self.state().position);
                if found.valid {
                    kind == Some(Ok::<SyntaxKind, char>(found.kind))
                } else {
                    kind matches Some(Err(c)) && SyntaxKind::EscapeCharacter(c) == found.kind
                }
            },
    {
        self.lexer.peek_kind()
    }

    /// Get the next lexeme from the lexer without consuming it
    pub fn peek_lexeme(&self) -> (item: Option<Result<Lexeme, LexError>>)
        ensures
            0 <= self.state().position <= self.source().len(),
            lexed(item, self.source(), self.state().position),
    {
        self.lexer.peek()
    }

    /// Pop the next syntax item from the lexer
    pub fn bump(&mut self) -> (item: Result<Lexeme, LexError>)
        requires
            old(self).state().position < old(self).source().len(),
        ensures
            final(self).source() == old(self).source(),
            final(self).state() == bumped(old(self).source(), old(self).state()),
            lexed(Some(item), old(self).source(), old(self).state().position),
    {
        match self.lexer.next() {
            Some(item) => item,
            None => unreached(),
        }
    }

    /// Check if the parser is currently at the given syntax item
    pub fn at(&self, kind: SyntaxKind) -> (yes: bool)
        ensures
            yes == is_at(self.source(), self.state().position, kind),
    {
        match self.peek() {
            Some(Ok(found)) => found.is(kind),
            _ => false,
        }
    }

    /// Check if the parser is currently at one of the given syntax items
    pub fn at_one_of(&self, set: &[SyntaxKind]) -> (yes: bool)
        ensures
            yes == exists|i: int|
                0 <= i < set@.len() && is_at(self.source(), self.state().position, #[trigger] set@[i]),
    {
        match self.peek() {
            Some(Ok(found)) => {
                let mut i: usize = 0;
                while i < set.len()
                    invariant
                        i <= set@.len(),
                        0 <= self.state().position < self.source().len(),
                        scan(self.source(), self.state().position).valid,
                        scan(self.source(), self.state().position).kind == found,
                        forall|j: int| 0 <= j < i ==> !found.same_kind(#[trigger] set@[j]),
                    decreases set@.len() - i,
                {
                    if found.is(set[i]) {
                        return true;
                    }
                    i = i + 1;
                }
                false
            },
            _ => false,
        }
    }

    /// Check if we're at the end of the token stream
    pub fn at_end(&self) -> (yes: bool)
        ensures
            yes == (self.state().position >= self.source().len()),
    {
        self.peek().is_none()
    }

    /// Expect a syntax item, emitting an error if it isn't present
    pub fn expect(&mut self, kind: SyntaxKind) -> (item: Option<Lexeme>)
        ensures
            final(self).source() == old(self).source(),
            final(self).state() == expected(old(self).source(), old(self).state(), kind),
            item is Some == is_at(old(self).source(), old(self).state().position, kind),
            item matches Some(lexeme) ==> lexed(
                Some(Ok(lexeme)),
                old(self).source(),
                old(self).state().position,
            ),
    {
        if self.at(kind) {
            match self.bump() {
                Ok(lexeme) => Some(lexeme),
                Err(_) => unreached(),
            }
        } else {
            let mut kinds = Vec::with_capacity(1);
            kinds.push(kind);
            self.error(Reason::Expected(kinds));
            None
        }
    }

    /// Report an error during parsing
    pub fn error(&mut self, reason: Reason)
        ensures
            final(self).source() == old(self).source(),
            final(self).state() == report(old(self).source(), old(self).state(), reason@),
    {
        let (span, at) = match self.peek_lexeme() {
            Some(Ok(lexeme)) => (Some(lexeme.span), lexeme.kind),
            Some(Err(error)) => (Some(error.span), SyntaxKind::EscapeCharacter(error.character)),
            None => (None, SyntaxKind::Eof),
        };
        let error = Error { span, at, reason };
        self.errors.push(error);
        assert(self.state().errors =~= old(self).state().errors.push(error@));
    }
}

} // verus!

//! Text: literal fragments, escapes and styled spans, up to a bracket that closes or
//! opens a scope.

use crate::ast::{
    lemma_push_tidy, lemma_with_text_tidy, tidy, tidy_all, with_text, TokenView, Tokens,
};
use crate::lexer::{lemma_scan_advances, lexed, scan, SyntaxKind};
use crate::parser::style::{lemma_styled_advances, lemma_styled_keeps_errors, styled};
use crate::parser::markup::markup;
use crate::parser::style::lemma_expected_advances;
use crate::parser::{bumped, expected, is_at, Outcome, Parser, State};
use vstd::pervasive::unreached;
use vstd::prelude::*;

verus! {

/// Text from the position of the state on, joined to `tokens`.
///
/// It ends, with a value, at the end of the input, at `)`, `(` or `]`, and at a
/// backslash that starts no escape sequence; none of these is consumed. At `[` stands a
/// styled span, which becomes a token of its own; where the span fails the text has no
/// value. An escaped run of blanks leaves nothing, an escaped character leaves itself,
/// and every other lexeme leaves its text: these join the text token before them, or
/// start one. (A span that has a value ends behind its `[`, as
/// [`lemma_marked_advances`] shows: the test for it is there for the sake of termination
/// alone.)
pub open spec fn text_from(source: Seq<char>, state: State, tokens: Seq<TokenView>) -> Outcome<
    Seq<TokenView>,
>
    decreases source.len() - state.position, 1int,
{
    let at = state.position;
    if at < 0 || at >= source.len() || !scan(source, at).valid {
        Outcome { state, value: Some(tokens) }
    } else {
        let found = scan(source, at);
        let next = bumped(source, state);
        proof {
            lemma_scan_advances(source, at);
        }
        match found.kind {
            SyntaxKind::ParenthesisClose
            | SyntaxKind::ParenthesisOpen
            | SyntaxKind::SquareBracketClose => Outcome { state, value: Some(tokens) },
            SyntaxKind::SquareBracketOpen => {
                let span = marked(source, state);
                match span.value {
                    Some(token) if at < span.state.position <= source.len() => text_from(
                        source,
                        span.state,
                        tokens.push(token),
                    ),
                    _ => Outcome { state: span.state, value: None },
                }
            },
            SyntaxKind::EscapeWhitespace => text_from(source, next, tokens),
            SyntaxKind::EscapeCharacter(c) => text_from(source, next, with_text(tokens, seq![c])),
            _ => text_from(source, next, with_text(tokens, source.subrange(at, found.end))),
        }
    }
}

/// A styled span: a style block and its content, as one token. Where either fails
/// there is no value.
pub open spec fn marked(source: Seq<char>, state: State) -> Outcome<TokenView>
    decreases source.len() - state.position, 0int,
{
    let style = styled(source, state);
    match style.value {
        Some(style_value) => {
            proof {
                lemma_styled_advances(source, state);
            }
            let content = contained(source, style.state);
            Outcome {
                state: content.state,
                value: match content.value {
                    Some(tokens) => Some(TokenView::Styled { content: tokens, style: style_value }),
                    None => None,
                },
            }
        },
        _ => Outcome { state: style.state, value: None },
    }
}

/// The content of a styled span: `(`, text, `)`. A bracket that is missing is reported,
/// and there is no value.
pub open spec fn contained(source: Seq<char>, state: State) -> Outcome<Seq<TokenView>>
    decreases source.len() - state.position, 0int,
{
    if !is_at(source, state.position, SyntaxKind::ParenthesisOpen) {
        Outcome { state: expected(source, state, SyntaxKind::ParenthesisOpen), value: None }
    } else {
        proof {
            lemma_scan_advances(source, state.position);
        }
        let text = text_from(source, bumped(source, state), Seq::empty());
        match text.value {
            Some(tokens) => Outcome {
                state: expected(source, text.state, SyntaxKind::ParenthesisClose),
                value: if is_at(source, text.state.position, SyntaxKind::ParenthesisClose) {
                    Some(tokens)
                } else {
                    None
                },
            },
            None => text,
        }
    }
}

/// Text never ends before its start, nor behind the end of the source.
pub proof fn lemma_text_advances(source: Seq<char>, state: State, tokens: Seq<TokenView>)
    requires
        0 <= state.position <= source.len(),
    ensures
        state.position <= text_from(source, state, tokens).state.position <= source.len(),
    decreases source.len() - state.position, 1int,
{
    let at = state.position;
    if at < source.len() && scan(source, at).valid {
        let found = scan(source, at);
        let next = bumped(source, state);
        lemma_scan_advances(source, at);
        match found.kind {
            SyntaxKind::ParenthesisClose
            | SyntaxKind::ParenthesisOpen
            | SyntaxKind::SquareBracketClose => {},
            SyntaxKind::SquareBracketOpen => {
                let span = marked(source, state);
                lemma_marked_advances(source, state);
                match span.value {
                    Some(token) => {
                        lemma_text_advances(source, span.state, tokens.push(token));
                    },
                    None => {},
                }
            },
            SyntaxKind::EscapeWhitespace => {
                lemma_text_advances(source, next, tokens);
            },
            SyntaxKind::EscapeCharacter(c) => {
                lemma_text_advances(source, next, with_text(tokens, seq![c]));
            },
            _ => {
                lemma_text_advances(source, next, with_text(tokens, source.subrange(at, found.end)));
            },
        }
    }
}

/// A styled span never ends before its start, and ends behind it where it has a value.
pub proof fn lemma_marked_advances(source: Seq<char>, state: State)
    requires
        0 <= state.position <= source.len(),
    ensures
        state.position <= marked(source, state).state.position <= source.len(),
        marked(source, state).value is Some ==> state.position < marked(
            source,
            state,
        ).state.position,
    decreases source.len() - state.position, 0int,
{
    let style = styled(source, state);
    lemma_styled_advances(source, state);
    if style.value is Some {
        lemma_contained_advances(source, style.state);
    }
}

/// The content of a span never ends before its start, and ends behind it where it has
/// a value.
pub proof fn lemma_contained_advances(source: Seq<char>, state: State)
    requires
        0 <= state.position <= source.len(),
    ensures
        state.position <= contained(source, state).state.position <= source.len(),
        contained(source, state).value is Some ==> state.position < contained(
            source,
            state,
        ).state.position,
    decreases source.len() - state.position, 0int,
{
    if is_at(source, state.position, SyntaxKind::ParenthesisOpen) {
        lemma_scan_advances(source, state.position);
        let text = text_from(source, bumped(source, state), Seq::empty());
        lemma_text_advances(source, bumped(source, state), Seq::empty());
        lemma_expected_advances(source, text.state, SyntaxKind::ParenthesisClose);
    }
}

/// Text that is joined to tidy tokens leaves tidy tokens: adjacent literal fragments
/// never stand as two text tokens, at any depth, and no text token is empty.
pub proof fn lemma_text_tidy(source: Seq<char>, state: State, tokens: Seq<TokenView>)
    requires
        tidy_all(tokens),
    ensures
        text_from(source, state, tokens).value matches Some(found) ==> tidy_all(found),
    decreases source.len() - state.position, 1int,
{
    let at = state.position;
    if 0 <= at < source.len() && scan(source, at).valid {
        let found = scan(source, at);
        let next = bumped(source, state);
        lemma_scan_advances(source, at);
        match found.kind {
            SyntaxKind::ParenthesisClose
            | SyntaxKind::ParenthesisOpen
            | SyntaxKind::SquareBracketClose => {},
            SyntaxKind::SquareBracketOpen => {
                let span = marked(source, state);
                lemma_marked_tidy(source, state);
                match span.value {
                    Some(token) if at < span.state.position <= source.len() => {
                        lemma_push_tidy(tokens, token);
                        lemma_text_tidy(source, span.state, tokens.push(token));
                    },
                    _ => {},
                }
            },
            SyntaxKind::EscapeWhitespace => {
                lemma_text_tidy(source, next, tokens);
            },
            SyntaxKind::EscapeCharacter(c) => {
                lemma_with_text_tidy(tokens, seq![c]);
                lemma_text_tidy(source, next, with_text(tokens, seq![c]));
            },
            _ => {
                lemma_with_text_tidy(tokens, source.subrange(at, found.end));
                lemma_text_tidy(source, next, with_text(tokens, source.subrange(at, found.end)));
            },
        }
    }
}

/// A styled span is a tidy token.
pub proof fn lemma_marked_tidy(source: Seq<char>, state: State)
    ensures
        marked(source, state).value matches Some(token) ==> tidy(token) && token is Styled,
    decreases source.len() - state.position, 0int,
{
    let style = styled(source, state);
    if style.value is Some {
        lemma_styled_advances(source, state);
        lemma_contained_tidy(source, style.state);
    }
}

/// The content of a span is tidy.
pub proof fn lemma_contained_tidy(source: Seq<char>, state: State)
    ensures
        contained(source, state).value matches Some(tokens) ==> tidy_all(tokens),
    decreases source.len() - state.position, 0int,
{
    if is_at(source, state.position, SyntaxKind::ParenthesisOpen) {
        lemma_scan_advances(source, state.position);
        lemma_text_tidy(source, bumped(source, state), Seq::empty());
    }
}

/// Text leaves at least as many errors as it found.
pub proof fn lemma_text_keeps_errors(source: Seq<char>, state: State, tokens: Seq<TokenView>)
    ensures
        state.errors.len() <= text_from(source, state, tokens).state.errors.len(),
    decreases source.len() - state.position, 1int,
{
    let at = state.position;
    if 0 <= at < source.len() && scan(source, at).valid {
        let found = scan(source, at);
        let next = bumped(source, state);
        lemma_scan_advances(source, at);
        match found.kind {
            SyntaxKind::ParenthesisClose
            | SyntaxKind::ParenthesisOpen
            | SyntaxKind::SquareBracketClose => {},
            SyntaxKind::SquareBracketOpen => {
                let span = marked(source, state);
                lemma_marked_keeps_errors(source, state);
                match span.value {
                    Some(token) if at < span.state.position <= source.len() => {
                        lemma_text_keeps_errors(source, span.state, tokens.push(token));
                    },
                    _ => {},
                }
            },
            SyntaxKind::EscapeWhitespace => {
                lemma_text_keeps_errors(source, next, tokens);
            },
            SyntaxKind::EscapeCharacter(c) => {
                lemma_text_keeps_errors(source, next, with_text(tokens, seq![c]));
            },
            _ => {
                lemma_text_keeps_errors(
                    source,
                    next,
                    with_text(tokens, source.subrange(at, found.end)),
                );
            },
        }
    }
}

/// A styled span leaves at least as many errors as it found.
pub proof fn lemma_marked_keeps_errors(source: Seq<char>, state: State)
    ensures
        state.errors.len() <= marked(source, state).state.errors.len(),
    decreases source.len() - state.position, 0int,
{
    let style = styled(source, state);
    lemma_styled_keeps_errors(source, state);
    if style.value is Some {
        lemma_styled_advances(source, state);
        lemma_contained_keeps_errors(source, style.state);
    }
}

/// The content of a span leaves at least as many errors as it found.
pub proof fn lemma_contained_keeps_errors(source: Seq<char>, state: State)
    ensures
        state.errors.len() <= contained(source, state).state.errors.len(),
    decreases source.len() - state.position, 0int,
{
    if is_at(source, state.position, SyntaxKind::ParenthesisOpen) {
        lemma_scan_advances(source, state.position);
        lemma_text_keeps_errors(source, bumped(source, state), Seq::empty());
    }
}

/// Parse a piece of text that may content styled markup
pub fn text(p: &mut Parser) -> (tokens: Option<Tokens>)
    ensures
        final(p).source() == old(p).source(),
        final(p).state() == text_from(old(p).source(), old(p).state(), Seq::empty()).state,
        match tokens {
            Some(tokens) => text_from(old(p).source(), old(p).state(), Seq::empty()).value == Some(
                tokens@,
            ),
            None => text_from(old(p).source(), old(p).state(), Seq::empty()).value is None,
        },
        tokens matches Some(tokens) ==> tidy_all(tokens@),
        0 <= old(p).state().position <= final(p).state().position <= old(p).source().len(),
    decreases old(p).source().len() - old(p).state().position, 1int,
{
    proof {
        lemma_text_tidy(p.source(), p.state(), Seq::empty());
    }
    let mut tokens = Tokens::default();
    let ghost source = p.source();
    let ghost all = text_from(source, p.state(), tokens@);

    loop
        invariant_except_break
            all == text_from(source, p.state(), tokens@),
        invariant
            p.source() == source,
            old(p).source() == source,
            old(p).state().position <= p.state().position,
            all == text_from(source, old(p).state(), Seq::empty()),
        ensures
            p.source() == source,
            all.state == p.state(),
            all.value == Some(tokens@),
            0 <= p.state().position <= source.len(),
        decreases source.len() - p.state().position,
    {
        let ghost before = p.state();
        match p.peek() {
            Some(
                Ok(
                    SyntaxKind::ParenthesisClose
                    | SyntaxKind::ParenthesisOpen
                    | SyntaxKind::SquareBracketClose,
                ),
            ) => {
                break ;
            },
            Some(Ok(SyntaxKind::SquareBracketOpen)) => {
                proof {
                    lemma_marked_advances(source, before);
                }
                match markup(p) {
                    Some(styled) => tokens.push(styled),
                    None => {
                        return None;
                    },
                }
            },
            Some(Ok(SyntaxKind::EscapeWhitespace)) => {
                proof {
                    lemma_scan_advances(source, before.position);
                }
                let _ = p.bump();
            },
            Some(Ok(SyntaxKind::EscapeCharacter(c))) => {
                proof {
                    lemma_scan_advances(source, before.position);
                }
                let _ = p.bump();
                tokens.push_char(c);
            },
            Some(Ok(_)) => {
                proof {
                    lemma_scan_advances(source, before.position);
                }
                match p.bump() {
                    Ok(lexeme) => tokens.push_str(lexeme.text.as_str()),
                    Err(_) => unreached(),
                }
            },
            Some(Err(_)) => {
                break ;
            },
            None => {
                break ;
            },
        }
    }

    Some(tokens)
}

} // verus!

//! Rendering a tree of tokens as text with escape sequences.

use crate::ast::{lemma_views, tidy_all, views, with_text, Token, TokenView};
use crate::lexer::{lemma_scan_advances, scan};
use crate::parser::text::text_from;
use crate::parser::{bumped, Outcome, State};
use crate::error::{error_views, Error, ErrorView};
use crate::parser::{lemma_parsed_tidy, parsed, Parser};
use crate::styles::{
    apply_codes, changes, extended, reset_codes, sequence, Color, ContextView, CurrentStyle,
    StyleView,
};
use vstd::prelude::*;
use vstd::string::StringExecFns;

verus! {

broadcast use lemma_views;

/// What one token comes to inside `parent`. Text stands as it is. A styled span is the
/// sequence that enters its style, then its children inside the extended context, then
/// the sequence that takes the style back.
pub open spec fn rendered(token: TokenView, parent: ContextView) -> Seq<char>
    decreases token,
{
    match token {
        TokenView::Content(text) => text,
        TokenView::Styled { content, style } => sequence(apply_codes(style, parent))
            + rendered_all(content, extended(parent, style)) + sequence(
            reset_codes(style, parent),
        ),
    }
}

/// What a sequence of tokens comes to inside `parent`: each token in turn, all in the
/// same context.
pub open spec fn rendered_all(tokens: Seq<TokenView>, parent: ContextView) -> Seq<char>
    decreases tokens,
{
    if tokens.len() == 0 {
        Seq::empty()
    } else {
        rendered_all(tokens.drop_last(), parent) + rendered(tokens.last(), parent)
    }
}

/// Write a token to the output, inside the given context
pub fn render(token: &Token, context: &CurrentStyle, output: &mut String)
    ensures
        final(output)@ == old(output)@ + rendered(token@, context@),
    decreases token,
{
    match token {
        Token::Content(text) => {
            output.append(text.as_str());
        },
        Token::Styled { content, style } => {
            let current = context.extend(style);
            style.apply(context, output);
            let ghost entered = output@;
            let ghost children = views(content@);
            let mut i: usize = 0;
            while i < content.len()
                invariant
                    i <= content.len(),
                    children == views(content@),
                    output@ == entered + rendered_all(children.take(i as int), current@),
                    token matches Token::Styled { content: inner, .. } && inner == content,
                decreases content.len() - i,
            {
                render(&content[i], &current, output);
                proof {
                    let next = children.take(i + 1);
                    assert(next.drop_last() =~= children.take(i as int));
                    assert(next.last() == content@[i as int]@);
                }
                i = i + 1;
            }
            assert(children.take(i as int) =~= children);
            style.reset(context, output);
        },
    }
}

/// What a whole source comes to: the rendering of its tokens where the parse records no
/// error, with nothing around them but the terminal's defaults; else the errors, all of
/// them, and no text.
pub open spec fn colorized(source: Seq<char>) -> Result<Seq<char>, Seq<ErrorView>> {
    let done = parsed(source);
    if done.errors.len() == 0 {
        Ok(rendered_all(done.tokens, plain()))
    } else {
        Err(done.errors)
    }
}

/// The context of unstyled text.
pub open spec fn plain() -> ContextView {
    ContextView { foreground: Color::Default, background: Color::Default, decoration: Seq::empty() }
}

/// The characters that text cannot hold as they are: the brackets of a span and the
/// backslash.
pub open spec fn is_markup(c: char) -> bool {
    c == '[' || c == ']' || c == '(' || c == ')' || c == '\\'
}

/// Text joined in two steps is text joined in one.
pub proof fn lemma_with_text_twice(tokens: Seq<TokenView>, first: Seq<char>, second: Seq<char>)
    ensures
        with_text(with_text(tokens, first), second) == with_text(tokens, first + second),
{
    let once = with_text(tokens, first);
    assert(once.drop_last() =~= if tokens.len() > 0 && tokens.last() is Content {
        tokens.drop_last()
    } else {
        tokens
    });
    if tokens.len() > 0 && tokens.last() is Content {
        let text = tokens.last()->Content_0;
        assert((text + first) + second =~= text + (first + second));
    }
    assert(with_text(once, second) =~= with_text(tokens, first + second));
}

/// Where the rest of the source holds no bracket and no backslash, text takes all of
/// it, joins it to the tokens as it is and records no error.
pub proof fn lemma_plain_text(source: Seq<char>, state: State, tokens: Seq<TokenView>)
    requires
        0 <= state.position <= source.len(),
        forall|i: int| state.position <= i < source.len() ==> !is_markup(#[trigger] source[i]),
    ensures
        text_from(source, state, tokens) == (Outcome {
            state: State { position: source.len() as int, errors: state.errors },
            value: Some(
                if state.position == source.len() {
                    tokens
                } else {
                    with_text(tokens, source.subrange(state.position, source.len() as int))
                },
            ),
        }),
    decreases source.len() - state.position,
{
    let at = state.position;
    if at < source.len() {
        let found = scan(source, at);
        let end = found.end;
        let piece = source.subrange(at, end);
        lemma_scan_advances(source, at);
        assert(!is_markup(source[at]));
        lemma_plain_text(source, bumped(source, state), with_text(tokens, piece));
        if end < source.len() {
            lemma_with_text_twice(tokens, piece, source.subrange(end, source.len() as int));
            assert(piece + source.subrange(end, source.len() as int) =~= source.subrange(
                at,
                source.len() as int,
            ));
        }
    }
}

/// Text without markup passes through: a source that holds no `[`, `]`, `(`, `)` and
/// no backslash comes out as it went in.
pub proof fn lemma_pass_through(source: Seq<char>)
    requires
        forall|i: int| 0 <= i < source.len() ==> !is_markup(#[trigger] source[i]),
    ensures
        colorized(source) == Ok::<Seq<char>, Seq<ErrorView>>(source),
{
    let start = State { position: 0, errors: Seq::empty() };
    lemma_plain_text(source, start, Seq::empty());
    let text = text_from(source, start, Seq::empty());
    if source.len() == 0 {
        assert(Seq::<TokenView>::empty() + Seq::<TokenView>::empty() =~= Seq::<TokenView>::empty());
        assert(source =~= Seq::<char>::empty());
    } else {
        let whole = seq![TokenView::Content(source)];
        assert(source.subrange(0, source.len() as int) =~= source);
        assert(with_text(Seq::empty(), source) =~= whole);
        assert(Seq::<TokenView>::empty() + whole =~= whole);
        assert(whole.drop_last() =~= Seq::<TokenView>::empty());
        reveal_with_fuel(rendered_all, 2);
        assert(rendered_all(whole, plain()) =~= source);
    }
}

/// Siblings do not touch each other: tokens that stand side by side are rendered each
/// in the context of their parent, so what stands behind a span comes out as it would
/// without the span before it.
pub proof fn lemma_rendered_siblings(
    before: Seq<TokenView>,
    behind: Seq<TokenView>,
    parent: ContextView,
)
    ensures
        rendered_all(before + behind, parent) == rendered_all(before, parent) + rendered_all(
            behind,
            parent,
        ),
    decreases behind.len(),
{
    if behind.len() == 0 {
        assert(before + behind =~= before);
        assert(rendered_all(before, parent) + Seq::<char>::empty() =~= rendered_all(
            before,
            parent,
        ));
    } else {
        lemma_rendered_siblings(before, behind.drop_last(), parent);
        assert((before + behind).drop_last() =~= before + behind.drop_last());
        assert((before + behind).last() == behind.last());
        assert(rendered_all(before + behind, parent) =~= rendered_all(before, parent)
            + rendered_all(behind, parent));
    }
}

/// Entering and leaving a span are symmetric: the sequence that leaves it holds a code
/// for each change that the sequence that enters it made, in the same order, and for no
/// other. A color goes back to the color of the parent, a decoration is switched off.
pub proof fn lemma_reset_mirrors_apply(style: StyleView, parent: ContextView)
    ensures
        apply_codes(style, parent).len() == reset_codes(style, parent).len(),
        apply_codes(style, parent).len() == changes(style, parent).len(),
        forall|i: int|
            0 <= i < changes(style, parent).len() ==> {
                &&& apply_codes(style, parent)[i] == (#[trigger] changes(style, parent)[i]).apply()
                &&& reset_codes(style, parent)[i] == changes(style, parent)[i].reset(parent)
            },
{
}

/// Parse a piece of text into a sequence of [`Token`]s for processing: the tokens of
/// the whole parse where it records no error, else all of its errors.
pub fn tokenize(input: &str) -> (result: Result<Vec<Token>, Vec<Error>>)
    ensures
        match result {
            Ok(tokens) => {
                &&& parsed(input@).errors.len() == 0
                &&& views(tokens@) == parsed(input@).tokens
                &&& tidy_all(views(tokens@))
            },
            Err(errors) => {
                &&& errors@.len() > 0
                &&& error_views(errors@) == parsed(input@).errors
            },
        },
{
    let parser = Parser::new(input);
    let (tokens, errors) = parser.parse();
    if errors.len() > 0 {
        Err(errors)
    } else {
        proof {
            lemma_parsed_tidy(input@);
        }
        Ok(tokens)
    }
}

/// Convert styled markup to text with ANSI escape codes
///
/// The result is the rendering of the parsed source, or all the errors of the parse
/// and no text (see [`colorized`]). A source without brackets and backslashes comes
/// back as it is.
pub fn colorize(source: &str) -> (result: Result<String, Vec<Error>>)
    ensures
        match result {
            Ok(text) => colorized(source@) == Ok::<Seq<char>, Seq<ErrorView>>(text@),
            Err(errors) => errors@.len() > 0 && colorized(source@) == Err::<
                Seq<char>,
                Seq<ErrorView>,
            >(error_views(errors@)),
        },
        (forall|i: int| 0 <= i < source@.len() ==> !is_markup(#[trigger] source@[i])) ==> (
        result matches Ok(text) && text@ == source@),
{
    proof {
        if forall|i: int| 0 <= i < source@.len() ==> !is_markup(#[trigger] source@[i]) {
            lemma_pass_through(source@);
        }
    }
    let tokens = match tokenize(source) {
        Ok(tokens) => tokens,
        Err(errors) => {
            return Err(errors);
        },
    };
    let context = CurrentStyle::default();
    let mut output = String::new();
    let ghost all = views(tokens@);
    let mut i: usize = 0;
    while i < tokens.len()
        invariant
            i <= tokens.len(),
            all == views(tokens@),
            context@ == plain(),
            output@ == rendered_all(all.take(i as int), plain()),
        decreases tokens.len() - i,
    {
        render(&tokens[i], &context, &mut output);
        proof {
            let next = all.take(i + 1);
            assert(next.drop_last() =~= all.take(i as int));
            assert(next.last() == tokens@[i as int]@);
        }
        i = i + 1;
    }
    assert(all.take(i as int) =~= all);
    Ok(output)
}

} // verus!

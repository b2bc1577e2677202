//! The style block: `[`, specifiers with `;` between them, `]`.

use crate::error::{Reason, ReasonView};
use crate::lexer::{lemma_scan_advances, scan, SyntaxKind};
use crate::ordered_set::{set_insert, set_items, set_new};
use crate::parser::{bumped, expected, is_at, report, Outcome, Parser, State};
use crate::styles::{Color, Decoration, Style, StyleView};
use indexmap::IndexSet;
use vstd::pervasive::unreached;
use vstd::prelude::*;

verus! {

/// Any color, where a kind is asked for and its value is left open.
pub open spec fn any_color() -> SyntaxKind {
    SyntaxKind::Color(Color::Default)
}

/// Any decoration, where a kind is asked for and its value is left open.
pub open spec fn any_decoration() -> SyntaxKind {
    SyntaxKind::Decoration(Decoration::Bold)
}

/// A specifier with a color: the tag, `:` and the name of a color, which is the value.
/// The first of the three that is missing is reported, and there is no value.
pub open spec fn color_specified(source: Seq<char>, state: State, tag: SyntaxKind) -> Outcome<
    Color,
> {
    let tagged = expected(source, state, tag);
    let separated = expected(source, tagged, SyntaxKind::Colon);
    let named = expected(source, separated, any_color());
    if !is_at(source, state.position, tag) {
        Outcome { state: tagged, value: None }
    } else if !is_at(source, tagged.position, SyntaxKind::Colon) {
        Outcome { state: separated, value: None }
    } else if !is_at(source, separated.position, any_color()) {
        Outcome { state: named, value: None }
    } else {
        Outcome { state: named, value: Some(scan(source, separated.position).kind->Color_0) }
    }
}

/// `items` with `item`: at the end where it is new, else as they are.
pub open spec fn inserted(items: Seq<Decoration>, item: Decoration) -> Seq<Decoration> {
    if items.contains(item) {
        items
    } else {
        items.push(item)
    }
}

/// The names of decorations with `,` between them, from the position of the state on,
/// joined to `items` in their order and each only once. A missing name is reported, and
/// there is no value.
pub open spec fn decorations_from(source: Seq<char>, state: State, items: Seq<Decoration>) -> Outcome<
    Seq<Decoration>,
>
    decreases source.len() - state.position,
{
    if !is_at(source, state.position, any_decoration()) {
        Outcome { state: expected(source, state, any_decoration()), value: None }
    } else {
        let items = inserted(items, scan(source, state.position).kind->Decoration_0);
        let named = bumped(source, state);
        if is_at(source, named.position, SyntaxKind::Comma) {
            proof {
                lemma_scan_advances(source, state.position);
                lemma_scan_advances(source, named.position);
            }
            decorations_from(source, bumped(source, named), items)
        } else {
            Outcome { state: named, value: Some(items) }
        }
    }
}

/// A specifier with decorations: the tag, `:` and at least one name of a decoration.
pub open spec fn decorations_specified(source: Seq<char>, state: State, tag: SyntaxKind) -> Outcome<
    Seq<Decoration>,
> {
    let tagged = expected(source, state, tag);
    let separated = expected(source, tagged, SyntaxKind::Colon);
    if !is_at(source, state.position, tag) {
        Outcome { state: tagged, value: None }
    } else if !is_at(source, tagged.position, SyntaxKind::Colon) {
        Outcome { state: separated, value: None }
    } else {
        decorations_from(source, separated, Seq::empty())
    }
}

/// The three tags, one of which starts a specifier.
pub open spec fn tags() -> Seq<SyntaxKind> {
    seq![
        SyntaxKind::ForegroundSpecifier,
        SyntaxKind::BackgroundSpecifier,
        SyntaxKind::DecorationSpecifier,
    ]
}

/// One specifier at the position of the state, and `style` with what it sets: a field
/// that the specifier names is replaced as a whole. Anything but a tag is reported.
pub open spec fn specified(source: Seq<char>, state: State, style: StyleView) -> Outcome<StyleView> {
    if is_at(source, state.position, SyntaxKind::ForegroundSpecifier) {
        let color = color_specified(source, state, SyntaxKind::ForegroundSpecifier);
        Outcome {
            state: color.state,
            value: match color.value {
                Some(color) => Some(
                    StyleView {
                        foreground: Some(color),
                        background: style.background,
                        decoration: style.decoration,
                    },
                ),
                None => None,
            },
        }
    } else if is_at(source, state.position, SyntaxKind::BackgroundSpecifier) {
        let color = color_specified(source, state, SyntaxKind::BackgroundSpecifier);
        Outcome {
            state: color.state,
            value: match color.value {
                Some(color) => Some(
                    StyleView {
                        foreground: style.foreground,
                        background: Some(color),
                        decoration: style.decoration,
                    },
                ),
                None => None,
            },
        }
    } else if is_at(source, state.position, SyntaxKind::DecorationSpecifier) {
        let items = decorations_specified(source, state, SyntaxKind::DecorationSpecifier);
        Outcome {
            state: items.state,
            value: match items.value {
                Some(items) => Some(
                    StyleView {
                        foreground: style.foreground,
                        background: style.background,
                        decoration: Some(items),
                    },
                ),
                None => None,
            },
        }
    } else {
        Outcome { state: report(source, state, ReasonView::Expected(tags())), value: None }
    }
}

/// Specifiers with `;` between them, from the position of the state on, each one
/// applied to the style that the ones before it left: the last of two that set the same
/// field wins.
pub open spec fn specifiers_from(source: Seq<char>, state: State, style: StyleView) -> Outcome<
    StyleView,
>
    decreases source.len() - state.position,
{
    let one = specified(source, state, style);
    match one.value {
        Some(next) if is_at(source, one.state.position, SyntaxKind::Semicolon) => {
            proof {
                lemma_specified_advances(source, state, style);
                lemma_scan_advances(source, one.state.position);
            }
            specifiers_from(source, bumped(source, one.state), next)
        },
        _ => one,
    }
}

/// A style block: `[`, at least one specifier, `]`. Without the `[`, or with a
/// specifier that fails, there is no value. A missing `]` is reported, and the style
/// stands.
pub open spec fn styled(source: Seq<char>, state: State) -> Outcome<StyleView> {
    if !is_at(source, state.position, SyntaxKind::SquareBracketOpen) {
        Outcome { state: expected(source, state, SyntaxKind::SquareBracketOpen), value: None }
    } else {
        let all = specifiers_from(
            source,
            bumped(source, state),
            Style::default_view(),
        );
        match all.value {
            Some(style) => Outcome {
                state: expected(source, all.state, SyntaxKind::SquareBracketClose),
                value: Some(style),
            },
            None => all,
        }
    }
}

/// Extract style information from the token stream
pub fn style(p: &mut Parser) -> (style: Option<Style>)
    ensures
        final(p).source() == old(p).source(),
        final(p).state() == styled(old(p).source(), old(p).state()).state,
        match style {
            Some(style) => styled(old(p).source(), old(p).state()).value == Some(style@),
            None => styled(old(p).source(), old(p).state()).value is None,
        },
{
    p.expect(SyntaxKind::SquareBracketOpen)?;

    let style = specifiers(p)?;

    let _ = p.expect(SyntaxKind::SquareBracketClose);

    Some(style)
}

/// Parse the specifiers of a style block, with `;` between them
fn specifiers(p: &mut Parser) -> (style: Option<Style>)
    ensures
        final(p).source() == old(p).source(),
        final(p).state() == specifiers_from(
            old(p).source(),
            old(p).state(),
            Style::default_view(),
        ).state,
        match style {
            Some(style) => specifiers_from(
                old(p).source(),
                old(p).state(),
                Style::default_view(),
            ).value == Some(style@),
            None => specifiers_from(
                old(p).source(),
                old(p).state(),
                Style::default_view(),
            ).value is None,
        },
{
    let mut style = Style::default();
    let ghost source = p.source();
    let ghost all = specifiers_from(source, p.state(), style@);

    loop
        invariant_except_break
            all == specifiers_from(source, p.state(), style@),
        invariant
            p.source() == source,
            old(p).source() == source,
            all == specifiers_from(source, old(p).state(), Style::default_view()),
        ensures
            p.source() == source,
            all.state == p.state(),
            all.value == Some(style@),
        decreases source.len() - p.state().position,
    {
        let ghost before = p.state();
        let ghost sofar = style@;
        if !specifier(p, &mut style) {
            return None;
        }
        proof {
            lemma_specified_advances(source, before, sofar);
        }
        if p.at(SyntaxKind::Semicolon) {
            proof {
                lemma_scan_advances(source, p.state().position);
            }
            let _ = p.bump();
        } else {
            break ;
        }
    }
    Some(style)
}

/// Parse one specifier and set what it names in `style`
fn specifier(p: &mut Parser, style: &mut Style) -> (done: bool)
    ensures
        final(p).source() == old(p).source(),
        final(p).state() == specified(old(p).source(), old(p).state(), old(style)@).state,
        done ==> specified(old(p).source(), old(p).state(), old(style)@).value == Some(
            final(style)@,
        ),
        !done ==> specified(old(p).source(), old(p).state(), old(style)@).value is None,
{
    if p.at(SyntaxKind::ForegroundSpecifier) {
        match color_specifier(p, SyntaxKind::ForegroundSpecifier) {
            Some(color) => {
                style.foreground = Some(color);
                true
            },
            None => false,
        }
    } else if p.at(SyntaxKind::BackgroundSpecifier) {
        match color_specifier(p, SyntaxKind::BackgroundSpecifier) {
            Some(color) => {
                style.background = Some(color);
                true
            },
            None => false,
        }
    } else if p.at(SyntaxKind::DecorationSpecifier) {
        match decorations_specifier(p, SyntaxKind::DecorationSpecifier) {
            Some(decorations) => {
                style.decoration = Some(decorations);
                true
            },
            None => false,
        }
    } else {
        let mut kinds = Vec::with_capacity(3);
        kinds.push(SyntaxKind::ForegroundSpecifier);
        kinds.push(SyntaxKind::BackgroundSpecifier);
        kinds.push(SyntaxKind::DecorationSpecifier);
        assert(kinds@ =~= tags());
        p.error(Reason::Expected(kinds));
        false
    }
}

/// Parse a specifier with a [`Color`] value
pub fn color_specifier(p: &mut Parser, tag: SyntaxKind) -> (color: Option<Color>)
    ensures
        final(p).source() == old(p).source(),
        final(p).state() == color_specified(old(p).source(), old(p).state(), tag).state,
        color == color_specified(old(p).source(), old(p).state(), tag).value,
{
    p.expect(tag)?;
    p.expect(SyntaxKind::Colon)?;

    let token = p.expect(SyntaxKind::Color(Color::Default))?;
    match token.kind {
        SyntaxKind::Color(color) => Some(color),
        _ => unreached(),
    }
}

/// Parse a specifier with a [`Decoration`]s value
pub fn decorations_specifier(p: &mut Parser, tag: SyntaxKind) -> (decorations: Option<
    IndexSet<Decoration>,
>)
    ensures
        final(p).source() == old(p).source(),
        final(p).state() == decorations_specified(old(p).source(), old(p).state(), tag).state,
        match decorations {
            Some(set) => decorations_specified(old(p).source(), old(p).state(), tag).value == Some(
                set_items(set),
            ),
            None => decorations_specified(old(p).source(), old(p).state(), tag).value is None,
        },
{
    p.expect(tag)?;
    p.expect(SyntaxKind::Colon)?;
    decorations(p)
}

/// Parse the names of decorations, with `,` between them
fn decorations(p: &mut Parser) -> (decorations: Option<IndexSet<Decoration>>)
    ensures
        final(p).source() == old(p).source(),
        final(p).state() == decorations_from(old(p).source(), old(p).state(), Seq::empty()).state,
        match decorations {
            Some(set) => decorations_from(old(p).source(), old(p).state(), Seq::empty()).value
                == Some(set_items(set)),
            None => decorations_from(old(p).source(), old(p).state(), Seq::empty()).value is None,
        },
{
    let mut decorations = set_new();
    let ghost source = p.source();
    let ghost all = decorations_from(source, p.state(), set_items(decorations));

    loop
        invariant_except_break
            all == decorations_from(source, p.state(), set_items(decorations)),
        invariant
            p.source() == source,
            old(p).source() == source,
            all == decorations_from(source, old(p).state(), Seq::empty()),
        ensures
            p.source() == source,
            all.state == p.state(),
            all.value == Some(set_items(decorations)),
        decreases source.len() - p.state().position,
    {
        let ghost before = p.state();
        match p.expect(SyntaxKind::Decoration(Decoration::Bold)) {
            Some(token) => {
                match token.kind {
                    SyntaxKind::Decoration(decoration) => {
                        let _ = set_insert(&mut decorations, decoration);
                    },
                    _ => unreached(),
                }
            },
            None => {
                return None;
            },
        }
        proof {
            lemma_scan_advances(source, before.position);
        }
        if p.at(SyntaxKind::Comma) {
            proof {
                lemma_scan_advances(source, p.state().position);
            }
            let _ = p.bump();
        } else {
            break ;
        }
    }

    Some(decorations)
}

/// Asking for a lexeme moves forward where it is there and stays where it is not.
pub proof fn lemma_expected_advances(source: Seq<char>, state: State, kind: SyntaxKind)
    requires
        0 <= state.position <= source.len(),
    ensures
        state.position <= expected(source, state, kind).position <= source.len(),
        is_at(source, state.position, kind) ==> state.position < expected(
            source,
            state,
            kind,
        ).position,
{
    if is_at(source, state.position, kind) {
        lemma_scan_advances(source, state.position);
    }
}

/// A specifier with a color ends behind its start where it has a value, and never
/// before it.
pub proof fn lemma_color_specified_advances(source: Seq<char>, state: State, tag: SyntaxKind)
    requires
        0 <= state.position <= source.len(),
    ensures
        state.position <= color_specified(source, state, tag).state.position <= source.len(),
        color_specified(source, state, tag).value is Some ==> state.position < color_specified(
            source,
            state,
            tag,
        ).state.position,
{
    let tagged = expected(source, state, tag);
    let separated = expected(source, tagged, SyntaxKind::Colon);
    lemma_expected_advances(source, state, tag);
    lemma_expected_advances(source, tagged, SyntaxKind::Colon);
    lemma_expected_advances(source, separated, any_color());
}

/// Names of decorations end behind their start where they have a value, and never
/// before it.
pub proof fn lemma_decorations_from_advances(
    source: Seq<char>,
    state: State,
    items: Seq<Decoration>,
)
    requires
        0 <= state.position <= source.len(),
    ensures
        state.position <= decorations_from(source, state, items).state.position <= source.len(),
        decorations_from(source, state, items).value is Some ==> state.position
            < decorations_from(source, state, items).state.position,
    decreases source.len() - state.position,
{
    if is_at(source, state.position, any_decoration()) {
        let named = bumped(source, state);
        lemma_scan_advances(source, state.position);
        if is_at(source, named.position, SyntaxKind::Comma) {
            lemma_scan_advances(source, named.position);
            lemma_decorations_from_advances(
                source,
                bumped(source, named),
                inserted(items, scan(source, state.position).kind->Decoration_0),
            );
        }
    }
}

/// A specifier ends behind its start where it has a value, and never before it.
pub proof fn lemma_specified_advances(source: Seq<char>, state: State, style: StyleView)
    requires
        0 <= state.position <= source.len(),
    ensures
        state.position <= specified(source, state, style).state.position <= source.len(),
        specified(source, state, style).value is Some ==> state.position < specified(
            source,
            state,
            style,
        ).state.position,
{
    lemma_color_specified_advances(source, state, SyntaxKind::ForegroundSpecifier);
    lemma_color_specified_advances(source, state, SyntaxKind::BackgroundSpecifier);
    let tagged = expected(source, state, SyntaxKind::DecorationSpecifier);
    let separated = expected(source, tagged, SyntaxKind::Colon);
    lemma_expected_advances(source, state, SyntaxKind::DecorationSpecifier);
    lemma_expected_advances(source, tagged, SyntaxKind::Colon);
    lemma_decorations_from_advances(source, separated, Seq::empty());
}

/// Specifiers end behind their start where they have a value, and never before it.
pub proof fn lemma_specifiers_from_advances(source: Seq<char>, state: State, style: StyleView)
    requires
        0 <= state.position <= source.len(),
    ensures
        state.position <= specifiers_from(source, state, style).state.position <= source.len(),
        specifiers_from(source, state, style).value is Some ==> state.position < specifiers_from(
            source,
            state,
            style,
        ).state.position,
    decreases source.len() - state.position,
{
    let one = specified(source, state, style);
    lemma_specified_advances(source, state, style);
    if let Some(next) = one.value {
        if is_at(source, one.state.position, SyntaxKind::Semicolon) {
            lemma_scan_advances(source, one.state.position);
            lemma_specifiers_from_advances(source, bumped(source, one.state), next);
        }
    }
}

/// A style block never ends before its start, and ends behind it where it has a value.
pub proof fn lemma_styled_advances(source: Seq<char>, state: State)
    ensures
        0 <= state.position <= source.len() ==> state.position <= styled(
            source,
            state,
        ).state.position <= source.len(),
        styled(source, state).value is Some ==> state.position < styled(
            source,
            state,
        ).state.position <= source.len(),
{
    if is_at(source, state.position, SyntaxKind::SquareBracketOpen) {
        lemma_scan_advances(source, state.position);
        let all = specifiers_from(source, bumped(source, state), Style::default_view());
        lemma_specifiers_from_advances(source, bumped(source, state), Style::default_view());
        lemma_expected_advances(source, all.state, SyntaxKind::SquareBracketClose);
    }
}

/// No part of a style block takes back an error: each leaves at least as many as it
/// found.
pub proof fn lemma_styled_keeps_errors(source: Seq<char>, state: State)
    ensures
        state.errors.len() <= styled(source, state).state.errors.len(),
{
    if is_at(source, state.position, SyntaxKind::SquareBracketOpen) {
        lemma_specifiers_keep_errors(source, bumped(source, state), Style::default_view());
    }
}

/// Specifiers leave at least as many errors as they found.
pub proof fn lemma_specifiers_keep_errors(source: Seq<char>, state: State, style: StyleView)
    ensures
        state.errors.len() <= specifiers_from(source, state, style).state.errors.len(),
    decreases source.len() - state.position,
{
    let one = specified(source, state, style);
    lemma_decorations_keep_errors(
        source,
        expected(
            source,
            expected(source, state, SyntaxKind::DecorationSpecifier),
            SyntaxKind::Colon,
        ),
        Seq::empty(),
    );
    if let Some(next) = one.value {
        if is_at(source, one.state.position, SyntaxKind::Semicolon) {
            if 0 <= state.position <= source.len() {
                lemma_specified_advances(source, state, style);
            }
            lemma_scan_advances(source, one.state.position);
            lemma_specifiers_keep_errors(source, bumped(source, one.state), next);
        }
    }
}

/// Names of decorations leave at least as many errors as they found.
pub proof fn lemma_decorations_keep_errors(
    source: Seq<char>,
    state: State,
    items: Seq<Decoration>,
)
    ensures
        state.errors.len() <= decorations_from(source, state, items).state.errors.len(),
    decreases source.len() - state.position,
{
    if is_at(source, state.position, any_decoration()) {
        let named = bumped(source, state);
        lemma_scan_advances(source, state.position);
        if is_at(source, named.position, SyntaxKind::Comma) {
            lemma_scan_advances(source, named.position);
            lemma_decorations_keep_errors(
                source,
                bumped(source, named),
                inserted(items, scan(source, state.position).kind->Decoration_0),
            );
        }
    }
}

} // verus!

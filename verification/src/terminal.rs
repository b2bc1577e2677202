//! What a terminal makes of the escape sequences, and the state that a rendering leaves
//! it in.
//!
//! The model knows the codes that this library writes and no others. Text is taken to
//! hold no escape sequence of its own.

use crate::ast::TokenView;
use crate::codes::decimal;
use crate::color::{rendered, rendered_all};
use crate::ordered_set::missing_from;
use crate::styles::{
    changes, code_numbers, code_texts, decorating, extended, lemma_missing_from, sequence, Change,
    Color, ContextView, Decoration, StyleView,
};
use vstd::prelude::*;

verus! {

/// The state of a terminal: the colors that it writes in, and the decorations that are
/// switched on.
pub struct Terminal {
    pub foreground: Color,
    pub background: Color,
    pub decoration: Set<Decoration>,
}

/// The terminal that shows a context.
pub open spec fn showing(context: ContextView) -> Terminal {
    Terminal {
        foreground: context.foreground,
        background: context.background,
        decoration: context.decoration.to_set(),
    }
}

/// The color that a code selects for the foreground.
pub open spec fn foreground_of(code: nat) -> Option<Color> {
    if code == 30 {
        Some(Color::Black)
    } else if code == 31 {
        Some(Color::Red)
    } else if code == 32 {
        Some(Color::Green)
    } else if code == 33 {
        Some(Color::Yellow)
    } else if code == 34 {
        Some(Color::Blue)
    } else if code == 35 {
        Some(Color::Magenta)
    } else if code == 36 {
        Some(Color::Cyan)
    } else if code == 37 {
        Some(Color::White)
    } else if code == 39 {
        Some(Color::Default)
    } else if code == 90 {
        Some(Color::BrightBlack)
    } else if code == 91 {
        Some(Color::BrightRed)
    } else if code == 92 {
        Some(Color::BrightGreen)
    } else if code == 93 {
        Some(Color::BrightYellow)
    } else if code == 94 {
        Some(Color::BrightBlue)
    } else if code == 95 {
        Some(Color::BrightMagenta)
    } else if code == 96 {
        Some(Color::BrightCyan)
    } else if code == 97 {
        Some(Color::BrightWhite)
    } else {
        None
    }
}

/// The color that a code selects for the background.
pub open spec fn background_of(code: nat) -> Option<Color> {
    if code >= 10 {
        foreground_of((code - 10) as nat)
    } else {
        None
    }
}

/// The decoration that a code switches on.
pub open spec fn switched_on(code: nat) -> Option<Decoration> {
    if code == 1 {
        Some(Decoration::Bold)
    } else if code == 2 {
        Some(Decoration::Dim)
    } else if code == 3 {
        Some(Decoration::Italic)
    } else if code == 4 {
        Some(Decoration::Underline)
    } else if code == 5 {
        Some(Decoration::SlowBlink)
    } else if code == 6 {
        Some(Decoration::FastBlink)
    } else if code == 7 {
        Some(Decoration::Invert)
    } else if code == 8 {
        Some(Decoration::Hide)
    } else if code == 9 {
        Some(Decoration::StrikeThrough)
    } else {
        None
    }
}

/// The terminal after one code: a color code selects its color, the code of a
/// decoration switches it on, and any other code switches off the decorations that it
/// is the remove code of. Code 22 takes both bold and dim, code 25 both blinks.
pub open spec fn obeyed(terminal: Terminal, code: nat) -> Terminal {
    if let Some(color) = foreground_of(code) {
        Terminal {
            foreground: color,
            background: terminal.background,
            decoration: terminal.decoration,
        }
    } else if let Some(color) = background_of(code) {
        Terminal {
            foreground: terminal.foreground,
            background: color,
            decoration: terminal.decoration,
        }
    } else if let Some(decoration) = switched_on(code) {
        Terminal {
            foreground: terminal.foreground,
            background: terminal.background,
            decoration: terminal.decoration.insert(decoration),
        }
    } else {
        Terminal {
            foreground: terminal.foreground,
            background: terminal.background,
            decoration: terminal.decoration.filter(
                |decoration: Decoration| decoration.remove_number() != code,
            ),
        }
    }
}

/// The terminal after the codes of one escape sequence, in their order.
pub open spec fn obeyed_all(terminal: Terminal, codes: Seq<nat>) -> Terminal
    decreases codes.len(),
{
    if codes.len() == 0 {
        terminal
    } else {
        obeyed(obeyed_all(terminal, codes.drop_last()), codes.last())
    }
}

/// What a rendering sends to the terminal, piece by piece.
pub enum Event {
    /// Text, as it is
    Text(Seq<char>),
    /// One escape sequence with these codes; none at all where there is no code
    Codes(Seq<nat>),
}

/// The pieces that a token is rendered as inside `parent`.
pub open spec fn events(token: TokenView, parent: ContextView) -> Seq<Event>
    decreases token,
{
    match token {
        TokenView::Content(text) => seq![Event::Text(text)],
        TokenView::Styled { content, style } => seq![
            Event::Codes(code_numbers(changes(style, parent), parent, true)),
        ] + events_all(content, extended(parent, style)) + seq![
            Event::Codes(code_numbers(changes(style, parent), parent, false)),
        ],
    }
}

/// The pieces that tokens are rendered as inside `parent`.
pub open spec fn events_all(tokens: Seq<TokenView>, parent: ContextView) -> Seq<Event>
    decreases tokens,
{
    if tokens.len() == 0 {
        Seq::empty()
    } else {
        events_all(tokens.drop_last(), parent) + events(tokens.last(), parent)
    }
}

/// The text that pieces come to.
pub open spec fn written(events: Seq<Event>) -> Seq<char>
    decreases events.len(),
{
    if events.len() == 0 {
        Seq::empty()
    } else {
        written(events.drop_last()) + match events.last() {
            Event::Text(text) => text,
            Event::Codes(codes) => sequence(codes.map_values(|code: nat| decimal(code))),
        }
    }
}

/// The terminal after pieces: text leaves it as it is, an escape sequence is obeyed.
pub open spec fn shown(terminal: Terminal, events: Seq<Event>) -> Terminal
    decreases events.len(),
{
    if events.len() == 0 {
        terminal
    } else {
        match events.last() {
            Event::Text(_) => shown(terminal, events.drop_last()),
            Event::Codes(codes) => obeyed_all(shown(terminal, events.drop_last()), codes),
        }
    }
}

/// Whether a style can be left inside `parent` without loss: no decoration that it
/// adds shares its remove code with a decoration of `parent`. (Dim inside bold cannot:
/// code 22, which takes the dim back, takes the bold as well.)
pub open spec fn leaves_cleanly(style: StyleView, parent: ContextView) -> bool {
    style.decoration matches Some(items) ==> forall|i: int, j: int|
        0 <= i < items.len() && 0 <= j < parent.decoration.len() ==> !parent.decoration.contains(
            #[trigger] items[i],
        ) ==> items[i].remove_number() != (#[trigger] parent.decoration[j]).remove_number()
}

/// Whether every span of a token can be left without loss in the context that it
/// stands in.
pub open spec fn settled(token: TokenView, parent: ContextView) -> bool
    decreases token,
{
    match token {
        TokenView::Content(_) => true,
        TokenView::Styled { content, style } => leaves_cleanly(style, parent) && settled_all(
            content,
            extended(parent, style),
        ),
    }
}

/// Whether every span of the tokens can be left without loss.
pub open spec fn settled_all(tokens: Seq<TokenView>, parent: ContextView) -> bool
    decreases tokens,
{
    forall|i: int| 0 <= i < tokens.len() ==> settled(#[trigger] tokens[i], parent)
}

/// Each code that this library writes has one meaning: the code of a color selects
/// that color, for the foreground or for the background, and the apply code of a
/// decoration switches that decoration on.
pub proof fn lemma_meaning_of_codes(color: Color, decoration: Decoration)
    ensures
        foreground_of(color.foreground_number()) == Some(color),
        foreground_of(color.background_number()) is None,
        background_of(color.background_number()) == Some(color),
        foreground_of(decoration.apply_number()) is None,
        background_of(decoration.apply_number()) is None,
        switched_on(decoration.apply_number()) == Some(decoration),
        foreground_of(decoration.remove_number()) is None,
        background_of(decoration.remove_number()) is None,
        switched_on(decoration.remove_number()) is None,
{
}

/// Codes obeyed in two runs are codes obeyed in one.
pub proof fn lemma_obeyed_concat(terminal: Terminal, first: Seq<nat>, second: Seq<nat>)
    ensures
        obeyed_all(terminal, first + second) == obeyed_all(obeyed_all(terminal, first), second),
    decreases second.len(),
{
    if second.len() == 0 {
        assert(first + second =~= first);
    } else {
        lemma_obeyed_concat(terminal, first, second.drop_last());
        assert((first + second).drop_last() =~= first + second.drop_last());
    }
}

/// The apply codes of decorations switch them on and touch nothing else.
pub proof fn lemma_switched_on(terminal: Terminal, items: Seq<Decoration>, parent: ContextView)
    ensures
        obeyed_all(terminal, code_numbers(decorating(items), parent, true)) == (Terminal {
            foreground: terminal.foreground,
            background: terminal.background,
            decoration: terminal.decoration.union(items.to_set()),
        }),
    decreases items.len(),
{
    let codes = code_numbers(decorating(items), parent, true);
    if items.len() == 0 {
        assert(terminal.decoration.union(items.to_set()) =~= terminal.decoration);
    } else {
        let last = items.last();
        lemma_switched_on(terminal, items.drop_last(), parent);
        lemma_meaning_of_codes(Color::Default, last);
        assert(codes.drop_last() =~= code_numbers(decorating(items.drop_last()), parent, true));
        assert(codes.last() == last.apply_number());
        assert(terminal.decoration.union(items.drop_last().to_set()).insert(last)
            =~= terminal.decoration.union(items.to_set())) by {
            assert forall|item: Decoration| items.contains(item) <==> items.drop_last().contains(
                item,
            ) || item == last by {
                if items.contains(item) {
                    let i = choose|i: int| 0 <= i < items.len() && items[i] == item;
                    if i < items.len() - 1 {
                        assert(items.drop_last()[i] == item);
                    }
                }
                if items.drop_last().contains(item) {
                    let i = choose|i: int|
                        0 <= i < items.drop_last().len() && items.drop_last()[i] == item;
                    assert(items[i] == item);
                }
                if item == last {
                    assert(items[items.len() - 1] == item);
                }
            }
        }
    }
}

/// The remove codes of decorations switch off every decoration that shares one of
/// them, and touch nothing else.
pub proof fn lemma_switched_off(terminal: Terminal, items: Seq<Decoration>, parent: ContextView)
    ensures
        obeyed_all(terminal, code_numbers(decorating(items), parent, false)) == (Terminal {
            foreground: terminal.foreground,
            background: terminal.background,
            decoration: terminal.decoration.filter(
                |decoration: Decoration|
                    forall|i: int|
                        0 <= i < items.len() ==> decoration.remove_number() != (
                        #[trigger] items[i]).remove_number(),
            ),
        }),
    decreases items.len(),
{
    let codes = code_numbers(decorating(items), parent, false);
    let kept = |decoration: Decoration|
        forall|i: int|
            0 <= i < items.len() ==> decoration.remove_number() != (
            #[trigger] items[i]).remove_number();
    if items.len() == 0 {
        assert(terminal.decoration.filter(kept) =~= terminal.decoration);
    } else {
        let last = items.last();
        let before = items.drop_last();
        let kept_before = |decoration: Decoration|
            forall|i: int|
                0 <= i < before.len() ==> decoration.remove_number() != (
                #[trigger] before[i]).remove_number();
        lemma_switched_off(terminal, before, parent);
        lemma_meaning_of_codes(Color::Default, last);
        assert(codes.drop_last() =~= code_numbers(decorating(before), parent, false));
        assert(codes.last() == last.remove_number());
        assert(terminal.decoration.filter(kept_before).filter(
            |decoration: Decoration| decoration.remove_number() != last.remove_number(),
        ) =~= terminal.decoration.filter(kept)) by {
            assert forall|decoration: Decoration|
                kept(decoration) <==> kept_before(decoration) && decoration.remove_number()
                    != last.remove_number() by {
                if kept(decoration) {
                    assert(items[items.len() - 1] == last);
                    assert forall|i: int| 0 <= i < before.len() implies decoration.remove_number()
                        != (#[trigger] before[i]).remove_number() by {
                        assert(before[i] == items[i]);
                    }
                }
                if kept_before(decoration) && decoration.remove_number() != last.remove_number() {
                    assert forall|i: int| 0 <= i < items.len() implies decoration.remove_number()
                        != (#[trigger] items[i]).remove_number() by {
                        if i < before.len() {
                            assert(before[i] == items[i]);
                        }
                    }
                }
            }
        }
    }
}

/// The codes of changes in two runs are the codes of all of them.
pub proof fn lemma_code_numbers_concat(
    first: Seq<Change>,
    second: Seq<Change>,
    parent: ContextView,
    entering: bool,
)
    ensures
        code_numbers(first + second, parent, entering) == code_numbers(first, parent, entering)
            + code_numbers(second, parent, entering),
{
    assert(code_numbers(first + second, parent, entering) =~= code_numbers(first, parent, entering)
        + code_numbers(second, parent, entering));
}

/// The colors of the changes, and the decorations that they add.
pub open spec fn color_changes(style: StyleView, parent: ContextView) -> Seq<Change> {
    let foreground = match style.foreground {
        Some(color) if color != parent.foreground => seq![Change::Foreground(color)],
        _ => Seq::empty(),
    };
    let background = match style.background {
        Some(color) if color != parent.background => seq![Change::Background(color)],
        _ => Seq::empty(),
    };
    foreground + background
}

/// The decorations that a style adds inside `parent`.
pub open spec fn added(style: StyleView, parent: ContextView) -> Seq<Decoration> {
    match style.decoration {
        Some(items) => missing_from(items, parent.decoration),
        None => Seq::empty(),
    }
}

/// The changes of a style are its changes of color, then the decorations that it adds.
pub proof fn lemma_changes_split(style: StyleView, parent: ContextView)
    ensures
        changes(style, parent) == color_changes(style, parent) + decorating(added(style, parent)),
{
    assert(changes(style, parent) =~= color_changes(style, parent) + decorating(
        added(style, parent),
    ));
}

/// Entering a span puts the terminal into the context of the span: after the sequence
/// that enters a style, a terminal that showed the parent shows the extended context.
pub proof fn lemma_entering(style: StyleView, parent: ContextView)
    ensures
        obeyed_all(showing(parent), code_numbers(changes(style, parent), parent, true)) == showing(
            extended(parent, style),
        ),
{
    let colors = color_changes(style, parent);
    let items = added(style, parent);
    let start = showing(parent);
    lemma_changes_split(style, parent);
    lemma_code_numbers_concat(colors, decorating(items), parent, true);
    lemma_obeyed_concat(
        start,
        code_numbers(colors, parent, true),
        code_numbers(decorating(items), parent, true),
    );
    let colored = obeyed_all(start, code_numbers(colors, parent, true));
    assert(colored == (Terminal {
        foreground: extended(parent, style).foreground,
        background: extended(parent, style).background,
        decoration: start.decoration,
    })) by {
        lemma_colors_obeyed(start, style, parent, true);
    }
    lemma_switched_on(colored, items, parent);
    assert(start.decoration.union(items.to_set()) =~= extended(
        parent,
        style,
    ).decoration.to_set()) by {
        assert forall|item: Decoration|
            start.decoration.union(items.to_set()).contains(item) <==> extended(
                parent,
                style,
            ).decoration.contains(item) by {
            if let Some(all) = style.decoration {
                lemma_missing_from(all, parent.decoration, item);
                vstd::seq_lib::lemma_seq_concat_contains_all_elements(
                    parent.decoration,
                    items,
                    item,
                );
            } else {
                assert(!items.contains(item));
            }
        }
    }
}

/// What the codes of the color changes of a style leave: a color that the style
/// changes is the one that it names where `entering`, else the one of `parent`; the
/// rest stays as it is.
pub proof fn lemma_colors_obeyed(
    terminal: Terminal,
    style: StyleView,
    parent: ContextView,
    entering: bool,
)
    ensures
        obeyed_all(terminal, code_numbers(color_changes(style, parent), parent, entering))
            == (Terminal {
            foreground: match style.foreground {
                Some(color) if color != parent.foreground => if entering {
                    color
                } else {
                    parent.foreground
                },
                _ => terminal.foreground,
            },
            background: match style.background {
                Some(color) if color != parent.background => if entering {
                    color
                } else {
                    parent.background
                },
                _ => terminal.background,
            },
            decoration: terminal.decoration,
        }),
{
    let colors = color_changes(style, parent);
    let codes = code_numbers(colors, parent, entering);
    reveal_with_fuel(obeyed_all, 3);
    assert forall|c: Color|
        foreground_of(c.foreground_number()) == Some(c) && foreground_of(c.background_number())
            is None && background_of(c.background_number()) == Some(c) by {
        lemma_meaning_of_codes(c, Decoration::Bold);
    }
    let fore = style.foreground matches Some(color) && color != parent.foreground;
    let back = style.background matches Some(color) && color != parent.background;
    if fore && back {
        assert(colors =~= seq![
            Change::Foreground(style.foreground->0),
            Change::Background(style.background->0),
        ]);
        assert(codes.drop_last().drop_last() =~= Seq::<nat>::empty());
        assert(codes.drop_last().last() == codes[0]);
    } else if fore {
        assert(colors =~= seq![Change::Foreground(style.foreground->0)]);
        assert(codes.drop_last() =~= Seq::<nat>::empty());
    } else if back {
        assert(colors =~= seq![Change::Background(style.background->0)]);
        assert(codes.drop_last() =~= Seq::<nat>::empty());
    } else {
        assert(colors =~= Seq::<Change>::empty());
    }
}

/// Leaving a span puts the terminal back: after the sequence that leaves a style, a
/// terminal that showed the context of the span shows the parent again, where the style
/// can be left without loss.
pub proof fn lemma_leaving(style: StyleView, parent: ContextView)
    requires
        leaves_cleanly(style, parent),
    ensures
        obeyed_all(
            showing(extended(parent, style)),
            code_numbers(changes(style, parent), parent, false),
        ) == showing(parent),
{
    let colors = color_changes(style, parent);
    let items = added(style, parent);
    let start = showing(extended(parent, style));
    lemma_changes_split(style, parent);
    lemma_code_numbers_concat(colors, decorating(items), parent, false);
    lemma_obeyed_concat(
        start,
        code_numbers(colors, parent, false),
        code_numbers(decorating(items), parent, false),
    );
    let colored = obeyed_all(start, code_numbers(colors, parent, false));
    lemma_colors_obeyed(start, style, parent, false);
    lemma_switched_off(colored, items, parent);
    let kept = |decoration: Decoration|
        forall|i: int|
            0 <= i < items.len() ==> decoration.remove_number() != (
            #[trigger] items[i]).remove_number();
    assert(start.decoration.filter(kept) =~= parent.decoration.to_set()) by {
        assert forall|item: Decoration|
            start.decoration.filter(kept).contains(item) <==> parent.decoration.contains(
                item,
            ) by {
            if let Some(all) = style.decoration {
                lemma_missing_from(all, parent.decoration, item);
                vstd::seq_lib::lemma_seq_concat_contains_all_elements(
                    parent.decoration,
                    items,
                    item,
                );
                if parent.decoration.contains(item) {
                    let j = choose|j: int|
                        0 <= j < parent.decoration.len() && parent.decoration[j] == item;
                    assert forall|i: int| 0 <= i < items.len() implies item.remove_number() != (
                    #[trigger] items[i]).remove_number() by {
                        lemma_missing_from(all, parent.decoration, items[i]);
                        assert(items.contains(items[i]));
                        let k = choose|k: int| 0 <= k < all.len() && all[k] == items[i];
                        assert(all[k].remove_number() != parent.decoration[j].remove_number());
                    }
                } else if items.contains(item) {
                    let i = choose|i: int| 0 <= i < items.len() && items[i] == item;
                    assert(!kept(item));
                }
            } else {
                assert(items.len() == 0);
            }
        }
    }
}

/// Pieces obeyed in two runs are pieces obeyed in one.
pub proof fn lemma_shown_concat(terminal: Terminal, first: Seq<Event>, second: Seq<Event>)
    ensures
        shown(terminal, first + second) == shown(shown(terminal, first), second),
    decreases second.len(),
{
    if second.len() == 0 {
        assert(first + second =~= first);
    } else {
        lemma_shown_concat(terminal, first, second.drop_last());
        assert((first + second).drop_last() =~= first + second.drop_last());
    }
}

/// Scoping: a span leaves the terminal as it found it. After all the pieces of a token,
/// a terminal that showed the context around the token shows it again, whatever the
/// token holds, where every span in it can be left without loss.
pub proof fn lemma_scope_restored(token: TokenView, parent: ContextView)
    requires
        settled(token, parent),
    ensures
        shown(showing(parent), events(token, parent)) == showing(parent),
    decreases token,
{
    let start = showing(parent);
    reveal_with_fuel(shown, 2);
    match token {
        TokenView::Content(text) => {
            let pieces = seq![Event::Text(text)];
            assert(pieces.drop_last() =~= Seq::<Event>::empty());
        },
        TokenView::Styled { content, style } => {
            let inside = extended(parent, style);
            let enter = seq![Event::Codes(code_numbers(changes(style, parent), parent, true))];
            let leave = seq![Event::Codes(code_numbers(changes(style, parent), parent, false))];
            let inner = events_all(content, inside);
            lemma_shown_concat(start, enter + inner, leave);
            lemma_shown_concat(start, enter, inner);
            assert(enter.drop_last() =~= Seq::<Event>::empty());
            assert(leave.drop_last() =~= Seq::<Event>::empty());
            lemma_entering(style, parent);
            lemma_scopes_restored(content, inside);
            lemma_leaving(style, parent);
        },
    }
}

/// Scoping, for tokens side by side: together they leave the terminal as they found it.
pub proof fn lemma_scopes_restored(tokens: Seq<TokenView>, parent: ContextView)
    requires
        settled_all(tokens, parent),
    ensures
        shown(showing(parent), events_all(tokens, parent)) == showing(parent),
    decreases tokens,
{
    if tokens.len() > 0 {
        assert forall|i: int| 0 <= i < tokens.drop_last().len() implies settled(
            #[trigger] tokens.drop_last()[i],
            parent,
        ) by {
            assert(tokens.drop_last()[i] == tokens[i]);
        }
        lemma_scopes_restored(tokens.drop_last(), parent);
        lemma_scope_restored(tokens.last(), parent);
        lemma_shown_concat(
            showing(parent),
            events_all(tokens.drop_last(), parent),
            events(tokens.last(), parent),
        );
    }
}

/// Text written in two runs is text written in one.
pub proof fn lemma_written_concat(first: Seq<Event>, second: Seq<Event>)
    ensures
        written(first + second) == written(first) + written(second),
    decreases second.len(),
{
    if second.len() == 0 {
        assert(first + second =~= first);
        assert(written(first) + written(second) =~= written(first));
    } else {
        lemma_written_concat(first, second.drop_last());
        assert((first + second).drop_last() =~= first + second.drop_last());
        assert(written(first + second) =~= written(first) + written(second));
    }
}

/// The pieces of a token are its rendering: written out, they are the text that the
/// renderer writes.
pub proof fn lemma_events_written(token: TokenView, parent: ContextView)
    ensures
        written(events(token, parent)) == rendered(token, parent),
    decreases token,
{
    reveal_with_fuel(written, 2);
    match token {
        TokenView::Content(text) => {
            let pieces = seq![Event::Text(text)];
            assert(pieces.drop_last() =~= Seq::<Event>::empty());
            assert(written(pieces) =~= text);
        },
        TokenView::Styled { content, style } => {
            let inside = extended(parent, style);
            let entering = code_numbers(changes(style, parent), parent, true);
            let leaving = code_numbers(changes(style, parent), parent, false);
            let enter = seq![Event::Codes(entering)];
            let leave = seq![Event::Codes(leaving)];
            let inner = events_all(content, inside);
            lemma_written_concat(enter + inner, leave);
            lemma_written_concat(enter, inner);
            assert(enter.drop_last() =~= Seq::<Event>::empty());
            assert(leave.drop_last() =~= Seq::<Event>::empty());
            assert(entering.map_values(|code: nat| decimal(code)) =~= code_texts(
                changes(style, parent),
                parent,
                true,
            ));
            assert(leaving.map_values(|code: nat| decimal(code)) =~= code_texts(
                changes(style, parent),
                parent,
                false,
            ));
            assert(written(enter) =~= sequence(code_texts(changes(style, parent), parent, true)));
            assert(written(leave) =~= sequence(
                code_texts(changes(style, parent), parent, false),
            ));
            lemma_all_events_written(content, inside);
        },
    }
}

/// The pieces of tokens side by side are their rendering.
pub proof fn lemma_all_events_written(tokens: Seq<TokenView>, parent: ContextView)
    ensures
        written(events_all(tokens, parent)) == rendered_all(tokens, parent),
    decreases tokens,
{
    if tokens.len() > 0 {
        lemma_all_events_written(tokens.drop_last(), parent);
        lemma_events_written(tokens.last(), parent);
        lemma_written_concat(
            events_all(tokens.drop_last(), parent),
            events(tokens.last(), parent),
        );
    }
}

} // verus!

//! Colors, decorations and their SGR codes.

use crate::codes::{decimal, lemma_code_texts};
use crate::ordered_set::{
    missing_from, set_clone, set_difference, set_extend, set_is_empty, set_items, set_new,
};
use indexmap::IndexSet;
use vstd::prelude::*;
use vstd::string::StringExecFns;

verus! {

/// The sixteen standard ANSI colors and the terminal's default.
#[derive(Clone, Copy, Debug, PartialEq, Eq, Hash, Structural)]
pub enum Color {
    Black,
    Red,
    Green,
    Yellow,
    Blue,
    Magenta,
    Cyan,
    White,
    /// The color that the terminal itself uses.
    Default,
    BrightBlack,
    BrightRed,
    BrightGreen,
    BrightYellow,
    BrightBlue,
    BrightMagenta,
    BrightCyan,
    BrightWhite,
}

impl Color {
    /// The number of the SGR code that selects this color for the foreground: 30 to 37
    /// for the standard colors, 90 to 97 for the bright ones, 39 for the default.
    pub open spec fn foreground_number(self) -> nat {
        match self {
            Color::Black => 30,
            Color::Red => 31,
            Color::Green => 32,
            Color::Yellow => 33,
            Color::Blue => 34,
            Color::Magenta => 35,
            Color::Cyan => 36,
            Color::White => 37,
            Color::Default => 39,
            Color::BrightBlack => 90,
            Color::BrightRed => 91,
            Color::BrightGreen => 92,
            Color::BrightYellow => 93,
            Color::BrightBlue => 94,
            Color::BrightMagenta => 95,
            Color::BrightCyan => 96,
            Color::BrightWhite => 97,
        }
    }

    /// The number of the SGR code that selects this color for the background: ten
    /// above the one for the foreground.
    pub open spec fn background_number(self) -> nat {
        self.foreground_number() + 10
    }

    /// The SGR code that selects this color for the foreground.
    pub open spec fn foreground(self) -> Seq<char> {
        decimal(self.foreground_number())
    }

    /// The SGR code that selects this color for the background.
    pub open spec fn background(self) -> Seq<char> {
        decimal(self.background_number())
    }

    /// Convert to the foreground ANSI code
    pub fn foreground_code(&self) -> (code: &'static str)
        ensures
            code@ == self.foreground(),
    {
        proof {
            lemma_code_texts();
        }
        match self {
            Color::Black => "30",
            Color::Red => "31",
            Color::Green => "32",
            Color::Yellow => "33",
            Color::Blue => "34",
            Color::Magenta => "35",
            Color::Cyan => "36",
            Color::White => "37",
            Color::Default => "39",
            Color::BrightBlack => "90",
            Color::BrightRed => "91",
            Color::BrightGreen => "92",
            Color::BrightYellow => "93",
            Color::BrightBlue => "94",
            Color::BrightMagenta => "95",
            Color::BrightCyan => "96",
            Color::BrightWhite => "97",
        }
    }

    /// Convert to the background ANSI code
    pub fn background_code(&self) -> (code: &'static str)
        ensures
            code@ == self.background(),
    {
        proof {
            lemma_code_texts();
        }
        match self {
            Color::Black => "40",
            Color::Red => "41",
            Color::Green => "42",
            Color::Yellow => "43",
            Color::Blue => "44",
            Color::Magenta => "45",
            Color::Cyan => "46",
            Color::White => "47",
            Color::Default => "49",
            Color::BrightBlack => "100",
            Color::BrightRed => "101",
            Color::BrightGreen => "102",
            Color::BrightYellow => "103",
            Color::BrightBlue => "104",
            Color::BrightMagenta => "105",
            Color::BrightCyan => "106",
            Color::BrightWhite => "107",
        }
    }
}

impl Default for Color {
    fn default() -> (color: Color)
        ensures
            color == Color::Default,
    {
        Color::Default
    }
}

/// The text decorations that SGR codes can switch on and off.
#[derive(Clone, Copy, Debug, PartialEq, Eq, Hash, Structural)]
pub enum Decoration {
    Bold,
    Dim,
    Italic,
    Underline,
    SlowBlink,
    FastBlink,
    Invert,
    Hide,
    StrikeThrough,
}

impl Decoration {
    /// The number of the SGR code that switches this decoration on.
    pub open spec fn apply_number(self) -> nat {
        match self {
            Decoration::Bold => 1,
            Decoration::Dim => 2,
            Decoration::Italic => 3,
            Decoration::Underline => 4,
            Decoration::SlowBlink => 5,
            Decoration::FastBlink => 6,
            Decoration::Invert => 7,
            Decoration::Hide => 8,
            Decoration::StrikeThrough => 9,
        }
    }

    /// The number of the SGR code that switches this decoration off. Bold and dim
    /// share one, and so do the two blinks.
    pub open spec fn remove_number(self) -> nat {
        match self {
            Decoration::Bold => 22,
            Decoration::Dim => 22,
            Decoration::Italic => 23,
            Decoration::Underline => 24,
            Decoration::SlowBlink => 25,
            Decoration::FastBlink => 25,
            Decoration::Invert => 27,
            Decoration::Hide => 28,
            Decoration::StrikeThrough => 29,
        }
    }

    /// The SGR code that switches this decoration on.
    pub open spec fn apply(self) -> Seq<char> {
        decimal(self.apply_number())
    }

    /// The SGR code that switches this decoration off.
    pub open spec fn remove(self) -> Seq<char> {
        decimal(self.remove_number())
    }

    /// Convert to the ANSI code for applying the styling
    pub fn apply_code(&self) -> (code: &'static str)
        ensures
            code@ == self.apply(),
    {
        proof {
            lemma_code_texts();
        }
        match self {
            Decoration::Bold => "1",
            Decoration::Dim => "2",
            Decoration::Italic => "3",
            Decoration::Underline => "4",
            Decoration::SlowBlink => "5",
            Decoration::FastBlink => "6",
            Decoration::Invert => "7",
            Decoration::Hide => "8",
            Decoration::StrikeThrough => "9",
        }
    }

    /// Convert to the ANSI code for removing the styling
    pub fn remove_code(&self) -> (code: &'static str)
        ensures
            code@ == self.remove(),
    {
        proof {
            lemma_code_texts();
        }
        match self {
            Decoration::Bold => "22",
            Decoration::Dim => "22",
            Decoration::Italic => "23",
            Decoration::Underline => "24",
            Decoration::SlowBlink => "25",
            Decoration::FastBlink => "25",
            Decoration::Invert => "27",
            Decoration::Hide => "28",
            Decoration::StrikeThrough => "29",
        }
    }
}

/// Styles that can be applied to a piece of text. A field that is `None` is inherited
/// from the enclosing span.
#[derive(Debug, PartialEq, Eq)]
pub struct Style {
    /// The foreground color
    pub foreground: Option<Color>,
    /// The background color
    pub background: Option<Color>,
    /// Additional text decoration (i.e. bold, italic, underline, etc.)
    pub decoration: Option<IndexSet<Decoration>>,
}

/// What a [`Style`] holds, with the decorations as a sequence.
pub struct StyleView {
    pub foreground: Option<Color>,
    pub background: Option<Color>,
    pub decoration: Option<Seq<Decoration>>,
}

impl View for Style {
    type V = StyleView;

    open spec fn view(&self) -> StyleView {
        StyleView {
            foreground: self.foreground,
            background: self.background,
            decoration: match self.decoration {
                Some(set) => Some(set_items(set)),
                None => None,
            },
        }
    }
}

/// The current styles applied to a piece of text: every field is resolved.
#[derive(Debug)]
pub struct CurrentStyle {
    foreground: Color,
    background: Color,
    decoration: IndexSet<Decoration>,
}

/// What a [`CurrentStyle`] holds, with the decorations as a sequence.
pub struct ContextView {
    pub foreground: Color,
    pub background: Color,
    pub decoration: Seq<Decoration>,
}

impl View for CurrentStyle {
    type V = ContextView;

    closed spec fn view(&self) -> ContextView {
        ContextView {
            foreground: self.foreground,
            background: self.background,
            decoration: set_items(self.decoration),
        }
    }
}

/// One property that a style sets to something that its surroundings do not have.
pub enum Change {
    Foreground(Color),
    Background(Color),
    Decorate(Decoration),
}

impl Change {
    /// The number of the SGR code that makes the change.
    pub open spec fn apply_number(self) -> nat {
        match self {
            Change::Foreground(color) => color.foreground_number(),
            Change::Background(color) => color.background_number(),
            Change::Decorate(decoration) => decoration.apply_number(),
        }
    }

    /// The number of the SGR code that takes the change back inside `parent`: a color
    /// goes back to the color of `parent`, a decoration is switched off.
    pub open spec fn reset_number(self, parent: ContextView) -> nat {
        match self {
            Change::Foreground(_) => parent.foreground.foreground_number(),
            Change::Background(_) => parent.background.background_number(),
            Change::Decorate(decoration) => decoration.remove_number(),
        }
    }

    /// The SGR code that makes the change.
    pub open spec fn apply(self) -> Seq<char> {
        decimal(self.apply_number())
    }

    /// The SGR code that takes the change back inside `parent`.
    pub open spec fn reset(self, parent: ContextView) -> Seq<char> {
        decimal(self.reset_number(parent))
    }
}

/// The changes that `style` makes inside `parent`: the foreground if it is set and
/// differs, then the background likewise, then each decoration of `style` that `parent`
/// does not have, in the order of `style`.
pub open spec fn changes(style: StyleView, parent: ContextView) -> Seq<Change> {
    let foreground = match style.foreground {
        Some(color) if color != parent.foreground => seq![Change::Foreground(color)],
        _ => Seq::empty(),
    };
    let background = match style.background {
        Some(color) if color != parent.background => seq![Change::Background(color)],
        _ => Seq::empty(),
    };
    let decoration = match style.decoration {
        Some(items) => decorating(missing_from(items, parent.decoration)),
        None => Seq::empty(),
    };
    foreground + background + decoration
}

/// The number of the code of each change: of the one that makes it where `entering`,
/// else of the one that takes it back inside `parent`.
pub open spec fn code_numbers(changes: Seq<Change>, parent: ContextView, entering: bool) -> Seq<
    nat,
> {
    changes.map_values(
        |change: Change|
            if entering {
                change.apply_number()
            } else {
                change.reset_number(parent)
            },
    )
}

/// The code of each change: the one that makes it where `entering`, else the one that
/// takes it back inside `parent`.
pub open spec fn code_texts(changes: Seq<Change>, parent: ContextView, entering: bool) -> Seq<
    Seq<char>,
> {
    changes.map_values(
        |change: Change|
            if entering {
                change.apply()
            } else {
                change.reset(parent)
            },
    )
}

/// The codes that enter `style` inside `parent`.
pub open spec fn apply_codes(style: StyleView, parent: ContextView) -> Seq<Seq<char>> {
    code_texts(changes(style, parent), parent, true)
}

/// The codes that leave `style` and restore `parent`.
pub open spec fn reset_codes(style: StyleView, parent: ContextView) -> Seq<Seq<char>> {
    code_texts(changes(style, parent), parent, false)
}

/// Each decoration as the change that switches it on.
pub open spec fn decorating(items: Seq<Decoration>) -> Seq<Change> {
    items.map_values(|item: Decoration| Change::Decorate(item))
}

/// Codes with a `;` between each two.
pub open spec fn joined(codes: Seq<Seq<char>>) -> Seq<char>
    decreases codes.len(),
{
    if codes.len() == 0 {
        Seq::empty()
    } else if codes.len() == 1 {
        codes[0]
    } else {
        joined(codes.drop_last()) + seq![';'] + codes.last()
    }
}

/// The escape sequence that carries `codes`: nothing at all where there is no code, else
/// `ESC [`, the codes with `;` between them, and `m`.
pub open spec fn sequence(codes: Seq<Seq<char>>) -> Seq<char> {
    if codes.len() == 0 {
        Seq::empty()
    } else {
        "\x1b["@ + joined(codes) + seq!['m']
    }
}

/// The style context inside a span with `style` that stands in `parent`: a color that
/// `style` sets replaces the one of `parent`, the decorations of `style` join those of
/// `parent`.
pub open spec fn extended(parent: ContextView, style: StyleView) -> ContextView {
    ContextView {
        foreground: match style.foreground {
            Some(color) => color,
            None => parent.foreground,
        },
        background: match style.background {
            Some(color) => color,
            None => parent.background,
        },
        decoration: match style.decoration {
            Some(items) => parent.decoration + missing_from(items, parent.decoration),
            None => parent.decoration,
        },
    }
}

/// The views of the codes in a vector.
pub open spec fn texts(codes: Seq<&'static str>) -> Seq<Seq<char>> {
    codes.map_values(|code: &'static str| code@)
}

impl Clone for Style {
    fn clone(&self) -> (copy: Style)
        ensures
            copy@ == self@,
    {
        Style {
            foreground: self.foreground,
            background: self.background,
            decoration: match &self.decoration {
                Some(items) => Some(set_clone(items)),
                None => None,
            },
        }
    }
}

impl Default for Style {
    fn default() -> (style: Style)
        ensures
            style@ == Style::default_view(),
    {
        Style { foreground: None, background: None, decoration: None }
    }
}

impl Style {
    /// The style that sets nothing.
    pub open spec fn default_view() -> StyleView {
        StyleView { foreground: None, background: None, decoration: None }
    }

    /// Whether the style sets nothing at all.
    pub open spec fn empty(self) -> bool {
        &&& self@.foreground is None
        &&& self@.background is None
        &&& self@.decoration matches Some(items) ==> items.len() == 0
    }

    /// Check if the style has any properties
    pub fn is_empty(&self) -> (empty: bool)
        ensures
            empty == self.empty(),
    {
        let has_decorations = match &self.decoration {
            Some(decorations) => set_is_empty(decorations),
            None => true,
        };
        self.foreground.is_none() && self.background.is_none() && has_decorations
    }

    /// Apply the current style to the text
    pub fn apply(&self, parent: &CurrentStyle, output: &mut String)
        ensures
            final(output)@ == old(output)@ + sequence(apply_codes(self@, parent@)),
    {
        if self.is_empty() {
            proof {
                lemma_empty_changes(self@, parent@);
            }
            return ;
        }
        let codes = self.codes(parent, true);
        append_codes(codes, output);
    }

    /// Reset the style to what it was previously
    pub fn reset(&self, parent: &CurrentStyle, output: &mut String)
        ensures
            final(output)@ == old(output)@ + sequence(reset_codes(self@, parent@)),
    {
        if self.is_empty() {
            proof {
                lemma_empty_changes(self@, parent@);
            }
            return ;
        }
        let codes = self.codes(parent, false);
        append_codes(codes, output);
    }

    /// The codes of the changes that the style makes inside `parent`: those that make
    /// them where `entering`, else those that take them back.
    fn codes(&self, parent: &CurrentStyle, entering: bool) -> (codes: Vec<&'static str>)
        ensures
            texts(codes@) == if entering {
                apply_codes(self@, parent@)
            } else {
                reset_codes(self@, parent@)
            },
    {
        // typically we'll only have a foreground and single decoration
        let mut codes: Vec<&'static str> = Vec::with_capacity(2);
        let ghost context = parent@;
        let ghost mut done: Seq<Change> = Seq::empty();

        if let Some(foreground) = self.foreground {
            if foreground != parent.foreground {
                let shown = if entering {
                    foreground
                } else {
                    parent.foreground
                };
                codes.push(shown.foreground_code());
                proof {
                    done = done.push(Change::Foreground(foreground));
                }
            }
        }
        if let Some(background) = self.background {
            if background != parent.background {
                let shown = if entering {
                    background
                } else {
                    parent.background
                };
                codes.push(shown.background_code());
                proof {
                    done = done.push(Change::Background(background));
                }
            }
        }
        assert(texts(codes@) =~= code_texts(done, context, entering));

        if let Some(decorations) = &self.decoration {
            let rest = set_difference(decorations, &parent.decoration);
            let ghost before = done;
            let mut i: usize = 0;
            while i < rest.len()
                invariant
                    i <= rest.len(),
                    done == before + decorating(rest@.take(i as int)),
                    texts(codes@) == code_texts(done, context, entering),
                decreases rest.len() - i,
            {
                let ghost earlier = codes@;
                let ghost changed = done;
                let code = if entering {
                    rest[i].apply_code()
                } else {
                    rest[i].remove_code()
                };
                codes.push(code);
                proof {
                    done = done.push(Change::Decorate(rest[i as int]));
                    assert(rest@.take(i + 1) =~= rest@.take(i as int).push(rest[i as int]));
                    assert(done =~= before + decorating(rest@.take(i + 1)));
                    assert(texts(earlier).len() == changed.len());
                    assert forall|j: int| 0 <= j < codes@.len() implies texts(codes@)[j]
                        == code_texts(done, context, entering)[j] by {
                        if j < earlier.len() {
                            assert(texts(earlier)[j] == code_texts(changed, context, entering)[j]);
                        }
                    }
                }
                i = i + 1;
            }
            assert(rest@.take(i as int) =~= rest@);
        }
        assert(done =~= changes(self@, parent@));
        codes
    }
}

/// The context that a style gives where nothing surrounds it: what it leaves open is the
/// terminal's default, or no decoration.
pub open spec fn resolved(style: StyleView) -> ContextView {
    ContextView {
        foreground: match style.foreground {
            Some(color) => color,
            None => Color::Default,
        },
        background: match style.background {
            Some(color) => color,
            None => Color::Default,
        },
        decoration: match style.decoration {
            Some(items) => items,
            None => Seq::empty(),
        },
    }
}

impl Default for CurrentStyle {
    fn default() -> (current: CurrentStyle)
        ensures
            current@ == (ContextView {
                foreground: Color::Default,
                background: Color::Default,
                decoration: Seq::empty(),
            }),
    {
        CurrentStyle {
            foreground: Color::Default,
            background: Color::Default,
            decoration: set_new(),
        }
    }
}

impl Clone for CurrentStyle {
    fn clone(&self) -> (copy: CurrentStyle)
        ensures
            copy@ == self@,
    {
        CurrentStyle {
            foreground: self.foreground,
            background: self.background,
            decoration: set_clone(&self.decoration),
        }
    }
}

impl CurrentStyle {
    /// Extend the current style with additional styles from a token
    pub fn extend(&self, style: &Style) -> (current: CurrentStyle)
        ensures
            current@ == extended(self@, style@),
    {
        let mut current = self.clone();

        current.foreground = style.foreground.unwrap_or(current.foreground);
        current.background = style.background.unwrap_or(current.background);
        if let Some(decoration) = &style.decoration {
            set_extend(&mut current.decoration, decoration);
        }
        current
    }
}

impl From<Style> for CurrentStyle {
    fn from(style: Style) -> (current: CurrentStyle)
        ensures
            current@ == resolved(style@),
    {
        CurrentStyle {
            foreground: style.foreground.unwrap_or(Color::Default),
            background: style.background.unwrap_or(Color::Default),
            decoration: match style.decoration {
                Some(decoration) => decoration,
                None => set_new(),
            },
        }
    }
}

impl vstd::std_specs::convert::FromSpecImpl<Style> for CurrentStyle {
    open spec fn obeys_from_spec() -> bool {
        false
    }

    open spec fn from_spec(style: Style) -> CurrentStyle {
        arbitrary()
    }
}

/// What is missing from `other` is what `items` holds and `other` does not.
pub proof fn lemma_missing_from(items: Seq<Decoration>, other: Seq<Decoration>, item: Decoration)
    ensures
        missing_from(items, other).contains(item) <==> items.contains(item) && !other.contains(
            item,
        ),
{
    let lacking = |item: Decoration| !other.contains(item);
    let rest = items.filter(lacking);
    if rest.contains(item) {
        let i = choose|i: int| 0 <= i < rest.len() && rest[i] == item;
        items.lemma_filter_pred(lacking, i);
        items.lemma_filter_contains_rev(lacking, item);
    }
    if items.contains(item) && !other.contains(item) {
        let i = choose|i: int| 0 <= i < items.len() && items[i] == item;
        items.lemma_filter_contains(lacking, i);
    }
}

/// Decorations are joined, not replaced: inside a span the decorations of the parent
/// stand as they stood, in their order, and a decoration is on just where the parent
/// or the style has it.
pub proof fn lemma_extended_decorations(parent: ContextView, style: StyleView)
    ensures
        extended(parent, style).decoration.take(parent.decoration.len() as int)
            == parent.decoration,
        forall|item: Decoration|
            extended(parent, style).decoration.contains(item) <==> parent.decoration.contains(
                item,
            ) || (style.decoration matches Some(items) && items.contains(item)),
{
    let inside = extended(parent, style).decoration;
    assert(inside.take(parent.decoration.len() as int) =~= parent.decoration);
    assert forall|item: Decoration|
        inside.contains(item) <==> parent.decoration.contains(item) || (
        style.decoration matches Some(items) && items.contains(item)) by {
        if let Some(items) = style.decoration {
            lemma_missing_from(items, parent.decoration, item);
            vstd::seq_lib::lemma_seq_concat_contains_all_elements(
                parent.decoration,
                missing_from(items, parent.decoration),
                item,
            );
        }
    }
}

/// A style changes nothing inside itself: in the context that it has made there is
/// nothing left for it to set, so a span inside a span of the same style is entered and
/// left without a code, and its context is the one around it.
pub proof fn lemma_style_inside_itself(parent: ContextView, style: StyleView)
    ensures
        changes(style, extended(parent, style)) == Seq::<Change>::empty(),
        extended(extended(parent, style), style) == extended(parent, style),
        sequence(apply_codes(style, extended(parent, style))) == Seq::<char>::empty(),
        sequence(reset_codes(style, extended(parent, style))) == Seq::<char>::empty(),
{
    let inside = extended(parent, style);
    if let Some(items) = style.decoration {
        let rest = missing_from(items, inside.decoration);
        if rest.len() > 0 {
            let item = rest[0];
            assert(rest.contains(item));
            lemma_missing_from(items, inside.decoration, item);
            lemma_missing_from(items, parent.decoration, item);
            vstd::seq_lib::lemma_seq_concat_contains_all_elements(
                parent.decoration,
                missing_from(items, parent.decoration),
                item,
            );
            assert(inside.decoration.contains(item));
        }
        assert(rest =~= Seq::empty());
        assert(inside.decoration + rest =~= inside.decoration);
    }
    assert(changes(style, inside) =~= Seq::<Change>::empty());
}

/// A style that sets nothing changes nothing.
pub proof fn lemma_empty_changes(style: StyleView, parent: ContextView)
    requires
        style.foreground is None,
        style.background is None,
        style.decoration matches Some(items) ==> items.len() == 0,
    ensures
        changes(style, parent).len() == 0,
        sequence(apply_codes(style, parent)) == Seq::<char>::empty(),
        sequence(reset_codes(style, parent)) == Seq::<char>::empty(),
{
    if let Some(items) = style.decoration {
        assert(items =~= Seq::empty());
        reveal_with_fuel(Seq::filter, 1);
        assert(missing_from(items, parent.decoration).len() == 0);
    }
}

/// Append the ANSI codes to the output
fn append_codes(codes: Vec<&'static str>, output: &mut String)
    ensures
        final(output)@ == old(output)@ + sequence(texts(codes@)),
{
    if codes.len() == 0 {
        return ;
    }
    output.append("\x1b[");
    output.append(codes[0]);
    let ghost all = texts(codes@);
    let mut i: usize = 1;
    assert(joined(all.take(1)) == all[0]);
    while i < codes.len()
        invariant
            1 <= i <= codes.len(),
            all == texts(codes@),
            output@ == old(output)@ + "\x1b["@ + joined(all.take(i as int)),
        decreases codes.len() - i,
    {
        output.append(";");
        output.append(codes[i]);
        proof {
            reveal_strlit(";");
            assert(";"@ =~= seq![';']);
            let next = all.take(i + 1);
            assert(next.drop_last() =~= all.take(i as int));
            assert(next.last() == all[i as int]);
        }
        i = i + 1;
    }
    assert(all.take(i as int) =~= all);
    output.append("m");
    proof {
        reveal_strlit("m");
        assert("m"@ =~= seq!['m']);
    }
}

} // verus!

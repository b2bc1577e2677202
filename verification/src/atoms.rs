//! The keywords of a style block: the tags, the names of colors and the names of
//! decorations, in any case of their letters.

use crate::chars::{folded, reads_as};
use crate::lexer::SyntaxKind;
use crate::styles::{Color, Decoration};
use vstd::prelude::*;

verus! {

/// The color that a word names, whatever the case of its letters.
pub open spec fn color_named(word: Seq<char>) -> Option<Color> {
    let w = folded(word);

    if w == "black"@ {
        Some(Color::Black)
    } else if w == "red"@ {
        Some(Color::Red)
    } else if w == "green"@ {
        Some(Color::Green)
    } else if w == "yellow"@ {
        Some(Color::Yellow)
    } else if w == "blue"@ {
        Some(Color::Blue)
    } else if w == "magenta"@ {
        Some(Color::Magenta)
    } else if w == "cyan"@ {
        Some(Color::Cyan)
    } else if w == "white"@ {
        Some(Color::White)
    } else if w == "default"@ {
        Some(Color::Default)
    } else if w == "bright-black"@ {
        Some(Color::BrightBlack)
    } else if w == "bright-red"@ {
        Some(Color::BrightRed)
    } else if w == "bright-green"@ {
        Some(Color::BrightGreen)
    } else if w == "bright-yellow"@ {
        Some(Color::BrightYellow)
    } else if w == "bright-blue"@ {
        Some(Color::BrightBlue)
    } else if w == "bright-magenta"@ {
        Some(Color::BrightMagenta)
    } else if w == "bright-cyan"@ {
        Some(Color::BrightCyan)
    } else if w == "bright-white"@ {
        Some(Color::BrightWhite)
    } else {
        None
    }
}

/// The decoration that a word names, whatever the case of its letters. `faint`,
/// `reverse`, `conceal` and `strikethrough` are second names of dim, invert, hide and
/// strike-through.
pub open spec fn decoration_named(word: Seq<char>) -> Option<Decoration> {
    let w = folded(word);

    if w == "bold"@ {
        Some(Decoration::Bold)
    } else if w == "dim"@ {
        Some(Decoration::Dim)
    } else if w == "faint"@ {
        Some(Decoration::Dim)
    } else if w == "italic"@ {
        Some(Decoration::Italic)
    } else if w == "underline"@ {
        Some(Decoration::Underline)
    } else if w == "slow-blink"@ {
        Some(Decoration::SlowBlink)
    } else if w == "fast-blink"@ {
        Some(Decoration::FastBlink)
    } else if w == "invert"@ {
        Some(Decoration::Invert)
    } else if w == "reverse"@ {
        Some(Decoration::Invert)
    } else if w == "hide"@ {
        Some(Decoration::Hide)
    } else if w == "conceal"@ {
        Some(Decoration::Hide)
    } else if w == "strikethrough"@ {
        Some(Decoration::StrikeThrough)
    } else if w == "strike-through"@ {
        Some(Decoration::StrikeThrough)
    } else {
        None
    }
}

/// Parse a [`Color`]
pub fn color(word: &[char]) -> (found: Option<Color>)
    ensures
        found == color_named(word@),
{
    if reads_as(word, "black") {
        Some(Color::Black)
    } else if reads_as(word, "red") {
        Some(Color::Red)
    } else if reads_as(word, "green") {
        Some(Color::Green)
    } else if reads_as(word, "yellow") {
        Some(Color::Yellow)
    } else if reads_as(word, "blue") {
        Some(Color::Blue)
    } else if reads_as(word, "magenta") {
        Some(Color::Magenta)
    } else if reads_as(word, "cyan") {
        Some(Color::Cyan)
    } else if reads_as(word, "white") {
        Some(Color::White)
    } else if reads_as(word, "default") {
        Some(Color::Default)
    } else if reads_as(word, "bright-black") {
        Some(Color::BrightBlack)
    } else if reads_as(word, "bright-red") {
        Some(Color::BrightRed)
    } else if reads_as(word, "bright-green") {
        Some(Color::BrightGreen)
    } else if reads_as(word, "bright-yellow") {
        Some(Color::BrightYellow)
    } else if reads_as(word, "bright-blue") {
        Some(Color::BrightBlue)
    } else if reads_as(word, "bright-magenta") {
        Some(Color::BrightMagenta)
    } else if reads_as(word, "bright-cyan") {
        Some(Color::BrightCyan)
    } else if reads_as(word, "bright-white") {
        Some(Color::BrightWhite)
    } else {
        None
    }
}

/// Parse a text [`Decoration`]
pub fn decoration(word: &[char]) -> (found: Option<Decoration>)
    ensures
        found == decoration_named(word@),
{
    if reads_as(word, "bold") {
        Some(Decoration::Bold)
    } else if reads_as(word, "dim") {
        Some(Decoration::Dim)
    } else if reads_as(word, "faint") {
        Some(Decoration::Dim)
    } else if reads_as(word, "italic") {
        Some(Decoration::Italic)
    } else if reads_as(word, "underline") {
        Some(Decoration::Underline)
    } else if reads_as(word, "slow-blink") {
        Some(Decoration::SlowBlink)
    } else if reads_as(word, "fast-blink") {
        Some(Decoration::FastBlink)
    } else if reads_as(word, "invert") {
        Some(Decoration::Invert)
    } else if reads_as(word, "reverse") {
        Some(Decoration::Invert)
    } else if reads_as(word, "hide") {
        Some(Decoration::Hide)
    } else if reads_as(word, "conceal") {
        Some(Decoration::Hide)
    } else if reads_as(word, "strikethrough") {
        Some(Decoration::StrikeThrough)
    } else if reads_as(word, "strike-through") {
        Some(Decoration::StrikeThrough)
    } else {
        None
    }
}

/// The kind that a whole word has where it is a keyword, whatever the case of its
/// letters: a specifier tag, the name of a color or the name of a decoration.
pub open spec fn keyword(word: Seq<char>) -> Option<SyntaxKind> {
    let w = folded(word);
    if w == "fg"@ {
        Some(SyntaxKind::ForegroundSpecifier)
    } else if w == "bg"@ {
        Some(SyntaxKind::BackgroundSpecifier)
    } else if w == "deco"@ {
        Some(SyntaxKind::DecorationSpecifier)
    } else if let Some(color) = color_named(word) {
        Some(SyntaxKind::Color(color))
    } else if let Some(decoration) = decoration_named(word) {
        Some(SyntaxKind::Decoration(decoration))
    } else {
        None
    }
}

/// Computes [`keyword`].
pub fn keyword_kind(word: &[char]) -> (kind: Option<SyntaxKind>)
    ensures
        kind == keyword(word@),
{
    if reads_as(word, "fg") {
        Some(SyntaxKind::ForegroundSpecifier)
    } else if reads_as(word, "bg") {
        Some(SyntaxKind::BackgroundSpecifier)
    } else if reads_as(word, "deco") {
        Some(SyntaxKind::DecorationSpecifier)
    } else if let Some(color) = color(word) {
        Some(SyntaxKind::Color(color))
    } else if let Some(decoration) = decoration(word) {
        Some(SyntaxKind::Decoration(decoration))
    } else {
        None
    }
}

} // verus!

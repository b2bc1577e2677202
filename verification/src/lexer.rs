//! The scanner: from source text to classified lexemes with byte spans.

use crate::atoms::{keyword, keyword_kind};
use crate::chars::{
    characters, lemma_offset_bound, lemma_offset_step, offset, slice_of, utf8_width,
};
use crate::error::Span;
use crate::styles::{Color, Decoration};
use vstd::pervasive::unreached;
use vstd::prelude::*;
use vstd::slice::slice_subrange;

verus! {

/// The kinds of lexeme, and the end of the input.
#[derive(Clone, Copy, Debug, PartialEq, Eq, Structural)]
pub enum SyntaxKind {
    /// `[`
    SquareBracketOpen,
    /// `]`
    SquareBracketClose,
    /// `(`
    ParenthesisOpen,
    /// `)`
    ParenthesisClose,
    /// `:`
    Colon,
    /// `;`
    Semicolon,
    /// `,`
    Comma,
    /// `fg`
    ForegroundSpecifier,
    /// `bg`
    BackgroundSpecifier,
    /// `deco`
    DecorationSpecifier,
    /// The name of a color, with the color that it names
    Color(Color),
    /// The name of a decoration, with the decoration that it names
    Decoration(Decoration),
    /// A backslash and the character that it escapes, which is held here
    EscapeCharacter(char),
    /// A backslash and the run of blanks that it removes
    EscapeWhitespace,
    /// Anything else, up to the next backslash or punctuation mark
    Text,
    /// The end of the input
    Eof,
}

impl SyntaxKind {
    /// Whether two kinds are the same but for the value that they hold: any two colors
    /// are of the same kind, and so are any two decorations and any two escaped
    /// characters.
    pub open spec fn same_kind(self, other: SyntaxKind) -> bool {
        match (self, other) {
            (SyntaxKind::Color(_), SyntaxKind::Color(_)) => true,
            (SyntaxKind::Decoration(_), SyntaxKind::Decoration(_)) => true,
            (SyntaxKind::EscapeCharacter(_), SyntaxKind::EscapeCharacter(_)) => true,
            _ => self == other,
        }
    }

    /// Computes [`SyntaxKind::same_kind`].
    pub fn is(&self, other: SyntaxKind) -> (same: bool)
        ensures
            same == self.same_kind(other),
    {
        match (*self, other) {
            (SyntaxKind::Color(_), SyntaxKind::Color(_)) => true,
            (SyntaxKind::Decoration(_), SyntaxKind::Decoration(_)) => true,
            (SyntaxKind::EscapeCharacter(_), SyntaxKind::EscapeCharacter(_)) => true,
            (a, b) => a == b,
        }
    }

    /// The words that stand for a kind in a message.
    pub open spec fn description(self) -> Seq<char> {
        match self {
            SyntaxKind::SquareBracketOpen => "["@,
            SyntaxKind::SquareBracketClose => "]"@,
            SyntaxKind::ParenthesisOpen => "("@,
            SyntaxKind::ParenthesisClose => ")"@,
            SyntaxKind::Colon => ":"@,
            SyntaxKind::Comma => ","@,
            SyntaxKind::Semicolon => ";"@,
            SyntaxKind::ForegroundSpecifier => "foreground specifier"@,
            SyntaxKind::BackgroundSpecifier => "background specifier"@,
            SyntaxKind::DecorationSpecifier => "decoration specifier"@,
            SyntaxKind::Color(_) => "color"@,
            SyntaxKind::Decoration(_) => "decoration"@,
            SyntaxKind::EscapeCharacter(_) => "escape character"@,
            SyntaxKind::EscapeWhitespace => "escape whitespace"@,
            SyntaxKind::Text => "text"@,
            SyntaxKind::Eof => "end of input"@,
        }
    }

    /// The kind in words, for a message.
    pub fn to_string(&self) -> (words: String)
        ensures
            words@ == self.description(),
    {
        let words = match self {
            SyntaxKind::SquareBracketOpen => "[",
            SyntaxKind::SquareBracketClose => "]",
            SyntaxKind::ParenthesisOpen => "(",
            SyntaxKind::ParenthesisClose => ")",
            SyntaxKind::Colon => ":",
            SyntaxKind::Comma => ",",
            SyntaxKind::Semicolon => ";",
            SyntaxKind::ForegroundSpecifier => "foreground specifier",
            SyntaxKind::BackgroundSpecifier => "background specifier",
            SyntaxKind::DecorationSpecifier => "decoration specifier",
            SyntaxKind::Color(_) => "color",
            SyntaxKind::Decoration(_) => "decoration",
            SyntaxKind::EscapeCharacter(_) => "escape character",
            SyntaxKind::EscapeWhitespace => "escape whitespace",
            SyntaxKind::Text => "text",
            SyntaxKind::Eof => "end of input",
        };
        words.to_owned()
    }
}

/// A classified piece of the source.
#[derive(Clone, Debug, PartialEq, Eq)]
pub struct Lexeme {
    /// What the piece is
    pub kind: SyntaxKind,
    /// The piece itself
    pub text: String,
    /// Where the piece stands, in bytes
    pub span: Span,
}

/// A backslash that starts no escape sequence.
#[derive(Clone, Copy, Debug, PartialEq, Eq, Structural)]
pub struct LexError {
    /// The character after the backslash, or the backslash itself where the input ends
    /// with it
    pub character: char,
    /// Where the backslash stands, in bytes
    pub span: Span,
}

/// The blanks that a backslash removes.
pub open spec fn is_blank(c: char) -> bool {
    c == ' ' || c == '\t' || c == '\r' || c == '\n'
}

/// The characters that a backslash makes literal.
pub open spec fn is_escapable(c: char) -> bool {
    c == '\\' || c == '[' || c == ']' || c == '(' || c == ')'
}

/// The kind of a punctuation mark.
pub open spec fn punctuation(c: char) -> Option<SyntaxKind> {
    if c == '[' {
        Some(SyntaxKind::SquareBracketOpen)
    } else if c == ']' {
        Some(SyntaxKind::SquareBracketClose)
    } else if c == '(' {
        Some(SyntaxKind::ParenthesisOpen)
    } else if c == ')' {
        Some(SyntaxKind::ParenthesisClose)
    } else if c == ':' {
        Some(SyntaxKind::Colon)
    } else if c == ';' {
        Some(SyntaxKind::Semicolon)
    } else if c == ',' {
        Some(SyntaxKind::Comma)
    } else {
        None
    }
}

/// The characters that no word holds: the backslash and the punctuation marks.
pub open spec fn ends_word(c: char) -> bool {
    c == '\\' || punctuation(c) is Some
}

/// Where the word that holds position `from` ends: at the first character from there on
/// that no word holds, or at the end of the source.
pub open spec fn word_end(source: Seq<char>, from: int) -> int
    decreases source.len() - from,
{
    if from < 0 || from >= source.len() || ends_word(source[from]) {
        from
    } else {
        word_end(source, from + 1)
    }
}

/// Where the run of blanks from position `from` ends.
pub open spec fn blank_end(source: Seq<char>, from: int) -> int
    decreases source.len() - from,
{
    if from < 0 || from >= source.len() || !is_blank(source[from]) {
        from
    } else {
        blank_end(source, from + 1)
    }
}

/// What stands at a position of the source.
pub struct Scan {
    /// The kind of the lexeme; for a backslash that starts no escape sequence,
    /// [`SyntaxKind::EscapeCharacter`] with the character that follows it, or with the
    /// backslash where nothing follows
    pub kind: SyntaxKind,
    /// The position behind it
    pub end: int,
    /// Whether it is a lexeme
    pub valid: bool,
}

/// The lexeme that starts at position `at` of the source, for `0 <= at < source.len()`.
///
/// A punctuation mark is a lexeme by itself. A backslash takes the escapable character
/// behind it, or else the whole run of blanks behind it; with neither it is no lexeme
/// and stands alone. Anything else is a word that runs up to the next backslash or
/// punctuation mark: a keyword where the whole word is one, text where it is not.
pub open spec fn scan(source: Seq<char>, at: int) -> Scan {
    let c = source[at];
    if let Some(kind) = punctuation(c) {
        Scan { kind, end: at + 1, valid: true }
    } else if c == '\\' {
        if at + 1 < source.len() && is_escapable(source[at + 1]) {
            Scan { kind: SyntaxKind::EscapeCharacter(source[at + 1]), end: at + 2, valid: true }
        } else if at + 1 < source.len() && is_blank(source[at + 1]) {
            Scan { kind: SyntaxKind::EscapeWhitespace, end: blank_end(source, at + 1), valid: true }
        } else {
            Scan {
                kind: SyntaxKind::EscapeCharacter(
                    if at + 1 < source.len() {
                        source[at + 1]
                    } else {
                        '\\'
                    },
                ),
                end: at + 1,
                valid: false,
            }
        }
    } else {
        let end = word_end(source, at);
        Scan {
            kind: match keyword(source.subrange(at, end)) {
                Some(kind) => kind,
                None => SyntaxKind::Text,
            },
            end,
            valid: true,
        }
    }
}

/// The bytes between two positions of the source. (The offsets of a source that a
/// [`Lexer`] was made for fit a `usize`.)
pub open spec fn span_between(source: Seq<char>, from: int, to: int) -> Span {
    Span { start: offset(source, from) as usize, end: offset(source, to) as usize }
}

/// Whether `item` is what a lexer hands out at position `at` of the source: nothing at
/// the end, else the lexeme that [`scan`] finds with its text and span, or the failure.
pub open spec fn lexed(item: Option<Result<Lexeme, LexError>>, source: Seq<char>, at: int) -> bool {
    if at >= source.len() {
        item is None
    } else {
        let found = scan(source, at);
        let span = span_between(source, at, found.end);
        if found.valid {
            item matches Some(Ok(lexeme)) && lexeme.kind == found.kind && lexeme.text@
                == source.subrange(at, found.end) && lexeme.span == span
        } else {
            item matches Some(Err(error)) && SyntaxKind::EscapeCharacter(error.character)
                == found.kind && error.span == span
        }
    }
}

/// Every lexeme holds at least one character and ends inside the source.
pub proof fn lemma_scan_advances(source: Seq<char>, at: int)
    requires
        0 <= at < source.len(),
    ensures
        at < scan(source, at).end <= source.len(),
{
    lemma_word_end(source, at);
    if at + 1 < source.len() {
        lemma_blank_end(source, at + 1);
    }
}

/// A word ends at or behind the position where it is asked for, inside the source.
pub proof fn lemma_word_end(source: Seq<char>, from: int)
    requires
        0 <= from <= source.len(),
    ensures
        from <= word_end(source, from) <= source.len(),
        from < source.len() && !ends_word(source[from]) ==> from < word_end(source, from),
    decreases source.len() - from,
{
    if from < source.len() && !ends_word(source[from]) {
        lemma_word_end(source, from + 1);
    }
}

/// A run of blanks ends at or behind the position where it is asked for, inside the
/// source.
pub proof fn lemma_blank_end(source: Seq<char>, from: int)
    requires
        0 <= from <= source.len(),
    ensures
        from <= blank_end(source, from) <= source.len(),
        from < source.len() && is_blank(source[from]) ==> from < blank_end(source, from),
    decreases source.len() - from,
{
    if from < source.len() && is_blank(source[from]) {
        lemma_blank_end(source, from + 1);
    }
}

/// Computes [`punctuation`].
fn punctuation_kind(c: char) -> (kind: Option<SyntaxKind>)
    ensures
        kind == punctuation(c),
{
    if c == '[' {
        Some(SyntaxKind::SquareBracketOpen)
    } else if c == ']' {
        Some(SyntaxKind::SquareBracketClose)
    } else if c == '(' {
        Some(SyntaxKind::ParenthesisOpen)
    } else if c == ')' {
        Some(SyntaxKind::ParenthesisClose)
    } else if c == ':' {
        Some(SyntaxKind::Colon)
    } else if c == ';' {
        Some(SyntaxKind::Semicolon)
    } else if c == ',' {
        Some(SyntaxKind::Comma)
    } else {
        None
    }
}

/// Computes [`is_blank`].
fn blank(c: char) -> (yes: bool)
    ensures
        yes == is_blank(c),
{
    c == ' ' || c == '\t' || c == '\r' || c == '\n'
}

/// Computes [`is_escapable`].
fn escapable(c: char) -> (yes: bool)
    ensures
        yes == is_escapable(c),
{
    c == '\\' || c == '[' || c == ']' || c == '(' || c == ')'
}

/// What the scanner found at its position: [`Scan`] with machine integers, and the byte
/// offset of the end.
struct Found {
    kind: SyntaxKind,
    end: usize,
    end_offset: usize,
    valid: bool,
}

/// A place in the source: so many characters in, which take so many bytes.
#[derive(Clone, Copy)]
struct Cursor {
    position: usize,
    offset: usize,
}

/// Turns source text into lexemes, one at each call of [`Lexer::next`].
pub struct Lexer {
    source: Vec<char>,
    cursor: Cursor,
}

impl Lexer {
    /// The characters of the source.
    pub closed spec fn source(&self) -> Seq<char> {
        self.source@
    }

    /// How many characters have been handed out.
    pub closed spec fn position(&self) -> int {
        self.cursor.position as int
    }

    #[verifier::type_invariant]
    spec fn coherent(&self) -> bool {
        &&& self.cursor.position <= self.source@.len()
        &&& self.cursor.offset == offset(self.source@, self.cursor.position as int)
        &&& offset(self.source@, self.source@.len() as int) <= usize::MAX
    }

    /// A lexer at the start of `input`.
    pub fn new(input: &str) -> (lexer: Lexer)
        ensures
            lexer.source() == input@,
            lexer.position() == 0,
            offset(input@, input@.len() as int) <= usize::MAX,
    {
        let source = characters(input);
        proof {
            assert(source@.take(0) =~= Seq::<char>::empty());
        }
        Lexer { source, cursor: Cursor { position: 0, offset: 0 } }
    }

    /// What stands at the position of the lexer, which is not the end.
    fn scan(&self) -> (found: Found)
        requires
            self.position() < self.source().len(),
        ensures
            found.kind == scan(self.source(), self.position()).kind,
            found.end == scan(self.source(), self.position()).end,
            found.valid == scan(self.source(), self.position()).valid,
            found.end_offset == offset(self.source(), found.end as int),
            self.position() < found.end <= self.source().len(),
    {
        proof {
            use_type_invariant(self);
            lemma_scan_advances(self.source@, self.cursor.position as int);
            lemma_offset_step(self.source@, self.cursor.position as int);
            lemma_offset_bound(self.source@, self.cursor.position as int + 1);
        }
        let at = self.cursor.position;
        let len = self.source.len();
        let c = self.source[at];
        let behind = self.cursor.offset + utf8_width(c);
        if let Some(kind) = punctuation_kind(c) {
            Found { kind, end: at + 1, end_offset: behind, valid: true }
        } else if c == '\\' {
            if at + 1 < self.source.len() && escapable(self.source[at + 1]) {
                proof {
                    lemma_offset_step(self.source@, at + 1);
                    lemma_offset_bound(self.source@, at + 2);
                }
                Found {
                    kind: SyntaxKind::EscapeCharacter(self.source[at + 1]),
                    end: at + 2,
                    end_offset: behind + utf8_width(self.source[at + 1]),
                    valid: true,
                }
            } else if at + 1 < self.source.len() && blank(self.source[at + 1]) {
                let mut end = at + 1;
                let mut end_offset = behind;
                while end < self.source.len() && blank(self.source[end])
                    invariant
                        at + 1 <= end <= self.source@.len(),
                        blank_end(self.source@, end as int) == blank_end(self.source@, at + 1),
                        end_offset == offset(self.source@, end as int),
                        offset(self.source@, self.source@.len() as int) <= usize::MAX,
                    decreases self.source@.len() - end,
                {
                    proof {
                        lemma_offset_step(self.source@, end as int);
                        lemma_offset_bound(self.source@, end + 1);
                    }
                    end_offset = end_offset + utf8_width(self.source[end]);
                    end = end + 1;
                }
                Found { kind: SyntaxKind::EscapeWhitespace, end, end_offset, valid: true }
            } else {
                let character = if at + 1 < self.source.len() {
                    self.source[at + 1]
                } else {
                    '\\'
                };
                Found {
                    kind: SyntaxKind::EscapeCharacter(character),
                    end: at + 1,
                    end_offset: behind,
                    valid: false,
                }
            }
        } else {
            let mut end = at + 1;
            let mut end_offset = behind;
            while end < self.source.len() && !ends(self.source[end])
                invariant
                    at + 1 <= end <= self.source@.len(),
                    word_end(self.source@, end as int) == word_end(self.source@, at as int),
                    end_offset == offset(self.source@, end as int),
                    offset(self.source@, self.source@.len() as int) <= usize::MAX,
                decreases self.source@.len() - end,
            {
                proof {
                    lemma_offset_step(self.source@, end as int);
                    lemma_offset_bound(self.source@, end + 1);
                }
                end_offset = end_offset + utf8_width(self.source[end]);
                end = end + 1;
            }
            let word = slice_subrange(self.source.as_slice(), at, end);
            let kind = match keyword_kind(word) {
                Some(kind) => kind,
                None => SyntaxKind::Text,
            };
            Found { kind, end, end_offset, valid: true }
        }
    }

    /// The lexeme or the failure that `found` stands for at the position of the lexer.
    fn item(&self, found: &Found) -> (item: Option<Result<Lexeme, LexError>>)
        requires
            self.position() < self.source().len(),
            found.kind == scan(self.source(), self.position()).kind,
            found.end == scan(self.source(), self.position()).end,
            found.valid == scan(self.source(), self.position()).valid,
            found.end_offset == offset(self.source(), found.end as int),
        ensures
            lexed(item, self.source(), self.position()),
    {
        proof {
            use_type_invariant(self);
            lemma_scan_advances(self.source@, self.cursor.position as int);
        }
        let span = Span { start: self.cursor.offset, end: found.end_offset };
        if found.valid {
            let text = slice_of(&self.source, self.cursor.position, found.end);
            Some(Ok(Lexeme { kind: found.kind, text, span }))
        } else {
            match found.kind {
                SyntaxKind::EscapeCharacter(character) => Some(Err(LexError { character, span })),
                _ => unreached(),
            }
        }
    }

    /// The lexeme at the position of the lexer, which stays where it is.
    pub fn peek(&self) -> (item: Option<Result<Lexeme, LexError>>)
        ensures
            0 <= self.position() <= self.source().len(),
            lexed(item, self.source(), self.position()),
    {
        proof {
            use_type_invariant(self);
        }
        if self.cursor.position >= self.source.len() {
            return None;
        }
        let found = self.scan();
        self.item(&found)
    }

    /// The kind of the lexeme at the position of the lexer, which stays where it is:
    /// `None` at the end of the input, `Err` with the offending character at a
    /// backslash that starts no escape sequence.
    pub fn peek_kind(&self) -> (kind: Option<Result<SyntaxKind, char>>)
        ensures
            0 <= self.position() <= self.source().len(),
            self.position() == self.source().len() ==> kind is None,
            self.position() < self.source().len() ==> {
                let found = scan(self.source(), self.position());
                if found.valid {
                    kind == Some(Ok::<SyntaxKind, char>(found.kind))
                } else {
                    kind matches Some(Err(c)) && SyntaxKind::EscapeCharacter(c) == found.kind
                }
            },
    {
        proof {
            use_type_invariant(self);
        }
        if self.cursor.position >= self.source.len() {
            return None;
        }
        let found = self.scan();
        if found.valid {
            Some(Ok(found.kind))
        } else {
            match found.kind {
                SyntaxKind::EscapeCharacter(character) => Some(Err(character)),
                _ => unreached(),
            }
        }
    }

    /// Hands out the lexeme at the position of the lexer and moves behind it.
    pub fn next(&mut self) -> (item: Option<Result<Lexeme, LexError>>)
        ensures
            final(self).source() == old(self).source(),
            0 <= old(self).position() <= final(self).position() <= old(self).source().len(),
            lexed(item, old(self).source(), old(self).position()),
            final(self).position() == if old(self).position() < old(self).source().len() {
                scan(old(self).source(), old(self).position()).end
            } else {
                old(self).position()
            },
    {
        proof {
            use_type_invariant(&*self);
        }
        if self.cursor.position >= self.source.len() {
            return None;
        }
        let found = self.scan();
        let item = self.item(&found);
        self.cursor = Cursor { position: found.end, offset: found.end_offset };
        item
    }
}

/// Computes [`ends_word`].
fn ends(c: char) -> (yes: bool)
    ensures
        yes == ends_word(c),
{
    c == '\\' || punctuation_kind(c).is_some()
}

} // verus!

//! Inline style markup for terminals.
//!
//! Text such as `[fg:red;deco:bold](warning)` is scanned into lexemes, parsed into a
//! tree of styled spans and rendered as a string that carries ANSI escape sequences.
//! A span takes over what the span around it has set, adds its own, and on its way
//! out takes back just what it added.
//!
//! - [`lexer`] classifies the source, [`atoms`] knows its keywords;
//! - [`parser`] builds the tree of [`ast`] tokens, and lists every [`error`] that it
//!   comes across instead of stopping at the first;
//! - [`styles`] holds colors, decorations and the codes that set and unset them;
//! - [`color`] renders the tree, and [`terminal`] says what a terminal makes of the
//!   result.
//!
//! Every function states what it computes over sequences of characters, and is proved
//! to compute it. What is taken on trust from outside stands in [`ordered_set`] and, for
//! one function of the standard library, in [`chars`].

pub mod ast;
pub mod atoms;
pub mod chars;
pub mod codes;
pub mod color;
pub mod error;
pub mod lexer;
pub mod ordered_set;
pub mod parser;
pub mod styles;
pub mod terminal;

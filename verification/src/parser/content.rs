//! The content of a styled span: text between `(` and `)`.

use crate::ast::Tokens;
use crate::lexer::{lemma_scan_advances, SyntaxKind};
use crate::parser::text::{contained, text};
use crate::parser::Parser;
use vstd::prelude::*;

verus! {

/// Parse a piece of styled content
pub fn content(p: &mut Parser) -> (tokens: Option<Tokens>)
    ensures
        final(p).source() == old(p).source(),
        final(p).state() == contained(old(p).source(), old(p).state()).state,
        match tokens {
            Some(tokens) => contained(old(p).source(), old(p).state()).value == Some(tokens@),
            None => contained(old(p).source(), old(p).state()).value is None,
        },
    decreases old(p).source().len() - old(p).state().position, 0int,
{
    proof {
        if 0 <= p.state().position < p.source().len() {
            lemma_scan_advances(p.source(), p.state().position);
        }
    }
    p.expect(SyntaxKind::ParenthesisOpen)?;

    let tokens = text(p)?;

    p.expect(SyntaxKind::ParenthesisClose)?;

    Some(tokens)
}

} // verus!

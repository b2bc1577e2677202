//! A styled span: a style block and the content that it applies to.

use crate::ast::{Token, Tokens};
use crate::parser::content::content;
use crate::parser::style::{lemma_styled_advances, style};
use crate::parser::text::marked;
use crate::parser::Parser;
use vstd::prelude::*;

verus! {

/// Parse a segment of text with styling
pub fn markup(p: &mut Parser) -> (token: Option<Token>)
    ensures
        final(p).source() == old(p).source(),
        final(p).state() == marked(old(p).source(), old(p).state()).state,
        match token {
            Some(token) => marked(old(p).source(), old(p).state()).value == Some(token@),
            None => marked(old(p).source(), old(p).state()).value is None,
        },
    decreases old(p).source().len() - old(p).state().position, 0int,
{
    proof {
        lemma_styled_advances(p.source(), p.state());
    }
    let style = style(p)?;
    let content: Vec<Token> = content(p)?.into();
    Some(Token::Styled { style, content })
}

} // verus!

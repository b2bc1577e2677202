//! The tree of tokens that the parser builds and the renderer walks.

use crate::styles::{Style, StyleView};
use vstd::prelude::*;
use vstd::string::StringExecFns;

verus! {

/// One or more pieces of text that either apply additional styling or inherit from the parent
/// styles.
#[derive(Debug, PartialEq, Eq)]
pub enum Token {
    /// A piece of text that does not modify the styling
    Content(String),
    /// One or more pieces of text that with additional styling
    Styled {
        /// The pieces of text the style applies to
        content: Vec<Token>,
        /// The style to apply
        style: Style,
    },
}

/// A token as a value of mathematics: text as a sequence of characters, children as a
/// sequence of such values.
pub enum TokenView {
    Content(Seq<char>),
    Styled { content: Seq<TokenView>, style: StyleView },
}

impl View for Token {
    type V = TokenView;

    open spec fn view(&self) -> TokenView
        decreases self,
    {
        match self {
            Token::Content(text) => TokenView::Content(text@),
            Token::Styled { content, style } => TokenView::Styled {
                content: views(content@),
                style: style@,
            },
        }
    }
}

impl Clone for Token {
    fn clone(&self) -> (copy: Token)
        ensures
            copy@ == self@,
        decreases self,
    {
        match self {
            Token::Content(text) => Token::Content(text.clone()),
            Token::Styled { content, style } => {
                let mut copies: Vec<Token> = Vec::with_capacity(content.len());
                let mut i: usize = 0;
                while i < content.len()
                    invariant
                        i <= content.len(),
                        copies@.len() == i,
                        forall|j: int| 0 <= j < i ==> copies@[j]@ == content@[j]@,
                        self matches Token::Styled { content: children, .. } && children == content,
                    decreases content.len() - i,
                {
                    copies.push(content[i].clone());
                    i = i + 1;
                }
                let copy = Token::Styled { content: copies, style: style.clone() };
                proof {
                    lemma_views(copies@);
                    lemma_views(content@);
                    assert(views(copies@) =~= views(content@));
                }
                copy
            },
        }
    }
}

/// The views of the tokens of a sequence.
pub open spec fn views(tokens: Seq<Token>) -> Seq<TokenView>
    decreases tokens,
{
    if tokens.len() == 0 {
        Seq::empty()
    } else {
        views(tokens.drop_last()).push(tokens.last()@)
    }
}

/// [`views`] keeps the length and takes the view of each token where it stands.
pub broadcast proof fn lemma_views(tokens: Seq<Token>)
    ensures
        (#[trigger] views(tokens)).len() == tokens.len(),
        forall|i: int| 0 <= i < tokens.len() ==> views(tokens)[i] == tokens[i]@,
    decreases tokens.len(),
{
    if tokens.len() > 0 {
        lemma_views(tokens.drop_last());
        assert(views(tokens) == views(tokens.drop_last()).push(tokens.last()@));
    } else {
        assert(views(tokens) == Seq::<TokenView>::empty());
    }
}

/// `tokens` with `text` at its end: joined to the last token where that is text, else
/// as a new token.
pub open spec fn with_text(tokens: Seq<TokenView>, text: Seq<char>) -> Seq<TokenView> {
    if tokens.len() > 0 && tokens.last() is Content {
        tokens.drop_last().push(TokenView::Content(tokens.last()->Content_0 + text))
    } else {
        tokens.push(TokenView::Content(text))
    }
}

/// Whether no two text tokens stand side by side in `tokens`.
pub open spec fn coalesced(tokens: Seq<TokenView>) -> bool {
    forall|i: int|
        0 <= i < tokens.len() - 1 ==> !(#[trigger] tokens[i] is Content && tokens[i + 1] is Content)
}

/// Whether a token is as the parser builds it: a text token holds at least one
/// character, and the children of a styled token are, down to the leaves.
pub open spec fn tidy(token: TokenView) -> bool
    decreases token,
{
    match token {
        TokenView::Content(text) => text.len() > 0,
        TokenView::Styled { content, .. } => tidy_all(content),
    }
}

/// Whether tokens are as the parser builds them: no two text tokens stand side by side,
/// and each token is [`tidy`].
pub open spec fn tidy_all(tokens: Seq<TokenView>) -> bool
    decreases tokens,
{
    &&& coalesced(tokens)
    &&& forall|i: int| 0 <= i < tokens.len() ==> tidy(#[trigger] tokens[i])
}

/// Text that is joined to tidy tokens leaves them tidy.
pub proof fn lemma_with_text_tidy(tokens: Seq<TokenView>, text: Seq<char>)
    requires
        tidy_all(tokens),
        text.len() > 0,
    ensures
        tidy_all(with_text(tokens, text)),
        with_text(tokens, text).len() > 0,
        with_text(tokens, text).last() is Content,
{
    let joined = with_text(tokens, text);
    assert forall|i: int| 0 <= i < joined.len() implies tidy(#[trigger] joined[i]) by {
        if i < joined.len() - 1 {
            assert(joined[i] == tokens[i]);
        }
    }
    assert forall|i: int| 0 <= i < joined.len() - 1 implies !(#[trigger] joined[i] is Content
        && joined[i + 1] is Content) by {
        assert(joined[i] == tokens[i]);
        if i + 1 < joined.len() - 1 {
            assert(joined[i + 1] == tokens[i + 1]);
        }
    }
}

/// A tidy styled token behind tidy tokens leaves them tidy.
pub proof fn lemma_push_tidy(tokens: Seq<TokenView>, token: TokenView)
    requires
        tidy_all(tokens),
        tidy(token),
        token is Styled,
    ensures
        tidy_all(tokens.push(token)),
{
    let longer = tokens.push(token);
    assert forall|i: int| 0 <= i < longer.len() implies tidy(#[trigger] longer[i]) by {
        if i < tokens.len() {
            assert(longer[i] == tokens[i]);
        }
    }
    assert forall|i: int| 0 <= i < longer.len() - 1 implies !(#[trigger] longer[i] is Content
        && longer[i + 1] is Content) by {
        assert(longer[i] == tokens[i]);
        if i + 1 < tokens.len() {
            assert(longer[i + 1] == tokens[i + 1]);
        }
    }
}

/// A sequence of [`Token`]s
#[derive(Debug, PartialEq, Eq)]
pub struct Tokens(Vec<Token>);

impl View for Tokens {
    type V = Seq<TokenView>;

    closed spec fn view(&self) -> Seq<TokenView> {
        views(self.0@)
    }
}

impl Default for Tokens {
    fn default() -> (tokens: Tokens)
        ensures
            tokens@ == Seq::<TokenView>::empty(),
    {
        let tokens = Tokens(Vec::new());
        assert(tokens@ =~= Seq::empty());
        tokens
    }
}

impl From<Vec<Token>> for Tokens {
    fn from(tokens: Vec<Token>) -> (wrapped: Tokens)
        ensures
            wrapped@ == views(tokens@),
    {
        Tokens(tokens)
    }
}

impl vstd::std_specs::convert::FromSpecImpl<Vec<Token>> for Tokens {
    open spec fn obeys_from_spec() -> bool {
        false
    }

    open spec fn from_spec(tokens: Vec<Token>) -> Tokens {
        arbitrary()
    }
}

impl From<Tokens> for Vec<Token> {
    fn from(tokens: Tokens) -> (inner: Vec<Token>)
        ensures
            views(inner@) == tokens@,
    {
        tokens.0
    }
}

impl vstd::std_specs::convert::FromSpecImpl<Tokens> for Vec<Token> {
    open spec fn obeys_from_spec() -> bool {
        false
    }

    open spec fn from_spec(tokens: Tokens) -> Vec<Token> {
        arbitrary()
    }
}

impl Clone for Tokens {
    fn clone(&self) -> (copy: Tokens)
        ensures
            copy@ == self@,
    {
        let mut copies: Vec<Token> = Vec::with_capacity(self.0.len());
        let mut i: usize = 0;
        while i < self.0.len()
            invariant
                i <= self.0.len(),
                copies@.len() == i,
                forall|j: int| 0 <= j < i ==> copies@[j]@ == self.0@[j]@,
            decreases self.0.len() - i,
        {
            copies.push(self.0[i].clone());
            i = i + 1;
        }
        let copy = Tokens(copies);
        proof {
            broadcast use lemma_views;
        }
        assert(copy@ =~= self@);
        copy
    }
}

impl Tokens {
    /// Add a new token to the end of the sequence
    pub fn push(&mut self, token: Token)
        ensures
            final(self)@ == old(self)@.push(token@),
    {
        self.0.push(token);
        proof {
            broadcast use lemma_views;
        }
        assert(self@ =~= old(self)@.push(token@));
    }

    /// Add a string to the end of the sequence
    ///
    /// If the last token in the sequence is an unstyled piece of text, it will be appended directly
    /// to the token. Otherwise, a new content token will be created.
    pub fn push_str(&mut self, s: &str)
        ensures
            final(self)@ == with_text(old(self)@, s@),
    {
        match self.0.pop() {
            Some(Token::Content(mut content)) => {
                content.append(s);
                self.0.push(Token::Content(content));
            },
            Some(styled) => {
                self.0.push(styled);
                self.0.push(Token::Content(s.to_owned()));
            },
            None => self.0.push(Token::Content(s.to_owned())),
        }
        proof {
            broadcast use lemma_views;
        }
        assert(self@ =~= with_text(old(self)@, s@));
    }

    /// Add a character to the end of the sequence
    ///
    /// If the last token in the sequence is an unstyled piece of text, it will be appended directly
    /// to the token. Otherwise, a new content token will be created.
    pub fn push_char(&mut self, ch: char)
        ensures
            final(self)@ == with_text(old(self)@, seq![ch]),
    {
        match self.0.pop() {
            Some(Token::Content(mut content)) => {
                assert(content@.push(ch) =~= content@ + seq![ch]);
                content.push(ch);
                self.0.push(Token::Content(content));
            },
            Some(styled) => {
                self.0.push(styled);
                self.0.push(Token::Content(single(ch)));
            },
            None => self.0.push(Token::Content(single(ch))),
        }
        proof {
            broadcast use lemma_views;
        }
        assert(self@ =~= with_text(old(self)@, seq![ch]));
    }

    /// Add the tokens of another sequence to the end of this one, each as it is
    pub fn extend(&mut self, other: Tokens)
        ensures
            final(self)@ == old(self)@ + other@,
    {
        let ghost added = other@;
        let mut other = other;
        self.0.append(&mut other.0);
        proof {
            broadcast use lemma_views;
        }
        assert(self@ =~= old(self)@ + added);
    }
}

/// The string that holds one character.
fn single(ch: char) -> (text: String)
    ensures
        text@ == seq![ch],
{
    let mut text = String::new();
    text.push(ch);
    assert(text@ =~= seq![ch]);
    text
}

} // verus!

use vstd::prelude::*;
use super::token_type::{Kind, TokenType};

verus! {

/// A classified lexeme together with the source line it was recorded on.
#[derive(Debug)]
pub struct Token {
    token_type: TokenType,
    line: usize,
}

/// The mathematical value of a [`Token`].
pub struct TokenView {
    pub kind: Kind,
    pub line: nat,
}

impl View for Token {
    type V = TokenView;

    closed spec fn view(&self) -> TokenView {
        TokenView { kind: self.token_type@, line: self.line as nat }
    }
}

impl Token {
    /// A token of this type, recorded on this line.
    pub fn new(token_type: TokenType, line: usize) -> (token: Self)
        ensures
            token@ == (TokenView { kind: token_type@, line: line as nat }),
    {
        Self { token_type, line }
    }

    /// What kind of lexeme the token is, with its text where it has one.
    pub fn token_type(&self) -> (kind: &TokenType)
        ensures
            kind@ == self@.kind,
    {
        &self.token_type
    }

    /// The source line the token was recorded on, counted from 1.
    pub fn line(&self) -> (line: usize)
        ensures
            line == self@.line,
    {
        self.line
    }
}

/// A literal value as it stands in the source.
#[derive(Debug)]
pub enum Literal {
    String(String),
    Numeric(String),
}

/// The values of a list of tokens, one by one.
pub open spec fn token_views(tokens: Seq<Token>) -> Seq<TokenView> {
    Seq::new(tokens.len(), |i: int| tokens[i]@)
}

/// Appending one token appends its value.
pub proof fn lemma_token_views_push(tokens: Seq<Token>, token: Token)
    ensures
        token_views(tokens.push(token)) == token_views(tokens).push(token@),
{
    assert(token_views(tokens.push(token)) =~= token_views(tokens).push(token@));
}

} // verus!

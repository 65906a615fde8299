//! The token trees that the attribute and derive expansions read: each
//! token with the text it prints as, groups with their delimiter, their
//! inner tokens and the text of their inner stream.

use vstd::prelude::*;

verus! {

#[derive(Copy, Clone, Debug, PartialEq, Eq, Structural)]
pub enum Delim {
    Paren,
    Brace,
    Bracket,
    Invisible,
}

pub enum TokenKind {
    Ident,
    Punct(char),
    Literal,
    /// A delimited group: its delimiter, its tokens, and the text of the
    /// stream between the delimiters.
    Group(Delim, Vec<Token>, String),
}

pub struct Token {
    pub kind: TokenKind,
    /// What the token prints as.
    pub text: String,
}

pub open spec fn is_punct(t: Token, c: char) -> bool {
    t.kind matches TokenKind::Punct(p) && p == c
}

pub open spec fn is_ident(t: Token) -> bool {
    t.kind is Ident
}

pub open spec fn is_literal(t: Token) -> bool {
    t.kind is Literal
}

pub fn punct_is(t: &Token, c: char) -> (b: bool)
    ensures
        b == is_punct(*t, c),
{
    match t.kind {
        TokenKind::Punct(p) => p == c,
        _ => false,
    }
}

pub fn ident_is(t: &Token) -> (b: bool)
    ensures
        b == is_ident(*t),
{
    match t.kind {
        TokenKind::Ident => true,
        _ => false,
    }
}

pub fn literal_is(t: &Token) -> (b: bool)
    ensures
        b == is_literal(*t),
{
    match t.kind {
        TokenKind::Literal => true,
        _ => false,
    }
}

} // verus!

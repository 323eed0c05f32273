//! Tokens of the source language: a kind from a fixed set, the source
//! position the token starts at, and a numeric or string payload where
//! the kind calls for one.

use vstd::prelude::*;

verus! {

/// The fixed set of token kinds the tokenizer can produce.
#[derive(PartialEq, Eq, Debug, Clone, Copy, Structural)]
pub enum TokenKind {
    Plus,
    Minus,
    Star,
    Div,
    Num,
    Ident,
    LParen,
    RParen,
    LBrace,
    RBrace,
    LBracket,
    RBracket,
    LessThan,
    LessThanOrEqual,
    GreaterThan,
    GreaterThanOrEqual,
    Assign,
    Equal,
    NotEqual,
    Semicolon,
    Return,
    If,
    Else,
    While,
    For,
    Int,
    SizeOf,
    Comma,
    Ampersand,
}

/// A token carries the payload its kind calls for: a value on a numeric
/// literal, a name on an identifier.
pub open spec fn wf_token(t: Token) -> bool {
    &&& (t.kind == TokenKind::Num ==> t.num is Some)
    &&& (t.kind == TokenKind::Ident ==> t.str is Some)
}

/// One token: its position counted in characters from the start of the
/// source, its kind, and its payload. `num` carries the value of a `Num`
/// token; `str` carries the name of an `Ident` token.
#[derive(PartialEq, Eq, Debug)]
pub struct Token {
    pub position: usize,
    pub kind: TokenKind,
    pub num: Option<u32>,
    pub str: Option<String>,
}

impl Clone for Token {
    /// Structural copy: the clone is equal to the original.
    fn clone(&self) -> (r: Self)
        ensures
            r == *self,
    {
        Token {
            position: self.position,
            kind: self.kind,
            num: self.num,
            str: match &self.str {
                Some(s) => Some(s.clone()),
                None => None,
            },
        }
    }
}

impl Token {
    /// A token that is pure syntax: no payload.
    pub fn new_syntax_item(position: usize, kind: TokenKind) -> (r: Self)
        ensures
            r == (Token { position, kind, num: None, str: None }),
    {
        Self { position, kind, num: None, str: None }
    }

    /// A numeric-literal token carrying its value.
    pub fn new_num(position: usize, num: u32) -> (r: Self)
        ensures
            r == (Token { position, kind: TokenKind::Num, num: Some(num), str: None }),
    {
        Self { position, kind: TokenKind::Num, num: Some(num), str: None }
    }

    /// An identifier token carrying its name.
    pub fn new_ident(position: usize, str: &str) -> (r: Self)
        ensures
            r.position == position,
            r.kind == TokenKind::Ident,
            r.num is None,
            r.str matches Some(s) && s@ == str@,
    {
        Self { position, kind: TokenKind::Ident, num: None, str: Some(str.to_owned()) }
    }

    /// The source position the token starts at.
    pub fn position(&self) -> (r: usize)
        ensures
            r == self.position,
    {
        self.position
    }
}

} // verus!

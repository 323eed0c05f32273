//! A peekable cursor over the token stream the tokenizer produced. The
//! `expect_*` operations demand a particular shape of the next token and
//! report an unrecoverable parse error when it is not there.

use vstd::prelude::*;

use crate::errors::ParseError;
use crate::token::{Token, TokenKind};

verus! {

/// The token stream of one compilation and a cursor into it.
#[derive(Debug)]
pub struct TokenList<'a> {
    original_input: &'a str,
    tokens: Vec<Token>,
    pos: usize,
}

impl<'a> TokenList<'a> {
    /// The tokens of the stream, in source order.
    pub closed spec fn toks(self) -> Seq<Token> {
        self.tokens@
    }

    /// The cursor: how many tokens are already consumed.
    pub closed spec fn cur(self) -> int {
        self.pos as int
    }

    /// How many tokens are left to consume.
    pub open spec fn remaining(self) -> nat {
        if self.cur() <= self.toks().len() {
            (self.toks().len() - self.cur()) as nat
        } else {
            0
        }
    }

    /// The kind of the next token, where there is one.
    pub open spec fn peek_kind(self) -> Option<TokenKind> {
        if 0 <= self.cur() < self.toks().len() {
            Some(self.toks()[self.cur()].kind)
        } else {
            None
        }
    }

    /// A new cursor at the start of `tokens`.
    pub fn new(original_input: &'a str, tokens: Vec<Token>) -> (r: Self)
        ensures
            r.toks() == tokens@,
            r.cur() == 0,
            r.toks().len() <= usize::MAX,
    {
        proof {
            assert(tokens@.len() == tokens.len());
        }
        Self { original_input, tokens, pos: 0 }
    }

    /// Consumes and returns the next token; `None` at the end of the
    /// stream.
    pub fn next(&mut self) -> (r: Option<Token>)
        ensures
            final(self).toks() == old(self).toks(),
            old(self).cur() < old(self).toks().len() ==> r == Some(
                old(self).toks()[old(self).cur()],
            ) && final(self).cur() == old(self).cur() + 1,
            old(self).cur() >= old(self).toks().len() ==> r is None && *final(self) == *old(self),
    {
        if self.pos >= self.tokens.len() {
            None
        } else {
            let token = self.tokens[self.pos].clone();
            self.advance();
            Some(token)
        }
    }

    /// Whether the whole stream is consumed.
    pub fn at_end(&self) -> (r: bool)
        ensures
            r == (self.cur() >= self.toks().len()),
    {
        self.pos >= self.tokens.len()
    }

    /// The next token without consuming it.
    pub fn peek(&self) -> (r: Option<Token>)
        ensures
            self.cur() < self.toks().len() ==> r == Some(self.toks()[self.cur()]),
            self.cur() >= self.toks().len() ==> r is None,
    {
        if self.pos < self.tokens.len() {
            Some(self.tokens[self.pos].clone())
        } else {
            None
        }
    }

    /// Consumes the next token exactly when it has the demanded kind.
    pub fn try_consume(&mut self, kind: &TokenKind) -> (r: Option<Token>)
        ensures
            final(self).toks() == old(self).toks(),
            old(self).peek_kind() == Some(*kind) ==> r == Some(old(self).toks()[old(self).cur()])
                && final(self).cur() == old(self).cur() + 1,
            old(self).peek_kind() != Some(*kind) ==> r is None && *final(self) == *old(self),
    {
        let next = self.peek();
        if let Some(next) = next {
            if next.kind == *kind {
                self.next()
            } else {
                None
            }
        } else {
            None
        }
    }

    /// Consumes the next token, which must have the demanded kind; any
    /// other shape of the stream is an unrecoverable parse error.
    pub fn expect_kind(&mut self, kind: &TokenKind) -> (r: Result<Token, ParseError>)
        ensures
            final(self).toks() == old(self).toks(),
            old(self).peek_kind() == Some(*kind) ==> r == Ok::<Token, ParseError>(
                old(self).toks()[old(self).cur()],
            ) && final(self).cur() == old(self).cur() + 1,
            old(self).peek_kind() != Some(*kind) ==> r is Err && *final(self) == *old(self),
            r is Err ==> (old(self).cur() < old(self).toks().len() ==> r == Err::<
                Token,
                ParseError,
            >(ParseError::UnexpectedToken {
                position: old(self).toks()[old(self).cur()].position,
            })) && (old(self).cur() >= old(self).toks().len() ==> r == Err::<Token, ParseError>(
                ParseError::UnexpectedEof,
            )),
    {
        let next = self.peek();
        if let Some(next) = next {
            if next.kind == *kind {
                self.advance();
                Ok(next)
            } else {
                Err(ParseError::UnexpectedToken { position: next.position })
            }
        } else {
            Err(ParseError::UnexpectedEof)
        }
    }

    /// Consumes the next token, which must be a numeric literal, and
    /// returns its value; anything else is an unrecoverable parse error.
    pub fn expect_num(&mut self) -> (r: Result<u32, ParseError>)
        ensures
            final(self).toks() == old(self).toks(),
            ({
                let t = old(self).toks()[old(self).cur()];
                &&& (old(self).cur() < old(self).toks().len() && t.kind == TokenKind::Num
                    && t.num is Some ==> r == Ok::<u32, ParseError>(t.num->0) && final(self).cur()
                    == old(self).cur() + 1)
                &&& (!(old(self).cur() < old(self).toks().len() && t.kind == TokenKind::Num
                    && t.num is Some) ==> r is Err && *final(self) == *old(self))
            }),
    {
        let next_token = self.peek();
        match next_token {
            Some(token) => {
                if token.kind == TokenKind::Num {
                    match token.num {
                        Some(n) => {
                            self.advance();
                            Ok(n)
                        },
                        None => Err(ParseError::ExpectedNumber { position: token.position }),
                    }
                } else {
                    Err(ParseError::ExpectedNumber { position: token.position })
                }
            },
            None => Err(ParseError::UnexpectedEof),
        }
    }

    fn advance(&mut self)
        requires
            old(self).cur() < old(self).toks().len(),
        ensures
            final(self).toks() == old(self).toks(),
            final(self).cur() == old(self).cur() + 1,
    {
        let n = self.tokens.len();
        assert(self.pos < n);
        self.pos += 1;
    }
}

} // verus!

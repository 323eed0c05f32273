//! Lexical scanning of source text into a token stream. The scanner
//! walks the characters of the source, skipping whitespace, matching the
//! longest symbolic operator, then digit runs as numeric literals, then
//! alphanumeric-or-underscore runs as keywords or identifiers. The first
//! character at which no token can start abandons the compilation.

use vstd::prelude::*;
use vstd::string::StringExecFns;

use crate::errors::TokenizeError;
use crate::text::{char_digit, chars_to_string, digits_value, str_to_chars};
use crate::token::{wf_token, Token, TokenKind};
use crate::token_list::TokenList;

verus! {

/// What `char::is_whitespace` holds of a character; the classification
/// depends on the character alone.
pub uninterp spec fn char_whitespace(c: char) -> bool;

/// What `char::is_numeric` holds of a character; the classification
/// depends on the character alone.
pub uninterp spec fn char_numeric(c: char) -> bool;

/// What `char::is_alphanumeric` holds of a character; the classification
/// depends on the character alone.
pub uninterp spec fn char_alphanumeric(c: char) -> bool;

/// Relies on `char::is_whitespace`: the Unicode white-space
/// classification of one character.
#[verifier::external_body]
fn char_is_whitespace(c: char) -> (r: bool)
    ensures
        r == char_whitespace(c),
{
    c.is_whitespace()
}

/// Relies on `char::is_numeric`: the Unicode numeric classification of
/// one character.
#[verifier::external_body]
fn char_is_numeric(c: char) -> (r: bool)
    ensures
        r == char_numeric(c),
{
    c.is_numeric()
}

/// Relies on `char::is_alphanumeric`: the Unicode alphanumeric
/// classification of one character.
#[verifier::external_body]
fn char_is_alphanumeric(c: char) -> (r: bool)
    ensures
        r == char_alphanumeric(c),
{
    c.is_alphanumeric()
}

/// A token is tied to the source at its position: every token starts at
/// a real character; a numeric token's value is the decimal reading of a
/// digit run starting at its position; an identifier's name is a run of
/// source characters starting at its position.
pub open spec fn token_from_src(t: Token, src: Seq<char>) -> bool {
    &&& t.position < src.len()
    &&& (t.kind == TokenKind::Num ==> exists|end: int|
        t.position < end <= src.len() && t.num == Some(
            (digits_value(#[trigger] src.subrange(t.position as int, end))) as u32,
        ))
    &&& (t.kind == TokenKind::Ident ==> exists|end: int|
        t.position < end <= src.len() && (t.str matches Some(w) && w@ == #[trigger] src.subrange(
            t.position as int,
            end,
        )))
}

/// The scanner over one source text.
pub struct Tokenizer<'a> {
    original_input: &'a str,
    chars: Vec<char>,
    pos: usize,
}

impl<'a> Tokenizer<'a> {
    /// The characters of the source.
    pub closed spec fn src(self) -> Seq<char> {
        self.chars@
    }

    /// How many characters are consumed so far.
    pub closed spec fn at(self) -> int {
        self.pos as int
    }

    /// The cursor lies within the source.
    pub open spec fn wf_scan(self) -> bool {
        0 <= self.at() <= self.src().len()
    }

    /// A scanner at the start of `input`.
    pub fn new(input: &'a str) -> (r: Tokenizer<'a>)
        ensures
            r.src() == input@,
            r.at() == 0,
    {
        Self { original_input: input, chars: str_to_chars(input), pos: 0 }
    }

    /// Scans the whole source into a token stream. Numeric and identifier
    /// tokens always carry their payload.
    pub fn tokenize(self) -> (r: Result<TokenList<'a>, TokenizeError>)
        requires
            self.wf_scan(),
        ensures
            r matches Ok(tl) ==> tl.cur() == 0 && tl.toks().len() <= usize::MAX && (forall|i: int|
                0 <= i < tl.toks().len() ==> wf_token(#[trigger] tl.toks()[i])) && (forall|i: int|
                0 <= i < tl.toks().len() ==> token_from_src(#[trigger] tl.toks()[i], self.src())),
            self.src().len() == 0 ==> (r matches Ok(tl) && tl.toks().len() == 0),
    {
        let mut this = self;
        let mut tokens: Vec<Token> = Vec::new();
        loop
            invariant
                this.wf_scan(),
                this.src() == self.src(),
                self.src().len() == 0 ==> tokens@.len() == 0,
                forall|i: int| 0 <= i < tokens@.len() ==> wf_token(#[trigger] tokens@[i]),
                forall|i: int|
                    0 <= i < tokens@.len() ==> token_from_src(#[trigger] tokens@[i], self.src()),
            decreases this.src().len() - this.at(),
        {
            this.skip_whitespace();
            if this.pos >= this.chars.len() {
                break;
            }
            let current_position = this.pos;
            let c = this.chars[this.pos];
            let consumed: Option<TokenKind> = match c {
                '<' => {
                    this.advance();
                    if this.try_consume('=') {
                        Some(TokenKind::LessThanOrEqual)
                    } else {
                        Some(TokenKind::LessThan)
                    }
                },
                '>' => {
                    this.advance();
                    if this.try_consume('=') {
                        Some(TokenKind::GreaterThanOrEqual)
                    } else {
                        Some(TokenKind::GreaterThan)
                    }
                },
                '=' => {
                    this.advance();
                    if this.try_consume('=') {
                        Some(TokenKind::Equal)
                    } else {
                        Some(TokenKind::Assign)
                    }
                },
                '!' => {
                    if this.pos + 1 < this.chars.len() && this.chars[this.pos + 1] == '=' {
                        this.advance();
                        this.advance();
                        Some(TokenKind::NotEqual)
                    } else {
                        None
                    }
                },
                '+' => {
                    this.advance();
                    Some(TokenKind::Plus)
                },
                '-' => {
                    this.advance();
                    Some(TokenKind::Minus)
                },
                '*' => {
                    this.advance();
                    Some(TokenKind::Star)
                },
                '/' => {
                    this.advance();
                    Some(TokenKind::Div)
                },
                '(' => {
                    this.advance();
                    Some(TokenKind::LParen)
                },
                ')' => {
                    this.advance();
                    Some(TokenKind::RParen)
                },
                '{' => {
                    this.advance();
                    Some(TokenKind::LBrace)
                },
                '}' => {
                    this.advance();
                    Some(TokenKind::RBrace)
                },
                '[' => {
                    this.advance();
                    Some(TokenKind::LBracket)
                },
                ']' => {
                    this.advance();
                    Some(TokenKind::RBracket)
                },
                ';' => {
                    this.advance();
                    Some(TokenKind::Semicolon)
                },
                ',' => {
                    this.advance();
                    Some(TokenKind::Comma)
                },
                '&' => {
                    this.advance();
                    Some(TokenKind::Ampersand)
                },
                _ => None,
            };
            if let Some(kind) = consumed {
                tokens.push(Token::new_syntax_item(current_position, kind));
                continue;
            }
            if let Some(num) = this.try_consume_digits() {
                tokens.push(Token::new_num(current_position, num));
                continue;
            }
            if let Some(word) = this.try_consume_alnum_or_underscore() {
                // Keywords are carved out of the identifier space here.
                let kind = Self::keyword_kind(&word);
                match kind {
                    Some(k) => tokens.push(Token::new_syntax_item(current_position, k)),
                    None => tokens.push(Token::new_ident(current_position, word.as_str())),
                }
                continue;
            }
            // No token can start here; the whole compilation is abandoned.
            return Err(TokenizeError::UnknownToken { position: current_position });
        }
        Ok(TokenList::new(this.original_input, tokens))
    }

    /// The keyword a word spells, if any; never a payload-carrying kind.
    fn keyword_kind(word: &String) -> (r: Option<TokenKind>)
        ensures
            r matches Some(k) ==> k != TokenKind::Num && k != TokenKind::Ident,
    {
        if *word == String::from_str("return") {
            Some(TokenKind::Return)
        } else if *word == String::from_str("if") {
            Some(TokenKind::If)
        } else if *word == String::from_str("else") {
            Some(TokenKind::Else)
        } else if *word == String::from_str("while") {
            Some(TokenKind::While)
        } else if *word == String::from_str("for") {
            Some(TokenKind::For)
        } else if *word == String::from_str("int") {
            Some(TokenKind::Int)
        } else if *word == String::from_str("sizeof") {
            Some(TokenKind::SizeOf)
        } else {
            None
        }
    }

    /// Steps over the character under the cursor.
    fn advance(&mut self)
        requires
            old(self).wf_scan(),
            old(self).at() < old(self).src().len(),
        ensures
            final(self).src() == old(self).src(),
            final(self).at() == old(self).at() + 1,
            final(self).wf_scan(),
    {
        let n = self.chars.len();
        assert(self.pos < n);
        self.pos += 1;
    }

    /// Steps over the run of whitespace characters under the cursor.
    fn skip_whitespace(&mut self)
        requires
            old(self).wf_scan(),
        ensures
            final(self).src() == old(self).src(),
            old(self).at() <= final(self).at(),
            final(self).wf_scan(),
    {
        loop
            invariant
                self.wf_scan(),
                self.src() == old(self).src(),
                old(self).at() <= self.at(),
            decreases self.src().len() - self.at(),
        {
            if self.pos < self.chars.len() && char_is_whitespace(self.chars[self.pos]) {
                self.advance();
            } else {
                return ;
            }
        }
    }

    /// Consumes the character under the cursor exactly when it is `c`.
    fn try_consume(&mut self, c: char) -> (r: bool)
        requires
            old(self).wf_scan(),
        ensures
            final(self).src() == old(self).src(),
            final(self).wf_scan(),
            r ==> old(self).at() < old(self).src().len() && old(self).src()[old(self).at()] == c
                && final(self).at() == old(self).at() + 1,
            !r ==> *final(self) == *old(self),
    {
        if self.pos < self.chars.len() && self.chars[self.pos] == c {
            self.advance();
            true
        } else {
            false
        }
    }

    /// Consumes a run of numeric characters as a numeric literal whose
    /// value is the decimal reading of the consumed characters. The run
    /// counts only when it is all ASCII digits and its value fits the
    /// numeric payload; otherwise nothing is consumed and the run falls
    /// through to identifier scanning.
    fn try_consume_digits(&mut self) -> (r: Option<u32>)
        requires
            old(self).wf_scan(),
        ensures
            final(self).src() == old(self).src(),
            final(self).wf_scan(),
            r matches Some(v) ==> old(self).at() < final(self).at() && v == digits_value(
                old(self).src().subrange(old(self).at(), final(self).at()),
            ),
            r is None ==> *final(self) == *old(self),
    {
        let mut end = self.pos;
        let n = self.chars.len();
        let mut value: u32 = 0;
        let mut fits = true;
        while end < n && char_is_numeric(self.chars[end])
            invariant
                self.pos <= end <= n,
                n == self.src().len(),
                self.wf_scan(),
                *self == *old(self),
                fits ==> value == digits_value(
                    self.src().subrange(self.pos as int, end as int),
                ) && value <= 0x7fffffff,
            decreases n - end,
        {
            let c = self.chars[end];
            // Only ASCII digits form a number the payload can carry; the
            // literal's value is bounded like a 32-bit signed integer.
            let maybe_digit: Option<u32> = match c {
                '0' => Some(0),
                '1' => Some(1),
                '2' => Some(2),
                '3' => Some(3),
                '4' => Some(4),
                '5' => Some(5),
                '6' => Some(6),
                '7' => Some(7),
                '8' => Some(8),
                '9' => Some(9),
                _ => None,
            };
            match maybe_digit {
                None => {
                    fits = false;
                },
                Some(digit) => {
                    if fits {
                        if value > (0x7fffffffu32 - digit) / 10 {
                            fits = false;
                        } else {
                            proof {
                                let run = self.src().subrange(self.pos as int, end + 1);
                                assert(run.drop_last() =~= self.src().subrange(
                                    self.pos as int,
                                    end as int,
                                ));
                                assert(run.last() == c);
                                assert(char_digit(c) == digit);
                                assert(value * 10 <= 0x7fffffff - digit) by (nonlinear_arith)
                                    requires
                                        value <= (0x7fffffff - digit) / 10,
                                        0 <= digit <= 9,
                                ;
                            }
                            value = value * 10 + digit;
                        }
                    }
                },
            }
            end = end + 1;
        }
        if end == self.pos || !fits {
            return None;
        }
        self.pos = end;
        Some(value)
    }

    /// Consumes a run of alphanumeric-or-underscore characters and
    /// returns exactly those characters as a word; `None` when the
    /// character under the cursor starts no such run.
    fn try_consume_alnum_or_underscore(&mut self) -> (r: Option<String>)
        requires
            old(self).wf_scan(),
        ensures
            final(self).src() == old(self).src(),
            final(self).wf_scan(),
            r matches Some(w) ==> old(self).at() < final(self).at() && w@ == old(
                self,
            ).src().subrange(old(self).at(), final(self).at()),
            r is None ==> *final(self) == *old(self),
    {
        let mut word: Vec<char> = Vec::new();
        let start = self.pos;
        let n = self.chars.len();
        let mut end = start;
        while end < n && (char_is_alphanumeric(self.chars[end]) || self.chars[end] == '_')
            invariant
                start <= end <= n,
                n == self.src().len(),
                self.wf_scan(),
                *self == *old(self),
                word@ == self.src().subrange(start as int, end as int),
            decreases n - end,
        {
            word.push(self.chars[end]);
            end = end + 1;
            proof {
                assert(word@ =~= self.src().subrange(start as int, end as int));
            }
        }
        if end == start {
            return None;
        }
        self.pos = end;
        Some(chars_to_string(&word))
    }
}

} // verus!

//! Error values of the compiler. Every error is unrecoverable: the caller
//! reports one diagnostic and abandons the whole compilation. The core
//! never terminates the process itself; it hands these values to its
//! caller instead.

use vstd::prelude::*;

verus! {

/// A character at which no token can start.
#[derive(PartialEq, Eq, Debug)]
pub enum TokenizeError {
    UnknownToken { position: usize },
}

impl Clone for TokenizeError {
    /// Structural copy: the clone is equal to the original.
    fn clone(&self) -> (r: Self)
        ensures
            r == *self,
    {
        match self {
            TokenizeError::UnknownToken { position } => TokenizeError::UnknownToken {
                position: *position,
            },
        }
    }
}

/// A syntactic or semantic error found while parsing. Each carries the
/// source position of the offending token where one is at hand.
#[derive(PartialEq, Eq, Debug)]
pub enum ParseError {
    /// A token of an unexpected kind where the grammar demanded another.
    UnexpectedToken { position: usize },
    /// A numeric literal was demanded and something else stood there.
    ExpectedNumber { position: usize },
    /// The token stream ended in the middle of a production.
    UnexpectedEof,
    /// An identifier that no local or global declaration binds.
    UndefinedVariable { name: String },
    /// The left side of an assignment does not denote a storage location,
    /// or has array type (arrays are not assignable as whole values).
    InvalidLvalue { position: usize },
    /// Dereference or address arithmetic on a value of non-reference type.
    NotReferenceType { position: usize },
    /// A declared type is too large for its size to be computed.
    TypeTooLarge { position: usize },
    /// The declared locals outgrow the representable stack frame.
    TooManyLocals { position: usize },
}

impl Clone for ParseError {
    /// Structural copy: the clone is equal to the original.
    fn clone(&self) -> (r: Self)
        ensures
            r == *self,
    {
        match self {
            ParseError::UnexpectedToken { position } => ParseError::UnexpectedToken {
                position: *position,
            },
            ParseError::ExpectedNumber { position } => ParseError::ExpectedNumber {
                position: *position,
            },
            ParseError::UnexpectedEof => ParseError::UnexpectedEof,
            ParseError::UndefinedVariable { name } => ParseError::UndefinedVariable {
                name: name.clone(),
            },
            ParseError::InvalidLvalue { position } => ParseError::InvalidLvalue {
                position: *position,
            },
            ParseError::NotReferenceType { position } => ParseError::NotReferenceType {
                position: *position,
            },
            ParseError::TypeTooLarge { position } => ParseError::TypeTooLarge {
                position: *position,
            },
            ParseError::TooManyLocals { position } => ParseError::TooManyLocals {
                position: *position,
            },
        }
    }
}

/// Any way a compilation can fail.
#[derive(PartialEq, Eq, Debug)]
pub enum CompileError {
    Tokenize(TokenizeError),
    Parse(ParseError),
}

impl Clone for CompileError {
    /// Structural copy: the clone is equal to the original.
    fn clone(&self) -> (r: Self)
        ensures
            r == *self,
    {
        match self {
            CompileError::Tokenize(e) => CompileError::Tokenize(e.clone()),
            CompileError::Parse(e) => CompileError::Parse(e.clone()),
        }
    }
}

} // verus!

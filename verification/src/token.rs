//! The token model: one lexical unit of source text.

use vstd::prelude::*;
use vstd::string::*;

verus! {

/// Lexical category of a token.
#[derive(Clone, Copy, Debug, PartialEq, Eq, Structural)]
pub enum TokenType {
    // Single-character tokens.
    LeftParen,
    RightParen,
    LeftBrace,
    RightBrace,
    Comma,
    Dot,
    Minus,
    Plus,
    Semicolon,
    Slash,
    Star,
    // One or two character tokens.
    Bang,
    BangEqual,
    Equal,
    EqualEqual,
    Greater,
    GreaterEqual,
    Less,
    LessEqual,
    // Literals.
    Identifier,
    String,
    Number,
    // Keywords.
    And,
    Class,
    Else,
    False,
    For,
    Fun,
    If,
    Nil,
    Or,
    Print,
    Return,
    Super,
    This,
    True,
    Var,
    While,
    // Diagnostics and end of input.
    Error,
    Eof,
}

/// One lexical unit: its category, its text and the line it starts on.
///
/// For an `Error` token `content` is the diagnostic message, for every other
/// token the exact slice of source text.
#[derive(Clone, Debug, PartialEq, Eq)]
pub struct Token {
    pub token_type: TokenType,
    pub content: String,
    pub line: usize,
}

impl Token {
    /// Builds a token that owns a copy of `content`.
    pub fn new(token_type: TokenType, content: &str, line: usize) -> (token: Token)
        ensures
            token.token_type == token_type,
            token.content@ == content@,
            token.line == line,
    {
        Token { token_type, content: String::from_str(content), line }
    }
}

} // verus!

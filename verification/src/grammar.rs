//! The lexical grammar, stated over sequences of characters.
//!
//! Everything here is ghost code: it says which token starts at a given
//! position of a source text and where the next one is to be looked for.

use crate::token::TokenType;
use vstd::prelude::*;

verus! {

/// The character at index `i`, or NUL outside the text. NUL therefore marks
/// the end of input, wherever it stands.
pub open spec fn char_at(src: Seq<char>, i: int) -> char {
    if 0 <= i < src.len() {
        src[i]
    } else {
        '\0'
    }
}

pub open spec fn is_digit(c: char) -> bool {
    '0' <= c && c <= '9'
}

pub open spec fn is_alpha(c: char) -> bool {
    ('a' <= c && c <= 'z') || ('A' <= c && c <= 'Z')
}

pub open spec fn is_alnum(c: char) -> bool {
    is_alpha(c) || is_digit(c)
}

/// The kinds of character that a token takes as long as they last.
pub enum CharClass {
    /// A decimal digit.
    Digit,
    /// A letter or a decimal digit.
    Alnum,
    /// Anything up to the end of the line or of the input.
    CommentBody,
    /// Anything up to a double quote or the end of the input.
    StringBody,
}

impl CharClass {
    pub open spec fn holds(self, c: char) -> bool {
        match self {
            CharClass::Digit => is_digit(c),
            CharClass::Alnum => is_alnum(c),
            CharClass::CommentBody => c != '\n' && c != '\0',
            CharClass::StringBody => c != '"' && c != '\0',
        }
    }
}

/// First position at or after `pos` whose character is not of `class`: the
/// end of the longest run of such characters that starts at `pos`.
pub open spec fn run_end(src: Seq<char>, pos: int, class: CharClass) -> int
    decreases src.len() - pos,
{
    if 0 <= pos < src.len() && class.holds(src[pos]) {
        run_end(src, pos + 1, class)
    } else {
        pos
    }
}

/// A run ends no earlier than it starts and inside the text; all of its
/// characters are of the class, and the one after it is not.
pub proof fn lemma_run_end(src: Seq<char>, pos: int, class: CharClass)
    requires
        0 <= pos <= src.len(),
    ensures
        pos <= run_end(src, pos, class) <= src.len(),
        forall|i: int| pos <= i < run_end(src, pos, class) ==> class.holds(#[trigger] src[i]),
        !class.holds(char_at(src, run_end(src, pos, class))),
    decreases src.len() - pos,
{
    if pos < src.len() && class.holds(src[pos]) {
        lemma_run_end(src, pos + 1, class);
    }
}

/// Number of line feeds among the characters from `from` up to, not
/// including, `to`.
pub open spec fn newlines(src: Seq<char>, from: int, to: int) -> nat
    decreases to - from,
{
    if from < to {
        newlines(src, from, to - 1) + if char_at(src, to - 1) == '\n' {
            1nat
        } else {
            0nat
        }
    } else {
        0
    }
}

/// Where the next token starts, and on which line: `pos` and `line` moved
/// past blanks, line feeds and `//` comments. Each line feed passed adds one
/// to the line.
pub open spec fn skip_trivia(src: Seq<char>, pos: int, line: int) -> (int, int)
    decreases src.len() - pos,
{
    let c = char_at(src, pos);
    if !(0 <= pos < src.len()) {
        (pos, line)
    } else if c == ' ' || c == '\r' || c == '\t' {
        skip_trivia(src, pos + 1, line)
    } else if c == '\n' {
        skip_trivia(src, pos + 1, line + 1)
    } else if c == '/' && char_at(src, pos + 1) == '/' {
        let rest = run_end(src, pos + 2, CharClass::CommentBody);
        proof {
            lemma_run_end(src, pos + 2, CharClass::CommentBody);
        }
        skip_trivia(src, rest, line)
    } else {
        (pos, line)
    }
}

/// The reserved word that `text` spells, if it spells one. Only the whole
/// word counts: a longer or shorter one is no keyword.
pub open spec fn keyword(text: Seq<char>) -> Option<TokenType> {
    if text == seq!['a', 'n', 'd'] {
        Some(TokenType::And)
    } else if text == seq!['c', 'l', 'a', 's', 's'] {
        Some(TokenType::Class)
    } else if text == seq!['e', 'l', 's', 'e'] {
        Some(TokenType::Else)
    } else if text == seq!['f', 'a', 'l', 's', 'e'] {
        Some(TokenType::False)
    } else if text == seq!['f', 'o', 'r'] {
        Some(TokenType::For)
    } else if text == seq!['f', 'u', 'n'] {
        Some(TokenType::Fun)
    } else if text == seq!['i', 'f'] {
        Some(TokenType::If)
    } else if text == seq!['n', 'i', 'l'] {
        Some(TokenType::Nil)
    } else if text == seq!['o', 'r'] {
        Some(TokenType::Or)
    } else if text == seq!['p', 'r', 'i', 'n', 't'] {
        Some(TokenType::Print)
    } else if text == seq!['r', 'e', 't', 'u', 'r', 'n'] {
        Some(TokenType::Return)
    } else if text == seq!['s', 'u', 'p', 'e', 'r'] {
        Some(TokenType::Super)
    } else if text == seq!['t', 'h', 'i', 's'] {
        Some(TokenType::This)
    } else if text == seq!['t', 'r', 'u', 'e'] {
        Some(TokenType::True)
    } else if text == seq!['v', 'a', 'r'] {
        Some(TokenType::Var)
    } else if text == seq!['w', 'h', 'i', 'l', 'e'] {
        Some(TokenType::While)
    } else {
        None
    }
}

/// Category of a word: its keyword, or `Identifier`.
pub open spec fn word_kind(text: Seq<char>) -> TokenType {
    match keyword(text) {
        Some(kind) => kind,
        None => TokenType::Identifier,
    }
}

/// End of the number that starts at `pos`: its digits and, where a dot with
/// a digit behind it follows them, that dot and the digits after it.
pub open spec fn number_end(src: Seq<char>, pos: int) -> int {
    let whole = run_end(src, pos, CharClass::Digit);
    if char_at(src, whole) == '.' && is_digit(char_at(src, whole + 1)) {
        run_end(src, whole + 1, CharClass::Digit)
    } else {
        whole
    }
}

/// Message of the `Error` token for a string without its closing quote.
pub open spec fn unterminated_string() -> Seq<char> {
    "Unterminated string."@
}

/// Message of the `Error` token for a character that starts no token.
pub open spec fn unexpected_character(c: char) -> Seq<char> {
    "Unexpected character: '"@.push(c).push('\'')
}

/// Category of the punctuation token that starts with `c`, and its length,
/// given the character `next` that follows it; `None` where `c` starts none.
pub open spec fn punctuation(c: char, next: char) -> Option<(TokenType, int)> {
    if c == '(' {
        Some((TokenType::LeftParen, 1))
    } else if c == ')' {
        Some((TokenType::RightParen, 1))
    } else if c == '{' {
        Some((TokenType::LeftBrace, 1))
    } else if c == '}' {
        Some((TokenType::RightBrace, 1))
    } else if c == ';' {
        Some((TokenType::Semicolon, 1))
    } else if c == ',' {
        Some((TokenType::Comma, 1))
    } else if c == '.' {
        Some((TokenType::Dot, 1))
    } else if c == '-' {
        Some((TokenType::Minus, 1))
    } else if c == '+' {
        Some((TokenType::Plus, 1))
    } else if c == '/' {
        Some((TokenType::Slash, 1))
    } else if c == '*' {
        Some((TokenType::Star, 1))
    } else if c == '!' {
        if next == '=' {
            Some((TokenType::BangEqual, 2))
        } else {
            Some((TokenType::Bang, 1))
        }
    } else if c == '=' {
        if next == '=' {
            Some((TokenType::EqualEqual, 2))
        } else {
            Some((TokenType::Equal, 1))
        }
    } else if c == '<' {
        if next == '=' {
            Some((TokenType::LessEqual, 2))
        } else {
            Some((TokenType::Less, 1))
        }
    } else if c == '>' {
        if next == '=' {
            Some((TokenType::GreaterEqual, 2))
        } else {
            Some((TokenType::Greater, 1))
        }
    } else {
        None
    }
}

/// A token as the grammar defines it, with the place where scanning goes on.
pub struct Lexed {
    /// Category of the token.
    pub kind: TokenType,
    /// Its text: the source slice, or the message of an `Error`.
    pub text: Seq<char>,
    /// Line of its first character.
    pub line: int,
    /// Position just behind it.
    pub end: int,
    /// Line at that position.
    pub end_line: int,
}

/// The token that starts at `pos`, a position that `skip_trivia` gave, on
/// line `line`.
pub open spec fn lex_at(src: Seq<char>, pos: int, line: int) -> Lexed {
    let c = char_at(src, pos);
    if c == '\0' {
        Lexed { kind: TokenType::Eof, text: Seq::empty(), line, end: pos, end_line: line }
    } else if is_alpha(c) {
        let end = run_end(src, pos + 1, CharClass::Alnum);
        let text = src.subrange(pos, end);
        Lexed { kind: word_kind(text), text, line, end, end_line: line }
    } else if is_digit(c) {
        let end = number_end(src, pos + 1);
        Lexed { kind: TokenType::Number, text: src.subrange(pos, end), line, end, end_line: line }
    } else if c == '"' {
        let close = run_end(src, pos + 1, CharClass::StringBody);
        let end_line = line + newlines(src, pos + 1, close);
        if char_at(src, close) == '"' {
            Lexed {
                kind: TokenType::String,
                text: src.subrange(pos, close + 1),
                line,
                end: close + 1,
                end_line,
            }
        } else {
            Lexed {
                kind: TokenType::Error,
                text: unterminated_string(),
                line,
                end: close,
                end_line,
            }
        }
    } else {
        match punctuation(c, char_at(src, pos + 1)) {
            Some((kind, len)) => Lexed {
                kind,
                text: src.subrange(pos, pos + len),
                line,
                end: pos + len,
                end_line: line,
            },
            None => Lexed {
                kind: TokenType::Error,
                text: unexpected_character(c),
                line,
                end: pos + 1,
                end_line: line,
            },
        }
    }
}

/// The token that a scan from `pos` on line `line` yields: the one that
/// starts where the trivia from `pos` on end.
pub open spec fn next_token(src: Seq<char>, pos: int, line: int) -> Lexed {
    let (start, start_line) = skip_trivia(src, pos, line);
    lex_at(src, start, start_line)
}

/// There are no more line feeds in a range than it has characters.
pub proof fn lemma_newlines_bound(src: Seq<char>, from: int, to: int)
    ensures
        newlines(src, from, to) <= if from < to {
            to - from
        } else {
            0
        },
    decreases to - from,
{
    if from < to {
        lemma_newlines_bound(src, from, to - 1);
    }
}

/// Skipping trivia moves forward only, stays inside the text, and counts no
/// more lines than it passes characters.
pub proof fn lemma_skip_trivia_bounds(src: Seq<char>, pos: int, line: int)
    requires
        0 <= pos <= src.len(),
    ensures
        pos <= skip_trivia(src, pos, line).0 <= src.len(),
        line <= skip_trivia(src, pos, line).1,
        skip_trivia(src, pos, line).1 - line <= skip_trivia(src, pos, line).0 - pos,
    decreases src.len() - pos,
{
    let c = char_at(src, pos);
    if !(0 <= pos < src.len()) {
    } else if c == ' ' || c == '\r' || c == '\t' {
        lemma_skip_trivia_bounds(src, pos + 1, line);
    } else if c == '\n' {
        lemma_skip_trivia_bounds(src, pos + 1, line + 1);
    } else if c == '/' && char_at(src, pos + 1) == '/' {
        lemma_run_end(src, pos + 2, CharClass::CommentBody);
        lemma_skip_trivia_bounds(src, run_end(src, pos + 2, CharClass::CommentBody), line);
    }
}

/// A token ends inside the text and no earlier than it starts; every token
/// but `Eof` takes at least one character. Its line is the line it was
/// looked for on, and it passes no more lines than characters.
pub proof fn lemma_lex_at_bounds(src: Seq<char>, pos: int, line: int)
    requires
        0 <= pos <= src.len(),
    ensures
        pos <= lex_at(src, pos, line).end <= src.len(),
        lex_at(src, pos, line).kind != TokenType::Eof ==> pos < lex_at(src, pos, line).end,
        lex_at(src, pos, line).line == line,
        line <= lex_at(src, pos, line).end_line,
        lex_at(src, pos, line).end_line - line <= lex_at(src, pos, line).end - pos,
{
    let c = char_at(src, pos);
    if c == '\0' {
    } else if is_alpha(c) {
        lemma_run_end(src, pos + 1, CharClass::Alnum);
    } else if is_digit(c) {
        lemma_run_end(src, pos + 1, CharClass::Digit);
        let whole = run_end(src, pos + 1, CharClass::Digit);
        if char_at(src, whole) == '.' && is_digit(char_at(src, whole + 1)) {
            lemma_run_end(src, whole + 1, CharClass::Digit);
        }
    } else if c == '"' {
        lemma_run_end(src, pos + 1, CharClass::StringBody);
        lemma_newlines_bound(src, pos + 1, run_end(src, pos + 1, CharClass::StringBody));
    } else {
    }
}

/// The same bounds for a whole scan, trivia and token together.
pub proof fn lemma_next_token_bounds(src: Seq<char>, pos: int, line: int)
    requires
        0 <= pos <= src.len(),
    ensures
        pos <= next_token(src, pos, line).end <= src.len(),
        next_token(src, pos, line).kind != TokenType::Eof ==> pos < next_token(
            src,
            pos,
            line,
        ).end,
        line <= next_token(src, pos, line).line <= next_token(src, pos, line).end_line,
        next_token(src, pos, line).end_line - line <= next_token(src, pos, line).end - pos,
{
    lemma_skip_trivia_bounds(src, pos, line);
    let (start, start_line) = skip_trivia(src, pos, line);
    lemma_lex_at_bounds(src, start, start_line);
}

/// Once a scan has given `Eof`, every further scan gives the same `Eof`
/// again and moves nothing.
pub proof fn lemma_eof_repeats(src: Seq<char>, pos: int, line: int)
    requires
        next_token(src, pos, line).kind == TokenType::Eof,
    ensures
        next_token(
            src,
            next_token(src, pos, line).end,
            next_token(src, pos, line).end_line,
        ) == next_token(src, pos, line),
{
    let (start, start_line) = skip_trivia(src, pos, line);
    assert(char_at(src, start) == '\0');
    assert(skip_trivia(src, start, start_line) == (start, start_line));
}

/// Whether a token of this kind ends a unit: the end of input, or an error.
pub open spec fn ends_unit(kind: TokenType) -> bool {
    kind == TokenType::Eof || kind == TokenType::Error
}

/// The tokens that repeated scans from `pos` on line `line` yield, up to
/// and including the first `Eof` or `Error`.
pub open spec fn token_stream(src: Seq<char>, pos: int, line: int) -> Seq<Lexed>
    decreases src.len() - pos,
    via token_stream_decreases
{
    let token = next_token(src, pos, line);
    if ends_unit(token.kind) || !(0 <= pos <= src.len()) {
        seq![token]
    } else {
        seq![token] + token_stream(src, token.end, token.end_line)
    }
}

#[via_fn]
proof fn token_stream_decreases(src: Seq<char>, pos: int, line: int) {
    if 0 <= pos <= src.len() {
        lemma_next_token_bounds(src, pos, line);
    }
}

/// A token stream is never empty; it ends with its only `Eof` or `Error`.
pub proof fn lemma_token_stream_shape(src: Seq<char>, pos: int, line: int)
    requires
        0 <= pos <= src.len(),
    ensures
        token_stream(src, pos, line).len() >= 1,
        ends_unit(token_stream(src, pos, line).last().kind),
        forall|i: int|
            0 <= i < token_stream(src, pos, line).len() - 1 ==> !ends_unit(
                (#[trigger] token_stream(src, pos, line)[i]).kind,
            ),
    decreases src.len() - pos,
{
    let token = next_token(src, pos, line);
    if !ends_unit(token.kind) {
        lemma_next_token_bounds(src, pos, line);
        lemma_token_stream_shape(src, token.end, token.end_line);
        let rest = token_stream(src, token.end, token.end_line);
        let all = token_stream(src, pos, line);
        assert(all == seq![token] + rest);
        assert(all.last() == rest.last());
        assert forall|i: int| 0 <= i < all.len() - 1 implies !ends_unit((#[trigger] all[i]).kind) by {
            if i > 0 {
                assert(all[i] == rest[i - 1]);
            }
        }
    }
}

} // verus!

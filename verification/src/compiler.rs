//! The front end: scans one unit of source text to its end or to its first
//! error.

use crate::ascii::ascii_only;
use crate::error::InterpretError;
use crate::grammar::{
    ends_unit, lemma_next_token_bounds, lemma_token_stream_shape, next_token, token_stream, Lexed,
};
use crate::scanner::Scanner;
use crate::token::{Token, TokenType};
use vstd::prelude::*;
use vstd::string::*;

verus! {

/// Whether `token` is the token that the grammar defines as `lexed`.
pub open spec fn spells(token: Token, lexed: Lexed) -> bool {
    &&& token.token_type == lexed.kind
    &&& token.content@ == lexed.text
    &&& token.line == lexed.line
}

/// Whether `tokens` are, one by one, the tokens of `stream`.
pub open spec fn spell_all(tokens: Seq<Token>, stream: Seq<Lexed>) -> bool {
    &&& tokens.len() == stream.len()
    &&& forall|i: int| 0 <= i < tokens.len() ==> spells(#[trigger] tokens[i], stream[i])
}

/// The tokens of the unit `source`: those of its ASCII characters, scanned
/// from the start on line 1.
pub open spec fn unit_tokens(source: Seq<char>) -> Seq<Lexed> {
    token_stream(ascii_only(source), 0, 1)
}

/// What compiling a unit comes to, given the token that ended its scan:
/// an `Error` token is a compile error with the token's message.
pub open spec fn succeeds(outcome: Result<(), InterpretError>, last: Lexed) -> bool {
    match outcome {
        Ok(()) => last.kind == TokenType::Eof,
        Err(InterpretError::CompileError(message)) => last.kind == TokenType::Error && message@
            == last.text,
        Err(InterpretError::RuntimeError(_)) => false,
    }
}

/// What the front end made of one unit.
#[derive(Debug)]
pub struct Compilation {
    /// Every token scanned, in order; the last one is the `Eof` or the
    /// `Error` that ended the scan.
    pub tokens: Vec<Token>,
    /// `Ok` where the scan reached the end of the text, the compile error
    /// where it met an `Error` token first.
    pub result: Result<(), InterpretError>,
}

/// Scans `source` token by token until the end of the text or the first
/// `Error` token, whichever comes first.
pub fn compile(source: &str) -> (unit: Compilation)
    requires
        source@.len() < usize::MAX,
    ensures
        spell_all(unit.tokens@, unit_tokens(source@)),
        succeeds(unit.result, unit_tokens(source@).last()),
        unit.tokens@.len() >= 1,
        ends_unit(unit.tokens@.last().token_type),
        forall|i: int|
            0 <= i < unit.tokens@.len() - 1 ==> !ends_unit((#[trigger] unit.tokens@[i]).token_type),
{
    let mut scanner = Scanner::new(source);
    let mut tokens: Vec<Token> = Vec::new();
    let ghost text = ascii_only(source@);
    let ghost mut scanned: Seq<Lexed> = Seq::empty();
    proof {
        source@.lemma_filter_len(|c: char| crate::ascii::is_ascii_char(c));
    }
    loop
        invariant
            text == ascii_only(source@),
            scanner.text() == text,
            0 <= scanner.position() <= text.len(),
            spell_all(tokens@, scanned),
            scanned + token_stream(text, scanner.position(), scanner.line()) == unit_tokens(
                source@,
            ),
        decreases text.len() - scanner.position(),
    {
        let ghost lexed = next_token(text, scanner.position(), scanner.line());
        proof {
            lemma_next_token_bounds(text, scanner.position(), scanner.line());
        }
        let token = scanner.scan_token();
        let kind = token.token_type;
        let message = token.content.clone();
        tokens.push(token);
        proof {
            if ends_unit(lexed.kind) {
                assert(scanned.push(lexed) =~= unit_tokens(source@));
            } else {
                assert(scanned.push(lexed) + token_stream(
                    text,
                    scanner.position(),
                    scanner.line(),
                ) =~= unit_tokens(source@));
            }
            scanned = scanned.push(lexed);
            if ends_unit(lexed.kind) {
                lemma_token_stream_shape(text, 0, 1);
                assert forall|i: int| 0 <= i < tokens@.len() - 1 implies !ends_unit(
                    (#[trigger] tokens@[i]).token_type,
                ) by {
                    assert(spells(tokens@[i], unit_tokens(source@)[i]));
                }
            }
        }
        if kind == TokenType::Error {
            return Compilation { tokens, result: Err(InterpretError::CompileError(message)) };
        }
        if kind == TokenType::Eof {
            return Compilation { tokens, result: Ok(()) };
        }
    }
}

/// Whether the listing of `tokens` shows the line of the token at `index`:
/// it does for the first token and for each one whose line differs from
/// that of the token before it.
pub fn shows_line(tokens: &Vec<Token>, index: usize) -> (shown: bool)
    requires
        index < tokens.len(),
    ensures
        shown == (index == 0 || tokens[index as int].line != tokens[index - 1].line),
{
    index == 0 || tokens[index].line != tokens[index - 1].line
}

/// Interprets one unit of source text. For now that is its compilation:
/// `Ok` where the text scans to its end, the compile error of the first
/// `Error` token otherwise.
pub fn interpret(source: &str) -> (outcome: Result<(), InterpretError>)
    requires
        source@.len() < usize::MAX,
    ensures
        succeeds(outcome, unit_tokens(source@).last()),
{
    compile(source).result
}

} // verus!

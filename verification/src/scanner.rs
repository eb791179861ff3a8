//! The scanner: a cursor over source text that hands out one token per call.

use crate::ascii::{ascii_only, to_ascii_chars};
use crate::grammar::{
    char_at, is_alnum, is_alpha, is_digit, keyword, lemma_run_end, lex_at, newlines,
    next_token, run_end, skip_trivia, word_kind, CharClass,
};
use crate::token::{Token, TokenType};
use vstd::prelude::*;
use vstd::string::*;

verus! {

broadcast use vstd::string::group_string_axioms;

/// Scanning state over one source text.
///
/// The text is held without its non-ASCII characters, so positions count
/// characters and bytes alike.
pub struct Scanner {
    start: usize,
    current: usize,
    line: usize,
    start_line: usize,
    source: String,
}

/// Tests for a decimal digit.
fn is_digit_char(c: char) -> (b: bool)
    ensures
        b == is_digit(c),
{
    '0' <= c && c <= '9'
}

/// Tests for a letter.
fn is_alpha_char(c: char) -> (b: bool)
    ensures
        b == is_alpha(c),
{
    ('a' <= c && c <= 'z') || ('A' <= c && c <= 'Z')
}

/// Tests for a letter or a decimal digit.
fn is_alnum_char(c: char) -> (b: bool)
    ensures
        b == is_alnum(c),
{
    is_alpha_char(c) || is_digit_char(c)
}

impl Scanner {
    #[verifier::type_invariant]
    spec fn inv(&self) -> bool {
        &&& self.source.is_ascii()
        &&& self.source@.len() < usize::MAX
        &&& self.start <= self.current <= self.source@.len()
        &&& 1 <= self.start_line <= self.line <= self.current + 1
    }

    /// The text being scanned.
    pub closed spec fn text(&self) -> Seq<char> {
        self.source@
    }

    /// Position of the next character to be read.
    pub closed spec fn position(&self) -> int {
        self.current as int
    }

    /// Position at which the latest token was looked for.
    pub closed spec fn token_start(&self) -> int {
        self.start as int
    }

    /// Line of the next character to be read, counted from 1.
    pub closed spec fn line(&self) -> int {
        self.line as int
    }

    /// A scanner at the start of `source`, on line 1. The text it scans is
    /// `source` without its non-ASCII characters.
    pub fn new(source: &str) -> (scanner: Scanner)
        requires
            source@.len() < usize::MAX,
        ensures
            scanner.text() == ascii_only(source@),
            scanner.position() == 0,
            scanner.token_start() == 0,
            scanner.line() == 1,
    {
        proof {
            source@.lemma_filter_len(|c: char| crate::ascii::is_ascii_char(c));
        }
        Scanner { start: 0, current: 0, line: 1, start_line: 1, source: to_ascii_chars(source) }
    }

    /// Scans one token: passes blanks, line feeds and `//` comments, then
    /// takes the token that starts there, as `next_token` defines it.
    ///
    /// At the end of the text (or at a NUL character) the token is `Eof`, and
    /// every later call gives `Eof` again. An `Error` token carries its
    /// message as content and does not stop the scanner. A lone `!` is
    /// logical negation and scans as `Bang`.
    pub fn scan_token(&mut self) -> (token: Token)
        ensures
            final(self).text() == old(self).text(),
            final(self).token_start() == skip_trivia(
                old(self).text(),
                old(self).position(),
                old(self).line(),
            ).0,
            ({
                let lexed = next_token(old(self).text(), old(self).position(), old(self).line());
                &&& token.token_type == lexed.kind
                &&& token.content@ == lexed.text
                &&& token.line == lexed.line
                &&& final(self).position() == lexed.end
                &&& final(self).line() == lexed.end_line
            }),
    {
        self.skip_whitespace();
        proof {
            use_type_invariant(&*self);
        }
        self.start = self.current;
        self.start_line = self.line;

        if self.is_at_end() {
            return self.make_token(TokenType::Eof);
        }
        let c = self.advance();
        if is_alpha_char(c) {
            return self.identifier();
        }
        if is_digit_char(c) {
            return self.number();
        }
        match c {
            '(' => self.make_token(TokenType::LeftParen),
            ')' => self.make_token(TokenType::RightParen),
            '{' => self.make_token(TokenType::LeftBrace),
            '}' => self.make_token(TokenType::RightBrace),
            ';' => self.make_token(TokenType::Semicolon),
            ',' => self.make_token(TokenType::Comma),
            '.' => self.make_token(TokenType::Dot),
            '-' => self.make_token(TokenType::Minus),
            '+' => self.make_token(TokenType::Plus),
            '/' => self.make_token(TokenType::Slash),
            '*' => self.make_token(TokenType::Star),
            '!' => {
                if self.match_char('=') {
                    self.make_token(TokenType::BangEqual)
                } else {
                    self.make_token(TokenType::Bang)
                }
            },
            '=' => {
                if self.match_char('=') {
                    self.make_token(TokenType::EqualEqual)
                } else {
                    self.make_token(TokenType::Equal)
                }
            },
            '<' => {
                if self.match_char('=') {
                    self.make_token(TokenType::LessEqual)
                } else {
                    self.make_token(TokenType::Less)
                }
            },
            '>' => {
                if self.match_char('=') {
                    self.make_token(TokenType::GreaterEqual)
                } else {
                    self.make_token(TokenType::Greater)
                }
            },
            '"' => self.string(),
            _ => {
                let mut message = String::from_str("Unexpected character: '");
                message.push(c);
                message.push('\'');
                self.error_token(message.as_str())
            },
        }
    }

    /// Whether nothing is left to read: the text is over, or a NUL stands here.
    fn is_at_end(&self) -> (b: bool)
        ensures
            b == (char_at(self.source@, self.current as int) == '\0'),
    {
        self.peek() == '\0'
    }

    /// The character at the cursor, NUL at the end of the text.
    fn peek(&self) -> (c: char)
        ensures
            c == char_at(self.source@, self.current as int),
    {
        self.get_source_char(self.current)
    }

    /// The character after the one at the cursor; NUL where there is none.
    fn peek_next(&self) -> (c: char)
        ensures
            c == if char_at(self.source@, self.current as int) == '\0' {
                '\0'
            } else {
                char_at(self.source@, self.current + 1)
            },
    {
        proof {
            use_type_invariant(self);
        }
        if self.is_at_end() {
            '\0'
        } else {
            self.get_source_char(self.current + 1)
        }
    }

    /// The character at `index`, NUL outside the text.
    fn get_source_char(&self, index: usize) -> (c: char)
        ensures
            c == char_at(self.source@, index as int),
    {
        proof {
            use_type_invariant(self);
        }
        let text = self.source.as_str();
        proof {
            vstd::string::is_ascii_spec_bytes(text);
        }
        if index < text.len() {
            text.get_ascii(index) as char
        } else {
            '\0'
        }
    }

    /// Moves the cursor over one character and returns it.
    fn advance(&mut self) -> (c: char)
        requires
            old(self).current < old(self).source@.len(),
        ensures
            final(self).source == old(self).source,
            final(self).start == old(self).start,
            final(self).start_line == old(self).start_line,
            final(self).line == old(self).line,
            final(self).current == old(self).current + 1,
            c == old(self).source@[old(self).current as int],
    {
        proof {
            use_type_invariant(&*self);
        }
        self.current += 1;
        self.get_source_char(self.current - 1)
    }

    /// Moves the cursor over the next character if it is `expected`.
    fn match_char(&mut self, expected: char) -> (matched: bool)
        requires
            expected != '\0',
        ensures
            final(self).source == old(self).source,
            final(self).start == old(self).start,
            final(self).start_line == old(self).start_line,
            final(self).line == old(self).line,
            matched == (char_at(old(self).source@, old(self).current as int) == expected),
            final(self).current == if matched {
                old(self).current + 1
            } else {
                old(self).current as int
            },
    {
        proof {
            use_type_invariant(&*self);
        }
        if self.is_at_end() {
            return false;
        }
        if self.peek() != expected {
            return false;
        }
        self.current += 1;
        true
    }

    /// The token of kind `token_type` whose text is the slice from the token's
    /// start to the cursor.
    fn make_token(&self, token_type: TokenType) -> (token: Token)
        ensures
            token.token_type == token_type,
            token.content@ == self.source@.subrange(self.start as int, self.current as int),
            token.line == self.start_line,
    {
        proof {
            use_type_invariant(self);
        }
        let text = self.source.as_str();
        Token::new(token_type, text.substring_ascii(self.start, self.current), self.start_line)
    }

    /// The `Error` token that carries `message`.
    fn error_token(&self, message: &str) -> (token: Token)
        ensures
            token.token_type == TokenType::Error,
            token.content@ == message@,
            token.line == self.start_line,
    {
        Token::new(TokenType::Error, message, self.start_line)
    }

    /// Moves the cursor past blanks, line feeds and `//` comments, counting
    /// the lines.
    fn skip_whitespace(&mut self)
        ensures
            final(self).source == old(self).source,
            final(self).start == old(self).start,
            final(self).start_line == old(self).start_line,
            (final(self).current as int, final(self).line as int) == skip_trivia(
                old(self).source@,
                old(self).current as int,
                old(self).line as int,
            ),
    {
        proof {
            use_type_invariant(&*self);
        }
        loop
            invariant
                self.source == old(self).source,
                self.start == old(self).start,
                self.start_line == old(self).start_line,
                self.current <= self.source@.len(),
                skip_trivia(self.source@, self.current as int, self.line as int) == skip_trivia(
                    old(self).source@,
                    old(self).current as int,
                    old(self).line as int,
                ),
            decreases self.source@.len() - self.current,
        {
            proof {
                use_type_invariant(&*self);
            }
            let c = self.peek();
            match c {
                ' ' | '\r' | '\t' => {
                    self.advance();
                },
                '\n' => {
                    let _ = self.advance();
                    self.line += 1;
                },
                '/' => {
                    if self.peek_next() == '/' {
                        let ghost slash = self.current as int;
                        proof {
                            reveal_with_fuel(run_end, 3);
                            lemma_run_end(self.source@, slash + 2, CharClass::CommentBody);
                        }
                        while self.peek() != '\n' && !self.is_at_end()
                            invariant
                                self.source == old(self).source,
                                self.start == old(self).start,
                                self.start_line == old(self).start_line,
                                slash <= self.current <= self.source@.len(),
                                run_end(
                                    self.source@,
                                    self.current as int,
                                    CharClass::CommentBody,
                                ) == run_end(self.source@, slash + 2, CharClass::CommentBody),
                                skip_trivia(self.source@, slash, self.line as int) == skip_trivia(
                                    old(self).source@,
                                    old(self).current as int,
                                    old(self).line as int,
                                ),
                            decreases self.source@.len() - self.current,
                        {
                            self.advance();
                        }
                    } else {
                        return ;
                    }
                },
                _ => return ,
            }
        }
    }

    /// Scans the rest of a string whose opening quote has been read.
    fn string(&mut self) -> (token: Token)
        requires
            old(self).current == old(self).start + 1,
            old(self).line == old(self).start_line,
            char_at(old(self).source@, old(self).start as int) == '"',
        ensures
            final(self).source == old(self).source,
            final(self).start == old(self).start,
            final(self).start_line == old(self).start_line,
            ({
                let lexed = lex_at(
                    old(self).source@,
                    old(self).start as int,
                    old(self).start_line as int,
                );
                &&& token.token_type == lexed.kind
                &&& token.content@ == lexed.text
                &&& token.line == lexed.line
                &&& final(self).current == lexed.end
                &&& final(self).line == lexed.end_line
            }),
    {
        let ghost body = self.current as int;
        while self.peek() != '"' && !self.is_at_end()
            invariant
                self.source == old(self).source,
                self.start == old(self).start,
                self.start_line == old(self).start_line,
                body == old(self).start + 1,
                body <= self.current <= self.source@.len(),
                self.line == old(self).line + newlines(self.source@, body, self.current as int),
                run_end(self.source@, self.current as int, CharClass::StringBody) == run_end(
                    self.source@,
                    body,
                    CharClass::StringBody,
                ),
            decreases self.source@.len() - self.current,
        {
            proof {
                use_type_invariant(&*self);
            }
            let c = self.advance();
            if c == '\n' {
                self.line += 1;
            }
        }

        if self.is_at_end() {
            proof {
                reveal_strlit("Unterminated string.");
            }
            return self.error_token("Unterminated string.");
        }
        // Closing quote

        self.advance();
        self.make_token(TokenType::String)
    }

    /// Scans the rest of a word whose first letter has been read.
    fn identifier(&mut self) -> (token: Token)
        requires
            old(self).current == old(self).start + 1,
            old(self).line == old(self).start_line,
            is_alpha(char_at(old(self).source@, old(self).start as int)),
        ensures
            final(self).source == old(self).source,
            final(self).start == old(self).start,
            final(self).start_line == old(self).start_line,
            ({
                let lexed = lex_at(
                    old(self).source@,
                    old(self).start as int,
                    old(self).start_line as int,
                );
                &&& token.token_type == lexed.kind
                &&& token.content@ == lexed.text
                &&& token.line == lexed.line
                &&& final(self).current == lexed.end
                &&& final(self).line == lexed.end_line
            }),
    {
        while is_alnum_char(self.peek())
            invariant
                self.source == old(self).source,
                self.start == old(self).start,
                self.start_line == old(self).start_line,
                self.line == old(self).line,
                old(self).start + 1 <= self.current <= self.source@.len(),
                run_end(self.source@, self.current as int, CharClass::Alnum) == run_end(
                    self.source@,
                    old(self).start + 1,
                    CharClass::Alnum,
                ),
            decreases self.source@.len() - self.current,
        {
            self.advance();
        }

        let identifier_type = self.identifier_type();
        self.make_token(identifier_type)
    }

    /// Scans the rest of a number whose first digit has been read.
    fn number(&mut self) -> (token: Token)
        requires
            old(self).current == old(self).start + 1,
            old(self).line == old(self).start_line,
            is_digit(char_at(old(self).source@, old(self).start as int)),
        ensures
            final(self).source == old(self).source,
            final(self).start == old(self).start,
            final(self).start_line == old(self).start_line,
            ({
                let lexed = lex_at(
                    old(self).source@,
                    old(self).start as int,
                    old(self).start_line as int,
                );
                &&& token.token_type == lexed.kind
                &&& token.content@ == lexed.text
                &&& token.line == lexed.line
                &&& final(self).current == lexed.end
                &&& final(self).line == lexed.end_line
            }),
    {
        while is_digit_char(self.peek())
            invariant
                self.source == old(self).source,
                self.start == old(self).start,
                self.start_line == old(self).start_line,
                self.line == old(self).line,
                old(self).start + 1 <= self.current <= self.source@.len(),
                run_end(self.source@, self.current as int, CharClass::Digit) == run_end(
                    self.source@,
                    old(self).start + 1,
                    CharClass::Digit,
                ),
            decreases self.source@.len() - self.current,
        {
            self.advance();
        }

        if self.peek() == '.' && is_digit_char(self.peek_next()) {
            let ghost whole = self.current as int;
            // Consume the '.'
            self.advance();

            while is_digit_char(self.peek())
                invariant
                    self.source == old(self).source,
                    self.start == old(self).start,
                    self.start_line == old(self).start_line,
                    self.line == old(self).line,
                    whole + 1 <= self.current <= self.source@.len(),
                    run_end(self.source@, self.current as int, CharClass::Digit) == run_end(
                        self.source@,
                        whole + 1,
                        CharClass::Digit,
                    ),
                decreases self.source@.len() - self.current,
            {
                self.advance();
            }
        }

        self.make_token(TokenType::Number)
    }

    /// Category of the word between the token's start and the cursor. The
    /// first letter, and for `f` and `t` the second, selects the one keyword
    /// that the word can still be; the rest is compared with it.
    fn identifier_type(&self) -> (kind: TokenType)
        requires
            self.start < self.current,
        ensures
            kind == word_kind(self.source@.subrange(self.start as int, self.current as int)),
    {
        proof {
            use_type_invariant(self);
            let word = self.source@.subrange(self.start as int, self.current as int);
            lemma_keyword_by_head(word);
            assert(word[0] == self.source@[self.start as int]);
            assert(word.subrange(1, word.len() as int) =~= self.source@.subrange(
                self.start + 1,
                self.current as int,
            ));
            if word.len() >= 2 {
                assert(word[1] == self.source@[self.start + 1]);
                assert(word.subrange(2, word.len() as int) =~= self.source@.subrange(
                    self.start + 2,
                    self.current as int,
                ));
            }
        }
        let c = self.get_source_char(self.start);
        match c {
            'a' => {
                proof {
                    reveal_strlit("nd");
                    assert("nd"@ =~= seq!['n', 'd']);
                }
                self.check_keyword(1, 2, "nd", TokenType::And)
            },
            'c' => {
                proof {
                    reveal_strlit("lass");
                    assert("lass"@ =~= seq!['l', 'a', 's', 's']);
                }
                self.check_keyword(1, 4, "lass", TokenType::Class)
            },
            'e' => {
                proof {
                    reveal_strlit("lse");
                    assert("lse"@ =~= seq!['l', 's', 'e']);
                }
                self.check_keyword(1, 3, "lse", TokenType::Else)
            },
            'f' => {
                if self.current - self.start <= 1 {
                    TokenType::Identifier
                } else {
                    let c = self.get_source_char(self.start + 1);
                    match c {
                        'a' => {
                            proof {
                                reveal_strlit("lse");
                                assert("lse"@ =~= seq!['l', 's', 'e']);
                            }
                            self.check_keyword(2, 3, "lse", TokenType::False)
                        },
                        'o' => {
                            proof {
                                reveal_strlit("r");
                                assert("r"@ =~= seq!['r']);
                            }
                            self.check_keyword(2, 1, "r", TokenType::For)
                        },
                        'u' => {
                            proof {
                                reveal_strlit("n");
                                assert("n"@ =~= seq!['n']);
                            }
                            self.check_keyword(2, 1, "n", TokenType::Fun)
                        },
                        _ => TokenType::Identifier,
                    }
                }
            },
            'i' => {
                proof {
                    reveal_strlit("f");
                    assert("f"@ =~= seq!['f']);
                }
                self.check_keyword(1, 1, "f", TokenType::If)
            },
            'n' => {
                proof {
                    reveal_strlit("il");
                    assert("il"@ =~= seq!['i', 'l']);
                }
                self.check_keyword(1, 2, "il", TokenType::Nil)
            },
            'o' => {
                proof {
                    reveal_strlit("r");
                    assert("r"@ =~= seq!['r']);
                }
                self.check_keyword(1, 1, "r", TokenType::Or)
            },
            'p' => {
                proof {
                    reveal_strlit("rint");
                    assert("rint"@ =~= seq!['r', 'i', 'n', 't']);
                }
                self.check_keyword(1, 4, "rint", TokenType::Print)
            },
            'r' => {
                proof {
                    reveal_strlit("eturn");
                    assert("eturn"@ =~= seq!['e', 't', 'u', 'r', 'n']);
                }
                self.check_keyword(1, 5, "eturn", TokenType::Return)
            },
            's' => {
                proof {
                    reveal_strlit("uper");
                    assert("uper"@ =~= seq!['u', 'p', 'e', 'r']);
                }
                self.check_keyword(1, 4, "uper", TokenType::Super)
            },
            't' => {
                if self.current - self.start <= 1 {
                    TokenType::Identifier
                } else {
                    let c = self.get_source_char(self.start + 1);
                    match c {
                        'h' => {
                            proof {
                                reveal_strlit("is");
                                assert("is"@ =~= seq!['i', 's']);
                            }
                            self.check_keyword(2, 2, "is", TokenType::This)
                        },
                        'r' => {
                            proof {
                                reveal_strlit("ue");
                                assert("ue"@ =~= seq!['u', 'e']);
                            }
                            self.check_keyword(2, 2, "ue", TokenType::True)
                        },
                        _ => TokenType::Identifier,
                    }
                }
            },
            'v' => {
                proof {
                    reveal_strlit("ar");
                    assert("ar"@ =~= seq!['a', 'r']);
                }
                self.check_keyword(1, 2, "ar", TokenType::Var)
            },
            'w' => {
                proof {
                    reveal_strlit("hile");
                    assert("hile"@ =~= seq!['h', 'i', 'l', 'e']);
                }
                self.check_keyword(1, 4, "hile", TokenType::While)
            },
            _ => TokenType::Identifier,
        }
    }

    /// `token_type` where the word, from its character `start` on, is `rest`;
    /// `Identifier` otherwise. `length` is the length of `rest`.
    fn check_keyword(&self, start: usize, length: usize, rest: &str, token_type: TokenType) -> (kind:
        TokenType)
        requires
            rest.is_ascii(),
            rest@.len() == length,
            self.start + start <= self.current,
        ensures
            kind == if self.source@.subrange(self.start + start, self.current as int) == rest@ {
                token_type
            } else {
                TokenType::Identifier
            },
    {
        proof {
            use_type_invariant(self);
        }
        let actual = self.source.as_str().substring_ascii(self.start + start, self.current);
        if same_text(actual, rest) {
            token_type
        } else {
            TokenType::Identifier
        }
    }
}

/// Whether two ASCII texts hold the same characters.
fn same_text(a: &str, b: &str) -> (same: bool)
    requires
        a.is_ascii(),
        b.is_ascii(),
        a@.len() <= usize::MAX,
        b@.len() <= usize::MAX,
    ensures
        same == (a@ == b@),
{
    proof {
        vstd::string::is_ascii_spec_bytes(a);
        vstd::string::is_ascii_spec_bytes(b);
    }
    if a.len() != b.len() {
        return false;
    }
    let mut i: usize = 0;
    while i < a.len()
        invariant
            a.is_ascii(),
            b.is_ascii(),
            a@.len() == b@.len(),
            a@.len() == a.spec_bytes().len(),
            i <= a@.len(),
            forall|j: int| 0 <= j < i ==> a@[j] == b@[j],
        decreases a@.len() - i,
    {
        if a.get_ascii(i) != b.get_ascii(i) {
            return false;
        }
        i += 1;
    }
    assert(a@ =~= b@);
    true
}

/// A text is a given word exactly if it starts with the word's first
/// character and goes on with the rest of it.
proof fn lemma_split_first(text: Seq<char>, first: char, rest: Seq<char>)
    ensures
        (text == seq![first] + rest) <==> (text.len() >= 1 && text[0] == first && text.subrange(
            1,
            text.len() as int,
        ) == rest),
{
    let word = seq![first] + rest;
    if text == word {
        assert(text.subrange(1, text.len() as int) =~= rest);
    }
    if text.len() >= 1 && text[0] == first && text.subrange(1, text.len() as int) == rest {
        assert forall|i: int| 0 <= i < text.len() implies text[i] == word[i] by {
            if i >= 1 {
                assert(text[i] == text.subrange(1, text.len() as int)[i - 1]);
            }
        }
        assert(text =~= word);
    }
}

/// The same, for the first two characters.
proof fn lemma_split_second(text: Seq<char>, first: char, second: char, rest: Seq<char>)
    ensures
        (text == seq![first, second] + rest) <==> (text.len() >= 2 && text[0] == first && text[1]
            == second && text.subrange(2, text.len() as int) == rest),
{
    let word = seq![first, second] + rest;
    if text == word {
        assert(text.subrange(2, text.len() as int) =~= rest);
    }
    if text.len() >= 2 && text[0] == first && text[1] == second && text.subrange(
        2,
        text.len() as int,
    ) == rest {
        assert forall|i: int| 0 <= i < text.len() implies text[i] == word[i] by {
            if i >= 2 {
                assert(text[i] == text.subrange(2, text.len() as int)[i - 2]);
            }
        }
        assert(text =~= word);
    }
}

/// The keyword table read by first character: which reserved word a text
/// can be, given how it starts, and what must follow for it to be that word.
proof fn lemma_keyword_by_head(text: Seq<char>)
    requires
        text.len() >= 1,
    ensures
        ({
            let head = text[0];
            let tail = text.subrange(1, text.len() as int);
            let second = char_at(text, 1);
            let rest = text.subrange(2, text.len() as int);
            keyword(text) == if head == 'f' {
                if text.len() < 2 {
                    None
                } else if second == 'a' && rest == seq!['l', 's', 'e'] {
                    Some(TokenType::False)
                } else if second == 'o' && rest == seq!['r'] {
                    Some(TokenType::For)
                } else if second == 'u' && rest == seq!['n'] {
                    Some(TokenType::Fun)
                } else {
                    None
                }
            } else if head == 't' {
                if text.len() < 2 {
                    None
                } else if second == 'h' && rest == seq!['i', 's'] {
                    Some(TokenType::This)
                } else if second == 'r' && rest == seq!['u', 'e'] {
                    Some(TokenType::True)
                } else {
                    None
                }
            } else if head == 'a' {
                if tail == seq!['n', 'd'] {
                    Some(TokenType::And)
                } else {
                    None
                }
            } else if head == 'c' {
                if tail == seq!['l', 'a', 's', 's'] {
                    Some(TokenType::Class)
                } else {
                    None
                }
            } else if head == 'e' {
                if tail == seq!['l', 's', 'e'] {
                    Some(TokenType::Else)
                } else {
                    None
                }
            } else if head == 'i' {
                if tail == seq!['f'] {
                    Some(TokenType::If)
                } else {
                    None
                }
            } else if head == 'n' {
                if tail == seq!['i', 'l'] {
                    Some(TokenType::Nil)
                } else {
                    None
                }
            } else if head == 'o' {
                if tail == seq!['r'] {
                    Some(TokenType::Or)
                } else {
                    None
                }
            } else if head == 'p' {
                if tail == seq!['r', 'i', 'n', 't'] {
                    Some(TokenType::Print)
                } else {
                    None
                }
            } else if head == 'r' {
                if tail == seq!['e', 't', 'u', 'r', 'n'] {
                    Some(TokenType::Return)
                } else {
                    None
                }
            } else if head == 's' {
                if tail == seq!['u', 'p', 'e', 'r'] {
                    Some(TokenType::Super)
                } else {
                    None
                }
            } else if head == 'v' {
                if tail == seq!['a', 'r'] {
                    Some(TokenType::Var)
                } else {
                    None
                }
            } else if head == 'w' {
                if tail == seq!['h', 'i', 'l', 'e'] {
                    Some(TokenType::While)
                } else {
                    None
                }
            } else {
                None
            }
        }),
{
    lemma_split_first(text, 'a', seq!['n', 'd']);
    assert(seq!['a', 'n', 'd'] =~= seq!['a'] + seq!['n', 'd']);
    lemma_split_first(text, 'c', seq!['l', 'a', 's', 's']);
    assert(seq!['c', 'l', 'a', 's', 's'] =~= seq!['c'] + seq!['l', 'a', 's', 's']);
    lemma_split_first(text, 'e', seq!['l', 's', 'e']);
    assert(seq!['e', 'l', 's', 'e'] =~= seq!['e'] + seq!['l', 's', 'e']);
    lemma_split_first(text, 'i', seq!['f']);
    assert(seq!['i', 'f'] =~= seq!['i'] + seq!['f']);
    lemma_split_first(text, 'n', seq!['i', 'l']);
    assert(seq!['n', 'i', 'l'] =~= seq!['n'] + seq!['i', 'l']);
    lemma_split_first(text, 'o', seq!['r']);
    assert(seq!['o', 'r'] =~= seq!['o'] + seq!['r']);
    lemma_split_first(text, 'p', seq!['r', 'i', 'n', 't']);
    assert(seq!['p', 'r', 'i', 'n', 't'] =~= seq!['p'] + seq!['r', 'i', 'n', 't']);
    lemma_split_first(text, 'r', seq!['e', 't', 'u', 'r', 'n']);
    assert(seq!['r', 'e', 't', 'u', 'r', 'n'] =~= seq!['r'] + seq!['e', 't', 'u', 'r', 'n']);
    lemma_split_first(text, 's', seq!['u', 'p', 'e', 'r']);
    assert(seq!['s', 'u', 'p', 'e', 'r'] =~= seq!['s'] + seq!['u', 'p', 'e', 'r']);
    lemma_split_first(text, 'v', seq!['a', 'r']);
    assert(seq!['v', 'a', 'r'] =~= seq!['v'] + seq!['a', 'r']);
    lemma_split_first(text, 'w', seq!['h', 'i', 'l', 'e']);
    assert(seq!['w', 'h', 'i', 'l', 'e'] =~= seq!['w'] + seq!['h', 'i', 'l', 'e']);
    lemma_split_second(text, 'f', 'a', seq!['l', 's', 'e']);
    assert(seq!['f', 'a', 'l', 's', 'e'] =~= seq!['f', 'a'] + seq!['l', 's', 'e']);
    lemma_split_second(text, 'f', 'o', seq!['r']);
    assert(seq!['f', 'o', 'r'] =~= seq!['f', 'o'] + seq!['r']);
    lemma_split_second(text, 'f', 'u', seq!['n']);
    assert(seq!['f', 'u', 'n'] =~= seq!['f', 'u'] + seq!['n']);
    lemma_split_second(text, 't', 'h', seq!['i', 's']);
    assert(seq!['t', 'h', 'i', 's'] =~= seq!['t', 'h'] + seq!['i', 's']);
    lemma_split_second(text, 't', 'r', seq!['u', 'e']);
    assert(seq!['t', 'r', 'u', 'e'] =~= seq!['t', 'r'] + seq!['u', 'e']);
}

} // verus!

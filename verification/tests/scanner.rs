use lox_core::compiler::{compile, shows_line};
use lox_core::{interpret, to_ascii_chars, InterpretError, Scanner, Token, TokenType};

fn scan_all(source: &str) -> Vec<Token> {
    let mut scanner = Scanner::new(source);
    let mut tokens = Vec::new();
    loop {
        let token = scanner.scan_token();
        let last = token.token_type == TokenType::Eof || token.token_type == TokenType::Error;
        tokens.push(token);
        if last {
            return tokens;
        }
    }
}

fn kinds(source: &str) -> Vec<TokenType> {
    scan_all(source).iter().map(|t| t.token_type).collect()
}

fn lexemes(source: &str) -> Vec<String> {
    scan_all(source).iter().map(|t| t.content.clone()).collect()
}

#[test]
fn ascii_filter_keeps_ascii_in_order() {
    assert_eq!(to_ascii_chars("abc"), "abc");
    assert_eq!(to_ascii_chars("h\u{e9}llo w\u{f6}rld"), "hllo wrld");
    assert_eq!(to_ascii_chars("\u{65e5}\u{672c}"), "");
    assert_eq!(to_ascii_chars(""), "");
    assert_eq!(to_ascii_chars("a\u{7f}b\u{80}c"), "a\u{7f}bc");
}

#[test]
fn keyword_and_is_one_token() {
    let tokens = scan_all("and");
    assert_eq!(tokens.len(), 2);
    assert_eq!(tokens[0].token_type, TokenType::And);
    assert_eq!(tokens[0].content, "and");
    assert_eq!(tokens[0].line, 1);
    assert_eq!(tokens[1].token_type, TokenType::Eof);
}

#[test]
fn android_is_an_identifier() {
    let tokens = scan_all("android");
    assert_eq!(tokens.len(), 2);
    assert_eq!(tokens[0].token_type, TokenType::Identifier);
    assert_eq!(tokens[0].content, "android");
    assert_eq!(tokens[1].token_type, TokenType::Eof);
}

#[test]
fn keyword_prefix_is_no_keyword() {
    assert_eq!(kinds("forest"), vec![TokenType::Identifier, TokenType::Eof]);
    assert_eq!(kinds("fo"), vec![TokenType::Identifier, TokenType::Eof]);
    assert_eq!(kinds("f"), vec![TokenType::Identifier, TokenType::Eof]);
    assert_eq!(kinds("t"), vec![TokenType::Identifier, TokenType::Eof]);
    assert_eq!(kinds("an"), vec![TokenType::Identifier, TokenType::Eof]);
    assert_eq!(kinds("And"), vec![TokenType::Identifier, TokenType::Eof]);
    assert_eq!(kinds("classy"), vec![TokenType::Identifier, TokenType::Eof]);
    assert_eq!(kinds("tru"), vec![TokenType::Identifier, TokenType::Eof]);
    assert_eq!(kinds("thi5"), vec![TokenType::Identifier, TokenType::Eof]);
}

#[test]
fn every_keyword_is_recognised() {
    let source = "and class else false for fun if nil or print return super this true var while";
    assert_eq!(
        kinds(source),
        vec![
            TokenType::And,
            TokenType::Class,
            TokenType::Else,
            TokenType::False,
            TokenType::For,
            TokenType::Fun,
            TokenType::If,
            TokenType::Nil,
            TokenType::Or,
            TokenType::Print,
            TokenType::Return,
            TokenType::Super,
            TokenType::This,
            TokenType::True,
            TokenType::Var,
            TokenType::While,
            TokenType::Eof,
        ]
    );
}

#[test]
fn number_with_fraction() {
    let tokens = scan_all("123.45");
    assert_eq!(tokens.len(), 2);
    assert_eq!(tokens[0].token_type, TokenType::Number);
    assert_eq!(tokens[0].content, "123.45");
    assert_eq!(tokens[1].token_type, TokenType::Eof);
}

#[test]
fn trailing_dot_is_not_part_of_a_number() {
    let tokens = scan_all("123.");
    assert_eq!(tokens.len(), 3);
    assert_eq!(tokens[0].token_type, TokenType::Number);
    assert_eq!(tokens[0].content, "123");
    assert_eq!(tokens[1].token_type, TokenType::Dot);
    assert_eq!(tokens[1].content, ".");
    assert_eq!(tokens[2].token_type, TokenType::Eof);
}

#[test]
fn leading_dot_is_not_part_of_a_number() {
    assert_eq!(kinds(".5"), vec![TokenType::Dot, TokenType::Number, TokenType::Eof]);
    assert_eq!(lexemes("1.2.3"), vec!["1.2", ".", "3", ""]);
}

#[test]
fn unterminated_string_is_one_error() {
    let tokens = scan_all("\"abc");
    assert_eq!(tokens.len(), 1);
    assert_eq!(tokens[0].token_type, TokenType::Error);
    assert_eq!(tokens[0].content, "Unterminated string.");
    assert_eq!(tokens[0].line, 1);
}

#[test]
fn string_keeps_its_quotes() {
    let tokens = scan_all("\"abc\" x");
    assert_eq!(tokens[0].token_type, TokenType::String);
    assert_eq!(tokens[0].content, "\"abc\"");
    assert_eq!(tokens[1].token_type, TokenType::Identifier);
    assert_eq!(tokens[1].content, "x");
    assert_eq!(kinds("\"\""), vec![TokenType::String, TokenType::Eof]);
}

#[test]
fn string_over_several_lines() {
    let tokens = scan_all("\n\"a\nb\nc\" d");
    assert_eq!(tokens[0].token_type, TokenType::String);
    assert_eq!(tokens[0].content, "\"a\nb\nc\"");
    assert_eq!(tokens[0].line, 2);
    assert_eq!(tokens[1].content, "d");
    assert_eq!(tokens[1].line, 4);
    assert_eq!(tokens[2].token_type, TokenType::Eof);
    assert_eq!(tokens[2].line, 4);
}

#[test]
fn punctuation_tokens() {
    assert_eq!(
        kinds("(){};,.-+/*"),
        vec![
            TokenType::LeftParen,
            TokenType::RightParen,
            TokenType::LeftBrace,
            TokenType::RightBrace,
            TokenType::Semicolon,
            TokenType::Comma,
            TokenType::Dot,
            TokenType::Minus,
            TokenType::Plus,
            TokenType::Slash,
            TokenType::Star,
            TokenType::Eof,
        ]
    );
}

#[test]
fn one_or_two_character_operators() {
    assert_eq!(
        kinds("! != = == < <= > >="),
        vec![
            TokenType::Bang,
            TokenType::BangEqual,
            TokenType::Equal,
            TokenType::EqualEqual,
            TokenType::Less,
            TokenType::LessEqual,
            TokenType::Greater,
            TokenType::GreaterEqual,
            TokenType::Eof,
        ]
    );
    assert_eq!(lexemes("!===<=>"), vec!["!=", "==", "<=", ">", ""]);
    assert_eq!(kinds("!"), vec![TokenType::Bang, TokenType::Eof]);
    assert_eq!(kinds("!a"), vec![TokenType::Bang, TokenType::Identifier, TokenType::Eof]);
}

#[test]
fn comments_and_blanks_are_skipped() {
    let tokens = scan_all("  // nothing here\n\t x // trailing\r\n/ y");
    assert_eq!(tokens.len(), 4);
    assert_eq!(tokens[0].content, "x");
    assert_eq!(tokens[0].line, 2);
    assert_eq!(tokens[1].token_type, TokenType::Slash);
    assert_eq!(tokens[1].line, 3);
    assert_eq!(tokens[2].content, "y");
    assert_eq!(tokens[3].token_type, TokenType::Eof);
    assert_eq!(kinds("// only a comment"), vec![TokenType::Eof]);
}

#[test]
fn lines_are_counted_from_one() {
    let tokens = scan_all("a\nb\n\nc\n");
    assert_eq!(tokens[0].line, 1);
    assert_eq!(tokens[1].line, 2);
    assert_eq!(tokens[2].line, 4);
    assert_eq!(tokens[3].token_type, TokenType::Eof);
    assert_eq!(tokens[3].line, 5);
}

#[test]
fn unexpected_character_is_reported() {
    let tokens = scan_all("a\n @ b");
    assert_eq!(tokens.len(), 2);
    assert_eq!(tokens[1].token_type, TokenType::Error);
    assert_eq!(tokens[1].content, "Unexpected character: '@'");
    assert_eq!(tokens[1].line, 2);
    assert_eq!(lexemes("_"), vec!["Unexpected character: '_'"]);
}

#[test]
fn scanning_goes_on_after_an_error() {
    let mut scanner = Scanner::new("# x");
    assert_eq!(scanner.scan_token().token_type, TokenType::Error);
    let next = scanner.scan_token();
    assert_eq!(next.token_type, TokenType::Identifier);
    assert_eq!(next.content, "x");
    assert_eq!(scanner.scan_token().token_type, TokenType::Eof);
}

#[test]
fn eof_is_given_again_and_again() {
    let mut scanner = Scanner::new("x");
    assert_eq!(scanner.scan_token().token_type, TokenType::Identifier);
    for _ in 0..3 {
        let token = scanner.scan_token();
        assert_eq!(token.token_type, TokenType::Eof);
        assert_eq!(token.content, "");
        assert_eq!(token.line, 1);
    }
    let mut empty = Scanner::new("");
    assert_eq!(empty.scan_token().token_type, TokenType::Eof);
}

#[test]
fn nul_ends_the_input() {
    assert_eq!(lexemes("a\0b"), vec!["a", ""]);
    assert_eq!(kinds("\"ab\0c\""), vec![TokenType::Error]);
}

#[test]
fn non_ascii_characters_are_dropped_before_scanning() {
    let tokens = scan_all("va\u{e9}r \"na\u{ef}ve\"");
    assert_eq!(tokens[0].token_type, TokenType::Var);
    assert_eq!(tokens[0].content, "var");
    assert_eq!(tokens[1].token_type, TokenType::String);
    assert_eq!(tokens[1].content, "\"nave\"");
}

#[test]
fn token_new_copies_its_text() {
    let token = Token::new(TokenType::Number, "42", 7);
    assert_eq!(token.token_type, TokenType::Number);
    assert_eq!(token.content, "42");
    assert_eq!(token.line, 7);
}

#[test]
fn a_small_program() {
    let source = "var x = 1.5;\nif (x >= 1) { print \"big\"; } else { x = -x; }";
    assert_eq!(
        lexemes(source),
        vec![
            "var", "x", "=", "1.5", ";", "if", "(", "x", ">=", "1", ")", "{", "print", "\"big\"",
            ";", "}", "else", "{", "x", "=", "-", "x", ";", "}", "",
        ]
    );
}

#[test]
fn compile_lists_every_token() {
    let unit = compile("a\nb c\n");
    assert!(unit.result.is_ok());
    assert_eq!(unit.tokens.len(), 4);
    assert_eq!(unit.tokens[3].token_type, TokenType::Eof);
    assert!(shows_line(&unit.tokens, 0));
    assert!(shows_line(&unit.tokens, 1));
    assert!(!shows_line(&unit.tokens, 2));
    assert!(shows_line(&unit.tokens, 3));
}

#[test]
fn compile_stops_at_the_first_error() {
    let unit = compile("a ? b");
    assert_eq!(unit.tokens.len(), 2);
    assert_eq!(unit.tokens[1].token_type, TokenType::Error);
    match unit.result {
        Err(InterpretError::CompileError(message)) => {
            assert_eq!(message, "Unexpected character: '?'")
        }
        other => panic!("unexpected result {:?}", other),
    }
}

#[test]
fn interpret_reports_compile_errors() {
    assert!(interpret("print 1 + 2;").is_ok());
    assert!(interpret("").is_ok());
    match interpret("print \"oops;") {
        Err(InterpretError::CompileError(message)) => assert_eq!(message, "Unterminated string."),
        other => panic!("unexpected result {:?}", other),
    }
}

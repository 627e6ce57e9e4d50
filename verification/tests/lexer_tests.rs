//! The tokenizer: symbols, numbers, brackets, strings, comments and the
//! error cases.

use mlisp::parser::lexer::{FileLexer, LexerError};
use mlisp::parser::tokens::Token;
use mlisp::parser::tokens::Token::{LPAREN, LBRACE, NUMBER, RBRACE, RPAREN, STRING, SYMBOL};

fn tokenize(src: &'static str) -> Vec<Token> {
    FileLexer::new(src, "<test>").tokenize().unwrap()
}

#[test]
fn test_symbol() {
    assert_eq!(tokenize("+"), vec![SYMBOL("+".to_string())]);
    assert_eq!(tokenize("-"), vec![SYMBOL("-".to_string())]);
    assert_eq!(tokenize("*"), vec![SYMBOL("*".to_string())]);
    assert_eq!(tokenize("/"), vec![SYMBOL("/".to_string())]);
}

#[test]
fn test_number() {
    assert_eq!(tokenize("123"), vec![NUMBER(123)]);
}

#[test]
fn test_parens() {
    assert_eq!(tokenize("("), vec![LPAREN]);
    assert_eq!(tokenize(")"), vec![RPAREN]);
}

#[test]
fn braces_and_whitespace() {
    assert_eq!(
        tokenize("{ 1 2 }"),
        vec![LBRACE, NUMBER(1), NUMBER(2), RBRACE]
    );
}

#[test]
fn negative_sign_starts_a_symbol() {
    assert_eq!(tokenize("-123"), vec![SYMBOL("-123".to_string())]);
}

#[test]
fn comments_run_to_the_end_of_the_line() {
    assert_eq!(
        tokenize("1 ; ignored to the end\n2"),
        vec![NUMBER(1), NUMBER(2)]
    );
}

#[test]
fn strings_decode_escapes() {
    assert_eq!(
        tokenize("\"a\\nb\""),
        vec![STRING("a\nb".to_string())]
    );
    assert_eq!(
        tokenize("\"say \\\"hi\\\"\""),
        vec![STRING("say \"hi\"".to_string())]
    );
}

#[test]
fn unterminated_string_is_an_error() {
    let mut lx = FileLexer::new("\"open", "<test>");
    match lx.tokenize() {
        Err(LexerError::UnexpectedChar { expected, found, .. }) => {
            assert_eq!(expected, "\"".to_string());
            assert_eq!(found, "EOF".to_string());
        }
        other => panic!("expected an unexpected-character error, got {:?}", other),
    }
}

#[test]
fn unknown_character_is_an_error() {
    let mut lx = FileLexer::new("~", "<test>");
    match lx.tokenize() {
        Err(LexerError::UnknownToken { token, .. }) => {
            assert_eq!(token, "~".to_string());
        }
        other => panic!("expected an unknown-token error, got {:?}", other),
    }
}

#[test]
fn oversized_number_is_an_invalid_integer() {
    let mut lx = FileLexer::new("99999999999999999999", "<test>");
    match lx.tokenize() {
        Err(LexerError::InvalidInteger { input, .. }) => {
            assert_eq!(input, "99999999999999999999".to_string());
        }
        other => panic!("expected an invalid-integer error, got {:?}", other),
    }
}

#[test]
fn fractional_number_is_an_invalid_integer() {
    let mut lx = FileLexer::new("1.5", "<test>");
    assert!(matches!(
        lx.tokenize(),
        Err(LexerError::InvalidInteger { .. })
    ));
}

#[test]
fn line_numbers_count_newlines() {
    let mut lx = FileLexer::new("1\n~", "<test>");
    match lx.tokenize() {
        Err(LexerError::UnknownToken { location, .. }) => {
            assert_eq!(location.lineno, 2);
        }
        other => panic!("expected an unknown-token error, got {:?}", other),
    }
}

//! Tokens and source locations.

use vstd::prelude::*;
use crate::util::{dec_int, i64_to_string, push_char};

verus! {

/// A token.
#[derive(Debug, Clone)]
pub enum Token {
    LPAREN,
    RPAREN,
    LBRACE,
    RBRACE,
    STRING(String),
    SYMBOL(String),
    NUMBER(i64),
    EOF,
    PLACEHOLDER,
}

/// The mathematical model of a token.
pub enum TokenV {
    LParen,
    RParen,
    LBrace,
    RBrace,
    Str(Seq<char>),
    Sym(Seq<char>),
    Num(int),
    Eof,
    Placeholder,
}

impl View for Token {
    type V = TokenV;

    open spec fn view(&self) -> TokenV {
        match self {
            Token::LPAREN => TokenV::LParen,
            Token::RPAREN => TokenV::RParen,
            Token::LBRACE => TokenV::LBrace,
            Token::RBRACE => TokenV::RBrace,
            Token::STRING(s) => TokenV::Str(s@),
            Token::SYMBOL(s) => TokenV::Sym(s@),
            Token::NUMBER(n) => TokenV::Num(*n as int),
            Token::EOF => TokenV::Eof,
            Token::PLACEHOLDER => TokenV::Placeholder,
        }
    }
}

impl PartialEq for Token {
    /// Tokens are equal when their models are.
    fn eq(&self, other: &Self) -> (r: bool) {
        match (self, other) {
            (Token::LPAREN, Token::LPAREN) => true,
            (Token::RPAREN, Token::RPAREN) => true,
            (Token::LBRACE, Token::LBRACE) => true,
            (Token::RBRACE, Token::RBRACE) => true,
            (Token::STRING(a), Token::STRING(b)) => a.eq(b),
            (Token::SYMBOL(a), Token::SYMBOL(b)) => a.eq(b),
            (Token::NUMBER(a), Token::NUMBER(b)) => *a == *b,
            (Token::EOF, Token::EOF) => true,
            (Token::PLACEHOLDER, Token::PLACEHOLDER) => true,
            _ => false,
        }
    }
}

impl vstd::std_specs::cmp::PartialEqSpecImpl for Token {
    open spec fn obeys_eq_spec() -> bool {
        true
    }

    open spec fn eq_spec(&self, other: &Self) -> bool {
        self@ == other@
    }
}

/// The display text of a token, as used in parser error reports.
pub open spec fn token_text(t: TokenV) -> Seq<char> {
    match t {
        TokenV::LParen => "("@,
        TokenV::RParen => ")"@,
        TokenV::LBrace => "{"@,
        TokenV::RBrace => "}"@,
        TokenV::Str(s) => "\""@ + s + "\""@,
        TokenV::Sym(s) => s,
        TokenV::Num(n) => dec_int(n),
        TokenV::Eof => "EOF"@,
        TokenV::Placeholder => "PLACEHOLDER"@,
    }
}

impl Token {
    /// The display text of this token.
    pub fn to_text(&self) -> (r: String)
        ensures
            r@ == token_text(self@),
    {
        match self {
            Token::LPAREN => "(".to_owned(),
            Token::RPAREN => ")".to_owned(),
            Token::LBRACE => "{".to_owned(),
            Token::RBRACE => "}".to_owned(),
            Token::STRING(s) => {
                let mut out = "\"".to_owned();
                out.append(s.as_str());
                proof {
                    reveal_strlit("\"");
                }
                push_char(&mut out, '"');
                proof {
                    assert(out@ =~= "\""@ + s@ + "\""@) by {
                        reveal_strlit("\"");
                    }
                }
                out
            },
            Token::SYMBOL(s) => s.clone(),
            Token::NUMBER(n) => i64_to_string(*n),
            Token::EOF => "EOF".to_owned(),
            Token::PLACEHOLDER => "PLACEHOLDER".to_owned(),
        }
    }
}

/// A location in the input: file name and line number.
#[derive(Debug, Clone)]
pub struct SourceLocation {
    pub filename: String,
    pub lineno: usize,
}

impl PartialEq for SourceLocation {
    /// Locations are equal when file name and line number are.
    fn eq(&self, other: &Self) -> (r: bool) {
        self.filename.eq(&other.filename) && self.lineno == other.lineno
    }
}

impl vstd::std_specs::cmp::PartialEqSpecImpl for SourceLocation {
    open spec fn obeys_eq_spec() -> bool {
        true
    }

    open spec fn eq_spec(&self, other: &Self) -> bool {
        self.filename@ == other.filename@ && self.lineno == other.lineno
    }
}

/// A dummy source location.
pub fn dummy_source() -> (r: SourceLocation)
    ensures
        r.filename@ == "<input>"@,
        r.lineno == 0,
{
    SourceLocation { filename: "<input>".to_owned(), lineno: 0 }
}

} // verus!

//! The parser: expression shapes and error reports.

use mlisp::parser::{Parser, ParserError};
use mlisp::parser::ast::{Expr, ExprNode};
use mlisp::parser::tokens::dummy_source;
use mlisp::parser::tokens::Token::{LPAREN, NUMBER, RPAREN, SYMBOL};
use mlisp::LVal;

#[test]
fn test_expr() {
    let mut p = Parser::with_lexer(vec![
        LPAREN,
        SYMBOL("+".to_string()),
        NUMBER(3),
        NUMBER(2),
        RPAREN,
    ])
    .unwrap();
    assert_eq!(
        p.parse_expr().unwrap(),
        ExprNode::new(
            Expr::SExpr(vec![
                ExprNode::new(Expr::Symbol("+".to_string()), dummy_source()),
                ExprNode::new(Expr::Number(3), dummy_source()),
                ExprNode::new(Expr::Number(2), dummy_source()),
            ]),
            dummy_source()
        )
    )
}

#[test]
fn parse_converts_one_to_one() {
    let ast = Parser::parse("(+ 1 {2 \"x\"})", "<test>").unwrap();
    let value = LVal::from_ast(ast);
    assert_eq!(
        value,
        LVal::Sexpr(vec![
            LVal::sym("+"),
            LVal::num(1),
            LVal::Qexpr(vec![LVal::num(2), LVal::string("x")]),
        ])
    );
}

#[test]
fn parse_wraps_multiple_top_level_expressions() {
    let ast = Parser::parse("1 2", "<test>").unwrap();
    assert_eq!(
        LVal::from_ast(ast),
        LVal::Sexpr(vec![LVal::num(1), LVal::num(2)])
    );
}

#[test]
fn missing_close_paren_is_an_error() {
    assert!(matches!(
        Parser::parse("(+ 1 2", "<test>"),
        Err(ParserError::UnexpectedToken { .. })
    ));
}

#[test]
fn stray_close_paren_is_an_error() {
    let err = Parser::parse(")", "<test>").unwrap_err();
    assert_eq!(
        err.to_text(),
        "expected an expression, found `)` at <test>:1".to_string()
    );
}

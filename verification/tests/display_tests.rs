//! Rendering: plain display, display against an environment, and decimal
//! notation.

use mlisp::{initialize, Interp, LEnv, LVal};
use mlisp::util::{i64_to_string, u64_to_string};

fn fresh() -> Interp {
    let mut root = LEnv::new();
    initialize(&mut root);
    Interp::new(root, vec![])
}

#[test]
fn numbers_render_in_decimal() {
    assert_eq!(u64_to_string(0), "0".to_string());
    assert_eq!(u64_to_string(907), "907".to_string());
    assert_eq!(i64_to_string(-45), "-45".to_string());
    assert_eq!(i64_to_string(i64::MIN), "-9223372036854775808".to_string());
    assert_eq!(i64_to_string(i64::MAX), "9223372036854775807".to_string());
}

#[test]
fn plain_rendering_shows_the_structure() {
    let v = LVal::Sexpr(vec![
        LVal::sym("+"),
        LVal::num(1),
        LVal::Qexpr(vec![LVal::num(2), LVal::string("x")]),
    ]);
    assert_eq!(v.to_show_string(), "(+ 1 {2 x})".to_string());
}

#[test]
fn errors_show_their_message() {
    assert_eq!(
        LVal::err("division by zero!".to_string()).to_show_string(),
        "division by zero!".to_string()
    );
}

#[test]
fn functions_show_formals_and_body() {
    let f = LVal::Function {
        env: vec![],
        formals: vec![LVal::sym("a"), LVal::sym("b")],
        body: vec![LVal::sym("+"), LVal::sym("a"), LVal::sym("b")],
    };
    assert_eq!(f.to_show_string(), "\\ {a b} {+ a b}".to_string());
}

#[test]
fn display_resolves_symbols_against_the_environment() {
    let mut itp = fresh();
    itp.scopes.put(0, LVal::sym("x"), LVal::num(5));
    assert_eq!(LVal::sym("x").to_string(&itp.scopes, 0, 8), "5".to_string());
    // An unbound symbol shows its own name.
    assert_eq!(LVal::sym("y").to_string(&itp.scopes, 0, 8), "y".to_string());
}

#[test]
fn display_names_a_builtin_by_reverse_lookup() {
    let itp = fresh();
    let plus = itp.scopes.get(0, &"+".to_string());
    assert_eq!(
        plus.to_string(&itp.scopes, 0, 8),
        "<builtin: '+'>".to_string()
    );
}

#[test]
fn structural_equality_ignores_binding_order() {
    let f1 = LVal::Function {
        env: vec![
            ("a".to_string(), LVal::num(1)),
            ("b".to_string(), LVal::num(2)),
        ],
        formals: vec![LVal::sym("c")],
        body: vec![LVal::sym("c")],
    };
    let f2 = LVal::Function {
        env: vec![
            ("b".to_string(), LVal::num(2)),
            ("a".to_string(), LVal::num(1)),
        ],
        formals: vec![LVal::sym("c")],
        body: vec![LVal::sym("c")],
    };
    assert_eq!(f1, f2);
    let f3 = LVal::Function {
        env: vec![("a".to_string(), LVal::num(9))],
        formals: vec![LVal::sym("c")],
        body: vec![LVal::sym("c")],
    };
    assert_ne!(f1, f3);
}

#[test]
fn cross_variant_comparisons_are_unequal() {
    assert_ne!(LVal::num(1), LVal::string("1"));
    assert_ne!(LVal::sym("a"), LVal::string("a"));
    assert_ne!(LVal::Sexpr(vec![]), LVal::Qexpr(vec![]));
}

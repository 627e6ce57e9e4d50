//! The list family and its laws on concrete values.

use mlisp::LVal;
use mlisp::builtin::list::{builtin_cons, builtin_head, builtin_join, builtin_list, builtin_tail};

fn qexpr(items: Vec<LVal>) -> LVal {
    LVal::Qexpr(items)
}

#[test]
fn head_keeps_the_first_element() {
    assert_eq!(
        builtin_head(vec![qexpr(vec![LVal::num(1), LVal::num(2), LVal::num(3)])]),
        qexpr(vec![LVal::num(1)])
    );
}

#[test]
fn tail_drops_the_first_element() {
    assert_eq!(
        builtin_tail(vec![qexpr(vec![LVal::num(1), LVal::num(2), LVal::num(3)])]),
        qexpr(vec![LVal::num(2), LVal::num(3)])
    );
}

#[test]
fn join_concatenates_in_order() {
    assert_eq!(
        builtin_join(vec![
            qexpr(vec![LVal::num(1)]),
            qexpr(vec![LVal::num(2), LVal::num(3)]),
        ]),
        qexpr(vec![LVal::num(1), LVal::num(2), LVal::num(3)])
    );
}

#[test]
fn list_wraps_its_arguments() {
    assert_eq!(
        builtin_list(vec![LVal::num(1), LVal::sym("a")]),
        qexpr(vec![LVal::num(1), LVal::sym("a")])
    );
}

#[test]
fn cons_prepends_onto_the_list() {
    assert_eq!(
        builtin_cons(vec![LVal::num(1), qexpr(vec![LVal::num(2), LVal::num(3)])]),
        qexpr(vec![LVal::num(1), LVal::num(2), LVal::num(3)])
    );
}

#[test]
fn head_of_cons_gives_the_head() {
    let l = qexpr(vec![LVal::num(7), LVal::num(8)]);
    let consed = builtin_cons(vec![LVal::num(1), l]);
    assert_eq!(builtin_head(vec![consed]), qexpr(vec![LVal::num(1)]));
}

#[test]
fn tail_of_cons_gives_the_list_back() {
    let l = qexpr(vec![LVal::num(7), LVal::num(8)]);
    let consed = builtin_cons(vec![LVal::num(1), l.clone()]);
    assert_eq!(builtin_tail(vec![consed]), l);
}

#[test]
fn join_length_adds_up() {
    let l1 = qexpr(vec![LVal::num(1), LVal::num(2)]);
    let l2 = qexpr(vec![LVal::num(3)]);
    let joined = builtin_join(vec![l1, l2]);
    match joined {
        LVal::Qexpr(items) => assert_eq!(items.len(), 3),
        other => panic!("expected a q-expression, got {:?}", other),
    }
}

#[test]
fn head_of_an_empty_list_is_an_error() {
    assert_eq!(
        builtin_head(vec![qexpr(vec![])]),
        LVal::err("`head` called with empty q-expr".to_string())
    );
    assert_eq!(
        builtin_tail(vec![qexpr(vec![])]),
        LVal::err("`tail` called with empty q-expr".to_string())
    );
}

#[test]
fn list_operations_check_their_argument_types() {
    assert_eq!(
        builtin_head(vec![LVal::num(1)]),
        LVal::err(
            "`head` called with wrong type for argument 1: expected a q-expression, got a number: `1`"
                .to_string()
        )
    );
    assert_eq!(
        builtin_cons(vec![LVal::num(1), LVal::num(2)]),
        LVal::err(
            "`cons` called with wrong type for argument 2: expected a q-expression, got a number: `2`"
                .to_string()
        )
    );
    assert_eq!(
        builtin_join(vec![]),
        LVal::err("`join` called with too few arguments: expected at least 1, got 0".to_string())
    );
}

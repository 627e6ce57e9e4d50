//! The arithmetic fold: argument checking, folding, unary minus, and the
//! division-by-zero error.

use mlisp::LVal;
use mlisp::builtin::math::{builtin_op, ArithmeticOp};

#[test]
fn builtin_builtin_op_few_arguments() {
    assert_eq!(
        builtin_op(ArithmeticOp::ADD, vec![LVal::num(2)]),
        LVal::err("`+` called with too few arguments: expected at least 1, got 0".to_string())
    )
}

#[test]
fn builtin_builtin_op_plus() {
    assert_eq!(
        builtin_op(
            ArithmeticOp::ADD,
            vec![LVal::num(2), LVal::num(3), LVal::num(4), LVal::num(5)]
        ),
        LVal::num(14)
    )
}

#[test]
fn builtin_builtin_op_minus() {
    assert_eq!(
        builtin_op(ArithmeticOp::SUB, vec![LVal::num(2), LVal::num(3)]),
        LVal::num(-1)
    )
}

#[test]
fn builtin_builtin_op_minus_unary() {
    assert_eq!(builtin_op(ArithmeticOp::SUB, vec![LVal::num(2)]), LVal::num(-2))
}

#[test]
fn builtin_builtin_op_mul() {
    assert_eq!(
        builtin_op(ArithmeticOp::MUL, vec![LVal::num(2), LVal::num(3)]),
        LVal::num(6)
    )
}

#[test]
fn builtin_builtin_op_div() {
    assert_eq!(
        builtin_op(ArithmeticOp::DIV, vec![LVal::num(2), LVal::num(3)]),
        LVal::num(2 / 3)
    )
}

#[test]
fn builtin_builtin_op_modulo() {
    assert_eq!(
        builtin_op(ArithmeticOp::MOD, vec![LVal::num(15), LVal::num(12)]),
        LVal::num(3)
    )
}

#[test]
fn builtin_builtin_op_min() {
    assert_eq!(
        builtin_op(ArithmeticOp::MIN, vec![LVal::num(2), LVal::num(3)]),
        LVal::num(2)
    )
}

#[test]
fn builtin_builtin_op_max() {
    assert_eq!(
        builtin_op(ArithmeticOp::MAX, vec![LVal::num(2), LVal::num(3)]),
        LVal::num(3)
    )
}

#[test]
fn math_builtin_op_few_arguments() {
    assert_eq!(
        builtin_op(ArithmeticOp::ADD, vec![LVal::num(2)]),
        LVal::err("`+` called with too few arguments: expected at least 1, got 0".to_string())
    )
}

#[test]
fn math_builtin_op_plus() {
    assert_eq!(
        builtin_op(
            ArithmeticOp::ADD,
            vec![LVal::num(2), LVal::num(3), LVal::num(4), LVal::num(5)]
        ),
        LVal::num(14)
    )
}

#[test]
fn math_builtin_op_minus() {
    assert_eq!(
        builtin_op(ArithmeticOp::SUB, vec![LVal::num(2), LVal::num(3)]),
        LVal::num(-1)
    )
}

#[test]
fn math_builtin_op_minus_unary() {
    assert_eq!(builtin_op(ArithmeticOp::SUB, vec![LVal::num(2)]), LVal::num(-2))
}

#[test]
fn math_builtin_op_mul() {
    assert_eq!(
        builtin_op(ArithmeticOp::MUL, vec![LVal::num(2), LVal::num(3)]),
        LVal::num(6)
    )
}

#[test]
fn math_builtin_op_div() {
    assert_eq!(
        builtin_op(ArithmeticOp::DIV, vec![LVal::num(2), LVal::num(3)]),
        LVal::num(2 / 3)
    )
}

#[test]
fn math_builtin_op_modulo() {
    assert_eq!(
        builtin_op(ArithmeticOp::MOD, vec![LVal::num(15), LVal::num(12)]),
        LVal::num(3)
    )
}

#[test]
fn math_builtin_op_min() {
    assert_eq!(
        builtin_op(ArithmeticOp::MIN, vec![LVal::num(2), LVal::num(3)]),
        LVal::num(2)
    )
}

#[test]
fn math_builtin_op_max() {
    assert_eq!(
        builtin_op(ArithmeticOp::MAX, vec![LVal::num(2), LVal::num(3)]),
        LVal::num(3)
    )
}

#[test]
fn divide_by_zero_is_an_error_value() {
    assert_eq!(
        builtin_op(ArithmeticOp::DIV, vec![LVal::num(2), LVal::num(0)]),
        LVal::err("division by zero!".to_string())
    );
    assert_eq!(
        builtin_op(ArithmeticOp::MOD, vec![LVal::num(7), LVal::num(0)]),
        LVal::err("division by zero!".to_string())
    );
    assert_eq!(
        builtin_op(ArithmeticOp::DIV, vec![LVal::num(i64::MIN), LVal::num(0)]),
        LVal::err("division by zero!".to_string())
    );
}

#[test]
fn arithmetic_wraps_around() {
    assert_eq!(
        builtin_op(ArithmeticOp::ADD, vec![LVal::num(i64::MAX), LVal::num(1)]),
        LVal::num(i64::MIN)
    );
    assert_eq!(
        builtin_op(ArithmeticOp::SUB, vec![LVal::num(i64::MIN), LVal::num(1)]),
        LVal::num(i64::MAX)
    );
    assert_eq!(
        builtin_op(ArithmeticOp::DIV, vec![LVal::num(i64::MIN), LVal::num(-1)]),
        LVal::num(i64::MIN)
    );
    assert_eq!(
        builtin_op(ArithmeticOp::MOD, vec![LVal::num(i64::MIN), LVal::num(-1)]),
        LVal::num(0)
    );
}

#[test]
fn add_and_mul_ignore_operand_order() {
    assert_eq!(
        builtin_op(ArithmeticOp::ADD, vec![LVal::num(9), LVal::num(4), LVal::num(7)]),
        builtin_op(ArithmeticOp::ADD, vec![LVal::num(9), LVal::num(7), LVal::num(4)])
    );
    assert_eq!(
        builtin_op(ArithmeticOp::MUL, vec![LVal::num(3), LVal::num(5), LVal::num(2)]),
        builtin_op(ArithmeticOp::MUL, vec![LVal::num(3), LVal::num(2), LVal::num(5)])
    );
}

#[test]
fn wrong_type_names_the_argument() {
    assert_eq!(
        builtin_op(ArithmeticOp::ADD, vec![LVal::num(1), LVal::sym("x")]),
        LVal::err(
            "`+` called with wrong type for argument 2: expected a number, got a symbol: `x`"
                .to_string()
        )
    );
}

//! The evaluator: self-evaluation, symbol resolution, application, currying,
//! variadic binding, definition, and the error paths.

use mlisp::{initialize, eval, Interp, LEnv, LVal};
use mlisp::parser::Parser;

const DEPTH: u64 = 100;

fn fresh() -> Interp {
    let mut root = LEnv::new();
    initialize(&mut root);
    Interp::new(root, vec![])
}

fn run_in(itp: &mut Interp, src: &str) -> LVal {
    let ast = Parser::parse(src, "<test>").unwrap();
    let value = LVal::from_ast(ast);
    eval(itp, 0, value, DEPTH)
}

fn run(src: &str) -> LVal {
    let mut itp = fresh();
    run_in(&mut itp, src)
}

#[test]
fn eval_not_a_symbol() {
    let mut itp = fresh();
    assert_eq!(
        eval(
            &mut itp,
            0,
            LVal::Sexpr(vec![LVal::num(2), LVal::num(2), LVal::num(2)]),
            DEPTH
        ),
        LVal::err("first element is not a function but a number: `2`".to_string())
    )
}

#[test]
fn numbers_are_self_evaluating() {
    let mut itp = fresh();
    assert_eq!(eval(&mut itp, 0, LVal::num(42), DEPTH), LVal::num(42));
    assert_eq!(eval(&mut itp, 0, LVal::num(-7), DEPTH), LVal::num(-7));
    assert_eq!(eval(&mut itp, 0, LVal::num(0), DEPTH), LVal::num(0));
    // Evaluating the result again changes nothing.
    let once = eval(&mut itp, 0, LVal::num(42), DEPTH);
    assert_eq!(eval(&mut itp, 0, once, DEPTH), LVal::num(42));
}

#[test]
fn strings_and_lists_are_self_evaluating() {
    let mut itp = fresh();
    assert_eq!(
        eval(&mut itp, 0, LVal::string("hello"), DEPTH),
        LVal::string("hello")
    );
    let quoted = LVal::Qexpr(vec![LVal::num(1), LVal::num(2)]);
    assert_eq!(
        eval(&mut itp, 0, quoted, DEPTH),
        LVal::Qexpr(vec![LVal::num(1), LVal::num(2)])
    );
}

#[test]
fn unbound_symbol_is_an_error() {
    let mut itp = fresh();
    assert_eq!(
        eval(&mut itp, 0, LVal::sym("undefined_name"), DEPTH),
        LVal::err("unbound symbol: undefined_name".to_string())
    );
}

#[test]
fn addition_folds_left_to_right() {
    assert_eq!(run("(+ 2 3 4 5)"), LVal::num(14));
}

#[test]
fn unary_minus_negates() {
    assert_eq!(run("(- 2)"), LVal::num(-2));
}

#[test]
fn division_by_zero_reports_the_error() {
    assert_eq!(run("(/ 2 0)"), LVal::err("division by zero!".to_string()));
}

#[test]
fn def_binds_globally() {
    let mut itp = fresh();
    assert_eq!(run_in(&mut itp, "(def {x y} 1 2)"), LVal::Sexpr(vec![]));
    assert_eq!(run_in(&mut itp, "x"), LVal::num(1));
    assert_eq!(run_in(&mut itp, "y"), LVal::num(2));
}

#[test]
fn curried_application_equals_full_application() {
    let mut itp = fresh();
    run_in(&mut itp, "(def {add2} (\\ {a b} {+ a b}))");
    assert_eq!(run_in(&mut itp, "((add2 1) 2)"), LVal::num(3));
    assert_eq!(run_in(&mut itp, "(add2 1 2)"), LVal::num(3));
}

#[test]
fn variadic_marker_collects_the_rest() {
    let mut itp = fresh();
    run_in(&mut itp, "(def {pack} (\\ {x ... rest} {rest}))");
    assert_eq!(
        run_in(&mut itp, "(pack 1 2 3)"),
        LVal::Qexpr(vec![LVal::num(2), LVal::num(3)])
    );
    // With no spare arguments the trailing symbol holds the empty list.
    assert_eq!(run_in(&mut itp, "(pack 1)"), LVal::Qexpr(vec![]));
}

#[test]
fn too_many_arguments_is_an_error() {
    let mut itp = fresh();
    run_in(&mut itp, "(def {one} (\\ {a} {a}))");
    assert_eq!(
        run_in(&mut itp, "(one 1 2)"),
        LVal::err("too many arguments".to_string())
    );
}

#[test]
fn malformed_variadic_marker_is_an_error() {
    let mut itp = fresh();
    run_in(&mut itp, "(def {bad} (\\ {... a b} {a}))");
    assert_eq!(
        run_in(&mut itp, "(bad 1 2 3)"),
        LVal::err("invalid function arguments: `...` is not followed by a single symbol".to_string())
    );
}

#[test]
fn empty_call_collapses_to_the_empty_list() {
    assert_eq!(run("()"), LVal::Sexpr(vec![]));
}

#[test]
fn single_item_collapses_to_itself() {
    assert_eq!(run("(5)"), LVal::num(5));
}

#[test]
fn first_error_wins() {
    assert_eq!(
        run("(+ 1 (/ 1 0) missing)"),
        LVal::err("division by zero!".to_string())
    );
}

#[test]
fn if_chooses_the_branch() {
    assert_eq!(run("(if 1 {+ 1 2} {+ 3 4})"), LVal::num(3));
    assert_eq!(run("(if 0 {+ 1 2} {+ 3 4})"), LVal::num(7));
    assert_eq!(run("(if 0 {+ 1 2})"), LVal::Sexpr(vec![]));
}

#[test]
fn comparisons_fold_over_adjacent_pairs() {
    assert_eq!(run("(< 1 2 3)"), LVal::num(1));
    assert_eq!(run("(< 1 3 2)"), LVal::num(0));
    assert_eq!(run("(<= 2 2 3)"), LVal::num(1));
    assert_eq!(run("(> 3 2 1)"), LVal::num(1));
    assert_eq!(run("(>= 3 3 1)"), LVal::num(1));
}

#[test]
fn equality_is_structural() {
    assert_eq!(run("(== {1 2} {1 2})"), LVal::num(1));
    assert_eq!(run("(== {1 2} {1 3})"), LVal::num(0));
    assert_eq!(run("(!= 1 2)"), LVal::num(1));
    assert_eq!(run("(== 1 {1})"), LVal::num(0));
}

#[test]
fn boolean_operations_use_numeric_truth() {
    assert_eq!(run("(and 1 2)"), LVal::num(1));
    assert_eq!(run("(and 1 0)"), LVal::num(0));
    assert_eq!(run("(or 0 5)"), LVal::num(1));
    assert_eq!(run("(or 0 0)"), LVal::num(0));
    assert_eq!(run("(not 0)"), LVal::num(1));
    assert_eq!(run("(not 3)"), LVal::num(0));
}

#[test]
fn local_assignment_stays_local() {
    let mut itp = fresh();
    run_in(&mut itp, "(def {shadow} (\\ {a} {= {v} a}))");
    run_in(&mut itp, "(shadow 9)");
    // The local binding must not leak into the global scope.
    assert_eq!(
        run_in(&mut itp, "v"),
        LVal::err("unbound symbol: v".to_string())
    );
}

#[test]
fn def_rejects_a_count_mismatch() {
    assert_eq!(
        run("(def {x y} 1)"),
        LVal::err("`def` called with number of symbols (2) != number of values (1)".to_string())
    );
}

#[test]
fn def_rejects_a_non_symbol() {
    assert_eq!(
        run("(def {1} 1)"),
        LVal::err("cannot `def`ine non-symbol: `1`".to_string())
    );
}

#[test]
fn eval_builtin_reenters_the_evaluator() {
    assert_eq!(run("(eval {+ 1 2})"), LVal::num(3));
}

#[test]
fn error_builtin_builds_an_error() {
    assert_eq!(run("(error \"boom\")"), LVal::err("boom".to_string()));
}

#[test]
fn singleton_symbol_collapses_to_its_value() {
    let mut itp = fresh();
    run_in(&mut itp, "(def {x} 5)");
    assert_eq!(run_in(&mut itp, "(x)"), LVal::num(5));
}

#[test]
fn symbol_head_bound_to_a_non_function_is_an_error() {
    let mut itp = fresh();
    run_in(&mut itp, "(def {y} 5)");
    assert_eq!(
        run_in(&mut itp, "(y 1)"),
        LVal::err("first element is not a function but a number: `5`".to_string())
    );
}

#[test]
fn calling_a_number_is_an_error() {
    assert_eq!(
        run("(1 2 3)"),
        LVal::err("first element is not a function but a number: `1`".to_string())
    );
}

#[test]
fn depth_budget_turns_runaway_recursion_into_an_error() {
    let mut itp = fresh();
    run_in(&mut itp, "(def {loop_forever} (\\ {a} {loop_forever a}))");
    assert_eq!(
        run_in(&mut itp, "(loop_forever 1)"),
        LVal::err("evaluation depth limit reached".to_string())
    );
}

#[test]
fn lambda_rejects_non_symbol_formals() {
    assert_eq!(
        run("(\\ {1} {1})"),
        LVal::err("cannot use non-symbol as argument: `1`".to_string())
    );
}

#[test]
fn println_collects_a_line() {
    let mut itp = fresh();
    assert_eq!(run_in(&mut itp, "(println 42)"), LVal::Sexpr(vec![]));
    assert_eq!(itp.out, vec!["42".to_string()]);
}

#[test]
fn load_runs_a_unit_from_the_source_table() {
    let mut root = LEnv::new();
    initialize(&mut root);
    let files = vec![(
        "lib.lisp".to_string(),
        "(def {three} 3) (println three)".to_string(),
    )];
    let mut itp = Interp::new(root, files);
    let r = run_in(&mut itp, "(load \"lib.lisp\")");
    assert_eq!(r, LVal::Sexpr(vec![]));
    assert_eq!(itp.out, vec!["3".to_string()]);
    assert_eq!(run_in(&mut itp, "three"), LVal::num(3));
}

#[test]
fn load_reports_a_missing_file() {
    assert_eq!(
        run("(load \"nowhere.lisp\")"),
        LVal::err("could not load file: `nowhere.lisp`".to_string())
    );
}

#[test]
fn run_files_collects_printed_lines() {
    let files = vec![(
        "main.lisp".to_string(),
        "(def {x} 40) (println (+ x 2))".to_string(),
    )];
    let lines = mlisp::run_files(files);
    assert_eq!(lines, vec!["42".to_string()]);
}

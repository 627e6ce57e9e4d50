//! The comparison, equality and boolean families.  Comparisons fold over all
//! adjacent pairs with logical AND; truth is the number 1, falsehood 0.

use vstd::prelude::*;
use crate::lval::{LVal, LValV, view_seq, lemma_view_seq, lval_eq, eq_val};
use crate::builtin::{msg_few_min, msg_few_exact, msg_many_exact, msg_many_max, msg_wrong_type,
    err_few_min, err_few_exact, err_many_exact, err_many_max, err_wrong_type};
use crate::builtin::math::{first_non_num, lemma_first_non_num, nums};
use crate::eval::{Interp, eval, state_ok, depth_error};

verus! {

/// One ordering comparison.
#[derive(Clone, Copy, PartialEq, Eq, Structural, Debug)]
pub enum OrderingType {
    Less,
    LessEqual,
    GreaterEqual,
    Greater,
}

/// One equality comparison.
#[derive(Clone, Copy, PartialEq, Eq, Structural, Debug)]
pub enum CmpType {
    Eq,
    Neq,
}

/// The canonical name of an ordering comparison.
pub open spec fn ord_name(ord: OrderingType) -> Seq<char> {
    match ord {
        OrderingType::Less => "<"@,
        OrderingType::LessEqual => "<="@,
        OrderingType::GreaterEqual => ">="@,
        OrderingType::Greater => ">"@,
    }
}

/// The canonical name of an equality comparison.
pub open spec fn cmp_name(cmp: CmpType) -> Seq<char> {
    match cmp {
        CmpType::Eq => "=="@,
        CmpType::Neq => "!="@,
    }
}

/// Whether one adjacent pair satisfies the comparison.
pub open spec fn ord_holds(ord: OrderingType, x: int, y: int) -> bool {
    match ord {
        OrderingType::Less => x < y,
        OrderingType::LessEqual => x <= y,
        OrderingType::GreaterEqual => x >= y,
        OrderingType::Greater => x > y,
    }
}

/// The numeric boolean: 1 for true, 0 for false.
pub open spec fn num_bool(b: bool) -> LValV {
    if b {
        LValV::Num(1)
    } else {
        LValV::Num(0)
    }
}

/// What an ordering comparison returns: fewer than two arguments or a
/// non-number argument is an error; otherwise 1 exactly when every adjacent
/// pair satisfies the comparison.
pub open spec fn ord_result(ord: OrderingType, args: Seq<LValV>) -> LValV {
    if args.len() < 2 {
        LValV::Error(msg_few_min(ord_name(ord), 2, args.len() as int))
    } else {
        let k = first_non_num(args);
        if k < args.len() {
            LValV::Error(msg_wrong_type(ord_name(ord), k + 1, "a number"@, args[k]))
        } else {
            let xs = nums(args);
            num_bool(forall|i: int| 1 <= i < xs.len() ==> ord_holds(ord, xs[i - 1], #[trigger] xs[i]))
        }
    }
}

/// What an equality comparison returns: exactly two arguments of any
/// variant, compared structurally.
pub open spec fn cmp_result(cmp: CmpType, args: Seq<LValV>) -> LValV {
    if args.len() < 2 {
        LValV::Error(msg_few_exact(cmp_name(cmp), 2, args.len() as int))
    } else if args.len() > 2 {
        LValV::Error(msg_many_exact(cmp_name(cmp), 2, args.len() as int))
    } else {
        match cmp {
            CmpType::Eq => num_bool(eq_val(args[0], args[1])),
            CmpType::Neq => num_bool(!eq_val(args[0], args[1])),
        }
    }
}

/// Shared fold of the ordering family; see `ord_result`.
pub fn builtin_ord(ord: OrderingType, args: Vec<LVal>) -> (r: LVal)
    ensures
        r@ == ord_result(ord, view_seq(args@)),
{
    let ghost argv = view_seq(args@);
    proof {
        lemma_view_seq(args@);
        lemma_first_non_num(argv);
    }
    if args.len() < 2 {
        return err_few_min(ord_name_str(ord), 2, args.len());
    }
    let mut i: usize = 0;
    while i < args.len()
        invariant
            i <= args@.len(),
            argv.len() >= 2,
            argv == view_seq(args@),
            argv.len() == args@.len(),
            forall|j: int| 0 <= j < args@.len() ==> argv[j] == #[trigger] args@[j]@,
            forall|j: int| 0 <= j < i ==> #[trigger] argv[j] is Num,
            0 <= first_non_num(argv) <= argv.len(),
            first_non_num(argv) < argv.len() ==> !(argv[first_non_num(argv)] is Num),
            forall|j: int| 0 <= j < first_non_num(argv) ==> #[trigger] argv[j] is Num,
        decreases args@.len() - i,
    {
        let is_num = match &args[i] {
            LVal::Num(_) => true,
            _ => false,
        };
        proof {
            assert(argv[i as int] == args@[i as int]@);
            assert(is_num == argv[i as int] is Num);
        }
        if !is_num {
            proof {
                let k = first_non_num(argv);
                if k < i as int {
                    assert(argv[k] is Num);
                    assert(false);
                }
                if k > i as int {
                    assert(argv[i as int] is Num);
                    assert(false);
                }
            }
            return err_wrong_type(ord_name_str(ord), i + 1, "a number", &args[i]);
        }
        i = i + 1;
    }
    proof {
        assert(first_non_num(argv) == argv.len());
    }
    let ghost xs = nums(argv);
    let mut result = true;
    let mut i: usize = 1;
    while i < args.len()
        invariant
            1 <= i <= args@.len(),
            argv.len() >= 2,
            argv == view_seq(args@),
            argv.len() == args@.len(),
            forall|j: int| 0 <= j < args@.len() ==> argv[j] == #[trigger] args@[j]@,
            forall|j: int| 0 <= j < argv.len() ==> #[trigger] argv[j] is Num,
            first_non_num(argv) == argv.len(),
            xs == nums(argv),
            xs.len() == argv.len(),
            forall|j: int| 0 <= j < xs.len() ==> #[trigger] xs[j] == argv[j]->Num_0,
            result == (forall|j: int| 1 <= j < i ==> ord_holds(ord, xs[j - 1], #[trigger] xs[j])),
        decreases args@.len() - i,
    {
        let x = match &args[i - 1] {
            LVal::Num(n) => *n,
            _ => {
                proof {
                    assert(argv[i - 1] == args@[i - 1]@);
                    assert(argv[i - 1] is Num);
                }
                unreached()
            },
        };
        let y = match &args[i] {
            LVal::Num(n) => *n,
            _ => {
                proof {
                    assert(argv[i as int] == args@[i as int]@);
                    assert(argv[i as int] is Num);
                }
                unreached()
            },
        };
        proof {
            assert(argv[i - 1] == args@[i - 1]@);
            assert(argv[i as int] == args@[i as int]@);
            assert(x as int == xs[i - 1]);
            assert(y as int == xs[i as int]);
        }
        let step = match ord {
            OrderingType::Less => x < y,
            OrderingType::LessEqual => x <= y,
            OrderingType::GreaterEqual => x >= y,
            OrderingType::Greater => x > y,
        };
        let ghost oldresult = result;
        result = result && step;
        proof {
            assert(step == ord_holds(ord, xs[i - 1], xs[i as int]));
            if result {
                assert forall|j: int| 1 <= j < i + 1 implies ord_holds(
                    ord,
                    xs[j - 1],
                    #[trigger] xs[j],
                ) by {}
            } else {
                if !oldresult {
                    let w = choose|j: int| 1 <= j < i && !ord_holds(ord, xs[j - 1], #[trigger] xs[j]);
                    assert(1 <= w < i + 1 && !ord_holds(ord, xs[w - 1], xs[w]));
                } else {
                    assert(!ord_holds(ord, xs[i - 1], xs[i as int]));
                }
            }
        }
        i = i + 1;
    }
    if result {
        LVal::num(1)
    } else {
        LVal::num(0)
    }
}

/// The canonical name of an ordering comparison, executable.
pub fn ord_name_str(ord: OrderingType) -> (r: &'static str)
    ensures
        r@ == ord_name(ord),
{
    match ord {
        OrderingType::Less => "<",
        OrderingType::LessEqual => "<=",
        OrderingType::GreaterEqual => ">=",
        OrderingType::Greater => ">",
    }
}

/// The canonical name of an equality comparison, executable.
pub fn cmp_name_str(cmp: CmpType) -> (r: &'static str)
    ensures
        r@ == cmp_name(cmp),
{
    match cmp {
        CmpType::Eq => "==",
        CmpType::Neq => "!=",
    }
}

/// `<` over all adjacent pairs.
pub fn builtin_lt(args: Vec<LVal>) -> (r: LVal)
    ensures
        r@ == ord_result(OrderingType::Less, view_seq(args@)),
{
    builtin_ord(OrderingType::Less, args)
}

/// `<=` over all adjacent pairs.
pub fn builtin_le(args: Vec<LVal>) -> (r: LVal)
    ensures
        r@ == ord_result(OrderingType::LessEqual, view_seq(args@)),
{
    builtin_ord(OrderingType::LessEqual, args)
}

/// `>=` over all adjacent pairs.
pub fn builtin_ge(args: Vec<LVal>) -> (r: LVal)
    ensures
        r@ == ord_result(OrderingType::GreaterEqual, view_seq(args@)),
{
    builtin_ord(OrderingType::GreaterEqual, args)
}

/// `>` over all adjacent pairs.
pub fn builtin_gt(args: Vec<LVal>) -> (r: LVal)
    ensures
        r@ == ord_result(OrderingType::Greater, view_seq(args@)),
{
    builtin_ord(OrderingType::Greater, args)
}

/// Shared body of the equality family; see `cmp_result`.
pub fn builtin_cmp(cmp: CmpType, args: Vec<LVal>) -> (r: LVal)
    ensures
        r@ == cmp_result(cmp, view_seq(args@)),
{
    proof {
        lemma_view_seq(args@);
    }
    if args.len() < 2 {
        return err_few_exact(cmp_name_str(cmp), 2, args.len());
    }
    if args.len() > 2 {
        return err_many_exact(cmp_name_str(cmp), 2, args.len());
    }
    let equal = lval_eq(&args[0], &args[1]);
    let truth = match cmp {
        CmpType::Eq => equal,
        CmpType::Neq => !equal,
    };
    if truth {
        LVal::num(1)
    } else {
        LVal::num(0)
    }
}

/// Structural equality of exactly two values.
pub fn builtin_eq(args: Vec<LVal>) -> (r: LVal)
    ensures
        r@ == cmp_result(CmpType::Eq, view_seq(args@)),
{
    builtin_cmp(CmpType::Eq, args)
}

/// Structural inequality of exactly two values.
pub fn builtin_neq(args: Vec<LVal>) -> (r: LVal)
    ensures
        r@ == cmp_result(CmpType::Neq, view_seq(args@)),
{
    builtin_cmp(CmpType::Neq, args)
}

/// What a two-operand boolean operation returns.
pub open spec fn bool2_result(name: Seq<char>, conj: bool, args: Seq<LValV>) -> LValV {
    if args.len() < 2 {
        LValV::Error(msg_few_exact(name, 2, args.len() as int))
    } else if args.len() > 2 {
        LValV::Error(msg_many_exact(name, 2, args.len() as int))
    } else {
        let k = first_non_num(args);
        if k < args.len() {
            LValV::Error(msg_wrong_type(name, k + 1, "a number"@, args[k]))
        } else if conj {
            num_bool(args[0]->Num_0 != 0 && args[1]->Num_0 != 0)
        } else {
            num_bool(args[0]->Num_0 != 0 || args[1]->Num_0 != 0)
        }
    }
}

/// Shared body of `and` and `or`.
fn builtin_bool2(name: &str, conj: bool, args: Vec<LVal>) -> (r: LVal)
    ensures
        r@ == bool2_result(name@, conj, view_seq(args@)),
{
    let ghost argv = view_seq(args@);
    proof {
        lemma_view_seq(args@);
        lemma_first_non_num(argv);
    }
    if args.len() < 2 {
        return err_few_exact(name, 2, args.len());
    }
    if args.len() > 2 {
        return err_many_exact(name, 2, args.len());
    }
    let n1 = match &args[0] {
        LVal::Num(n) => *n,
        _ => {
            proof {
                assert(argv[0] == args@[0]@);
                assert(first_non_num(argv) == 0);
            }
            return err_wrong_type(name, 1, "a number", &args[0]);
        },
    };
    let n2 = match &args[1] {
        LVal::Num(n) => *n,
        _ => {
            proof {
                assert(argv[0] == args@[0]@);
                assert(argv[1] == args@[1]@);
                assert(first_non_num(argv) == 1) by {
                    assert(argv.drop_first().first() == argv[1]);
                }
            }
            return err_wrong_type(name, 2, "a number", &args[1]);
        },
    };
    proof {
        assert(argv[0] == args@[0]@);
        assert(argv[1] == args@[1]@);
        assert(first_non_num(argv) == 2) by {
            assert(argv.drop_first().first() == argv[1]);
            assert(argv.drop_first().drop_first().len() == 0);
        }
    }
    let truth = if conj {
        n1 != 0 && n2 != 0
    } else {
        n1 != 0 || n2 != 0
    };
    if truth {
        LVal::num(1)
    } else {
        LVal::num(0)
    }
}

/// Logical AND of two numeric truth values.
pub fn builtin_and(args: Vec<LVal>) -> (r: LVal)
    ensures
        r@ == bool2_result("and"@, true, view_seq(args@)),
{
    builtin_bool2("and", true, args)
}

/// Logical OR of two numeric truth values.
pub fn builtin_or(args: Vec<LVal>) -> (r: LVal)
    ensures
        r@ == bool2_result("or"@, false, view_seq(args@)),
{
    builtin_bool2("or", false, args)
}

/// The error cases of `if`: two or three arguments, a numeric condition, and
/// q-expression branches.  `None` stands for no error.
pub open spec fn if_error(args: Seq<LValV>) -> Option<Seq<char>> {
    if args.len() < 2 {
        Option::Some(msg_few_min("if"@, 2, args.len() as int))
    } else if args.len() > 3 {
        Option::Some(msg_many_max("if"@, 3, args.len() as int))
    } else if !(args[0] is Num) {
        Option::Some(msg_wrong_type("if"@, 1, "a number"@, args[0]))
    } else if !(args[1] is Qexpr) {
        Option::Some(msg_wrong_type("if"@, 2, "a q-expression"@, args[1]))
    } else if args.len() == 3 && !(args[2] is Qexpr) {
        Option::Some(msg_wrong_type("if"@, 3, "a q-expression"@, args[2]))
    } else {
        Option::None
    }
}

/// Evaluate and return the chosen branch: the consequence on a non-zero
/// condition, the alternative (or the empty list) otherwise.  The branch's
/// contents are re-entered into the evaluator as an evaluable list.
#[verifier::rlimit(100)]
pub fn builtin_if(itp: &mut Interp, env: usize, args: Vec<LVal>, depth: u64) -> (r: LVal)
    requires
        old(itp).wf(),
        env < old(itp).scopes.frames@.len(),
    ensures
        state_ok(*old(itp), *final(itp)),
        if_error(view_seq(args@)) matches Option::Some(m) ==> r@ == LValV::Error(m) && *final(itp)
            == *old(itp),
        if_error(view_seq(args@)) is None ==> ({
            let argv = view_seq(args@);
            let chosen = if argv[0]->Num_0 != 0 {
                argv[1]->Qexpr_0
            } else if argv.len() == 3 {
                argv[2]->Qexpr_0
            } else {
                Seq::<LValV>::empty()
            };
            let frames0 = old(itp).scopes.frames@;
            &&& (depth <= 1 ==> r@ == LValV::Error(crate::eval::msg_depth()) && *final(itp)
                == *old(itp))
            &&& (depth >= 2 ==> (match crate::eval::list_outcome(frames0, env as int, chosen) {
                Option::Some(res) => r@ == res,
                Option::None => true,
            }) && (crate::eval::list_keeps_state(frames0, env as int, chosen) ==> *final(itp)
                == *old(itp)))
        }),
        match crate::eval::builtin_spec(
            crate::eval::view_frames(old(itp).scopes.frames@),
            env as int,
            crate::lval::LBuiltin::If,
            view_seq(args@),
            depth as nat,
        ) {
            Option::Some(res) => r@ == res && crate::eval::states_agree(*old(itp), *final(itp)),
            Option::None => true,
        },
    decreases depth, 0int, 0int, 0int,
{
    let ghost argv = view_seq(args@);
    proof {
        lemma_view_seq(args@);
    }
    if args.len() < 2 {
        return err_few_min("if", 2, args.len());
    }
    if args.len() > 3 {
        return err_many_max("if", 3, args.len());
    }
    proof {
        assert(argv[0] == args@[0]@);
        assert(argv[1] == args@[1]@);
        if args@.len() == 3 {
            assert(argv[2] == args@[2]@);
        }
    }
    let test = match &args[0] {
        LVal::Num(n) => *n,
        _ => {
            return err_wrong_type("if", 1, "a number", &args[0]);
        },
    };
    let is_qexpr_1 = match &args[1] {
        LVal::Qexpr(_) => true,
        _ => false,
    };
    if !is_qexpr_1 {
        return err_wrong_type("if", 2, "a q-expression", &args[1]);
    }
    if args.len() == 3 {
        let is_qexpr_2 = match &args[2] {
            LVal::Qexpr(_) => true,
            _ => false,
        };
        if !is_qexpr_2 {
            return err_wrong_type("if", 3, "a q-expression", &args[2]);
        }
    }
    let mut args = args;
    let ghost args0 = args@;
    let alternative = if args.len() == 3 {
        match args.pop() {
            Option::Some(v) => v,
            Option::None => unreached(),
        }
    } else {
        LVal::sexpr()
    };
    let consequence = match args.pop() {
        Option::Some(v) => v,
        Option::None => unreached(),
    };
    proof {
        assert(consequence@ == argv[1]);
        if args0.len() == 3 {
            assert(alternative@ == argv[2]);
        }
    }
    let branch = if test != 0 {
        consequence
    } else {
        alternative
    };
    let items = branch.into_values();
    if depth == 0 {
        return depth_error();
    }
    eval(itp, env, LVal::Sexpr(items), depth - 1)
}

/// What `not` returns: the negated numeric truth value of its one argument.
pub open spec fn not_result(args: Seq<LValV>) -> LValV {
    if args.len() < 1 {
        LValV::Error(msg_few_exact("not"@, 1, args.len() as int))
    } else if args.len() > 1 {
        LValV::Error(msg_many_exact("not"@, 1, args.len() as int))
    } else if !(args[0] is Num) {
        LValV::Error(msg_wrong_type("not"@, 1, "a number"@, args[0]))
    } else {
        num_bool(args[0]->Num_0 == 0)
    }
}

/// Logical NOT of one numeric truth value.
pub fn builtin_not(args: Vec<LVal>) -> (r: LVal)
    ensures
        r@ == not_result(view_seq(args@)),
{
    proof {
        lemma_view_seq(args@);
    }
    if args.len() < 1 {
        return err_few_exact("not", 1, args.len());
    }
    if args.len() > 1 {
        return err_many_exact("not", 1, args.len());
    }
    proof {
        assert(view_seq(args@)[0] == args@[0]@);
    }
    match &args[0] {
        LVal::Num(n) => {
            if *n == 0 {
                LVal::num(1)
            } else {
                LVal::num(0)
            }
        },
        _ => err_wrong_type("not", 1, "a number", &args[0]),
    }
}

} // verus!

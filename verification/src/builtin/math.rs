//! The arithmetic family: add, subtract, multiply, divide, modulo, min, max.
//!
//! Numbers are 64-bit signed integers; add, subtract and multiply wrap
//! around, division truncates toward zero, and division or modulo by zero is
//! the `division by zero!` error value.

use vstd::prelude::*;
use crate::lval::{LVal, LValV, view_seq, lemma_view_seq, show};
use crate::builtin::{msg_few_min, msg_wrong_type, err_few_min, err_wrong_type};

verus! {

/// One arithmetic operation.
#[derive(Clone, Copy, PartialEq, Eq, Structural, Debug)]
#[allow(non_camel_case_types)]
pub enum ArithmeticOp {
    ADD,
    SUB,
    MUL,
    DIV,
    MOD,
    MIN,
    MAX,
}

/// Two to the sixty-fourth: the size of the 64-bit value space.
pub open spec fn range64() -> int {
    0x1_0000_0000_0000_0000
}

/// The 64-bit two's-complement representative of an integer: the unique
/// value in `[i64::MIN, i64::MAX]` congruent to `x` modulo 2^64.
pub open spec fn wrap64(x: int) -> int {
    if x % range64() > i64::MAX as int {
        x % range64() - range64()
    } else {
        x % range64()
    }
}

/// Truncating (round toward zero) division.
pub open spec fn trunc_div(x: int, d: int) -> int {
    if x == 0 {
        0
    } else if x > 0 && d > 0 {
        x / d
    } else if x < 0 && d < 0 {
        (x * -1) / (d * -1)
    } else if x < 0 {
        ((x * -1) / d) * -1
    } else {
        (x / (d * -1)) * -1
    }
}

/// Truncating remainder: pairs with `trunc_div`, so the result takes the
/// dividend's sign.
pub open spec fn trunc_rem(x: int, d: int) -> int {
    if x == 0 {
        0
    } else if x > 0 && d > 0 {
        x % d
    } else if x < 0 && d < 0 {
        (x * -1) % (d * -1) * -1
    } else if x < 0 {
        ((x * -1) % d) * -1
    } else {
        x % (d * -1)
    }
}

/// One pairwise step of the fold.  Division and modulo by zero are handled
/// before this applies.
pub open spec fn apply_op(op: ArithmeticOp, x: int, y: int) -> int {
    match op {
        ArithmeticOp::ADD => wrap64(x + y),
        ArithmeticOp::SUB => wrap64(x - y),
        ArithmeticOp::MUL => wrap64(x * y),
        ArithmeticOp::DIV => wrap64(trunc_div(x, y)),
        ArithmeticOp::MOD => trunc_rem(x, y),
        ArithmeticOp::MIN => if x > y {
            y
        } else {
            x
        },
        ArithmeticOp::MAX => if x > y {
            x
        } else {
            y
        },
    }
}

/// Left-to-right pairwise fold; `None` is the first division or modulo by
/// zero.
pub open spec fn fold_op(op: ArithmeticOp, acc: int, rest: Seq<int>) -> Option<int>
    decreases rest,
{
    if rest.len() == 0 {
        Option::Some(acc)
    } else if (op is DIV || op is MOD) && rest.first() == 0 {
        Option::None
    } else {
        fold_op(op, apply_op(op, acc, rest.first()), rest.drop_first())
    }
}

/// The canonical name of an operation.
pub open spec fn op_name(op: ArithmeticOp) -> Seq<char> {
    match op {
        ArithmeticOp::ADD => "+"@,
        ArithmeticOp::SUB => "-"@,
        ArithmeticOp::MUL => "*"@,
        ArithmeticOp::DIV => "/"@,
        ArithmeticOp::MOD => "%"@,
        ArithmeticOp::MIN => "min"@,
        ArithmeticOp::MAX => "max"@,
    }
}

/// Index of the first argument that is not a number; the length when all
/// are.
pub open spec fn first_non_num(args: Seq<LValV>) -> int
    decreases args,
{
    if args.len() == 0 {
        0
    } else if !(args.first() is Num) {
        0
    } else {
        1 + first_non_num(args.drop_first())
    }
}

/// Position and bounds of `first_non_num`.
pub proof fn lemma_first_non_num(args: Seq<LValV>)
    ensures
        0 <= first_non_num(args) <= args.len(),
        first_non_num(args) < args.len() ==> !(args[first_non_num(args)] is Num),
        forall|j: int| 0 <= j < first_non_num(args) ==> #[trigger] args[j] is Num,
    decreases args,
{
    if args.len() > 0 && args.first() is Num {
        lemma_first_non_num(args.drop_first());
        let k = first_non_num(args);
        assert(k == 1 + first_non_num(args.drop_first()));
        if k < args.len() {
            assert(args.drop_first()[k - 1] == args[k]);
        }
        assert forall|j: int| 0 <= j < k implies #[trigger] args[j] is Num by {
            if j > 0 {
                assert(args.drop_first()[j - 1] == args[j]);
            }
        }
    }
}

/// The numbers inside a sequence of `Num` values.
pub open spec fn nums(args: Seq<LValV>) -> Seq<int> {
    Seq::new(args.len(), |i: int| args[i]->Num_0)
}

/// What the arithmetic fold returns for the given evaluated arguments: the
/// first non-number argument is a type error; no argument, or a single
/// argument for every operation but unary minus, is a count error; a lone
/// `-` operand is negated; otherwise the arguments are folded pairwise, and
/// a zero divisor is the division-by-zero error.
pub open spec fn op_result(op: ArithmeticOp, args: Seq<LValV>) -> LValV {
    let k = first_non_num(args);
    if k < args.len() {
        LValV::Error(msg_wrong_type(op_name(op), k + 1, "a number"@, args[k]))
    } else if args.len() == 0 {
        LValV::Error(msg_few_min(op_name(op), 1, 0))
    } else {
        let x = args[0]->Num_0;
        if op is SUB && args.len() == 1 {
            LValV::Num(wrap64(-x))
        } else if args.len() == 1 {
            LValV::Error(msg_few_min(op_name(op), 1, 0))
        } else {
            match fold_op(op, x, nums(args.skip(1))) {
                Option::Some(v) => LValV::Num(v),
                Option::None => LValV::Error("division by zero!"@),
            }
        }
    }
}

/// `wrap64` stays within the 64-bit signed range, and is the identity there.
pub proof fn lemma_wrap64_range(x: int)
    ensures
        i64::MIN <= wrap64(x) <= i64::MAX,
        i64::MIN <= x <= i64::MAX ==> wrap64(x) == x,
{
    let r = range64();
    vstd::arithmetic::div_mod::lemma_mod_division_less_than_divisor(x, r);
    if 0 <= x <= i64::MAX {
        vstd::arithmetic::div_mod::lemma_small_mod(x as nat, r as nat);
    }
    if i64::MIN <= x < 0 {
        vstd::arithmetic::div_mod::lemma_mod_add_multiples_vanish(x, r);
        vstd::arithmetic::div_mod::lemma_small_mod((x + r) as nat, r as nat);
    }
}

/// Integers congruent modulo 2^64 wrap to the same value.
pub proof fn lemma_wrap64_congruent(a: int, b: int)
    requires
        a % range64() == b % range64(),
    ensures
        wrap64(a) == wrap64(b),
{
}

/// The exact wrapping of a 64-bit addition.
pub proof fn lemma_wrap_add(x: i64, y: i64)
    ensures
        vstd::wrapping::i64_specs::wrapping_add(x, y) as int == wrap64(x + y),
{
    let r = range64();
    let t = x + y;
    if t > i64::MAX {
        vstd::arithmetic::div_mod::lemma_small_mod(t as nat, r as nat);
    } else if t < i64::MIN {
        vstd::arithmetic::div_mod::lemma_mod_add_multiples_vanish(t, r);
        vstd::arithmetic::div_mod::lemma_small_mod((t + r) as nat, r as nat);
    } else {
        lemma_wrap64_range(t);
    }
}

/// The exact wrapping of a 64-bit subtraction.
pub proof fn lemma_wrap_sub(x: i64, y: i64)
    ensures
        vstd::wrapping::i64_specs::wrapping_sub(x, y) as int == wrap64(x - y),
{
    let r = range64();
    let t = x - y;
    if t > i64::MAX {
        vstd::arithmetic::div_mod::lemma_small_mod(t as nat, r as nat);
    } else if t < i64::MIN {
        vstd::arithmetic::div_mod::lemma_mod_add_multiples_vanish(t, r);
        vstd::arithmetic::div_mod::lemma_small_mod((t + r) as nat, r as nat);
    } else {
        lemma_wrap64_range(t);
    }
}

/// The exact wrapping of a 64-bit multiplication.
pub proof fn lemma_wrap_mul(x: i64, y: i64)
    ensures
        vstd::wrapping::i64_specs::wrapping_mul(x, y) as int == wrap64(x * y),
{
    let r = range64();
    let t = x * y;
    assert(vstd::wrapping::i64_specs::wrapping_mul(x, y)
        == vstd::wrapping::i64_specs::signed_crop(t));
}

/// The sum of a sequence of integers.
pub open spec fn seq_sum(s: Seq<int>) -> int
    decreases s,
{
    if s.len() == 0 {
        0
    } else {
        s.first() + seq_sum(s.drop_first())
    }
}

/// The product of a sequence of integers.
pub open spec fn seq_prod(s: Seq<int>) -> int
    decreases s,
{
    if s.len() == 0 {
        1
    } else {
        s.first() * seq_prod(s.drop_first())
    }
}

/// Wrapping absorbs an already wrapped left operand of an addition.
pub proof fn lemma_wrap_add_absorb(a: int, b: int)
    ensures
        wrap64(wrap64(a) + b) == wrap64(a + b),
        wrap64(a + wrap64(b)) == wrap64(a + b),
{
    let r = range64();
    vstd::arithmetic::div_mod::lemma_fundamental_div_mod(a, r);
    let ka = if a % r > i64::MAX as int {
        a / r + 1
    } else {
        a / r
    };
    assert(wrap64(a) == a - r * ka) by {
        assert(r * (a / r + 1) == r * (a / r) + r) by (nonlinear_arith);
    }
    assert(wrap64(a) + b == r * (-ka) + (a + b)) by {
        assert(r * (-ka) == -(r * ka)) by (nonlinear_arith);
    }
    vstd::arithmetic::div_mod::lemma_mod_multiples_vanish(-ka, a + b, r);
    lemma_wrap64_congruent(wrap64(a) + b, a + b);
    vstd::arithmetic::div_mod::lemma_fundamental_div_mod(b, r);
    let kb = if b % r > i64::MAX as int {
        b / r + 1
    } else {
        b / r
    };
    assert(wrap64(b) == b - r * kb) by {
        assert(r * (b / r + 1) == r * (b / r) + r) by (nonlinear_arith);
    }
    assert(a + wrap64(b) == r * (-kb) + (a + b)) by {
        assert(r * (-kb) == -(r * kb)) by (nonlinear_arith);
    }
    vstd::arithmetic::div_mod::lemma_mod_multiples_vanish(-kb, a + b, r);
    lemma_wrap64_congruent(a + wrap64(b), a + b);
}

/// Wrapping absorbs an already wrapped operand of a multiplication.
pub proof fn lemma_wrap_mul_absorb(a: int, b: int)
    ensures
        wrap64(wrap64(a) * b) == wrap64(a * b),
        wrap64(a * wrap64(b)) == wrap64(a * b),
{
    let r = range64();
    vstd::arithmetic::div_mod::lemma_fundamental_div_mod(a, r);
    let ka = if a % r > i64::MAX as int {
        a / r + 1
    } else {
        a / r
    };
    assert(wrap64(a) == a - r * ka) by {
        assert(r * (a / r + 1) == r * (a / r) + r) by (nonlinear_arith);
    }
    assert(wrap64(a) * b == r * (-(ka * b)) + a * b) by (nonlinear_arith)
        requires
            wrap64(a) == a - r * ka,
    ;
    vstd::arithmetic::div_mod::lemma_mod_multiples_vanish(-(ka * b), a * b, r);
    lemma_wrap64_congruent(wrap64(a) * b, a * b);
    vstd::arithmetic::div_mod::lemma_fundamental_div_mod(b, r);
    let kb = if b % r > i64::MAX as int {
        b / r + 1
    } else {
        b / r
    };
    assert(wrap64(b) == b - r * kb) by {
        assert(r * (b / r + 1) == r * (b / r) + r) by (nonlinear_arith);
    }
    assert(a * wrap64(b) == r * (-(kb * a)) + a * b) by (nonlinear_arith)
        requires
            wrap64(b) == b - r * kb,
    ;
    vstd::arithmetic::div_mod::lemma_mod_multiples_vanish(-(kb * a), a * b, r);
    lemma_wrap64_congruent(a * wrap64(b), a * b);
}

/// Law: the wrapping addition step is commutative and associative.
pub proof fn lemma_add_comm_assoc(a: int, b: int, c: int)
    ensures
        apply_op(ArithmeticOp::ADD, a, b) == apply_op(ArithmeticOp::ADD, b, a),
        apply_op(ArithmeticOp::ADD, apply_op(ArithmeticOp::ADD, a, b), c) == apply_op(
            ArithmeticOp::ADD,
            a,
            apply_op(ArithmeticOp::ADD, b, c),
        ),
{
    lemma_wrap_add_absorb(a + b, c);
    lemma_wrap_add_absorb(a, b + c);
}

/// Law: the wrapping multiplication step is commutative and associative.
pub proof fn lemma_mul_comm_assoc(a: int, b: int, c: int)
    ensures
        apply_op(ArithmeticOp::MUL, a, b) == apply_op(ArithmeticOp::MUL, b, a),
        apply_op(ArithmeticOp::MUL, apply_op(ArithmeticOp::MUL, a, b), c) == apply_op(
            ArithmeticOp::MUL,
            a,
            apply_op(ArithmeticOp::MUL, b, c),
        ),
{
    assert(a * b == b * a) by (nonlinear_arith);
    lemma_wrap_mul_absorb(a * b, c);
    lemma_wrap_mul_absorb(a, b * c);
    assert((a * b) * c == a * (b * c)) by (nonlinear_arith);
}

/// Law: the left fold of `+` wraps the plain sum — so the order of the
/// operands cannot matter.
pub proof fn lemma_fold_add_is_sum(acc: int, s: Seq<int>)
    requires
        i64::MIN <= acc <= i64::MAX,
    ensures
        fold_op(ArithmeticOp::ADD, acc, s) == Option::Some(wrap64(acc + seq_sum(s))),
    decreases s,
{
    if s.len() == 0 {
        lemma_wrap64_range(acc);
    } else {
        lemma_wrap64_range(acc + s.first());
        lemma_fold_add_is_sum(wrap64(acc + s.first()), s.drop_first());
        lemma_wrap_add_absorb(acc + s.first(), seq_sum(s.drop_first()));
    }
}

/// Law: the left fold of `*` wraps the plain product — so the order of the
/// operands cannot matter.
pub proof fn lemma_fold_mul_is_prod(acc: int, s: Seq<int>)
    requires
        i64::MIN <= acc <= i64::MAX,
    ensures
        fold_op(ArithmeticOp::MUL, acc, s) == Option::Some(wrap64(acc * seq_prod(s))),
    decreases s,
{
    if s.len() == 0 {
        lemma_wrap64_range(acc);
        assert(acc * 1 == acc) by (nonlinear_arith);
    } else {
        lemma_wrap64_range(acc * s.first());
        lemma_wrap_mul_absorb(acc, s.first());
        lemma_fold_mul_is_prod(wrap64(acc * s.first()), s.drop_first());
        lemma_wrap_mul_absorb(acc * s.first(), seq_prod(s.drop_first()));
        assert((acc * s.first()) * seq_prod(s.drop_first()) == acc * (s.first() * seq_prod(
            s.drop_first(),
        ))) by (nonlinear_arith);
    }
}

/// Sums split over concatenation.
pub proof fn lemma_seq_sum_concat(s1: Seq<int>, s2: Seq<int>)
    ensures
        seq_sum(s1 + s2) == seq_sum(s1) + seq_sum(s2),
    decreases s1,
{
    if s1.len() == 0 {
        assert(s1 + s2 =~= s2);
    } else {
        assert((s1 + s2).first() == s1.first());
        assert((s1 + s2).drop_first() =~= s1.drop_first() + s2);
        lemma_seq_sum_concat(s1.drop_first(), s2);
    }
}

/// Products split over concatenation.
pub proof fn lemma_seq_prod_concat(s1: Seq<int>, s2: Seq<int>)
    ensures
        seq_prod(s1 + s2) == seq_prod(s1) * seq_prod(s2),
    decreases s1,
{
    if s1.len() == 0 {
        assert(s1 + s2 =~= s2);
        assert(1 * seq_prod(s2) == seq_prod(s2)) by (nonlinear_arith);
    } else {
        assert((s1 + s2).first() == s1.first());
        assert((s1 + s2).drop_first() =~= s1.drop_first() + s2);
        lemma_seq_prod_concat(s1.drop_first(), s2);
        assert(s1.first() * (seq_prod(s1.drop_first()) * seq_prod(s2)) == (s1.first() * seq_prod(
            s1.drop_first(),
        )) * seq_prod(s2)) by (nonlinear_arith);
    }
}

/// Law: folding `+` over two argument blocks in either order gives the same
/// result (commutativity under the left fold).
pub proof fn lemma_fold_add_blocks_commute(acc: int, s1: Seq<int>, s2: Seq<int>)
    requires
        i64::MIN <= acc <= i64::MAX,
    ensures
        fold_op(ArithmeticOp::ADD, acc, s1 + s2) == fold_op(ArithmeticOp::ADD, acc, s2 + s1),
{
    lemma_fold_add_is_sum(acc, s1 + s2);
    lemma_fold_add_is_sum(acc, s2 + s1);
    lemma_seq_sum_concat(s1, s2);
    lemma_seq_sum_concat(s2, s1);
}

/// Law: folding `*` over two argument blocks in either order gives the same
/// result (commutativity under the left fold).
pub proof fn lemma_fold_mul_blocks_commute(acc: int, s1: Seq<int>, s2: Seq<int>)
    requires
        i64::MIN <= acc <= i64::MAX,
    ensures
        fold_op(ArithmeticOp::MUL, acc, s1 + s2) == fold_op(ArithmeticOp::MUL, acc, s2 + s1),
{
    lemma_fold_mul_is_prod(acc, s1 + s2);
    lemma_fold_mul_is_prod(acc, s2 + s1);
    lemma_seq_prod_concat(s1, s2);
    lemma_seq_prod_concat(s2, s1);
    assert(seq_prod(s1) * seq_prod(s2) == seq_prod(s2) * seq_prod(s1)) by (nonlinear_arith);
}

/// Law: `-` with exactly one numeric argument negates it.
pub proof fn lemma_sub_unary(x: int)
    ensures
        op_result(ArithmeticOp::SUB, seq![LValV::Num(x)]) == LValV::Num(wrap64(-x)),
{
    reveal_with_fuel(first_non_num, 3);
    let args = seq![LValV::Num(x)];
    assert(args.first() is Num);
    assert(args.drop_first().len() == 0);
    assert(first_non_num(args) == 1);
}

/// Law: dividing or taking the remainder of any number by zero is the
/// division-by-zero error, never a fault.
pub proof fn lemma_div_mod_by_zero(op: ArithmeticOp, x: int)
    requires
        op is DIV || op is MOD,
    ensures
        op_result(op, seq![LValV::Num(x), LValV::Num(0)]) == LValV::Error("division by zero!"@),
{
    reveal_with_fuel(first_non_num, 4);
    let args = seq![LValV::Num(x), LValV::Num(0)];
    assert(args.first() is Num);
    assert(args.drop_first().first() == args[1]);
    assert(args.drop_first().drop_first().len() == 0);
    assert(first_non_num(args) == 2);
    let rest = nums(args.skip(1));
    assert(args.skip(1) =~= seq![LValV::Num(0)]);
    assert(rest.len() == 1);
    assert(rest.first() == 0);
    assert(fold_op(op, x, rest) is None);
}

/// One pairwise step, executable; a zero divisor is ruled out by the caller.
fn apply_op_exec(op: ArithmeticOp, x: i64, y: i64) -> (r: i64)
    requires
        (op is DIV || op is MOD) ==> y != 0,
    ensures
        r as int == apply_op(op, x as int, y as int),
{
    match op {
        ArithmeticOp::ADD => {
            proof {
                lemma_wrap_add(x, y);
            }
            x.wrapping_add(y)
        },
        ArithmeticOp::SUB => {
            proof {
                lemma_wrap_sub(x, y);
            }
            x.wrapping_sub(y)
        },
        ArithmeticOp::MUL => {
            proof {
                lemma_wrap_mul(x, y);
            }
            x.wrapping_mul(y)
        },
        ArithmeticOp::DIV => {
            match x.checked_div(y) {
                Option::Some(q) => {
                    proof {
                        lemma_wrap64_range(trunc_div(x as int, y as int));
                    }
                    q
                },
                Option::None => {
                    // Only i64::MIN / -1 overflows; it wraps to i64::MIN.
                    proof {
                        let r = range64();
                        assert(trunc_div(x as int, y as int) == i64::MAX + 1);
                        vstd::arithmetic::div_mod::lemma_small_mod((i64::MAX + 1) as nat, r as nat);
                    }
                    i64::MIN
                },
            }
        },
        ArithmeticOp::MOD => {
            match x.checked_rem(y) {
                Option::Some(q) => q,
                Option::None => {
                    // Only i64::MIN % -1 overflows the check; its remainder
                    // is zero.
                    proof {
                        assert(trunc_rem(x as int, y as int) == (x * -1) % (y * -1) * -1);
                        assert((x as int) * -1 == i64::MAX + 1);
                        assert((y as int) * -1 == 1);
                        assert((i64::MAX + 1) % 1int == 0) by (nonlinear_arith);
                    }
                    0i64
                },
            }
        },
        ArithmeticOp::MIN => if x > y {
            y
        } else {
            x
        },
        ArithmeticOp::MAX => if x > y {
            x
        } else {
            y
        },
    }
}

/// The shared fold of the arithmetic family; see `op_result`.
pub fn builtin_op(op: ArithmeticOp, args: Vec<LVal>) -> (r: LVal)
    ensures
        r@ == op_result(op, view_seq(args@)),
{
    let ghost argv = view_seq(args@);
    proof {
        lemma_view_seq(args@);
        lemma_first_non_num(argv);
    }
    // Make sure all arguments are numbers.
    let mut i: usize = 0;
    while i < args.len()
        invariant
            i <= args@.len(),
            argv == view_seq(args@),
            argv.len() == args@.len(),
            forall|j: int| 0 <= j < args@.len() ==> argv[j] == #[trigger] args@[j]@,
            forall|j: int| 0 <= j < i ==> #[trigger] argv[j] is Num,
            0 <= first_non_num(argv) <= argv.len(),
            first_non_num(argv) < argv.len() ==> !(argv[first_non_num(argv)] is Num),
            forall|j: int| 0 <= j < first_non_num(argv) ==> #[trigger] argv[j] is Num,
        decreases args@.len() - i,
    {
        let is_num = match &args[i] {
            LVal::Num(_) => true,
            _ => false,
        };
        proof {
            assert(argv[i as int] == args@[i as int]@);
            assert(is_num == argv[i as int] is Num);
        }
        if !is_num {
            proof {
                let k = first_non_num(argv);
                if k < i as int {
                    assert(argv[k] is Num);
                    assert(false);
                }
                if k > i as int {
                    assert(argv[i as int] is Num);
                    assert(false);
                }
            }
            return err_wrong_type(op_name_str(op), i + 1, "a number", &args[i]);
        }
        i = i + 1;
    }
    proof {
        assert(first_non_num(argv) == argv.len());
    }
    if args.len() == 0 {
        return err_few_min(op_name_str(op), 1, 0);
    }
    let x0 = match &args[0] {
        LVal::Num(n) => *n,
        _ => {
            proof {
                assert(argv[0] == args@[0]@);
                assert(argv[0] is Num);
            }
            unreached()
        },
    };
    proof {
        assert(argv[0] == args@[0]@);
        assert(x0 as int == argv[0]->Num_0);
    }

    // Perform unary minus operation.
    if matches!(op, ArithmeticOp::SUB) && args.len() == 1 {
        proof {
            lemma_wrap_sub(0i64, x0);
        }
        return LVal::num(0i64.wrapping_sub(x0));
    }
    if args.len() == 1 {
        return err_few_min(op_name_str(op), 1, 0);
    }

    let ghost restv = nums(argv.skip(1));
    let mut acc: i64 = x0;
    let mut i: usize = 1;
    proof {
        assert(restv.skip(0) =~= restv);
    }
    while i < args.len()
        invariant
            1 <= i <= args@.len(),
            argv == view_seq(args@),
            argv.len() == args@.len(),
            forall|j: int| 0 <= j < args@.len() ==> argv[j] == #[trigger] args@[j]@,
            forall|j: int| 0 <= j < argv.len() ==> #[trigger] argv[j] is Num,
            first_non_num(argv) == argv.len(),
            argv.len() >= 2,
            !(op is SUB && argv.len() == 1),
            x0 as int == argv[0]->Num_0,
            restv == nums(argv.skip(1)),
            restv.len() == argv.len() - 1,
            forall|j: int| 0 <= j < restv.len() ==> #[trigger] restv[j] == argv[j + 1]->Num_0,
            fold_op(op, x0 as int, restv) == fold_op(op, acc as int, restv.skip(i - 1)),
        decreases args@.len() - i,
    {
        let y = match &args[i] {
            LVal::Num(n) => *n,
            _ => {
                proof {
                    assert(argv[i as int] == args@[i as int]@);
                    assert(argv[i as int] is Num);
                }
                unreached()
            },
        };
        proof {
            assert(argv[i as int] == args@[i as int]@);
            assert(y as int == argv[i as int]->Num_0);
        }
        proof {
            assert(argv[i as int] == args@[i as int]@);
            assert(restv[i - 1] == argv[i as int]->Num_0);
            assert(restv.skip(i - 1).first() == restv[i - 1]);
            assert(restv.skip(i - 1).drop_first() =~= restv.skip(i as int));
        }
        if matches!(op, ArithmeticOp::DIV) || matches!(op, ArithmeticOp::MOD) {
            if y == 0 {
                proof {
                    assert(fold_op(op, acc as int, restv.skip(i - 1)) is None);
                }
                return LVal::err("division by zero!".to_owned());
            }
        }
        acc = apply_op_exec(op, acc, y);
        i = i + 1;
    }
    proof {
        assert(restv.skip(args@.len() - 1) =~= Seq::<int>::empty());
    }
    LVal::num(acc)
}

/// The canonical name of an operation, executable.
pub fn op_name_str(op: ArithmeticOp) -> (r: &'static str)
    ensures
        r@ == op_name(op),
{
    match op {
        ArithmeticOp::ADD => "+",
        ArithmeticOp::SUB => "-",
        ArithmeticOp::MUL => "*",
        ArithmeticOp::DIV => "/",
        ArithmeticOp::MOD => "%",
        ArithmeticOp::MIN => "min",
        ArithmeticOp::MAX => "max",
    }
}

/// Fold the arguments with `+`.
pub fn builtin_add(args: Vec<LVal>) -> (r: LVal)
    ensures
        r@ == op_result(ArithmeticOp::ADD, view_seq(args@)),
{
    builtin_op(ArithmeticOp::ADD, args)
}

/// Fold the arguments with `-`; negate a single argument.
pub fn builtin_sub(args: Vec<LVal>) -> (r: LVal)
    ensures
        r@ == op_result(ArithmeticOp::SUB, view_seq(args@)),
{
    builtin_op(ArithmeticOp::SUB, args)
}

/// Fold the arguments with `*`.
pub fn builtin_mul(args: Vec<LVal>) -> (r: LVal)
    ensures
        r@ == op_result(ArithmeticOp::MUL, view_seq(args@)),
{
    builtin_op(ArithmeticOp::MUL, args)
}

/// Fold the arguments with `/`; a zero divisor is an error value.
pub fn builtin_div(args: Vec<LVal>) -> (r: LVal)
    ensures
        r@ == op_result(ArithmeticOp::DIV, view_seq(args@)),
{
    builtin_op(ArithmeticOp::DIV, args)
}

/// Fold the arguments with `%`; a zero divisor is an error value.
pub fn builtin_mod(args: Vec<LVal>) -> (r: LVal)
    ensures
        r@ == op_result(ArithmeticOp::MOD, view_seq(args@)),
{
    builtin_op(ArithmeticOp::MOD, args)
}

/// Fold the arguments with the smaller-of operation.
pub fn builtin_min(args: Vec<LVal>) -> (r: LVal)
    ensures
        r@ == op_result(ArithmeticOp::MIN, view_seq(args@)),
{
    builtin_op(ArithmeticOp::MIN, args)
}

/// Fold the arguments with the larger-of operation.
pub fn builtin_max(args: Vec<LVal>) -> (r: LVal)
    ensures
        r@ == op_result(ArithmeticOp::MAX, view_seq(args@)),
{
    builtin_op(ArithmeticOp::MAX, args)
}

} // verus!

//! The list family: head, tail, list, join, cons.

use vstd::prelude::*;
use crate::lval::{LVal, LValV, view_seq, lemma_view_seq, lemma_view_seq_push, clone_vec};
use crate::builtin::{msg_few_exact, msg_many_exact, msg_few_min, msg_wrong_type, msg_empty_qexpr,
    err_few_exact, err_many_exact, err_few_min, err_wrong_type, err_empty_qexpr};

verus! {

/// Index of the first argument that is not a q-expression; the length when
/// all are.
pub open spec fn first_non_qexpr(args: Seq<LValV>) -> int
    decreases args,
{
    if args.len() == 0 {
        0
    } else if !(args.first() is Qexpr) {
        0
    } else {
        1 + first_non_qexpr(args.drop_first())
    }
}

/// Position and bounds of `first_non_qexpr`.
pub proof fn lemma_first_non_qexpr(args: Seq<LValV>)
    ensures
        0 <= first_non_qexpr(args) <= args.len(),
        first_non_qexpr(args) < args.len() ==> !(args[first_non_qexpr(args)] is Qexpr),
        forall|j: int| 0 <= j < first_non_qexpr(args) ==> #[trigger] args[j] is Qexpr,
    decreases args,
{
    if args.len() > 0 && args.first() is Qexpr {
        lemma_first_non_qexpr(args.drop_first());
        let k = first_non_qexpr(args);
        if k < args.len() {
            assert(args.drop_first()[k - 1] == args[k]);
        }
        assert forall|j: int| 0 <= j < k implies #[trigger] args[j] is Qexpr by {
            if j > 0 {
                assert(args.drop_first()[j - 1] == args[j]);
            }
        }
    }
}

/// What `head` returns: the one-element list holding the first element of
/// its single, non-empty q-expression argument.
pub open spec fn head_result(args: Seq<LValV>) -> LValV {
    if args.len() < 1 {
        LValV::Error(msg_few_exact("head"@, 1, args.len() as int))
    } else if args.len() > 1 {
        LValV::Error(msg_many_exact("head"@, 1, args.len() as int))
    } else if !(args[0] is Qexpr) {
        LValV::Error(msg_wrong_type("head"@, 1, "a q-expression"@, args[0]))
    } else if args[0]->Qexpr_0.len() == 0 {
        LValV::Error(msg_empty_qexpr("head"@))
    } else {
        LValV::Qexpr(seq![args[0]->Qexpr_0[0]])
    }
}

/// What `tail` returns: all but the first element of its single, non-empty
/// q-expression argument.
pub open spec fn tail_result(args: Seq<LValV>) -> LValV {
    if args.len() < 1 {
        LValV::Error(msg_few_exact("tail"@, 1, args.len() as int))
    } else if args.len() > 1 {
        LValV::Error(msg_many_exact("tail"@, 1, args.len() as int))
    } else if !(args[0] is Qexpr) {
        LValV::Error(msg_wrong_type("tail"@, 1, "a q-expression"@, args[0]))
    } else if args[0]->Qexpr_0.len() == 0 {
        LValV::Error(msg_empty_qexpr("tail"@))
    } else {
        LValV::Qexpr(args[0]->Qexpr_0.drop_first())
    }
}

/// The concatenation of the elements of a sequence of q-expressions.
pub open spec fn join_elems(args: Seq<LValV>) -> Seq<LValV>
    decreases args,
{
    if args.len() == 0 {
        Seq::empty()
    } else {
        join_elems(args.drop_last()) + args.last()->Qexpr_0
    }
}

/// What `join` returns: its q-expression arguments concatenated in order.
pub open spec fn join_result(args: Seq<LValV>) -> LValV {
    if args.len() < 1 {
        LValV::Error(msg_few_min("join"@, 1, args.len() as int))
    } else {
        let k = first_non_qexpr(args);
        if k < args.len() {
            LValV::Error(msg_wrong_type("join"@, k + 1, "a q-expression"@, args[k]))
        } else {
            LValV::Qexpr(join_elems(args))
        }
    }
}

/// What `cons` returns: its first argument prepended onto its q-expression
/// second argument.
pub open spec fn cons_result(args: Seq<LValV>) -> LValV {
    if args.len() < 2 {
        LValV::Error(msg_few_exact("cons"@, 2, args.len() as int))
    } else if args.len() > 2 {
        LValV::Error(msg_many_exact("cons"@, 2, args.len() as int))
    } else if !(args[1] is Qexpr) {
        LValV::Error(msg_wrong_type("cons"@, 2, "a q-expression"@, args[1]))
    } else {
        LValV::Qexpr(seq![args[0]] + args[1]->Qexpr_0)
    }
}

/// The first element of a non-empty q-expression, as a one-element list.
pub fn builtin_head(args: Vec<LVal>) -> (r: LVal)
    ensures
        r@ == head_result(view_seq(args@)),
{
    proof {
        lemma_view_seq(args@);
    }
    if args.len() < 1 {
        return err_few_exact("head", 1, args.len());
    }
    if args.len() > 1 {
        return err_many_exact("head", 1, args.len());
    }
    proof {
        assert(view_seq(args@)[0] == args@[0]@);
    }
    match &args[0] {
        LVal::Qexpr(items) => {
            proof {
                lemma_view_seq(items@);
            }
            if items.len() == 0 {
                return err_empty_qexpr("head");
            }
            let first = items[0].clone();
            let mut out: Vec<LVal> = Vec::new();
            out.push(first);
            proof {
                lemma_view_seq(out@);
                assert(view_seq(out@) =~= seq![args@[0]@->Qexpr_0[0]]);
            }
            LVal::Qexpr(out)
        },
        _ => err_wrong_type("head", 1, "a q-expression", &args[0]),
    }
}

/// All but the first element of a non-empty q-expression.
pub fn builtin_tail(args: Vec<LVal>) -> (r: LVal)
    ensures
        r@ == tail_result(view_seq(args@)),
{
    proof {
        lemma_view_seq(args@);
    }
    if args.len() < 1 {
        return err_few_exact("tail", 1, args.len());
    }
    if args.len() > 1 {
        return err_many_exact("tail", 1, args.len());
    }
    proof {
        assert(view_seq(args@)[0] == args@[0]@);
    }
    let mut args = args;
    let head_arg = args.remove(0);
    match head_arg {
        LVal::Qexpr(items) => {
            proof {
                lemma_view_seq(items@);
            }
            if items.len() == 0 {
                return err_empty_qexpr("tail");
            }
            let mut items = items;
            let ghost before = items@;
            items.remove(0);
            proof {
                lemma_view_seq(items@);
                assert forall|j: int| 0 <= j < items@.len() implies view_seq(items@)[j] == view_seq(
                    before,
                )[j + 1] by {
                    assert(items@[j] == before.remove(0)[j]);
                    assert(before.remove(0)[j] == before[j + 1]);
                    assert(view_seq(items@)[j] == items@[j]@);
                    assert(view_seq(before)[j + 1] == before[j + 1]@);
                }
                assert(view_seq(items@) =~= view_seq(before).drop_first());
            }
            LVal::Qexpr(items)
        },
        other => err_wrong_type("tail", 1, "a q-expression", &other),
    }
}

/// Wrap the arguments, as given, into a q-expression.
pub fn builtin_list(args: Vec<LVal>) -> (r: LVal)
    ensures
        r@ == LValV::Qexpr(view_seq(args@)),
{
    LVal::Qexpr(args)
}

/// Concatenate one or more q-expressions in order.
pub fn builtin_join(args: Vec<LVal>) -> (r: LVal)
    ensures
        r@ == join_result(view_seq(args@)),
{
    let ghost argv = view_seq(args@);
    proof {
        lemma_view_seq(args@);
        lemma_first_non_qexpr(argv);
    }
    if args.len() < 1 {
        return err_few_min("join", 1, args.len());
    }
    let mut out: Vec<LVal> = Vec::new();
    let mut i: usize = 0;
    proof {
        assert(join_elems(argv.take(0)) =~= Seq::<LValV>::empty());
        assert(view_seq(out@) =~= Seq::<LValV>::empty());
    }
    while i < args.len()
        invariant
            i <= args@.len(),
            argv.len() >= 1,
            argv == view_seq(args@),
            argv.len() == args@.len(),
            forall|j: int| 0 <= j < args@.len() ==> argv[j] == #[trigger] args@[j]@,
            forall|j: int| 0 <= j < i ==> #[trigger] argv[j] is Qexpr,
            0 <= first_non_qexpr(argv) <= argv.len(),
            first_non_qexpr(argv) < argv.len() ==> !(argv[first_non_qexpr(argv)] is Qexpr),
            forall|j: int| 0 <= j < first_non_qexpr(argv) ==> #[trigger] argv[j] is Qexpr,
            view_seq(out@) == join_elems(argv.take(i as int)),
        decreases args@.len() - i,
    {
        proof {
            assert(argv[i as int] == args@[i as int]@);
        }
        match &args[i] {
            LVal::Qexpr(items) => {
                let ghost outseq0 = out@;
                let ghost outbefore = view_seq(out@);
                let mut part = clone_vec(items);
                let ghost partseq = part@;
                out.append(&mut part);
                proof {
                    lemma_view_seq(outseq0);
                    lemma_view_seq(partseq);
                    lemma_view_seq(out@);
                    lemma_view_seq(items@);
                    assert(out@ == outseq0 + partseq);
                    assert(argv.take(i + 1).drop_last() =~= argv.take(i as int));
                    assert(argv.take(i + 1).last() == argv[i as int]);
                    assert forall|j: int| 0 <= j < out@.len() implies view_seq(out@)[j] == (
                    outbefore + argv[i as int]->Qexpr_0)[j] by {
                        if j < outbefore.len() {
                            assert(out@[j] == outseq0[j]);
                            assert(view_seq(outseq0)[j] == outseq0[j]@);
                        } else {
                            assert(out@[j] == partseq[j - outseq0.len()]);
                            assert(view_seq(partseq)[j - outseq0.len()] == partseq[j
                                - outseq0.len()]@);
                            assert(view_seq(partseq) == view_seq(items@));
                            assert(view_seq(items@)[j - outseq0.len()] == items@[j
                                - outseq0.len()]@);
                        }
                    }
                    assert(view_seq(out@) =~= outbefore + argv[i as int]->Qexpr_0);
                }
            },
            _ => {
                proof {
                    let k = first_non_qexpr(argv);
                    if k < i as int {
                        assert(argv[k] is Qexpr);
                        assert(false);
                    }
                    if k > i as int {
                        assert(argv[i as int] is Qexpr);
                        assert(false);
                    }
                }
                return err_wrong_type("join", i + 1, "a q-expression", &args[i]);
            },
        }
        i = i + 1;
    }
    proof {
        assert(argv.take(argv.len() as int) =~= argv);
    }
    LVal::Qexpr(out)
}

/// Prepend a value onto a q-expression.
pub fn builtin_cons(args: Vec<LVal>) -> (r: LVal)
    ensures
        r@ == cons_result(view_seq(args@)),
{
    proof {
        lemma_view_seq(args@);
    }
    if args.len() < 2 {
        return err_few_exact("cons", 2, args.len());
    }
    if args.len() > 2 {
        return err_many_exact("cons", 2, args.len());
    }
    proof {
        assert(view_seq(args@)[0] == args@[0]@);
        assert(view_seq(args@)[1] == args@[1]@);
    }
    let mut args = args;
    let second = args.pop().unwrap();
    let first = args.pop().unwrap();
    match second {
        LVal::Qexpr(items) => {
            let ghost firstv = first@;
            let ghost itemsv = view_seq(items@);
            proof {
                lemma_view_seq(items@);
            }
            let mut out: Vec<LVal> = Vec::new();
            out.push(first);
            let ghost outseq0 = out@;
            let ghost itemseq = items@;
            let mut rest = items;
            out.append(&mut rest);
            proof {
                lemma_view_seq(out@);
                lemma_view_seq(itemseq);
                assert(out@ == outseq0 + itemseq);
                assert forall|j: int| 0 <= j < out@.len() implies view_seq(out@)[j] == (seq![firstv]
                    + itemsv)[j] by {
                    assert(view_seq(out@)[j] == out@[j]@);
                    if j == 0 {
                        assert(out@[0] == outseq0[0]);
                    } else {
                        assert(out@[j] == itemseq[j - 1]);
                        assert(view_seq(itemseq)[j - 1] == itemseq[j - 1]@);
                    }
                }
                assert(view_seq(out@) =~= seq![firstv] + itemsv);
            }
            LVal::Qexpr(out)
        },
        other => err_wrong_type("cons", 2, "a q-expression", &other),
    }
}

/// Law: taking the head of `cons(x, L)` gives the one-element list `{x}`.
pub proof fn lemma_head_cons(x: LValV, l: Seq<LValV>)
    ensures
        head_result(seq![cons_result(seq![x, LValV::Qexpr(l)])]) == LValV::Qexpr(seq![x]),
{
    let c = cons_result(seq![x, LValV::Qexpr(l)]);
    assert(c == LValV::Qexpr(seq![x] + l));
    let elems = seq![x] + l;
    assert(elems.len() >= 1);
    assert(elems[0] == x);
    assert(head_result(seq![c]) == LValV::Qexpr(seq![elems[0]]));
}

/// Law: taking the tail of `cons(x, L)` gives `L` back.
pub proof fn lemma_tail_cons(x: LValV, l: Seq<LValV>)
    ensures
        tail_result(seq![cons_result(seq![x, LValV::Qexpr(l)])]) == LValV::Qexpr(l),
{
    let c = cons_result(seq![x, LValV::Qexpr(l)]);
    assert(c == LValV::Qexpr(seq![x] + l));
    let elems = seq![x] + l;
    assert(elems.len() >= 1);
    assert(elems.drop_first() =~= l);
}

/// Law: the length of `join(L1, L2)` is the sum of the two lengths.
pub proof fn lemma_join_len(l1: Seq<LValV>, l2: Seq<LValV>)
    ensures
        join_result(seq![LValV::Qexpr(l1), LValV::Qexpr(l2)]) == LValV::Qexpr(l1 + l2),
        join_result(seq![LValV::Qexpr(l1), LValV::Qexpr(l2)])->Qexpr_0.len() == l1.len()
            + l2.len(),
{
    reveal_with_fuel(first_non_qexpr, 4);
    reveal_with_fuel(join_elems, 4);
    let args = seq![LValV::Qexpr(l1), LValV::Qexpr(l2)];
    assert(args.first() is Qexpr);
    assert(args.drop_first().first() == args[1]);
    assert(args.drop_first().drop_first().len() == 0);
    assert(first_non_qexpr(args) == 2);
    assert(args.drop_last() =~= seq![LValV::Qexpr(l1)]);
    assert(seq![LValV::Qexpr(l1)].drop_last() =~= Seq::<LValV>::empty());
    assert(join_elems(args) =~= l1 + l2);
}

} // verus!

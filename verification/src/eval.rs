//! The evaluator: reduces an evaluable list to a value by evaluating every
//! item, resolving the callable at its head, and either invoking a native
//! operation or binding arguments to a user-defined function — with partial
//! application when arguments run short and variadic capture on the `...`
//! marker.
//!
//! Recursion depth is bounded by a caller-supplied budget; an exhausted
//! budget is an error value, so evaluation always returns.

use vstd::prelude::*;
use crate::lval::{LVal, LValV, LBuiltin, view_seq, view_pairs, lemma_view_seq, lemma_view_pairs,
    lemma_view_seq_push, lookup_pairs, put_pairs, show};
use crate::lenv::{LEnv, Scopes, chain_lookup, msg_unbound};

verus! {

/// Structural height of a value, for termination measures.
pub open spec fn height_v(v: LValV) -> nat
    decreases v,
{
    match v {
        LValV::Sexpr(items) => 1 + height_seq(items),
        LValV::Qexpr(items) => 1 + height_seq(items),
        LValV::Function { env, formals, body } => 1 + height_seq(formals) + height_seq(body),
        _ => 0,
    }
}

/// Summed height of a sequence of values.
pub open spec fn height_seq(items: Seq<LValV>) -> nat
    decreases items,
{
    if items.len() == 0 {
        0
    } else {
        height_seq(items.drop_last()) + height_v(items.last())
    }
}

/// Each element's height is bounded by the sequence's.
pub proof fn lemma_height_seq(items: Seq<LValV>)
    ensures
        forall|i: int| 0 <= i < items.len() ==> height_v(#[trigger] items[i]) <= height_seq(items),
    decreases items,
{
    if items.len() > 0 {
        lemma_height_seq(items.drop_last());
        assert forall|i: int| 0 <= i < items.len() implies height_v(#[trigger] items[i])
            <= height_seq(items) by {
            if i < items.len() - 1 {
                assert(items.drop_last()[i] == items[i]);
                assert(height_v(items.drop_last()[i]) <= height_seq(items.drop_last()));
            } else {
                assert(items.last() == items[i]);
            }
        }
    }
}

/// The whole interpreter state: the scope arena, the lines printed so far,
/// and the table of source texts the host makes available to `load`.
pub struct Interp {
    pub scopes: Scopes,
    pub out: Vec<String>,
    pub files: Vec<(String, String)>,
}

impl Interp {
    /// The scope arena is well formed.
    pub open spec fn wf(&self) -> bool {
        self.scopes.wf()
    }

    /// An interpreter whose only scope is `root`, with nothing printed and
    /// the given source table.
    pub fn new(root: LEnv, files: Vec<(String, String)>) -> (r: Interp)
        requires
            root.wf(),
            root.parent is None,
        ensures
            r.wf(),
            r.scopes.frames@.len() == 1,
            r.scopes.frames@[0] == root,
            r.out@ == Seq::<String>::empty(),
            r.files == files,
    {
        Interp { scopes: Scopes::new(root), out: Vec::new(), files }
    }
}

/// The error text for a malformed variadic marker.
pub open spec fn msg_invalid_formals() -> Seq<char> {
    "invalid function arguments: `...` is not followed by a single symbol"@
}

/// The error text for a formal parameter that is not a symbol.
pub open spec fn msg_non_symbol_formal(v: LValV) -> Seq<char> {
    "cannot use non-symbol as argument: `"@ + show(v) + "`"@
}

/// The error text for more arguments than formal parameters.
pub open spec fn msg_too_many_args() -> Seq<char> {
    "too many arguments"@
}

/// The outcome of binding actual arguments to formal parameters, over the
/// binding list itself.
pub enum BindSpec {
    /// All formals bound; the body is to be evaluated in this environment.
    Ready { env: Seq<(Seq<char>, LValV)> },
    /// Arguments ran out first: a partially applied function remains.
    Partial { env: Seq<(Seq<char>, LValV)>, formals: Seq<LValV> },
    /// Binding failed with this error text.
    Fail { msg: Seq<char> },
}

/// Binding, one formal and one argument at a time.  The variadic marker
/// `...` must be followed by exactly one symbol, which captures all
/// remaining arguments (or the empty list) as a q-expression; arguments
/// beyond the formals are an error; spare non-variadic formals produce a
/// partial application.
pub open spec fn bind_spec(
    m: Seq<(Seq<char>, LValV)>,
    formals: Seq<LValV>,
    args: Seq<LValV>,
) -> BindSpec
    decreases args,
{
    if args.len() == 0 {
        if formals.len() > 0 && formals[0] == LValV::Sym("..."@) {
            if formals.len() != 2 {
                BindSpec::Fail { msg: msg_invalid_formals() }
            } else if !(formals[1] is Sym) {
                BindSpec::Fail { msg: msg_non_symbol_formal(formals[1]) }
            } else {
                BindSpec::Ready {
                    env: put_pairs(m, formals[1]->Sym_0, LValV::Qexpr(Seq::empty())),
                }
            }
        } else if formals.len() == 0 {
            BindSpec::Ready { env: m }
        } else {
            BindSpec::Partial { env: m, formals }
        }
    } else if formals.len() == 0 {
        BindSpec::Fail { msg: msg_too_many_args() }
    } else if !(formals[0] is Sym) {
        BindSpec::Fail { msg: msg_non_symbol_formal(formals[0]) }
    } else if formals[0]->Sym_0 == "..."@ {
        if formals.len() != 2 {
            BindSpec::Fail { msg: msg_invalid_formals() }
        } else if !(formals[1] is Sym) {
            BindSpec::Fail { msg: msg_non_symbol_formal(formals[1]) }
        } else {
            BindSpec::Ready { env: put_pairs(m, formals[1]->Sym_0, LValV::Qexpr(args)) }
        }
    } else {
        bind_spec(
            put_pairs(m, formals[0]->Sym_0, args[0]),
            formals.drop_first(),
            args.drop_first(),
        )
    }
}

/// Law (currying): binding some arguments and then the rest continues
/// exactly where it left off — a partial application applied to further
/// arguments reaches the same outcome as one application of all arguments
/// together.
pub proof fn lemma_bind_curry(
    m: Seq<(Seq<char>, LValV)>,
    formals: Seq<LValV>,
    args1: Seq<LValV>,
    args2: Seq<LValV>,
)
    requires
        bind_spec(m, formals, args1) is Partial,
    ensures
        bind_spec(
            bind_spec(m, formals, args1)->Partial_env,
            bind_spec(m, formals, args1)->Partial_formals,
            args2,
        ) == bind_spec(m, formals, args1 + args2),
    decreases args1,
{
    if args1.len() == 0 {
        assert(args1 + args2 =~= args2);
    } else {
        let m2 = put_pairs(m, formals[0]->Sym_0, args1[0]);
        lemma_bind_curry(m2, formals.drop_first(), args1.drop_first(), args2);
        assert((args1 + args2)[0] == args1[0]);
        assert((args1 + args2).drop_first() =~= args1.drop_first() + args2);
    }
}

/// Law (currying, two formals): a function of two parameters applied to one
/// argument leaves a partial application whose later application to a second
/// argument reaches exactly the environment that applying both arguments at
/// once reaches — so the body then evaluates from the same scope either way.
pub proof fn lemma_bind_curry_two(
    m: Seq<(Seq<char>, LValV)>,
    f1: Seq<char>,
    f2: Seq<char>,
    a: LValV,
    b: LValV,
)
    requires
        f1 != "..."@,
        f2 != "..."@,
    ensures
        bind_spec(m, seq![LValV::Sym(f1), LValV::Sym(f2)], seq![a]) == (BindSpec::Partial {
            env: put_pairs(m, f1, a),
            formals: seq![LValV::Sym(f2)],
        }),
        bind_spec(put_pairs(m, f1, a), seq![LValV::Sym(f2)], seq![b]) == bind_spec(
            m,
            seq![LValV::Sym(f1), LValV::Sym(f2)],
            seq![a, b],
        ),
        bind_spec(m, seq![LValV::Sym(f1), LValV::Sym(f2)], seq![a, b]) == (BindSpec::Ready {
            env: put_pairs(put_pairs(m, f1, a), f2, b),
        }),
{
    reveal_with_fuel(bind_spec, 5);
    let formals = seq![LValV::Sym(f1), LValV::Sym(f2)];
    assert(formals.drop_first() =~= seq![LValV::Sym(f2)]);
    assert(seq![a].drop_first() =~= Seq::<LValV>::empty());
    assert(seq![a, b].drop_first() =~= seq![b]);
    assert(seq![b].drop_first() =~= Seq::<LValV>::empty());
    assert(seq![LValV::Sym(f2)].drop_first() =~= Seq::<LValV>::empty());
    assert(seq![a] + seq![b] =~= seq![a, b]);
    lemma_bind_curry(m, formals, seq![a], seq![b]);
}

/// The outcome of the executable binding pass.
pub enum BindResult {
    /// All formals bound: evaluate the body in this scope.
    Ready(LEnv),
    /// Arguments ran out: the still-unbound formals, with the scope filled
    /// so far.
    Partial(LEnv, Vec<LVal>),
    /// Binding failed with this error value.
    Failed(LVal),
}

/// Copies of the elements of `v` from index `from` on.
pub fn collect_suffix(v: &Vec<LVal>, from: usize) -> (r: Vec<LVal>)
    requires
        from <= v@.len(),
    ensures
        view_seq(r@) == view_seq(v@).skip(from as int),
        r@.len() == v@.len() - from,
{
    let ghost vv = view_seq(v@);
    proof {
        lemma_view_seq(v@);
    }
    let mut out: Vec<LVal> = Vec::new();
    let mut j: usize = from;
    proof {
        assert(view_seq(out@) =~= vv.skip(from as int).take(0));
    }
    while j < v.len()
        invariant
            from <= j <= v@.len(),
            vv == view_seq(v@),
            vv.len() == v@.len(),
            forall|k: int| 0 <= k < v@.len() ==> vv[k] == #[trigger] v@[k]@,
            out@.len() == j - from,
            view_seq(out@) == vv.skip(from as int).take(j - from),
        decreases v@.len() - j,
    {
        let ghost outbefore = out@;
        let c = v[j].clone();
        out.push(c);
        proof {
            crate::lval::lemma_view_seq_push(outbefore, out@.last());
            assert(vv.skip(from as int).take(j + 1 - from) =~= vv.skip(from as int).take(
                j - from,
            ).push(vv[j as int]));
        }
        j = j + 1;
    }
    proof {
        assert(vv.skip(from as int).take(v@.len() - from) =~= vv.skip(from as int));
    }
    out
}

/// Bind `args` to `formals` in `lenv`; see `bind_spec`.
#[verifier::rlimit(60)]
#[verifier::loop_isolation(false)]
pub fn bind_formals(lenv: LEnv, formals: Vec<LVal>, args: Vec<LVal>) -> (r: BindResult)
    requires
        lenv.wf(),
    ensures
        match r {
            BindResult::Ready(frame) => frame.wf() && frame.parent == lenv.parent && bind_spec(
                lenv.contents(),
                view_seq(formals@),
                view_seq(args@),
            ) == (BindSpec::Ready { env: frame.contents() }),
            BindResult::Partial(frame, rest) => frame.wf() && frame.parent == lenv.parent
                && bind_spec(lenv.contents(), view_seq(formals@), view_seq(args@))
                == (BindSpec::Partial { env: frame.contents(), formals: view_seq(rest@) }),
            BindResult::Failed(e) => bind_spec(
                lenv.contents(),
                view_seq(formals@),
                view_seq(args@),
            ) == (BindSpec::Fail { msg: e@->Error_0 }) && e@ is Error,
        },
{
    let ghost formalsv = view_seq(formals@);
    let ghost argsv = view_seq(args@);
    let ghost m0 = lenv.contents();
    proof {
        lemma_view_seq(formals@);
        lemma_view_seq(args@);
    }
    let mut frame = lenv;
    let mut fi: usize = 0;
    let mut ai: usize = 0;
    proof {
        assert(formalsv.skip(0) =~= formalsv);
        assert(argsv.skip(0) =~= argsv);
    }
    while ai < args.len() && fi < formals.len()
        invariant
            fi <= formals@.len(),
            ai <= args@.len(),
            ai <= fi,
            frame.wf(),
            frame.parent == lenv.parent,
            formalsv == view_seq(formals@),
            argsv == view_seq(args@),
            formalsv.len() == formals@.len(),
            argsv.len() == args@.len(),
            forall|j: int| 0 <= j < formals@.len() ==> formalsv[j] == #[trigger] formals@[j]@,
            forall|j: int| 0 <= j < args@.len() ==> argsv[j] == #[trigger] args@[j]@,
            bind_spec(m0, formalsv, argsv) == bind_spec(
                frame.contents(),
                formalsv.skip(fi as int),
                argsv.skip(ai as int),
            ),
        decreases args@.len() - ai,
    {
        proof {
            assert(formalsv.skip(fi as int).first() == formalsv[fi as int]);
            assert(formalsv.skip(fi as int).drop_first() =~= formalsv.skip(fi + 1));
            assert(argsv.skip(ai as int).first() == argsv[ai as int]);
            assert(argsv.skip(ai as int).drop_first() =~= argsv.skip(ai + 1));
            assert(formalsv[fi as int] == formals@[fi as int]@);
            assert(argsv[ai as int] == args@[ai as int]@);
        }
        let symbol: String = match &formals[fi] {
            LVal::Sym(s) => s.clone(),
            _ => {
                proof {
                    assert(!(formalsv[fi as int] is Sym));
                }
                return BindResult::Failed(non_symbol_formal_error(&formals[fi]));
            },
        };
        // Process varargs.
        if symbol.eq(&"...".to_owned()) {
            proof {
                reveal_strlit("...");
                assert(formalsv[fi as int] == LValV::Sym("..."@));
            }
            if formals.len() - fi != 2 {
                proof {
                    assert(formalsv.skip(fi as int).len() != 2);
                }
                return BindResult::Failed(invalid_formals_error());
            }
            proof {
                assert(formalsv.skip(fi as int)[1] == formalsv[fi + 1]);
                assert(formalsv[fi + 1] == formals@[fi + 1]@);
            }
            let trailing: String = match &formals[fi + 1] {
                LVal::Sym(s) => s.clone(),
                _ => {
                    proof {
                        assert(!(formalsv[fi + 1] is Sym));
                    }
                    return BindResult::Failed(non_symbol_formal_error(&formals[fi + 1]));
                },
            };
            // Bind the trailing symbol to all remaining arguments.
            let rest = collect_suffix(&args, ai);
            frame.put(LVal::Sym(trailing), LVal::Qexpr(rest));
            return BindResult::Ready(frame);
        }
        // Bind one pair.
        proof {
            reveal_strlit("...");
            assert(formalsv[fi as int]->Sym_0 != "..."@);
        }
        let value = args[ai].clone();
        frame.put(LVal::Sym(symbol), value);
        fi = fi + 1;
        ai = ai + 1;
    }
    // Arguments are exhausted (or formals are, with arguments left over).
    if ai < args.len() {
        proof {
            assert(formalsv.skip(fi as int).len() == 0);
            assert(argsv.skip(ai as int).len() > 0);
        }
        return BindResult::Failed(too_many_args_error());
    }
    proof {
        assert(argsv.skip(ai as int).len() == 0);
        assert(argsv.skip(ai as int) =~= Seq::<LValV>::empty());
    }
    // If `...` has not been processed yet, bind it to an empty list.
    if fi < formals.len() {
        proof {
            assert(formalsv.skip(fi as int)[0] == formalsv[fi as int]);
            assert(formalsv[fi as int] == formals@[fi as int]@);
        }
        let is_marker = match &formals[fi] {
            LVal::Sym(s) => s.eq(&"...".to_owned()),
            _ => false,
        };
        proof {
            reveal_strlit("...");
            assert(is_marker == (formalsv[fi as int] == LValV::Sym("..."@)));
        }
        if is_marker {
            if formals.len() - fi != 2 {
                proof {
                    assert(formalsv.skip(fi as int).len() != 2);
                }
                return BindResult::Failed(invalid_formals_error());
            }
            proof {
                assert(formalsv.skip(fi as int)[1] == formalsv[fi + 1]);
                assert(formalsv[fi + 1] == formals@[fi + 1]@);
            }
            let trailing: String = match &formals[fi + 1] {
                LVal::Sym(s) => s.clone(),
                _ => {
                    proof {
                        assert(!(formalsv[fi + 1] is Sym));
                    }
                    return BindResult::Failed(non_symbol_formal_error(&formals[fi + 1]));
                },
            };
            frame.put(LVal::Sym(trailing), LVal::Qexpr(Vec::new()));
            proof {
                assert(view_seq(Seq::<LVal>::empty()) =~= Seq::<LValV>::empty());
            }
            return BindResult::Ready(frame);
        }
        // Spare non-variadic formals: a partial application.
        let rest = collect_suffix(&formals, fi);
        return BindResult::Partial(frame, rest);
    }
    proof {
        assert(formalsv.skip(fi as int).len() == 0);
    }
    BindResult::Ready(frame)
}

/// The error text for an exhausted evaluation depth budget.
pub open spec fn msg_depth() -> Seq<char> {
    "evaluation depth limit reached"@
}

/// The error value for an exhausted evaluation depth budget.
pub fn depth_error() -> (r: LVal)
    ensures
        r@ == LValV::Error(msg_depth()),
{
    LVal::err("evaluation depth limit reached".to_owned())
}

/// What evaluation may do to the interpreter state: the arena stays well
/// formed with the same number of scopes, the source table stays as it is,
/// and printed lines are only appended.
pub open spec fn state_ok(pre: Interp, post: Interp) -> bool {
    &&& post.wf()
    &&& post.scopes.frames@.len() == pre.scopes.frames@.len()
    &&& post.files == pre.files
    &&& pre.out@.is_prefix_of(post.out@)
}

/// Prefixes chain.
pub proof fn lemma_prefix_trans(a: Seq<String>, b: Seq<String>, c: Seq<String>)
    requires
        a.is_prefix_of(b),
        b.is_prefix_of(c),
    ensures
        a.is_prefix_of(c),
{
    assert forall|i: int| 0 <= i < a.len() implies a[i] == c.subrange(0, a.len() as int)[i] by {
        assert(a[i] == b.subrange(0, a.len() as int)[i]);
        assert(b[i] == c.subrange(0, b.len() as int)[i]);
    }
    assert(a =~= c.subrange(0, a.len() as int));
}

/// A binding list rebuilt by binding each entry in order into a fresh
/// scope: the same bindings, with pairwise distinct names.
pub open spec fn rebuild_pairs(s: Seq<(Seq<char>, LValV)>) -> Seq<(Seq<char>, LValV)>
    decreases s,
{
    if s.len() == 0 {
        Seq::empty()
    } else {
        put_pairs(rebuild_pairs(s.drop_last()), s.last().0, s.last().1)
    }
}

/// Entry names are pairwise distinct.
pub open spec fn distinct_keys(s: Seq<(Seq<char>, LValV)>) -> bool {
    forall|i: int, j: int| 0 <= i < j < s.len() ==> (#[trigger] s[i]).0 != (#[trigger] s[j]).0
}

/// Binding preserves pairwise-distinct names.
pub proof fn lemma_put_pairs_distinct(s: Seq<(Seq<char>, LValV)>, key: Seq<char>, v: LValV)
    requires
        distinct_keys(s),
    ensures
        distinct_keys(put_pairs(s, key, v)),
{
    let t = put_pairs(s, key, v);
    if lookup_pairs(s, key) is Some {
        crate::lval::lemma_pair_index(s, key);
        let p = crate::lval::pair_index(s, key);
        assert forall|i: int, j: int| 0 <= i < j < t.len() implies (#[trigger] t[i]).0 != (
        #[trigger] t[j]).0 by {
            assert(t[i].0 == s[i].0);
            assert(t[j].0 == s[j].0);
        }
    } else {
        crate::lenv::lemma_lookup_pairs_present(s, key);
        assert forall|i: int, j: int| 0 <= i < j < t.len() implies (#[trigger] t[i]).0 != (
        #[trigger] t[j]).0 by {
            if j < s.len() {
                assert(t[i] == s[i]);
                assert(t[j] == s[j]);
            } else {
                assert(t[i] == s[i]);
                assert(s[i].0 != key);
            }
        }
    }
}

/// A rebuilt binding list has pairwise-distinct names.
pub proof fn lemma_rebuild_pairs_distinct(s: Seq<(Seq<char>, LValV)>)
    ensures
        distinct_keys(rebuild_pairs(s)),
    decreases s,
{
    if s.len() > 0 {
        lemma_rebuild_pairs_distinct(s.drop_last());
        lemma_put_pairs_distinct(rebuild_pairs(s.drop_last()), s.last().0, s.last().1);
    }
}

/// Rebuilding a binding list whose names are already pairwise distinct gives
/// it back unchanged.
pub proof fn lemma_rebuild_distinct_id(s: Seq<(Seq<char>, LValV)>)
    requires
        distinct_keys(s),
    ensures
        rebuild_pairs(s) == s,
    decreases s,
{
    if s.len() > 0 {
        let d = s.drop_last();
        assert forall|i: int, j: int| 0 <= i < j < d.len() implies (#[trigger] d[i]).0 != (
        #[trigger] d[j]).0 by {
            assert(d[i] == s[i]);
            assert(d[j] == s[j]);
        }
        lemma_rebuild_distinct_id(d);
        crate::lenv::lemma_lookup_pairs_present(d, s.last().0);
        assert forall|j: int| 0 <= j < d.len() implies (#[trigger] d[j]).0 != s.last().0 by {
            assert(d[j] == s[j]);
            assert(s.last() == s[s.len() - 1]);
        }
        assert(lookup_pairs(d, s.last().0) is None);
        assert(rebuild_pairs(s) == d.push(s.last()));
        assert(d.push(s.last()) =~= s);
    }
}

/// A fresh scope holding the given bindings, rebuilt entry by entry.
pub fn rebuild_frame(entries: &Vec<(String, LVal)>) -> (r: LEnv)
    ensures
        r.wf(),
        r.parent is None,
        r.contents() == rebuild_pairs(view_pairs(entries@)),
{
    let ghost pv = view_pairs(entries@);
    proof {
        lemma_view_pairs(entries@);
    }
    let mut frame = LEnv::new();
    let mut i: usize = 0;
    proof {
        assert(pv.take(0) =~= Seq::<(Seq<char>, LValV)>::empty());
        assert(frame.contents() =~= rebuild_pairs(pv.take(0)));
    }
    while i < entries.len()
        invariant
            i <= entries@.len(),
            pv == view_pairs(entries@),
            pv.len() == entries@.len(),
            forall|j: int|
                0 <= j < entries@.len() ==> pv[j] == (#[trigger] entries@[j].0@, entries@[j].1@),
            frame.wf(),
            frame.parent is None,
            frame.contents() == rebuild_pairs(pv.take(i as int)),
        decreases entries@.len() - i,
    {
        let name = entries[i].0.clone();
        let value = entries[i].1.clone();
        frame.put(LVal::Sym(name), value);
        proof {
            assert(pv.take(i + 1).drop_last() =~= pv.take(i as int));
            assert(pv.take(i + 1).last() == pv[i as int]);
        }
        i = i + 1;
    }
    proof {
        assert(pv.take(entries@.len() as int) =~= pv);
    }
    frame
}

/// The error text for a call whose head is a symbol bound to no function.
pub open spec fn msg_not_a_function_sym(name: Seq<char>) -> Seq<char> {
    "first element is not a function: "@ + name
}

/// The error text for a call whose head is no callable at all.
pub open spec fn msg_not_a_function(v: LValV) -> Seq<char> {
    "first element is not a function but "@ + crate::lval::kind_name_of(v) + ": `"@ + show(v)
        + "`"@
}

/// The value one plain (non-list) item evaluates to: a symbol resolves along
/// the scope chain, a miss being the unbound-symbol error; everything else
/// is itself.
pub open spec fn step_value(frames: Seq<LEnv>, env: int, v: LValV) -> LValV {
    match v {
        LValV::Sym(name) => match chain_lookup(frames, env, name) {
            Option::Some(w) => w,
            Option::None => LValV::Error(msg_unbound(name)),
        },
        _ => v,
    }
}

/// Whether no item of a call is itself an evaluable list, so that every
/// item's value is one plain step.
pub open spec fn all_plain(items: Seq<LValV>) -> bool {
    forall|j: int| 0 <= j < items.len() ==> !((#[trigger] items[j]) is Sexpr)
}

/// The step values of a call's items.
pub open spec fn step_values(frames: Seq<LEnv>, env: int, items: Seq<LValV>) -> Seq<LValV> {
    Seq::new(items.len(), |j: int| step_value(frames, env, items[j]))
}

/// Index of the first item whose step value is an error; the length when
/// none is.
pub open spec fn first_step_error(frames: Seq<LEnv>, env: int, items: Seq<LValV>) -> int
    decreases items,
{
    if items.len() == 0 {
        0
    } else if step_value(frames, env, items.first()) is Error {
        0
    } else {
        1 + first_step_error(frames, env, items.drop_first())
    }
}

/// Position and bounds of `first_step_error`.
pub proof fn lemma_first_step_error(frames: Seq<LEnv>, env: int, items: Seq<LValV>)
    ensures
        0 <= first_step_error(frames, env, items) <= items.len(),
        first_step_error(frames, env, items) < items.len() ==> step_value(
            frames,
            env,
            items[first_step_error(frames, env, items)],
        ) is Error,
        forall|j: int|
            0 <= j < first_step_error(frames, env, items) ==> !(step_value(
                frames,
                env,
                #[trigger] items[j],
            ) is Error),
    decreases items,
{
    if items.len() > 0 && !(step_value(frames, env, items.first()) is Error) {
        lemma_first_step_error(frames, env, items.drop_first());
        let k = first_step_error(frames, env, items);
        if k < items.len() {
            assert(items.drop_first()[k - 1] == items[k]);
        }
        assert forall|j: int| 0 <= j < k implies !(step_value(
            frames,
            env,
            #[trigger] items[j],
        ) is Error) by {
            if j > 0 {
                assert(items.drop_first()[j - 1] == items[j]);
            }
        }
    }
}

/// The result of one native operation, where the arguments alone determine
/// it: every operation but `if`, `eval` and `load`, which re-enter the
/// evaluator.
pub open spec fn builtin_result_value(b: LBuiltin, args: Seq<LValV>) -> Option<LValV> {
    match b {
        LBuiltin::Lambda => Option::Some(crate::builtin::env::lambda_result(args)),
        LBuiltin::Def => Option::Some(
            crate::builtin::env::var_result(crate::builtin::env::VariableLocation::Global, args),
        ),
        LBuiltin::Put => Option::Some(
            crate::builtin::env::var_result(crate::builtin::env::VariableLocation::Local, args),
        ),
        LBuiltin::ErrorOp => Option::Some(crate::builtin::env::error_result(args)),
        LBuiltin::Println => Option::Some(crate::builtin::env::println_result(args)),
        LBuiltin::Lt => Option::Some(
            crate::builtin::conditions::ord_result(
                crate::builtin::conditions::OrderingType::Less,
                args,
            ),
        ),
        LBuiltin::Le => Option::Some(
            crate::builtin::conditions::ord_result(
                crate::builtin::conditions::OrderingType::LessEqual,
                args,
            ),
        ),
        LBuiltin::Ge => Option::Some(
            crate::builtin::conditions::ord_result(
                crate::builtin::conditions::OrderingType::GreaterEqual,
                args,
            ),
        ),
        LBuiltin::Gt => Option::Some(
            crate::builtin::conditions::ord_result(
                crate::builtin::conditions::OrderingType::Greater,
                args,
            ),
        ),
        LBuiltin::Eq => Option::Some(
            crate::builtin::conditions::cmp_result(crate::builtin::conditions::CmpType::Eq, args),
        ),
        LBuiltin::Ne => Option::Some(
            crate::builtin::conditions::cmp_result(crate::builtin::conditions::CmpType::Neq, args),
        ),
        LBuiltin::And => Option::Some(crate::builtin::conditions::bool2_result("and"@, true, args)),
        LBuiltin::Or => Option::Some(crate::builtin::conditions::bool2_result("or"@, false, args)),
        LBuiltin::Not => Option::Some(crate::builtin::conditions::not_result(args)),
        LBuiltin::Head => Option::Some(crate::builtin::list::head_result(args)),
        LBuiltin::Tail => Option::Some(crate::builtin::list::tail_result(args)),
        LBuiltin::List => Option::Some(LValV::Qexpr(args)),
        LBuiltin::Join => Option::Some(crate::builtin::list::join_result(args)),
        LBuiltin::Cons => Option::Some(crate::builtin::list::cons_result(args)),
        LBuiltin::Add => Option::Some(
            crate::builtin::math::op_result(crate::builtin::math::ArithmeticOp::ADD, args),
        ),
        LBuiltin::Sub => Option::Some(
            crate::builtin::math::op_result(crate::builtin::math::ArithmeticOp::SUB, args),
        ),
        LBuiltin::Mul => Option::Some(
            crate::builtin::math::op_result(crate::builtin::math::ArithmeticOp::MUL, args),
        ),
        LBuiltin::Div => Option::Some(
            crate::builtin::math::op_result(crate::builtin::math::ArithmeticOp::DIV, args),
        ),
        LBuiltin::Mod => Option::Some(
            crate::builtin::math::op_result(crate::builtin::math::ArithmeticOp::MOD, args),
        ),
        LBuiltin::Min => Option::Some(
            crate::builtin::math::op_result(crate::builtin::math::ArithmeticOp::MIN, args),
        ),
        LBuiltin::Max => Option::Some(
            crate::builtin::math::op_result(crate::builtin::math::ArithmeticOp::MAX, args),
        ),
        _ => Option::None,
    }
}

/// Whether one native operation leaves the interpreter state untouched:
/// everything but the definition forms, printing, and the re-entering
/// operations.
pub open spec fn builtin_is_pure(b: LBuiltin) -> bool {
    !(b is Def || b is Put || b is If || b is Eval || b is Load || b is Println)
}

/// What applying `head` to already evaluated arguments returns, where it is
/// determined without re-entering the evaluator.  A fully applied
/// user-defined function and the re-entering operations are left open.
pub open spec fn call_outcome(
    frames: Seq<LEnv>,
    env: int,
    head: LValV,
    args: Seq<LValV>,
) -> Option<LValV> {
    match head {
        LValV::Function { env: fenv, formals, body } => match bind_spec(
            rebuild_pairs(fenv),
            formals,
            args,
        ) {
            BindSpec::Fail { msg } => Option::Some(LValV::Error(msg)),
            BindSpec::Partial { env: benv, formals: bf } => Option::Some(
                LValV::Function { env: benv, formals: bf, body },
            ),
            BindSpec::Ready { .. } => Option::None,
        },
        LValV::Builtin(b) => builtin_result_value(b, args),
        LValV::Sym(name) => match chain_lookup(frames, env, name) {
            Option::Some(LValV::Builtin(b)) => builtin_result_value(b, args),
            _ => Option::Some(LValV::Error(msg_not_a_function_sym(name))),
        },
        _ => Option::Some(LValV::Error(msg_not_a_function(head))),
    }
}

/// Whether applying `head` leaves the interpreter state untouched.
pub open spec fn call_is_pure(
    frames: Seq<LEnv>,
    env: int,
    head: LValV,
    args: Seq<LValV>,
) -> bool {
    match head {
        LValV::Function { env: fenv, formals, body } => !(bind_spec(
            rebuild_pairs(fenv),
            formals,
            args,
        ) is Ready),
        LValV::Builtin(b) => builtin_is_pure(b),
        LValV::Sym(name) => match chain_lookup(frames, env, name) {
            Option::Some(LValV::Builtin(b)) => builtin_is_pure(b),
            _ => true,
        },
        _ => true,
    }
}

/// The result of evaluating a call, where it is determined without
/// re-entering the evaluator: every item is a plain step, the first error
/// among the step values wins, the empty and the one-element call collapse,
/// and otherwise the head is applied; see `call_outcome`.
pub open spec fn list_outcome(frames: Seq<LEnv>, env: int, items: Seq<LValV>) -> Option<LValV> {
    if all_plain(items) {
        let k = first_step_error(frames, env, items);
        let ev = step_values(frames, env, items);
        if k < items.len() {
            Option::Some(ev[k])
        } else if items.len() == 0 {
            Option::Some(LValV::Sexpr(Seq::empty()))
        } else if items.len() == 1 {
            Option::Some(ev[0])
        } else {
            call_outcome(frames, env, ev[0], ev.skip(1))
        }
    } else {
        Option::None
    }
}

/// Which definition form, if any, a call's head applies: the global or the
/// local one, directly or through a symbol bound to it.
pub open spec fn call_def_loc(frames: Seq<LEnv>, env: int, head: LValV) -> Option<
    crate::builtin::env::VariableLocation,
> {
    match head {
        LValV::Builtin(LBuiltin::Def) => Option::Some(
            crate::builtin::env::VariableLocation::Global,
        ),
        LValV::Builtin(LBuiltin::Put) => Option::Some(
            crate::builtin::env::VariableLocation::Local,
        ),
        LValV::Sym(name) => match chain_lookup(frames, env, name) {
            Option::Some(LValV::Builtin(LBuiltin::Def)) => Option::Some(
                crate::builtin::env::VariableLocation::Global,
            ),
            Option::Some(LValV::Builtin(LBuiltin::Put)) => Option::Some(
                crate::builtin::env::VariableLocation::Local,
            ),
            _ => Option::None,
        },
        _ => Option::None,
    }
}

/// Whether evaluating a call of plain items leaves the state untouched.
pub open spec fn list_keeps_state(frames: Seq<LEnv>, env: int, items: Seq<LValV>) -> bool {
    all_plain(items) && {
        let k = first_step_error(frames, env, items);
        let ev = step_values(frames, env, items);
        if k < items.len() {
            true
        } else if items.len() <= 1 {
            true
        } else {
            call_is_pure(frames, env, ev[0], ev.skip(1))
        }
    }
}

/// The view of one scope: its parent link and its bindings.
pub struct FrameV {
    pub parent: Option<int>,
    pub entries: Seq<(Seq<char>, LValV)>,
}

/// The views of an arena's scopes.
pub open spec fn view_frames(frames: Seq<LEnv>) -> Seq<FrameV> {
    Seq::new(
        frames.len(),
        |i: int|
            FrameV {
                parent: match frames[i].parent {
                    Option::Some(p) => Option::Some(p as int),
                    Option::None => Option::None,
                },
                entries: frames[i].contents(),
            },
    )
}

/// Lookup along the parent chain, over frame views; mirrors `chain_lookup`.
pub open spec fn vlookup(frames: Seq<FrameV>, i: int, key: Seq<char>) -> Option<LValV>
    decreases i,
{
    if i < 0 || i >= frames.len() {
        Option::None
    } else {
        match lookup_pairs(frames[i].entries, key) {
            Option::Some(v) => Option::Some(v),
            Option::None => match frames[i].parent {
                Option::Some(p) => if 0 <= p < i {
                    vlookup(frames, p, key)
                } else {
                    Option::None
                },
                Option::None => Option::None,
            },
        }
    }
}

/// Chain lookup is a function of the frame views.
pub proof fn lemma_vlookup(frames: Seq<LEnv>, i: int, key: Seq<char>)
    ensures
        chain_lookup(frames, i, key) == vlookup(view_frames(frames), i, key),
    decreases i,
{
    if 0 <= i < frames.len() {
        assert(view_frames(frames)[i].entries == frames[i].contents());
        match frames[i].parent {
            Option::Some(p) => {
                if p < i {
                    lemma_vlookup(frames, p as int, key);
                }
            },
            Option::None => {},
        }
    }
}

/// Two interpreter states that agree observably: the same scope views, the
/// same printed lines, the same source table.
pub open spec fn states_agree(a: Interp, b: Interp) -> bool {
    view_frames(a.scopes.frames@) == view_frames(b.scopes.frames@) && a.out == b.out && a.files
        == b.files
}

/// A sequence's height splits at its first element.
pub proof fn lemma_height_seq_first(items: Seq<LValV>)
    requires
        items.len() >= 1,
    ensures
        height_seq(items) == height_v(items.first()) + height_seq(items.drop_first()),
    decreases items,
{
    if items.len() == 1 {
        assert(items.drop_last() =~= Seq::<LValV>::empty());
        assert(items.drop_first() =~= Seq::<LValV>::empty());
        assert(items.last() == items.first());
    } else {
        lemma_height_seq_first(items.drop_last());
        assert(items.drop_last().first() == items.first());
        assert(items.drop_last().drop_first() =~= items.drop_first().drop_last());
        assert(items.drop_first().last() == items.last());
    }
}

/// The items of a call, each evaluated in order: the values when every item
/// succeeds, the first error value, or open where an item leaves the pure
/// fragment.
pub enum ItemsSpec {
    Open,
    Halted(LValV),
    Values(Seq<LValV>),
}

/// The pure fragment of evaluation: the exact result of evaluating `v`
/// against the given scope views, wherever evaluation provably leaves the
/// interpreter state as it is — `Option::None` where a definition, printing
/// or loading operation is reached and the one-step contracts take over.
/// Well-founded by the same depth budget the executable evaluator threads.
pub open spec fn pure_eval(frames: Seq<FrameV>, env: int, v: LValV, depth: nat) -> Option<LValV>
    decreases depth, 1int, height_v(v), 1int,
{
    match v {
        LValV::Sym(name) => Option::Some(
            match vlookup(frames, env, name) {
                Option::Some(w) => w,
                Option::None => LValV::Error(msg_unbound(name)),
            },
        ),
        LValV::Sexpr(items) => if depth == 0 {
            Option::Some(LValV::Error(msg_depth()))
        } else {
            pure_eval_list(frames, env, items, depth)
        },
        _ => Option::Some(v),
    }
}

/// One call in the pure fragment: evaluate the items, let the first error
/// win, collapse the empty and the one-element call, apply the head.
pub open spec fn pure_eval_list(
    frames: Seq<FrameV>,
    env: int,
    items: Seq<LValV>,
    depth: nat,
) -> Option<LValV>
    decreases depth, 1int, 1 + height_seq(items), 0int,
{
    match pure_eval_items(frames, env, items, depth) {
        ItemsSpec::Open => Option::None,
        ItemsSpec::Halted(e) => Option::Some(e),
        ItemsSpec::Values(ev) => if ev.len() == 0 {
            Option::Some(LValV::Sexpr(Seq::empty()))
        } else if ev.len() == 1 {
            Option::Some(ev[0])
        } else {
            apply_spec(frames, env, ev[0], ev.skip(1), depth)
        },
    }
}

/// The items of a call through `pure_eval`, left to right.
pub open spec fn pure_eval_items(
    frames: Seq<FrameV>,
    env: int,
    items: Seq<LValV>,
    depth: nat,
) -> ItemsSpec
    decreases depth, 1int, height_seq(items), items.len() + 1,
        via pure_eval_items_decreases
{
    if items.len() == 0 {
        ItemsSpec::Values(Seq::empty())
    } else {
        match pure_eval(frames, env, items.first(), depth) {
            Option::None => ItemsSpec::Open,
            Option::Some(v) => if v is Error {
                ItemsSpec::Halted(v)
            } else {
                match pure_eval_items(frames, env, items.drop_first(), depth) {
                    ItemsSpec::Open => ItemsSpec::Open,
                    ItemsSpec::Halted(e) => ItemsSpec::Halted(e),
                    ItemsSpec::Values(rest) => ItemsSpec::Values(seq![v] + rest),
                }
            },
        }
    }
}

/// Each item is no taller than the whole list.
#[via_fn]
proof fn pure_eval_items_decreases(frames: Seq<FrameV>, env: int, items: Seq<LValV>, depth: nat) {
    if items.len() >= 1 {
        lemma_height_seq_first(items);
    }
}

/// One application in the pure fragment: a function binds its formals and,
/// once all are bound, evaluates its body in a scope pushed onto the views
/// with the caller's scope as parent; a builtin takes one budget step.
pub open spec fn apply_spec(
    frames: Seq<FrameV>,
    env: int,
    head: LValV,
    args: Seq<LValV>,
    depth: nat,
) -> Option<LValV>
    decreases depth, 0int, 1int, 0int,
{
    match head {
        LValV::Function { env: fenv, formals, body } => match bind_spec(
            rebuild_pairs(fenv),
            formals,
            args,
        ) {
            BindSpec::Fail { msg } => Option::Some(LValV::Error(msg)),
            BindSpec::Partial { env: benv, formals: bf } => Option::Some(
                LValV::Function { env: benv, formals: bf, body },
            ),
            BindSpec::Ready { env: benv } => if depth == 0 {
                Option::None
            } else {
                pure_eval(
                    frames.push(FrameV { parent: Option::Some(env), entries: benv }),
                    frames.len() as int,
                    LValV::Sexpr(body),
                    (depth - 1) as nat,
                )
            },
        },
        LValV::Builtin(b) => builtin_spec(
            frames,
            env,
            b,
            args,
            if depth == 0 {
                0
            } else {
                (depth - 1) as nat
            },
        ),
        LValV::Sym(name) => match vlookup(frames, env, name) {
            Option::Some(LValV::Builtin(b)) => builtin_spec(
                frames,
                env,
                b,
                args,
                if depth == 0 {
                    0
                } else {
                    (depth - 1) as nat
                },
            ),
            _ => Option::Some(LValV::Error(msg_not_a_function_sym(name))),
        },
        _ => Option::Some(LValV::Error(msg_not_a_function(head))),
    }
}

/// One native operation in the pure fragment; `depth` is the budget the
/// dispatcher hands the operation.  The state-touching operations are open.
pub open spec fn builtin_spec(
    frames: Seq<FrameV>,
    env: int,
    b: LBuiltin,
    args: Seq<LValV>,
    depth: nat,
) -> Option<LValV>
    decreases depth, 0int, 0int, 0int,
{
    match b {
        LBuiltin::If => match crate::builtin::conditions::if_error(args) {
            Option::Some(m) => Option::Some(LValV::Error(m)),
            Option::None => {
                let chosen = if args[0]->Num_0 != 0 {
                    args[1]->Qexpr_0
                } else if args.len() == 3 {
                    args[2]->Qexpr_0
                } else {
                    Seq::<LValV>::empty()
                };
                if depth == 0 {
                    Option::Some(LValV::Error(msg_depth()))
                } else {
                    pure_eval(frames, env, LValV::Sexpr(chosen), (depth - 1) as nat)
                }
            },
        },
        LBuiltin::Eval => if args.len() < 1 {
            Option::Some(LValV::Error(crate::builtin::msg_few_exact("eval"@, 1, args.len() as int)))
        } else if args.len() > 1 {
            Option::Some(
                LValV::Error(crate::builtin::msg_many_exact("eval"@, 1, args.len() as int)),
            )
        } else if !(args[0] is Qexpr) {
            Option::Some(
                LValV::Error(
                    crate::builtin::msg_wrong_type("eval"@, 1, "a q-expression"@, args[0]),
                ),
            )
        } else if depth == 0 {
            Option::Some(LValV::Error(msg_depth()))
        } else {
            pure_eval(frames, env, LValV::Sexpr(args[0]->Qexpr_0), (depth - 1) as nat)
        },
        LBuiltin::Def => Option::None,
        LBuiltin::Put => Option::None,
        LBuiltin::Println => Option::None,
        LBuiltin::Load => Option::None,
        _ => builtin_result_value(b, args),
    }
}

/// Law (currying, at the evaluator): applying a two-parameter function to
/// one plain argument evaluates to exactly the partially applied function,
/// and applying that to a second plain argument evaluates to exactly what
/// applying both arguments at once does — whatever the body, at every depth
/// budget, wherever evaluation is determined at all.
pub proof fn lemma_eval_curry(
    frames: Seq<FrameV>,
    env: int,
    fenv: Seq<(Seq<char>, LValV)>,
    f1: Seq<char>,
    f2: Seq<char>,
    body: Seq<LValV>,
    v1: LValV,
    v2: LValV,
    depth: nat,
)
    requires
        f1 != "..."@,
        f2 != "..."@,
        !(v1 is Sym) && !(v1 is Sexpr) && !(v1 is Error),
        !(v2 is Sym) && !(v2 is Sexpr) && !(v2 is Error),
        depth >= 1,
    ensures
        ({
            let f = LValV::Function {
                env: fenv,
                formals: seq![LValV::Sym(f1), LValV::Sym(f2)],
                body,
            };
            let g = LValV::Function {
                env: put_pairs(rebuild_pairs(fenv), f1, v1),
                formals: seq![LValV::Sym(f2)],
                body,
            };
            &&& pure_eval(frames, env, LValV::Sexpr(seq![f, v1]), depth) == Option::Some(g)
            &&& pure_eval(frames, env, LValV::Sexpr(seq![f, v1, v2]), depth) == pure_eval(
                frames,
                env,
                LValV::Sexpr(seq![g, v2]),
                depth,
            )
        }),
{
    reveal_with_fuel(pure_eval, 3);
    reveal_with_fuel(pure_eval_list, 3);
    reveal_with_fuel(pure_eval_items, 5);
    let formals = seq![LValV::Sym(f1), LValV::Sym(f2)];
    let f = LValV::Function { env: fenv, formals, body };
    let m = rebuild_pairs(fenv);
    let m1 = put_pairs(m, f1, v1);
    let g = LValV::Function { env: m1, formals: seq![LValV::Sym(f2)], body };
    lemma_rebuild_pairs_distinct(fenv);
    lemma_put_pairs_distinct(m, f1, v1);
    lemma_rebuild_distinct_id(m1);
    lemma_bind_curry_two(m, f1, f2, v1, v2);
    let env2 = put_pairs(m1, f2, v2);
    // The plain items evaluate to themselves.
    assert(pure_eval(frames, env, f, depth) == Option::Some(f));
    assert(pure_eval(frames, env, g, depth) == Option::Some(g));
    assert(pure_eval(frames, env, v1, depth) == Option::Some(v1));
    assert(pure_eval(frames, env, v2, depth) == Option::Some(v2));
    assert(pure_eval_items(frames, env, Seq::<LValV>::empty(), depth) == ItemsSpec::Values(
        Seq::<LValV>::empty(),
    ));
    // The one-argument application leaves the partial application.
    let items_a = seq![f, v1];
    assert(items_a.first() == f);
    assert(items_a.drop_first() =~= seq![v1]);
    assert(seq![v1].first() == v1);
    assert(seq![v1].drop_first() =~= Seq::<LValV>::empty());
    assert(pure_eval_items(frames, env, seq![v1], depth) == ItemsSpec::Values(
        seq![v1] + Seq::<LValV>::empty(),
    ));
    assert(seq![v1] + Seq::<LValV>::empty() =~= seq![v1]);
    assert(pure_eval_items(frames, env, items_a, depth) == ItemsSpec::Values(
        seq![f] + seq![v1],
    ));
    let ev_a = seq![f] + seq![v1];
    assert(ev_a =~= items_a);
    assert(ev_a.skip(1) =~= seq![v1]);
    assert(pure_eval_list(frames, env, items_a, depth) == apply_spec(
        frames,
        env,
        f,
        seq![v1],
        depth,
    ));
    assert(apply_spec(frames, env, f, seq![v1], depth) == Option::Some(g));
    // Both full applications bind to the same scope and evaluate the same
    // body there.
    let items_b = seq![f, v1, v2];
    assert(items_b.first() == f);
    assert(items_b.drop_first() =~= seq![v1, v2]);
    assert(seq![v1, v2].first() == v1);
    assert(seq![v1, v2].drop_first() =~= seq![v2]);
    assert(seq![v2].first() == v2);
    assert(seq![v2].drop_first() =~= Seq::<LValV>::empty());
    assert(pure_eval_items(frames, env, seq![v2], depth) == ItemsSpec::Values(
        seq![v2] + Seq::<LValV>::empty(),
    ));
    assert(seq![v2] + Seq::<LValV>::empty() =~= seq![v2]);
    assert(pure_eval_items(frames, env, seq![v1, v2], depth) == ItemsSpec::Values(
        seq![v1] + seq![v2],
    ));
    assert(seq![v1] + seq![v2] =~= seq![v1, v2]);
    assert(pure_eval_items(frames, env, items_b, depth) == ItemsSpec::Values(
        seq![f] + seq![v1, v2],
    ));
    let ev_b = seq![f] + seq![v1, v2];
    assert(ev_b =~= items_b);
    assert(ev_b.skip(1) =~= seq![v1, v2]);
    assert(pure_eval_list(frames, env, items_b, depth) == apply_spec(
        frames,
        env,
        f,
        seq![v1, v2],
        depth,
    ));
    assert(bind_spec(m, formals, seq![v1, v2]) == (BindSpec::Ready { env: env2 }));
    let items_c = seq![g, v2];
    assert(items_c.first() == g);
    assert(items_c.drop_first() =~= seq![v2]);
    assert(pure_eval_items(frames, env, items_c, depth) == ItemsSpec::Values(
        seq![g] + seq![v2],
    ));
    let ev_c = seq![g] + seq![v2];
    assert(ev_c =~= items_c);
    assert(ev_c.skip(1) =~= seq![v2]);
    assert(pure_eval_list(frames, env, items_c, depth) == apply_spec(
        frames,
        env,
        g,
        seq![v2],
        depth,
    ));
    assert(bind_spec(rebuild_pairs(m1), seq![LValV::Sym(f2)], seq![v2]) == (BindSpec::Ready {
        env: env2,
    }));
    assert(apply_spec(frames, env, f, seq![v1, v2], depth) == apply_spec(
        frames,
        env,
        g,
        seq![v2],
        depth,
    ));
}

/// The error value for a call whose head is a symbol bound to no function.
fn not_a_function_sym_error(name: &String) -> (r: LVal)
    ensures
        r@ == LValV::Error(msg_not_a_function_sym(name@)),
{
    let mut m = "first element is not a function: ".to_owned();
    m.append(name.as_str());
    LVal::err(m)
}

/// The error value for a call whose head is no callable at all.
fn not_a_function_error(v: &LVal) -> (r: LVal)
    ensures
        r@ == LValV::Error(msg_not_a_function(v@)),
{
    let mut m = "first element is not a function but ".to_owned();
    m.append(v.kind_name());
    m.append(": `");
    m.append(v.to_show_string().as_str());
    m.append("`");
    LVal::err(m)
}

/// Evaluate a value: symbols resolve along the scope chain, evaluable lists
/// become calls, and everything else is itself.
pub fn eval(itp: &mut Interp, env: usize, node: LVal, depth: u64) -> (r: LVal)
    requires
        old(itp).wf(),
        env < old(itp).scopes.frames@.len(),
    ensures
        state_ok(*old(itp), *final(itp)),
        !(node@ is Sexpr) && !(node@ is Sym) ==> r@ == node@ && *final(itp) == *old(itp),
        node@ is Sym ==> *final(itp) == *old(itp) && r@ == match chain_lookup(
            old(itp).scopes.frames@,
            env as int,
            node@->Sym_0,
        ) {
            Option::Some(v) => v,
            Option::None => LValV::Error(msg_unbound(node@->Sym_0)),
        },
        node@ is Sexpr && depth == 0 ==> r@ == LValV::Error(msg_depth()) && *final(itp) == *old(
            itp,
        ),
        node@ is Sexpr && depth >= 1 ==> ({
            let items = node@->Sexpr_0;
            let frames0 = old(itp).scopes.frames@;
            let ev = step_values(frames0, env as int, items);
            &&& (match list_outcome(frames0, env as int, items) {
                Option::Some(res) => r@ == res,
                Option::None => true,
            })
            &&& (list_keeps_state(frames0, env as int, items) ==> *final(itp) == *old(itp))
            &&& (all_plain(items) && first_step_error(frames0, env as int, items) == items.len()
                && items.len() >= 2 ==> match call_def_loc(frames0, env as int, ev[0]) {
                Option::Some(loc) => r@ is Sexpr ==> crate::builtin::env::var_state(
                    loc,
                    *old(itp),
                    *final(itp),
                    env as int,
                    ev.skip(1),
                ),
                Option::None => true,
            })
        }),
        match pure_eval(view_frames(old(itp).scopes.frames@), env as int, node@, depth as nat) {
            Option::Some(res) => r@ == res && states_agree(*old(itp), *final(itp)),
            Option::None => true,
        },
    decreases depth, 1int, height_v(node@), 1int,
{
    match node {
        LVal::Sexpr(items) => {
            if depth == 0 {
                depth_error()
            } else {
                proof {
                    assert(height_v(LVal::Sexpr(items)@) == 1 + height_seq(view_seq(items@)));
                }
                eval_sexpr(itp, env, items, depth)
            }
        },
        LVal::Sym(name) => {
            proof {
                lemma_vlookup(itp.scopes.frames@, env as int, name@);
            }
            itp.scopes.get(env, &name)
        },
        other => other,
    }
}

/// Apply the head of an already evaluated call to the remaining items: a
/// builtin directly, a function by binding its formals, and a symbol by
/// resolving it to a builtin.
#[verifier::loop_isolation(false)]
#[verifier::rlimit(100)]
#[verifier::spinoff_prover]
fn apply_call(itp: &mut Interp, env: usize, evaluated: Vec<LVal>, depth: u64) -> (r: LVal)
    requires
        old(itp).wf(),
        env < old(itp).scopes.frames@.len(),
        depth >= 1,
        evaluated@.len() >= 2,
    ensures
        state_ok(*old(itp), *final(itp)),
        ({
            let ev = view_seq(evaluated@);
            let frames0 = old(itp).scopes.frames@;
            &&& (match call_outcome(frames0, env as int, ev[0], ev.skip(1)) {
                Option::Some(res) => r@ == res,
                Option::None => true,
            })
            &&& (call_is_pure(frames0, env as int, ev[0], ev.skip(1)) ==> *final(itp) == *old(
                itp,
            ))
            &&& (match call_def_loc(frames0, env as int, ev[0]) {
                Option::Some(loc) => r@ is Sexpr ==> crate::builtin::env::var_state(
                    loc,
                    *old(itp),
                    *final(itp),
                    env as int,
                    ev.skip(1),
                ),
                Option::None => true,
            })
            &&& (match apply_spec(
                view_frames(frames0),
                env as int,
                ev[0],
                ev.skip(1),
                depth as nat,
            ) {
                Option::Some(res) => r@ == res && states_agree(*old(itp), *final(itp)),
                Option::None => true,
            })
        }),
    decreases depth, 1int, 0int, 0int,
{
    let ghost vf0 = view_frames(old(itp).scopes.frames@);
    let ghost evseq = evaluated@;
    let ghost pev = view_seq(evseq);
    let mut evaluated = evaluated;
    let first = evaluated.remove(0);
    let ghost headv = first@;
    proof {
        lemma_view_seq(evseq);
        lemma_view_seq(evaluated@);
        assert(first == evseq[0]);
        assert(headv == pev[0]);
        assert forall|j: int| 0 <= j < evaluated@.len() implies view_seq(evaluated@)[j]
            == pev.skip(1)[j] by {
            assert(evaluated@[j] == evseq.remove(0)[j]);
            assert(evseq.remove(0)[j] == evseq[j + 1]);
            assert(view_seq(evaluated@)[j] == evaluated@[j]@);
            assert(view_seq(evseq)[j + 1] == evseq[j + 1]@);
        }
        assert(view_seq(evaluated@) =~= pev.skip(1));
    }
    match first {
        // Call a user-defined function.
        LVal::Function { env: fenv, formals, body } => {
            proof {
                assert(headv == LValV::Function {
                    env: view_pairs(fenv@),
                    formals: view_seq(formals@),
                    body: view_seq(body@),
                });
            }
            let ghost bodyv = view_seq(body@);
            let frame = rebuild_frame(&fenv);
            match bind_formals(frame, formals, evaluated) {
                BindResult::Ready(bound) => {
                    let oldlen = itp.scopes.frames.len();
                    let ghost pre = *itp;
                    let ghost benv = bound.contents();
                    let ghost pushedv = vf0.push(
                        FrameV { parent: Option::Some(env as int), entries: benv },
                    );
                    let idx = itp.scopes.push_frame(bound, env);
                    proof {
                        {
                            assert(view_frames(pre.scopes.frames@) == vf0);
                            assert(oldlen == vf0.len());
                            assert forall|j: int|
                                0 <= j < itp.scopes.frames@.len() implies view_frames(
                                itp.scopes.frames@,
                            )[j] == pushedv[j] by {
                                if j < oldlen {
                                    assert(itp.scopes.frames@[j] == pre.scopes.frames@[j]);
                                    assert(view_frames(pre.scopes.frames@)[j] == vf0[j]);
                                }
                            }
                            assert(view_frames(itp.scopes.frames@) =~= pushedv);
                        }
                    }
                    let r = eval(itp, idx, LVal::Sexpr(body), depth - 1);
                    let ghost mid = *itp;
                    itp.scopes.truncate_frames(oldlen);
                    proof {
                        assert(itp.scopes.frames@ =~= mid.scopes.frames@.take(oldlen as int));
                        lemma_prefix_trans(old(itp).out@, pre.out@, itp.out@);
                        {
                            match pure_eval(pushedv, idx as int, LValV::Sexpr(bodyv), (depth
                                - 1) as nat) {
                                Option::Some(res) => {
                                    assert(r@ == res);
                                    assert(view_frames(mid.scopes.frames@) == pushedv);
                                    assert forall|j: int|
                                        0 <= j < itp.scopes.frames@.len() implies view_frames(
                                        itp.scopes.frames@,
                                    )[j] == vf0[j] by {
                                        assert(itp.scopes.frames@[j] == mid.scopes.frames@[j]);
                                        assert(view_frames(mid.scopes.frames@)[j] == pushedv[j]);
                                    }
                                    assert(view_frames(itp.scopes.frames@) =~= vf0);
                                    assert(states_agree(*old(itp), *itp));
                                },
                                Option::None => {},
                            }
                        }
                    }
                    r
                },
                BindResult::Partial(bound, rest) => {
                    let r = LVal::Function { env: bound.entries, formals: rest, body };
                    proof {
                        assert(r@ == LValV::Function {
                            env: bound.contents(),
                            formals: view_seq(rest@),
                            body: bodyv,
                        });
                    }
                    r
                },
                BindResult::Failed(e) => e,
            }
        },
        // Call a builtin.
        LVal::Builtin(f) => {
            let ghost prec = *itp;
            let r = apply_builtin(itp, env, f, evaluated, depth - 1);
            proof {
                assert(view_frames(prec.scopes.frames@) == vf0);
            }
            r
        },
        // A symbol at the head may still resolve to a builtin.
        LVal::Sym(name) => {
            proof {
                lemma_vlookup(itp.scopes.frames@, env as int, name@);
                assert(view_frames(itp.scopes.frames@) == vf0);
            }
            let resolved = itp.scopes.get(env, &name);
            match resolved {
                LVal::Builtin(f) => {
                    let ghost prec = *itp;
                    let r = apply_builtin(itp, env, f, evaluated, depth - 1);
                    proof {
                        assert(view_frames(prec.scopes.frames@) == vf0);
                    }
                    r
                },
                _ => not_a_function_sym_error(&name),
            }
        },
        other => not_a_function_error(&other),
    }
}

/// Evaluate a call: evaluate every item left to right (the first error wins),
/// collapse the empty and the one-element list, then apply the callable at
/// the head — a builtin directly, a function by binding its formals, and a
/// symbol by resolving it to a builtin.
#[verifier::loop_isolation(false)]
#[verifier::rlimit(100)]
#[verifier::spinoff_prover]
pub fn eval_sexpr(itp: &mut Interp, env: usize, values: Vec<LVal>, depth: u64) -> (r: LVal)
    requires
        old(itp).wf(),
        env < old(itp).scopes.frames@.len(),
        depth >= 1,
    ensures
        state_ok(*old(itp), *final(itp)),
        ({
            let vv = view_seq(values@);
            let frames0 = old(itp).scopes.frames@;
            let ev = step_values(frames0, env as int, vv);
            &&& (match list_outcome(frames0, env as int, vv) {
                Option::Some(res) => r@ == res,
                Option::None => true,
            })
            &&& (list_keeps_state(frames0, env as int, vv) ==> *final(itp) == *old(itp))
            &&& (all_plain(vv) && first_step_error(frames0, env as int, vv) == vv.len()
                && vv.len() >= 2 ==> match call_def_loc(frames0, env as int, ev[0]) {
                Option::Some(loc) => r@ is Sexpr ==> crate::builtin::env::var_state(
                    loc,
                    *old(itp),
                    *final(itp),
                    env as int,
                    ev.skip(1),
                ),
                Option::None => true,
            })
        }),
        match pure_eval_list(
            view_frames(old(itp).scopes.frames@),
            env as int,
            view_seq(values@),
            depth as nat,
        ) {
            Option::Some(res) => r@ == res && states_agree(*old(itp), *final(itp)),
            Option::None => true,
        },
    decreases depth, 1int, 1 + height_seq(view_seq(values@)), 0int,
{
    let ghost vv = view_seq(values@);
    let ghost frames0 = old(itp).scopes.frames@;
    let ghost plain = all_plain(vv);
    let ghost ev = step_values(frames0, env as int, vv);
    let ghost vf0 = view_frames(frames0);
    let ghost pitems = pure_eval_items(vf0, env as int, vv, depth as nat);
    proof {
        lemma_view_seq(values@);
        lemma_height_seq(vv);
        lemma_first_step_error(frames0, env as int, vv);
        assert(vv.skip(0) =~= vv);
        match pitems {
            ItemsSpec::Values(rest) => {
                assert(view_seq(Seq::<LVal>::empty()) + rest =~= rest);
            },
            _ => {},
        }
    }
    // Evaluate values and check for errors.
    let mut evaluated: Vec<LVal> = Vec::new();
    let mut i: usize = 0;
    while i < values.len()
        invariant
            i <= values@.len(),
            itp.wf(),
            state_ok(*old(itp), *itp),
            evaluated@.len() == i,
            plain ==> *itp == *old(itp),
            plain ==> first_step_error(frames0, env as int, vv) >= i,
            plain ==> forall|j: int|
                0 <= j < i ==> (#[trigger] evaluated@[j])@ == step_value(
                    frames0,
                    env as int,
                    vv[j],
                ),
            !(pitems is Open) ==> states_agree(*old(itp), *itp),
            !(pitems is Open) ==> (match pure_eval_items(
                vf0,
                env as int,
                vv.skip(i as int),
                depth as nat,
            ) {
                ItemsSpec::Open => false,
                ItemsSpec::Halted(e) => pitems == ItemsSpec::Halted(e),
                ItemsSpec::Values(rest) => pitems == ItemsSpec::Values(
                    view_seq(evaluated@) + rest,
                ),
            }),
        decreases values@.len() - i,
    {
        let ghost pre = *itp;
        let item = values[i].clone();
        proof {
            assert(item@ == vv[i as int]);
            assert(height_v(item@) <= height_seq(vv));
        }
        let value = eval(itp, env, item, depth);
        proof {
            lemma_prefix_trans(old(itp).out@, pre.out@, itp.out@);
            if plain {
                assert(!(vv[i as int] is Sexpr));
                assert(value@ == step_value(frames0, env as int, vv[i as int]));
                assert(*itp == *old(itp));
            }
            if !(pitems is Open) {
                assert(vv.skip(i as int).first() == vv[i as int]);
                assert(vv.skip(i as int).drop_first() =~= vv.skip(i + 1));
                assert(view_frames(pre.scopes.frames@) == vf0);
                assert(pure_eval(vf0, env as int, vv[i as int], depth as nat) is Some);
            }
        }
        let is_error = match &value {
            LVal::Error(_) => true,
            _ => false,
        };
        if is_error {
            proof {
                if plain {
                    let k = first_step_error(frames0, env as int, vv);
                    if k > i as int {
                        assert(!(step_value(frames0, env as int, vv[i as int]) is Error));
                        assert(false);
                    }
                    assert(k == i as int);
                    assert(list_outcome(frames0, env as int, vv) == Option::Some(ev[i as int]));
                }
                if !(pitems is Open) {
                    assert(pitems == ItemsSpec::Halted(value@));
                }
            }
            return value;
        }
        proof {
            if plain {
                let k = first_step_error(frames0, env as int, vv);
                if k == i as int {
                    assert(step_value(frames0, env as int, vv[i as int]) is Error);
                    assert(false);
                }
            }
        }
        let ghost evaluated0 = evaluated@;
        evaluated.push(value);
        proof {
            if !(pitems is Open) {
                lemma_view_seq_push(evaluated0, value);
                match pure_eval_items(vf0, env as int, vv.skip(i + 1), depth as nat) {
                    ItemsSpec::Open => {
                        assert(pure_eval_items(vf0, env as int, vv.skip(i as int), depth as nat)
                            is Open);
                        assert(false);
                    },
                    ItemsSpec::Halted(e) => {},
                    ItemsSpec::Values(rest) => {
                        assert(view_seq(evaluated0) + (seq![value@] + rest) =~= view_seq(
                            evaluated0,
                        ).push(value@) + rest);
                    },
                }
            }
        }
        i = i + 1;
    }
    proof {
        if plain {
            assert(first_step_error(frames0, env as int, vv) == vv.len());
        }
        if !(pitems is Open) {
            assert(vv.skip(vv.len() as int) =~= Seq::<LValV>::empty());
            assert(pure_eval_items(vf0, env as int, vv.skip(vv.len() as int), depth as nat)
                == ItemsSpec::Values(Seq::<LValV>::empty()));
            assert(view_seq(evaluated@) + Seq::<LValV>::empty() =~= view_seq(evaluated@));
            assert(pitems == ItemsSpec::Values(view_seq(evaluated@)));
        }
    }
    // Handle the empty expression.
    if evaluated.len() == 0 {
        proof {
            if !(pitems is Open) {
                assert(view_seq(evaluated@) =~= Seq::<LValV>::empty());
            }
        }
        return LVal::sexpr();
    }
    // Handle the single expression.
    if evaluated.len() == 1 {
        let ghost pre1 = evaluated@;
        let single = evaluated.remove(0);
        proof {
            if plain {
                assert(single@ == ev[0]);
            }
            if !(pitems is Open) {
                lemma_view_seq(pre1);
                assert(single == pre1[0]);
                assert(view_seq(pre1)[0] == pre1[0]@);
            }
        }
        return single;
    }
    // Handle function calls.
    let ghost pev = view_seq(evaluated@);
    proof {
        if plain {
            lemma_view_seq(evaluated@);
            assert forall|j: int| 0 <= j < pev.len() implies pev[j] == ev[j] by {
                assert(view_seq(evaluated@)[j] == evaluated@[j]@);
                assert(evaluated@[j]@ == step_value(frames0, env as int, vv[j]));
            }
            assert(pev =~= ev);
        }
        if !(pitems is Open) {
            assert(pitems == ItemsSpec::Values(pev));
            assert(pure_eval_list(vf0, env as int, vv, depth as nat) == apply_spec(
                vf0,
                env as int,
                pev[0],
                pev.skip(1),
                depth as nat,
            ));
        }
    }
    let ghost prec = *itp;
    let r = apply_call(itp, env, evaluated, depth);
    proof {
        lemma_prefix_trans(old(itp).out@, prec.out@, itp.out@);
        if plain {
            assert(prec == *old(itp));
        }
        if !(pitems is Open) {
            assert(view_frames(prec.scopes.frames@) == vf0);
        }
    }
    r
}

/// Invoke one native operation on already evaluated arguments.  Every
/// operation that does not re-enter the evaluator has its result pinned
/// exactly; the pure ones leave the state untouched, a successful definition
/// binds per `var_state`, and printing appends exactly its rendered line.
pub fn apply_builtin(itp: &mut Interp, env: usize, f: LBuiltin, args: Vec<LVal>, depth: u64) -> (r:
    LVal)
    requires
        old(itp).wf(),
        env < old(itp).scopes.frames@.len(),
    ensures
        state_ok(*old(itp), *final(itp)),
        match builtin_result_value(f, view_seq(args@)) {
            Option::Some(res) => r@ == res,
            Option::None => true,
        },
        builtin_is_pure(f) ==> *final(itp) == *old(itp),
        (f is Def || f is Put) ==> ({
            let loc = if f is Def {
                crate::builtin::env::VariableLocation::Global
            } else {
                crate::builtin::env::VariableLocation::Local
            };
            &&& (r@ is Error ==> *final(itp) == *old(itp))
            &&& (r@ is Sexpr ==> crate::builtin::env::var_state(
                loc,
                *old(itp),
                *final(itp),
                env as int,
                view_seq(args@),
            ))
        }),
        f is Println ==> ({
            &&& (view_seq(args@).len() != 1 ==> *final(itp) == *old(itp))
            &&& (view_seq(args@).len() == 1 ==> final(itp).scopes == old(itp).scopes
                && final(itp).out@ == old(itp).out@.push(final(itp).out@.last())
                && final(itp).out@.last()@ == crate::builtin::env::printed_line(
                old(itp).scopes.frames@,
                env as int,
                view_seq(args@)[0],
                depth as nat,
            ))
        }),
        match builtin_spec(
            view_frames(old(itp).scopes.frames@),
            env as int,
            f,
            view_seq(args@),
            depth as nat,
        ) {
            Option::Some(res) => r@ == res && states_agree(*old(itp), *final(itp)),
            Option::None => true,
        },
    decreases depth, 1int, 0int, 0int,
{
    match f {
        LBuiltin::Lambda => crate::builtin::env::builtin_lambda(args),
        LBuiltin::Def => crate::builtin::env::builtin_def(itp, env, args),
        LBuiltin::Put => crate::builtin::env::builtin_put(itp, env, args),
        LBuiltin::Eval => crate::builtin::env::builtin_eval(itp, env, args, depth),
        LBuiltin::Load => crate::builtin::env::builtin_load(itp, env, args, depth),
        LBuiltin::ErrorOp => crate::builtin::env::builtin_error(args),
        LBuiltin::Println => crate::builtin::env::builtin_println(itp, env, args, depth),
        LBuiltin::Lt => crate::builtin::conditions::builtin_lt(args),
        LBuiltin::Le => crate::builtin::conditions::builtin_le(args),
        LBuiltin::Ge => crate::builtin::conditions::builtin_ge(args),
        LBuiltin::Gt => crate::builtin::conditions::builtin_gt(args),
        LBuiltin::Eq => crate::builtin::conditions::builtin_eq(args),
        LBuiltin::Ne => crate::builtin::conditions::builtin_neq(args),
        LBuiltin::If => crate::builtin::conditions::builtin_if(itp, env, args, depth),
        LBuiltin::Or => crate::builtin::conditions::builtin_or(args),
        LBuiltin::And => crate::builtin::conditions::builtin_and(args),
        LBuiltin::Not => crate::builtin::conditions::builtin_not(args),
        LBuiltin::Head => crate::builtin::list::builtin_head(args),
        LBuiltin::Tail => crate::builtin::list::builtin_tail(args),
        LBuiltin::List => crate::builtin::list::builtin_list(args),
        LBuiltin::Join => crate::builtin::list::builtin_join(args),
        LBuiltin::Cons => crate::builtin::list::builtin_cons(args),
        LBuiltin::Add => crate::builtin::math::builtin_add(args),
        LBuiltin::Sub => crate::builtin::math::builtin_sub(args),
        LBuiltin::Mul => crate::builtin::math::builtin_mul(args),
        LBuiltin::Div => crate::builtin::math::builtin_div(args),
        LBuiltin::Mod => crate::builtin::math::builtin_mod(args),
        LBuiltin::Min => crate::builtin::math::builtin_min(args),
        LBuiltin::Max => crate::builtin::math::builtin_max(args),
    }
}

/// The depth budget that `run_files` evaluates with.
pub const RUN_DEPTH: u64 = 1000;

/// Copy of a table of named source texts.
pub fn clone_string_pairs(v: &Vec<(String, String)>) -> (r: Vec<(String, String)>)
    ensures
        r@.len() == v@.len(),
        forall|i: int|
            0 <= i < v@.len() ==> (#[trigger] r@[i].0@, r@[i].1@) == (v@[i].0@, v@[i].1@),
{
    let mut out: Vec<(String, String)> = Vec::new();
    let mut i: usize = 0;
    while i < v.len()
        invariant
            i <= v@.len(),
            out@.len() == i,
            forall|j: int|
                0 <= j < i ==> (#[trigger] out@[j].0@, out@[j].1@) == (v@[j].0@, v@[j].1@),
        decreases v@.len() - i,
    {
        out.push((v[i].0.clone(), v[i].1.clone()));
        i = i + 1;
    }
    out
}

/// Run each named source text in order, each in a fresh standard
/// environment that shares the whole table, and return every line printed —
/// including an error marker line for each unit that failed to load.
pub fn run_files(files: Vec<(String, String)>) -> (r: Vec<String>)
    ensures
        files@.len() == 0 ==> r@ == Seq::<String>::empty(),
{
    let mut out: Vec<String> = Vec::new();
    let mut i: usize = 0;
    let n = files.len();
    while i < n
        invariant
            i <= n,
            n == files@.len(),
            i == 0 ==> out@ == Seq::<String>::empty(),
        decreases n - i,
    {
        let mut root = LEnv::new();
        crate::builtin::initialize(&mut root);
        let table = clone_string_pairs(&files);
        let mut itp = Interp::new(root, table);
        let name = files[i].0.clone();
        let mut largs: Vec<LVal> = Vec::new();
        largs.push(LVal::Str(name));
        let result = crate::builtin::env::builtin_load(&mut itp, 0, largs, RUN_DEPTH);
        let is_error = match &result {
            LVal::Error(_) => true,
            _ => false,
        };
        if is_error {
            crate::builtin::env::print_value(&mut itp, 0, result, RUN_DEPTH);
        }
        out.append(&mut itp.out);
        i = i + 1;
    }
    out
}

/// The error value for a malformed variadic marker.
fn invalid_formals_error() -> (r: LVal)
    ensures
        r@ == LValV::Error(msg_invalid_formals()),
{
    LVal::err("invalid function arguments: `...` is not followed by a single symbol".to_owned())
}

/// The error value for a formal parameter that is not a symbol.
fn non_symbol_formal_error(v: &LVal) -> (r: LVal)
    ensures
        r@ == LValV::Error(msg_non_symbol_formal(v@)),
{
    let mut m = "cannot use non-symbol as argument: `".to_owned();
    m.append(v.to_show_string().as_str());
    m.append("`");
    LVal::err(m)
}

/// The error value for more arguments than formal parameters.
fn too_many_args_error() -> (r: LVal)
    ensures
        r@ == LValV::Error(msg_too_many_args()),
{
    LVal::err("too many arguments".to_owned())
}

} // verus!

//! The tagged value model: every runtime datum is an `LVal`.

use vstd::prelude::*;

verus! {

/// Identifier of one native operation; builtin values are compared by identity.
#[derive(Clone, Copy, PartialEq, Eq, Structural, Debug)]
pub enum LBuiltin {
    Lambda,
    Def,
    Put,
    Eval,
    Load,
    ErrorOp,
    Println,
    Lt,
    Le,
    Ge,
    Gt,
    Eq,
    Ne,
    If,
    Or,
    And,
    Not,
    Head,
    Tail,
    List,
    Join,
    Cons,
    Add,
    Sub,
    Mul,
    Div,
    Mod,
    Min,
    Max,
}

/// A basic object.
///
/// `Sexpr` lists are evaluated as function calls; `Qexpr` lists are inert
/// data.  A `Function` carries its own (possibly partially filled) list of
/// bindings, the formal parameter symbols that are still to be bound, and the
/// body to evaluate once all formals are bound.
#[derive(Debug)]
pub enum LVal {
    Num(i64),
    Error(String),
    Sym(String),
    Str(String),
    Function { env: Vec<(String, LVal)>, formals: Vec<LVal>, body: Vec<LVal> },
    Builtin(LBuiltin),
    Sexpr(Vec<LVal>),
    Qexpr(Vec<LVal>),
}

/// The mathematical model of an `LVal`: strings become sequences of
/// characters and vectors become sequences.  A function's bindings are
/// modelled as the sequence of (name, value) pairs in binding order; see
/// `lookup_pairs` for the mapping they denote.
pub enum LValV {
    Num(int),
    Error(Seq<char>),
    Sym(Seq<char>),
    Str(Seq<char>),
    Function { env: Seq<(Seq<char>, LValV)>, formals: Seq<LValV>, body: Seq<LValV> },
    Builtin(LBuiltin),
    Sexpr(Seq<LValV>),
    Qexpr(Seq<LValV>),
}

/// Model of a sequence of values.
pub open spec fn view_seq(s: Seq<LVal>) -> Seq<LValV>
    decreases s,
{
    if s.len() == 0 {
        Seq::empty()
    } else {
        view_seq(s.drop_last()).push(s.last()@)
    }
}

/// Model of a sequence of bindings.
pub open spec fn view_pairs(s: Seq<(String, LVal)>) -> Seq<(Seq<char>, LValV)>
    decreases s,
{
    if s.len() == 0 {
        Seq::empty()
    } else {
        view_pairs(s.drop_last()).push((s.last().0@, s.last().1@))
    }
}

impl View for LVal {
    type V = LValV;

    open spec fn view(&self) -> LValV
        decreases self,
    {
        match self {
            LVal::Num(n) => LValV::Num(*n as int),
            LVal::Error(m) => LValV::Error(m@),
            LVal::Sym(s) => LValV::Sym(s@),
            LVal::Str(s) => LValV::Str(s@),
            LVal::Function { env, formals, body } => LValV::Function {
                env: view_pairs(env@),
                formals: view_seq(formals@),
                body: view_seq(body@),
            },
            LVal::Builtin(b) => LValV::Builtin(*b),
            LVal::Sexpr(items) => LValV::Sexpr(view_seq(items@)),
            LVal::Qexpr(items) => LValV::Qexpr(view_seq(items@)),
        }
    }
}

/// `view_seq` maps the sequence pointwise.
pub proof fn lemma_view_seq(s: Seq<LVal>)
    ensures
        view_seq(s).len() == s.len(),
        forall|i: int| 0 <= i < s.len() ==> view_seq(s)[i] == #[trigger] s[i]@,
    decreases s,
{
    if s.len() > 0 {
        lemma_view_seq(s.drop_last());
        assert(view_seq(s) == view_seq(s.drop_last()).push(s.last()@));
        assert forall|i: int| 0 <= i < s.len() implies view_seq(s)[i] == #[trigger] s[i]@ by {
            if i < s.len() - 1 {
                assert(view_seq(s.drop_last())[i] == s.drop_last()[i]@);
                assert(s.drop_last()[i] == s[i]);
            } else {
                assert(s.last() == s[s.len() - 1]);
                assert(view_seq(s)[i] == s.last()@);
            }
        }
    }
}

/// `view_pairs` maps the sequence pointwise.
pub proof fn lemma_view_pairs(s: Seq<(String, LVal)>)
    ensures
        view_pairs(s).len() == s.len(),
        forall|i: int| 0 <= i < s.len() ==> view_pairs(s)[i] == (#[trigger] s[i].0@, s[i].1@),
    decreases s,
{
    if s.len() > 0 {
        lemma_view_pairs(s.drop_last());
        assert forall|i: int| 0 <= i < s.len() implies view_pairs(s)[i] == (
        #[trigger] s[i].0@,
        s[i].1@,
        ) by {
            if i < s.len() - 1 {
                assert(view_pairs(s.drop_last())[i] == (s.drop_last()[i].0@, s.drop_last()[i].1@));
                assert(s.drop_last()[i] == s[i]);
            } else {
                assert(s.last() == s[s.len() - 1]);
                assert(view_pairs(s)[i] == (s.last().0@, s.last().1@));
            }
        }
    }
}

/// `view_seq` commutes with `push`.
pub proof fn lemma_view_seq_push(s: Seq<LVal>, v: LVal)
    ensures
        view_seq(s.push(v)) == view_seq(s).push(v@),
{
    assert(s.push(v).drop_last() =~= s);
    assert(s.push(v).last() == v);
    assert(view_seq(s.push(v)) == view_seq(s.push(v).drop_last()).push(v@));
}

/// `view_pairs` commutes with `push`.
pub proof fn lemma_view_pairs_push(s: Seq<(String, LVal)>, name: String, v: LVal)
    ensures
        view_pairs(s.push((name, v))) == view_pairs(s).push((name@, v@)),
{
    assert(s.push((name, v)).drop_last() =~= s);
    assert(s.push((name, v)).last() == (name, v));
    assert(view_pairs(s.push((name, v))) == view_pairs(s.push((name, v)).drop_last()).push(
        (name@, v@),
    ));
}

/// Two vectors whose elements are equal in the model have the same model.
pub proof fn lemma_view_seq_eq(a: Seq<LVal>, b: Seq<LVal>)
    requires
        a.len() == b.len(),
        forall|i: int| 0 <= i < a.len() ==> #[trigger] a[i]@ == b[i]@,
    ensures
        view_seq(a) == view_seq(b),
{
    lemma_view_seq(a);
    lemma_view_seq(b);
    assert forall|i: int| 0 <= i < a.len() implies view_seq(a)[i] == view_seq(b)[i] by {
        assert(a[i]@ == b[i]@);
        assert(view_seq(a)[i] == a[i]@);
        assert(view_seq(b)[i] == b[i]@);
    }
    assert(view_seq(a) =~= view_seq(b));
}

/// Two binding lists whose entries are equal in the model have the same model.
pub proof fn lemma_view_pairs_eq(a: Seq<(String, LVal)>, b: Seq<(String, LVal)>)
    requires
        a.len() == b.len(),
        forall|i: int|
            0 <= i < a.len() ==> (#[trigger] a[i].0@, a[i].1@) == (b[i].0@, b[i].1@),
    ensures
        view_pairs(a) == view_pairs(b),
{
    lemma_view_pairs(a);
    lemma_view_pairs(b);
    assert forall|i: int| 0 <= i < a.len() implies view_pairs(a)[i] == view_pairs(b)[i] by {
        assert((a[i].0@, a[i].1@) == (b[i].0@, b[i].1@));
        assert(view_pairs(a)[i] == (a[i].0@, a[i].1@));
        assert(view_pairs(b)[i] == (b[i].0@, b[i].1@));
    }
    assert(view_pairs(a) =~= view_pairs(b));
}

/// Last-wins lookup in a binding list: the value of the latest entry for
/// `key`, if any.
pub open spec fn lookup_pairs(s: Seq<(Seq<char>, LValV)>, key: Seq<char>) -> Option<LValV>
    decreases s,
{
    if s.len() == 0 {
        Option::None
    } else if s.last().0 == key {
        Option::Some(s.last().1)
    } else {
        lookup_pairs(s.drop_last(), key)
    }
}

/// Index of the latest entry for `key` in a binding list; -1 when there is
/// none.
pub open spec fn pair_index(s: Seq<(Seq<char>, LValV)>, key: Seq<char>) -> int
    decreases s,
{
    if s.len() == 0 {
        -1
    } else if s.last().0 == key {
        s.len() - 1
    } else {
        pair_index(s.drop_last(), key)
    }
}

/// A binding list after binding `key` to `v`: the latest entry for `key` is
/// replaced in place, or a new entry is appended.
pub open spec fn put_pairs(
    s: Seq<(Seq<char>, LValV)>,
    key: Seq<char>,
    v: LValV,
) -> Seq<(Seq<char>, LValV)> {
    if lookup_pairs(s, key) is Some {
        s.update(pair_index(s, key), (key, v))
    } else {
        s.push((key, v))
    }
}

/// `pair_index` finds exactly the latest entry for `key`.
pub proof fn lemma_pair_index(s: Seq<(Seq<char>, LValV)>, key: Seq<char>)
    ensures
        -1 <= pair_index(s, key) < s.len(),
        lookup_pairs(s, key) is Some <==> 0 <= pair_index(s, key),
        lookup_pairs(s, key) is Some ==> s[pair_index(s, key)].0 == key && lookup_pairs(s, key)
            == Option::Some(s[pair_index(s, key)].1) && forall|j: int|
            pair_index(s, key) < j < s.len() ==> (#[trigger] s[j]).0 != key,
    decreases s,
{
    if s.len() > 0 {
        lemma_pair_index(s.drop_last(), key);
        assert(s.last() == s[s.len() - 1]);
        if s.last().0 != key && lookup_pairs(s, key) is Some {
            let p = pair_index(s.drop_last(), key);
            assert(s.drop_last()[p] == s[p]);
            assert forall|j: int| p < j < s.len() implies (#[trigger] s[j]).0 != key by {
                if j < s.len() - 1 {
                    assert(s.drop_last()[j] == s[j]);
                }
            }
        }
    }
}

/// Every binding of `e1` agrees, value for value, with the latest binding of
/// the same name in `e2`.
pub open spec fn env_included(e1: Seq<(Seq<char>, LValV)>, e2: Seq<(Seq<char>, LValV)>) -> bool
    decreases e1,
{
    if e1.len() == 0 {
        true
    } else {
        env_included(e1.drop_last(), e2) && match lookup_pairs(e2, e1.last().0) {
            Option::Some(v2) => eq_val(e1.last().1, v2),
            Option::None => false,
        }
    }
}

/// Structural, variant-aware equality: cross-variant comparisons are unequal;
/// lists compare element by element; functions compare formals, body and the
/// contents of their binding lists (name by name, not entry order); builtins
/// compare by identity.
pub open spec fn eq_val(a: LValV, b: LValV) -> bool
    decreases a,
{
    match (a, b) {
        (LValV::Num(x), LValV::Num(y)) => x == y,
        (LValV::Error(x), LValV::Error(y)) => x == y,
        (LValV::Sym(x), LValV::Sym(y)) => x == y,
        (LValV::Str(x), LValV::Str(y)) => x == y,
        (LValV::Builtin(x), LValV::Builtin(y)) => x == y,
        (LValV::Sexpr(x), LValV::Sexpr(y)) => eq_seq(x, y),
        (LValV::Qexpr(x), LValV::Qexpr(y)) => eq_seq(x, y),
        (
            LValV::Function { env: e1, formals: f1, body: b1 },
            LValV::Function { env: e2, formals: f2, body: b2 },
        ) => eq_seq(f1, f2) && eq_seq(b1, b2) && e1.len() == e2.len() && env_included(e1, e2),
        _ => false,
    }
}

/// Element-wise equality of two sequences of values.
pub open spec fn eq_seq(x: Seq<LValV>, y: Seq<LValV>) -> bool
    decreases x,
{
    if x.len() != y.len() {
        false
    } else if x.len() == 0 {
        true
    } else {
        eq_seq(x.drop_last(), y.drop_last()) && eq_val(x.last(), y.last())
    }
}

/// `eq_seq` is element-wise equality.
pub proof fn lemma_eq_seq_pointwise(x: Seq<LValV>, y: Seq<LValV>)
    ensures
        eq_seq(x, y) <==> (x.len() == y.len() && forall|i: int|
            0 <= i < x.len() ==> eq_val(#[trigger] x[i], y[i])),
    decreases x,
{
    if x.len() == y.len() && x.len() > 0 {
        lemma_eq_seq_pointwise(x.drop_last(), y.drop_last());
        assert(x.last() == x[x.len() - 1]);
        assert(y.last() == y[y.len() - 1]);
        assert forall|i: int| 0 <= i < x.len() - 1 implies (eq_val(
            #[trigger] x.drop_last()[i],
            y.drop_last()[i],
        ) <==> eq_val(x[i], y[i])) by {
            assert(x.drop_last()[i] == x[i]);
            assert(y.drop_last()[i] == y[i]);
        }
        if eq_seq(x, y) {
            assert forall|i: int| 0 <= i < x.len() implies eq_val(#[trigger] x[i], y[i]) by {
                if i < x.len() - 1 {
                    assert(eq_val(x.drop_last()[i], y.drop_last()[i]));
                }
            }
        }
    }
}

/// `env_included` checks each entry against the other list's latest binding.
pub proof fn lemma_env_included_pointwise(
    e1: Seq<(Seq<char>, LValV)>,
    e2: Seq<(Seq<char>, LValV)>,
)
    ensures
        env_included(e1, e2) <==> forall|i: int|
            0 <= i < e1.len() ==> match lookup_pairs(e2, (#[trigger] e1[i]).0) {
                Option::Some(v2) => eq_val(e1[i].1, v2),
                Option::None => false,
            },
    decreases e1,
{
    if e1.len() > 0 {
        lemma_env_included_pointwise(e1.drop_last(), e2);
        assert(e1.last() == e1[e1.len() - 1]);
        assert forall|i: int| 0 <= i < e1.len() - 1 implies #[trigger] e1.drop_last()[i]
            == e1[i] by {}
        if env_included(e1, e2) {
            assert forall|i: int| 0 <= i < e1.len() implies match lookup_pairs(
                e2,
                (#[trigger] e1[i]).0,
            ) {
                Option::Some(v2) => eq_val(e1[i].1, v2),
                Option::None => false,
            } by {
                if i < e1.len() - 1 {
                    assert(e1.drop_last()[i] == e1[i]);
                }
            }
        }
    }
}

/// Element-wise equality of two vectors of values; see `eq_seq`.
pub fn vec_eq(x: &Vec<LVal>, y: &Vec<LVal>) -> (r: bool)
    ensures
        r == eq_seq(view_seq(x@), view_seq(y@)),
    decreases x,
{
    let ghost vx = view_seq(x@);
    let ghost vy = view_seq(y@);
    proof {
        lemma_view_seq(x@);
        lemma_view_seq(y@);
        lemma_eq_seq_pointwise(vx, vy);
    }
    if x.len() != y.len() {
        return false;
    }
    let mut i: usize = 0;
    while i < x.len()
        invariant
            i <= x@.len(),
            x@.len() == y@.len(),
            vx == view_seq(x@),
            vy == view_seq(y@),
            vx.len() == x@.len(),
            vy.len() == y@.len(),
            forall|j: int| 0 <= j < x@.len() ==> vx[j] == #[trigger] x@[j]@,
            forall|j: int| 0 <= j < y@.len() ==> vy[j] == #[trigger] y@[j]@,
            forall|j: int| 0 <= j < i ==> eq_val(#[trigger] vx[j], vy[j]),
        decreases x@.len() - i,
    {
        if !lval_eq(&x[i], &y[i]) {
            proof {
                lemma_eq_seq_pointwise(vx, vy);
            }
            return false;
        }
        i = i + 1;
    }
    proof {
        lemma_eq_seq_pointwise(vx, vy);
    }
    true
}

/// Index of the latest binding for `key` in a binding list, if any.
pub fn find_pair(entries: &Vec<(String, LVal)>, key: &String) -> (r: Option<usize>)
    ensures
        match r {
            Option::Some(i) => i < entries@.len() && entries@[i as int].0@ == key@
                && lookup_pairs(view_pairs(entries@), key@) == Option::Some(
                entries@[i as int].1@,
            ) && i == pair_index(view_pairs(entries@), key@),
            Option::None => lookup_pairs(view_pairs(entries@), key@) == Option::<LValV>::None,
        },
{
    let ghost ps = view_pairs(entries@);
    proof {
        lemma_view_pairs(entries@);
    }
    let mut j: usize = entries.len();
    proof {
        assert(ps.take(j as int) =~= ps);
    }
    while j > 0
        invariant
            j <= entries@.len(),
            ps == view_pairs(entries@),
            ps.len() == entries@.len(),
            forall|i: int| 0 <= i < entries@.len() ==> ps[i] == (
            #[trigger] entries@[i].0@,
            entries@[i].1@,
            ),
            lookup_pairs(ps.take(j as int), key@) == lookup_pairs(ps, key@),
            forall|j2: int| j <= j2 < ps.len() ==> (#[trigger] ps[j2]).0 != key@,
        decreases j,
    {
        j = j - 1;
        proof {
            assert(ps.take(j + 1).drop_last() =~= ps.take(j as int));
            assert(ps.take(j + 1).last() == ps[j as int]);
        }
        let name: &String = &entries[j].0;
        proof {
            assert(ps[j as int] == (entries@[j as int].0@, entries@[j as int].1@));
        }
        if name.eq(key) {
            proof {
                assert(ps[j as int].0 == key@);
                assert(lookup_pairs(ps.take(j + 1), key@) == Option::Some(ps[j as int].1));
                lemma_pair_index(ps, key@);
                let p = pair_index(ps, key@);
                if p < j as int {
                    assert(ps[j as int].0 != key@);
                }
                if p > j as int {
                    assert(ps[p].0 != key@);
                }
            }
            return Option::Some(j);
        }
    }
    proof {
        assert(ps.take(0) =~= Seq::<(Seq<char>, LValV)>::empty());
    }
    Option::None
}

/// Whether two values are structurally equal; see `eq_val`.
pub fn lval_eq(a: &LVal, b: &LVal) -> (r: bool)
    ensures
        r == eq_val(a@, b@),
    decreases a,
{
    match (a, b) {
        (LVal::Num(x), LVal::Num(y)) => *x == *y,
        (LVal::Error(x), LVal::Error(y)) => x.eq(y),
        (LVal::Sym(x), LVal::Sym(y)) => x.eq(y),
        (LVal::Str(x), LVal::Str(y)) => x.eq(y),
        (LVal::Builtin(x), LVal::Builtin(y)) => *x == *y,
        (LVal::Sexpr(x), LVal::Sexpr(y)) => vec_eq(x, y),
        (LVal::Qexpr(x), LVal::Qexpr(y)) => vec_eq(x, y),
        (
            LVal::Function { env: e1, formals: f1, body: b1 },
            LVal::Function { env: e2, formals: f2, body: b2 },
        ) => {
            if !vec_eq(f1, f2) {
                return false;
            }
            if !vec_eq(b1, b2) {
                return false;
            }
            proof {
                lemma_view_pairs(e1@);
                lemma_view_pairs(e2@);
            }
            if e1.len() != e2.len() {
                return false;
            }
            env_contents_included(e1, e2)
        },
        _ => false,
    }
}

/// Whether every binding of `e1` agrees with the latest binding of the same
/// name in `e2`; see `env_included`.
fn env_contents_included(e1: &Vec<(String, LVal)>, e2: &Vec<(String, LVal)>) -> (r: bool)
    ensures
        r == env_included(view_pairs(e1@), view_pairs(e2@)),
    decreases e1,
{
    let ghost p1 = view_pairs(e1@);
    let ghost p2 = view_pairs(e2@);
    proof {
        lemma_view_pairs(e1@);
        lemma_view_pairs(e2@);
        lemma_env_included_pointwise(p1, p2);
    }
    let mut i: usize = 0;
    while i < e1.len()
        invariant
            i <= e1@.len(),
            p1 == view_pairs(e1@),
            p2 == view_pairs(e2@),
            p1.len() == e1@.len(),
            forall|k: int| 0 <= k < e1@.len() ==> p1[k] == (#[trigger] e1@[k].0@, e1@[k].1@),
            forall|k: int|
                0 <= k < i ==> match lookup_pairs(p2, (#[trigger] p1[k]).0) {
                    Option::Some(v2) => eq_val(p1[k].1, v2),
                    Option::None => false,
                },
        decreases e1@.len() - i,
    {
        let name: &String = &e1[i].0;
        match find_pair(e2, name) {
            Option::Some(j) => {
                if !lval_eq(&e1[i].1, &e2[j].1) {
                    proof {
                        lemma_env_included_pointwise(p1, p2);
                    }
                    return false;
                }
            },
            Option::None => {
                proof {
                    lemma_env_included_pointwise(p1, p2);
                }
                return false;
            },
        }
        i = i + 1;
    }
    proof {
        lemma_env_included_pointwise(p1, p2);
    }
    true
}

/// Plain rendering of a value, with no environment at hand: numbers in
/// decimal, errors, symbols and strings as their text, s-expressions in
/// `(...)`, q-expressions in `{...}`, functions as `\ {formals} {body}`, and
/// builtins as a generic marker.
pub open spec fn show(v: LValV) -> Seq<char>
    decreases v,
{
    match v {
        LValV::Num(n) => crate::util::dec_int(n),
        LValV::Error(m) => m,
        LValV::Sym(s) => s,
        LValV::Str(s) => s,
        LValV::Function { env, formals, body } => "\\ {"@ + show_all(formals) + "} {"@ + show_all(
            body,
        ) + "}"@,
        LValV::Builtin(b) => "<function>"@,
        LValV::Sexpr(items) => "("@ + show_all(items) + ")"@,
        LValV::Qexpr(items) => "{"@ + show_all(items) + "}"@,
    }
}

/// Space-joined plain rendering of a sequence of values.
pub open spec fn show_all(items: Seq<LValV>) -> Seq<char>
    decreases items,
{
    if items.len() == 0 {
        Seq::empty()
    } else if items.len() == 1 {
        show(items[0])
    } else {
        show_all(items.drop_last()) + " "@ + show(items.last())
    }
}

/// Space-joined plain rendering of a vector of values.
pub fn show_vec(items: &Vec<LVal>) -> (r: String)
    ensures
        r@ == show_all(view_seq(items@)),
    decreases items,
{
    let ghost vs = view_seq(items@);
    proof {
        lemma_view_seq(items@);
    }
    let mut acc = String::new();
    let mut i: usize = 0;
    while i < items.len()
        invariant
            i <= items.len(),
            vs == view_seq(items@),
            vs.len() == items@.len(),
            forall|j: int| 0 <= j < items@.len() ==> vs[j] == #[trigger] items@[j]@,
            acc@ == show_all(vs.take(i as int)),
        decreases items@.len() - i,
    {
        if i > 0 {
            acc.append(" ");
        }
        let shown = items[i].to_show_string();
        acc.append(shown.as_str());
        proof {
            assert(vs.take(i + 1).drop_last() =~= vs.take(i as int));
            assert(vs.take(i + 1).last() == vs[i as int]);
            if i == 0 {
                assert(show_all(vs.take(1)) == show(vs[0]));
                assert(acc@ =~= show_all(vs.take(1)));
            } else {
                assert(acc@ =~= show_all(vs.take(i as int)) + " "@ + show(vs[i as int]));
            }
        }
        i = i + 1;
    }
    proof {
        assert(vs.take(items@.len() as int) =~= vs);
    }
    acc
}

/// Copy of a vector of values, equal in the model.
pub fn clone_vec(items: &Vec<LVal>) -> (r: Vec<LVal>)
    ensures
        view_seq(r@) == view_seq(items@),
        r@.len() == items@.len(),
    decreases items,
{
    proof {
        lemma_view_seq(items@);
    }
    let mut out: Vec<LVal> = Vec::new();
    let mut i: usize = 0;
    while i < items.len()
        invariant
            i <= items@.len(),
            out@.len() == i,
            forall|j: int| 0 <= j < items@.len() ==> view_seq(items@)[j] == #[trigger] items@[j]@,
            view_seq(items@).len() == items@.len(),
            forall|j: int| 0 <= j < i ==> #[trigger] out@[j]@ == items@[j]@,
        decreases items@.len() - i,
    {
        let c = items[i].clone();
        out.push(c);
        i = i + 1;
    }
    proof {
        lemma_view_seq_eq(out@, items@);
    }
    out
}

/// Copy of a binding list, equal in the model.
pub fn clone_pairs(entries: &Vec<(String, LVal)>) -> (r: Vec<(String, LVal)>)
    ensures
        view_pairs(r@) == view_pairs(entries@),
        r@.len() == entries@.len(),
    decreases entries,
{
    proof {
        lemma_view_pairs(entries@);
    }
    let mut out: Vec<(String, LVal)> = Vec::new();
    let mut i: usize = 0;
    while i < entries.len()
        invariant
            i <= entries@.len(),
            out@.len() == i,
            forall|j: int|
                0 <= j < entries@.len() ==> view_pairs(entries@)[j] == (
                #[trigger] entries@[j].0@,
                entries@[j].1@,
                ),
            view_pairs(entries@).len() == entries@.len(),
            forall|j: int|
                0 <= j < i ==> (#[trigger] out@[j].0@, out@[j].1@) == (
                entries@[j].0@,
                entries@[j].1@,
                ),
        decreases entries@.len() - i,
    {
        let name = entries[i].0.clone();
        let value = entries[i].1.clone();
        out.push((name, value));
        i = i + 1;
    }
    proof {
        lemma_view_pairs_eq(out@, entries@);
    }
    out
}

impl Clone for LVal {
    /// Copy of this value, equal in the model.
    fn clone(&self) -> (r: Self)
        ensures
            r@ == self@,
        decreases self,
    {
        match self {
            LVal::Num(n) => LVal::Num(*n),
            LVal::Error(m) => LVal::Error(m.clone()),
            LVal::Sym(s) => LVal::Sym(s.clone()),
            LVal::Str(s) => LVal::Str(s.clone()),
            LVal::Function { env, formals, body } => LVal::Function {
                env: clone_pairs(env),
                formals: clone_vec(formals),
                body: clone_vec(body),
            },
            LVal::Builtin(b) => LVal::Builtin(*b),
            LVal::Sexpr(items) => LVal::Sexpr(clone_vec(items)),
            LVal::Qexpr(items) => LVal::Qexpr(clone_vec(items)),
        }
    }
}

impl PartialEq for LVal {
    /// Structural equality; see `eq_val`.
    fn eq(&self, other: &Self) -> (r: bool) {
        lval_eq(self, other)
    }
}

impl vstd::std_specs::cmp::PartialEqSpecImpl for LVal {
    open spec fn obeys_eq_spec() -> bool {
        true
    }

    open spec fn eq_spec(&self, other: &Self) -> bool {
        eq_val(self@, other@)
    }
}

/// The descriptive name of a value's variant, as used in error reports.
pub open spec fn kind_name_of(v: LValV) -> Seq<char> {
    match v {
        LValV::Num(_) => "a number"@,
        LValV::Error(_) => "an error"@,
        LValV::Sym(_) => "a symbol"@,
        LValV::Str(_) => "a string"@,
        LValV::Function { .. } => "a lambda"@,
        LValV::Builtin(_) => "a builtin function"@,
        LValV::Sexpr(_) => "a s-expression"@,
        LValV::Qexpr(_) => "a q-expression"@,
    }
}

impl LVal {
    /// The descriptive name of this value's variant.
    pub fn kind_name(&self) -> (r: &'static str)
        ensures
            r@ == kind_name_of(self@),
    {
        match self {
            LVal::Num(..) => "a number",
            LVal::Error(..) => "an error",
            LVal::Sym(..) => "a symbol",
            LVal::Str(..) => "a string",
            LVal::Function { .. } => "a lambda",
            LVal::Builtin(..) => "a builtin function",
            LVal::Sexpr(..) => "a s-expression",
            LVal::Qexpr(..) => "a q-expression",
        }
    }

    /// Whether this value is a list (s-expression or q-expression).
    pub open spec fn is_list(&self) -> bool {
        self@ is Sexpr || self@ is Qexpr
    }

    /// The elements of a list value.
    pub open spec fn list_elems(&self) -> Seq<LValV>
        recommends
            self.is_list(),
    {
        match self@ {
            LValV::Sexpr(items) => items,
            LValV::Qexpr(items) => items,
            _ => Seq::empty(),
        }
    }

    /// The elements inside a list value, by reference.
    ///
    /// Faults on any other variant, which callers rule out up front.
    pub fn as_values(&self) -> (r: &Vec<LVal>)
        requires
            self.is_list(),
        ensures
            view_seq(r@) == self.list_elems(),
    {
        match self {
            LVal::Sexpr(values) => values,
            LVal::Qexpr(values) => values,
            _ => unreached(),
        }
    }

    /// The elements inside a list value, by move.
    ///
    /// Faults on any other variant, which callers rule out up front.
    pub fn into_values(self) -> (r: Vec<LVal>)
        requires
            self.is_list(),
        ensures
            view_seq(r@) == self.list_elems(),
    {
        match self {
            LVal::Sexpr(values) => values,
            LVal::Qexpr(values) => values,
            _ => unreached(),
        }
    }

    /// The number inside a `Num` value, by reference.
    ///
    /// Faults on any other variant, which callers rule out up front.
    pub fn as_num(&self) -> (r: &i64)
        requires
            self@ is Num,
        ensures
            self@ == LValV::Num(*r as int),
    {
        match self {
            LVal::Num(n) => n,
            _ => unreached(),
        }
    }

    /// The number inside a `Num` value, by move.
    ///
    /// Faults on any other variant, which callers rule out up front.
    pub fn into_num(self) -> (r: i64)
        requires
            self@ is Num,
        ensures
            self@ == LValV::Num(r as int),
    {
        match self {
            LVal::Num(n) => n,
            _ => unreached(),
        }
    }

    /// The name inside a `Sym` value, by reference.
    ///
    /// Faults on any other variant, which callers rule out up front.
    pub fn as_sym(&self) -> (r: &String)
        requires
            self@ is Sym,
        ensures
            self@ == LValV::Sym(r@),
    {
        match self {
            LVal::Sym(name) => name,
            _ => unreached(),
        }
    }

    /// Dispose of a value.
    pub fn del(self) {
    }

    /// Append a value to the elements of a list value.
    pub fn append(&mut self, expr: LVal)
        requires
            old(self).is_list(),
        ensures
            final(self).is_list(),
            final(self)@ is Sexpr <==> old(self)@ is Sexpr,
            final(self).list_elems() == old(self).list_elems().push(expr@),
    {
        match self {
            LVal::Sexpr(values) => {
                let ghost before = values@;
                let ghost ev = expr@;
                values.push(expr);
                proof {
                    lemma_view_seq_push(before, values@.last());
                    assert(view_seq(values@) == view_seq(before).push(ev));
                }
            },
            LVal::Qexpr(values) => {
                let ghost before = values@;
                let ghost ev = expr@;
                values.push(expr);
                proof {
                    lemma_view_seq_push(before, values@.last());
                    assert(view_seq(values@) == view_seq(before).push(ev));
                }
            },
            _ => {
                proof {
                    assert(false);
                }
            },
        }
    }

    /// Append all elements of a list value to the elements of a list value.
    pub fn extend(&mut self, container: LVal)
        requires
            old(self).is_list(),
            container.is_list(),
        ensures
            final(self).is_list(),
            final(self)@ is Sexpr <==> old(self)@ is Sexpr,
            final(self).list_elems() == old(self).list_elems() + container.list_elems(),
    {
        let mut items = container.into_values();
        let ghost extra = view_seq(items@);
        proof {
            lemma_view_seq(items@);
        }
        let n = items.len();
        let mut i: usize = 0;
        while i < n
            invariant
                i <= n,
                n == items@.len(),
                extra.len() == n,
                forall|j: int| 0 <= j < n ==> extra[j] == #[trigger] items@[j]@,
                self.is_list(),
                self@ is Sexpr <==> old(self)@ is Sexpr,
                self.list_elems() == old(self).list_elems() + extra.take(i as int),
            decreases n - i,
        {
            let ghost before = self.list_elems();
            // Move the next element out without disturbing the rest.
            let elem = items[i].clone();
            self.append(elem);
            proof {
                assert(extra.take(i + 1) =~= extra.take(i as int).push(extra[i as int]));
                assert(self.list_elems() =~= old(self).list_elems() + extra.take(i + 1));
            }
            i = i + 1;
        }
        proof {
            assert(extra.take(n as int) =~= extra);
        }
    }

    /// Plain rendering of this value; see `show`.
    pub fn to_show_string(&self) -> (r: String)
        ensures
            r@ == show(self@),
        decreases self,
    {
        match self {
            LVal::Num(n) => crate::util::i64_to_string(*n),
            LVal::Error(m) => m.clone(),
            LVal::Sym(s) => s.clone(),
            LVal::Str(s) => s.clone(),
            LVal::Function { env, formals, body } => {
                let mut acc = "\\ {".to_owned();
                acc.append(show_vec(formals).as_str());
                acc.append("} {");
                acc.append(show_vec(body).as_str());
                acc.append("}");
                acc
            },
            LVal::Builtin(b) => "<function>".to_owned(),
            LVal::Sexpr(items) => {
                let mut acc = "(".to_owned();
                acc.append(show_vec(items).as_str());
                acc.append(")");
                acc
            },
            LVal::Qexpr(items) => {
                let mut acc = "{".to_owned();
                acc.append(show_vec(items).as_str());
                acc.append("}");
                acc
            },
        }
    }

    /// Create a new number value.
    pub fn num(value: i64) -> (r: LVal)
        ensures
            r@ == LValV::Num(value as int),
    {
        LVal::Num(value)
    }

    /// Create a new error value.
    pub fn err(msg: String) -> (r: LVal)
        ensures
            r@ == LValV::Error(msg@),
    {
        LVal::Error(msg)
    }

    /// Create a new symbol value.
    pub fn sym(symbol: &str) -> (r: LVal)
        ensures
            r@ == LValV::Sym(symbol@),
    {
        LVal::Sym(symbol.to_owned())
    }

    /// Create a new string value.
    pub fn string(text: &str) -> (r: LVal)
        ensures
            r@ == LValV::Str(text@),
    {
        LVal::Str(text.to_owned())
    }

    /// Create a new empty s-expression.
    pub fn sexpr() -> (r: LVal)
        ensures
            r@ == LValV::Sexpr(Seq::<LValV>::empty()),
    {
        LVal::Sexpr(Vec::new())
    }

    /// Create a new empty q-expression.
    pub fn qexpr() -> (r: LVal)
        ensures
            r@ == LValV::Qexpr(Seq::<LValV>::empty()),
    {
        LVal::Qexpr(Vec::new())
    }

    /// Create a new user-defined function value with an empty set of
    /// bindings; the formals and the body are the elements of two lists.
    pub fn lambda(formals: LVal, body: LVal) -> (r: LVal)
        requires
            formals.is_list(),
            body.is_list(),
        ensures
            r@ == (LValV::Function {
                env: Seq::empty(),
                formals: formals.list_elems(),
                body: body.list_elems(),
            }),
    {
        proof {
            assert(view_pairs(Seq::<(String, LVal)>::empty()) =~= Seq::<
                (Seq<char>, LValV),
            >::empty());
        }
        LVal::Function {
            env: Vec::new(),
            formals: formals.into_values(),
            body: body.into_values(),
        }
    }

    /// Create a new builtin value.
    pub fn func(f: LBuiltin) -> (r: LVal)
        ensures
            r@ == LValV::Builtin(f),
    {
        LVal::Builtin(f)
    }
}

} // verus!

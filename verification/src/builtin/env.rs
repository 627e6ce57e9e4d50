//! The environment family: lambda creation, local and global definition,
//! re-entry into the evaluator, file loading, error construction and
//! printing.

use vstd::prelude::*;
use crate::lval::{LVal, LValV, view_seq, view_pairs, lemma_view_seq, lookup_pairs, show};
use crate::lenv::{LEnv, Scopes, root_of};
use crate::eval::{Interp, eval, msg_depth, depth_error, state_ok};
use crate::builtin::{msg_few_exact, msg_many_exact, msg_few_min, msg_wrong_type, err_few_exact,
    err_many_exact, err_few_min, err_wrong_type};
use crate::util::{dec_nat, usize_to_string};

verus! {

/// Index of the first argument that is not a symbol; the length when all
/// are.
pub open spec fn first_non_sym(args: Seq<LValV>) -> int
    decreases args,
{
    if args.len() == 0 {
        0
    } else if !(args.first() is Sym) {
        0
    } else {
        1 + first_non_sym(args.drop_first())
    }
}

/// Position and bounds of `first_non_sym`.
pub proof fn lemma_first_non_sym(args: Seq<LValV>)
    ensures
        0 <= first_non_sym(args) <= args.len(),
        first_non_sym(args) < args.len() ==> !(args[first_non_sym(args)] is Sym),
        forall|j: int| 0 <= j < first_non_sym(args) ==> #[trigger] args[j] is Sym,
    decreases args,
{
    if args.len() > 0 && args.first() is Sym {
        lemma_first_non_sym(args.drop_first());
        let k = first_non_sym(args);
        if k < args.len() {
            assert(args.drop_first()[k - 1] == args[k]);
        }
        assert forall|j: int| 0 <= j < k implies #[trigger] args[j] is Sym by {
            if j > 0 {
                assert(args.drop_first()[j - 1] == args[j]);
            }
        }
    }
}

/// The error text for a lambda formal that is not a symbol.
pub open spec fn msg_lambda_non_symbol(v: LValV) -> Seq<char> {
    "cannot use non-symbol as argument: `"@ + show(v) + "`"@
}

/// What `\` returns: a function value with no bindings yet, the first
/// q-expression's symbols as formals and the second q-expression as body.
pub open spec fn lambda_result(args: Seq<LValV>) -> LValV {
    if args.len() < 2 {
        LValV::Error(msg_few_exact("\\"@, 2, args.len() as int))
    } else if args.len() > 2 {
        LValV::Error(msg_many_exact("\\"@, 2, args.len() as int))
    } else if !(args[0] is Qexpr) {
        LValV::Error(msg_wrong_type("\\"@, 1, "a q-expression"@, args[0]))
    } else if !(args[1] is Qexpr) {
        LValV::Error(msg_wrong_type("\\"@, 2, "a q-expression"@, args[1]))
    } else {
        let formals = args[0]->Qexpr_0;
        let k = first_non_sym(formals);
        if k < formals.len() {
            LValV::Error(msg_lambda_non_symbol(formals[k]))
        } else {
            LValV::Function { env: Seq::empty(), formals, body: args[1]->Qexpr_0 }
        }
    }
}

/// The error value for a lambda formal that is not a symbol.
fn lambda_non_symbol_error(v: &LVal) -> (r: LVal)
    ensures
        r@ == LValV::Error(msg_lambda_non_symbol(v@)),
{
    let mut m = "cannot use non-symbol as argument: `".to_owned();
    m.append(v.to_show_string().as_str());
    m.append("`");
    LVal::err(m)
}

/// Create a user-defined function from a list of formal symbols and a body.
#[verifier::loop_isolation(false)]
pub fn builtin_lambda(args: Vec<LVal>) -> (r: LVal)
    ensures
        r@ == lambda_result(view_seq(args@)),
{
    let ghost argv = view_seq(args@);
    proof {
        lemma_view_seq(args@);
    }
    if args.len() < 2 {
        return err_few_exact("\\", 2, args.len());
    }
    if args.len() > 2 {
        return err_many_exact("\\", 2, args.len());
    }
    proof {
        assert(argv[0] == args@[0]@);
        assert(argv[1] == args@[1]@);
    }
    let mut args = args;
    let body_arg = args.pop().unwrap();
    let formals_arg = args.pop().unwrap();
    let formals = match formals_arg {
        LVal::Qexpr(items) => items,
        other => {
            return err_wrong_type("\\", 1, "a q-expression", &other);
        },
    };
    let body = match body_arg {
        LVal::Qexpr(items) => items,
        other => {
            return err_wrong_type("\\", 2, "a q-expression", &other);
        },
    };
    let ghost formalsv = view_seq(formals@);
    proof {
        lemma_view_seq(formals@);
        lemma_first_non_sym(formalsv);
    }
    let mut i: usize = 0;
    while i < formals.len()
        invariant
            i <= formals@.len(),
            formalsv == view_seq(formals@),
            formalsv.len() == formals@.len(),
            forall|j: int| 0 <= j < formals@.len() ==> formalsv[j] == #[trigger] formals@[j]@,
            forall|j: int| 0 <= j < i ==> #[trigger] formalsv[j] is Sym,
            0 <= first_non_sym(formalsv) <= formalsv.len(),
            first_non_sym(formalsv) < formalsv.len() ==> !(formalsv[first_non_sym(formalsv)]
                is Sym),
            forall|j: int| 0 <= j < first_non_sym(formalsv) ==> #[trigger] formalsv[j] is Sym,
        decreases formals@.len() - i,
    {
        let is_sym = match &formals[i] {
            LVal::Sym(_) => true,
            _ => false,
        };
        proof {
            assert(formalsv[i as int] == formals@[i as int]@);
            assert(is_sym == formalsv[i as int] is Sym);
        }
        if !is_sym {
            proof {
                let k = first_non_sym(formalsv);
                if k < i as int {
                    assert(formalsv[k] is Sym);
                    assert(false);
                }
                if k > i as int {
                    assert(formalsv[i as int] is Sym);
                    assert(false);
                }
            }
            return lambda_non_symbol_error(&formals[i]);
        }
        i = i + 1;
    }
    proof {
        assert(first_non_sym(formalsv) == formalsv.len());
        assert(view_pairs(Seq::<(String, LVal)>::empty()) =~= Seq::<(Seq<char>, LValV)>::empty());
    }
    LVal::Function { env: Vec::new(), formals, body }
}

/// Where a definition lands: the current scope or the outermost one.
#[derive(Clone, Copy, PartialEq, Eq, Structural, Debug)]
pub enum VariableLocation {
    Local,
    Global,
}

/// The canonical name of a definition form.
pub open spec fn loc_name(loc: VariableLocation) -> Seq<char> {
    match loc {
        VariableLocation::Local => "="@,
        VariableLocation::Global => "def"@,
    }
}

/// The error text for defining a non-symbol.
pub open spec fn msg_def_non_symbol(v: LValV) -> Seq<char> {
    "cannot `def`ine non-symbol: `"@ + show(v) + "`"@
}

/// The error text for a symbol/value count mismatch.
pub open spec fn msg_def_mismatch(symbols: int, values: int) -> Seq<char> {
    "`def` called with number of symbols ("@ + dec_nat(symbols as nat)
        + ") != number of values ("@ + dec_nat(values as nat) + ")"@
}

/// What the definition forms return for the given arguments: an error for a
/// bad argument list, the empty s-expression on success.
pub open spec fn var_result(loc: VariableLocation, args: Seq<LValV>) -> LValV {
    if args.len() < 1 {
        LValV::Error(msg_few_min(loc_name(loc), 1, args.len() as int))
    } else if !(args[0] is Qexpr) {
        LValV::Error(msg_wrong_type(loc_name(loc), 1, "a q-expression"@, args[0]))
    } else {
        let symbols = args[0]->Qexpr_0;
        let k = first_non_sym(symbols);
        if k < symbols.len() {
            LValV::Error(msg_def_non_symbol(symbols[k]))
        } else if symbols.len() != args.len() - 1 {
            LValV::Error(msg_def_mismatch(symbols.len() as int, args.len() - 1))
        } else {
            LValV::Sexpr(Seq::empty())
        }
    }
}

/// The bindings a definition makes: each symbol paired with its value.
pub open spec fn var_bindings(symbols: Seq<LValV>, values: Seq<LValV>) -> Seq<
    (Seq<char>, LValV),
> {
    Seq::new(symbols.len(), |i: int| (symbols[i]->Sym_0, values[i]))
}

/// How a successful definition changes the interpreter: the target scope —
/// the current one, or the outermost on its chain — has its lookups
/// overridden by the pairwise bindings (the latest entry for a repeated name
/// wins); every other scope, the target's parent link, the printed lines and
/// the source table stay as they were.
pub open spec fn var_state(
    loc: VariableLocation,
    pre: Interp,
    post: Interp,
    env: int,
    args: Seq<LValV>,
) -> bool {
    let symbols = args[0]->Qexpr_0;
    let values = args.skip(1);
    let binds = var_bindings(symbols, values);
    let t = if loc is Local {
        env
    } else {
        root_of(pre.scopes.frames@, env)
    };
    &&& post.out == pre.out
    &&& post.files == pre.files
    &&& 0 <= t < pre.scopes.frames@.len()
    &&& post.scopes.frames@.len() == pre.scopes.frames@.len()
    &&& forall|j: int|
        0 <= j < pre.scopes.frames@.len() && j != t ==> post.scopes.frames@[j]
            == pre.scopes.frames@[j]
    &&& post.scopes.frames@[t].parent == pre.scopes.frames@[t].parent
    &&& forall|k: Seq<char>| #[trigger]
        lookup_pairs(post.scopes.frames@[t].contents(), k) == match lookup_pairs(binds, k) {
            Option::Some(v) => Option::Some(v),
            Option::None => lookup_pairs(pre.scopes.frames@[t].contents(), k),
        }
}

/// The error value for defining a non-symbol.
fn def_non_symbol_error(v: &LVal) -> (r: LVal)
    ensures
        r@ == LValV::Error(msg_def_non_symbol(v@)),
{
    let mut m = "cannot `def`ine non-symbol: `".to_owned();
    m.append(v.to_show_string().as_str());
    m.append("`");
    LVal::err(m)
}

/// The error value for a symbol/value count mismatch.
fn def_mismatch_error(symbols: usize, values: usize) -> (r: LVal)
    ensures
        r@ == LValV::Error(msg_def_mismatch(symbols as int, values as int)),
{
    let mut m = "`def` called with number of symbols (".to_owned();
    m.append(usize_to_string(symbols).as_str());
    m.append(") != number of values (");
    m.append(usize_to_string(values).as_str());
    m.append(")");
    LVal::err(m)
}

/// The executable name of a definition form.
fn loc_name_str(loc: VariableLocation) -> (r: &'static str)
    ensures
        r@ == loc_name(loc),
{
    match loc {
        VariableLocation::Local => "=",
        VariableLocation::Global => "def",
    }
}

/// Bind a list of symbols to an equal-length list of values, locally or
/// globally.  On success the target scope's lookups are overridden by the
/// pairwise bindings (the latest entry for a repeated name wins); a bad
/// argument list is an error and leaves every scope unchanged.
#[verifier::loop_isolation(false)]
#[verifier::rlimit(60)]
pub fn builtin_var(loc: VariableLocation, itp: &mut Interp, env: usize, args: Vec<LVal>) -> (r:
    LVal)
    requires
        old(itp).wf(),
        env < old(itp).scopes.frames@.len(),
    ensures
        state_ok(*old(itp), *final(itp)),
        final(itp).out == old(itp).out,
        r@ == var_result(loc, view_seq(args@)),
        r@ is Error ==> *final(itp) == *old(itp),
        r@ is Sexpr ==> var_state(loc, *old(itp), *final(itp), env as int, view_seq(args@)),
{
    let ghost argv = view_seq(args@);
    proof {
        lemma_view_seq(args@);
    }
    if args.len() < 1 {
        return err_few_min(loc_name_str(loc), 1, args.len());
    }
    proof {
        assert(argv[0] == args@[0]@);
    }
    let mut args = args;
    let ghost args0 = args@;
    let first = args.remove(0);
    let ghost valsv = view_seq(args@);
    proof {
        lemma_view_seq(args@);
        assert forall|j: int| 0 <= j < args@.len() implies valsv[j] == argv[j + 1] by {
            assert(args@[j] == args0.remove(0)[j]);
            assert(args0.remove(0)[j] == args0[j + 1]);
            assert(valsv[j] == args@[j]@);
        }
        assert(valsv =~= argv.skip(1));
    }
    let symbols = match first {
        LVal::Qexpr(items) => items,
        other => {
            return err_wrong_type(loc_name_str(loc), 1, "a q-expression", &other);
        },
    };
    let ghost symsv = view_seq(symbols@);
    proof {
        lemma_view_seq(symbols@);
        lemma_first_non_sym(symsv);
        assert(argv[0]->Qexpr_0 == symsv);
    }
    // Ensure all elements of the first list are symbols.
    let mut i: usize = 0;
    while i < symbols.len()
        invariant
            i <= symbols@.len(),
            symsv == view_seq(symbols@),
            symsv.len() == symbols@.len(),
            forall|j: int| 0 <= j < symbols@.len() ==> symsv[j] == #[trigger] symbols@[j]@,
            forall|j: int| 0 <= j < i ==> #[trigger] symsv[j] is Sym,
            0 <= first_non_sym(symsv) <= symsv.len(),
            first_non_sym(symsv) < symsv.len() ==> !(symsv[first_non_sym(symsv)] is Sym),
            forall|j: int| 0 <= j < first_non_sym(symsv) ==> #[trigger] symsv[j] is Sym,
        decreases symbols@.len() - i,
    {
        let is_sym = match &symbols[i] {
            LVal::Sym(_) => true,
            _ => false,
        };
        proof {
            assert(symsv[i as int] == symbols@[i as int]@);
            assert(is_sym == symsv[i as int] is Sym);
        }
        if !is_sym {
            proof {
                let k = first_non_sym(symsv);
                if k < i as int {
                    assert(symsv[k] is Sym);
                    assert(false);
                }
                if k > i as int {
                    assert(symsv[i as int] is Sym);
                    assert(false);
                }
            }
            return def_non_symbol_error(&symbols[i]);
        }
        i = i + 1;
    }
    proof {
        assert(first_non_sym(symsv) == symsv.len());
    }
    // Check that the number of symbols and values matches.
    if symbols.len() != args.len() {
        return def_mismatch_error(symbols.len(), args.len());
    }
    // Find the target scope and bind each pair in order.
    let target = match loc {
        VariableLocation::Local => env,
        VariableLocation::Global => itp.scopes.find_root(env),
    };
    let ghost binds = var_bindings(symsv, valsv);
    let ghost frames0 = itp.scopes.frames@;
    let n = symbols.len();
    let mut i: usize = 0;
    let mut symbols = symbols;
    let mut args = args;
    proof {
        assert(binds.take(0) =~= Seq::<(Seq<char>, LValV)>::empty());
    }
    while i < n
        invariant
            i <= n,
            n == symsv.len(),
            n == valsv.len(),
            symbols@.len() == n - i,
            args@.len() == n - i,
            forall|j: int| i <= j < n ==> symbols@[j - i]@ == #[trigger] symsv[j],
            forall|j: int| i <= j < n ==> args@[j - i]@ == #[trigger] valsv[j],
            forall|j: int| 0 <= j < n ==> #[trigger] symsv[j] is Sym,
            binds == var_bindings(symsv, valsv),
            binds.len() == n,
            itp.wf(),
            target < itp.scopes.frames@.len(),
            itp.scopes.frames@.len() == frames0.len(),
            itp.out == old(itp).out,
            itp.files == old(itp).files,
            target as int == if loc is Local {
                env as int
            } else {
                root_of(frames0, env as int)
            },
            forall|j: int|
                0 <= j < frames0.len() && j != target ==> itp.scopes.frames@[j] == frames0[j],
            itp.scopes.frames@[target as int].parent == frames0[target as int].parent,
            forall|k: Seq<char>| #[trigger]
                lookup_pairs(itp.scopes.frames@[target as int].contents(), k) == match lookup_pairs(
                    binds.take(i as int),
                    k,
                ) {
                    Option::Some(v) => Option::Some(v),
                    Option::None => lookup_pairs(frames0[target as int].contents(), k),
                },
        decreases n - i,
    {
        let ghost syms0 = symbols@;
        let ghost vals0 = args@;
        proof {
            assert(symbols@[i - i]@ == symsv[i as int]);
            assert(args@[i - i]@ == valsv[i as int]);
        }
        let symbol = symbols.remove(0);
        let value = args.remove(0);
        let ghost before = itp.scopes.frames@;
        proof {
            assert(symbol == syms0[0]);
            assert(syms0[0]@ == symsv[i as int]);
            assert(value == vals0[0]);
            assert(vals0[0]@ == valsv[i as int]);
            assert forall|j: int| i + 1 <= j < n implies symbols@[j - i - 1]@ == #[trigger] symsv[j] by {
                assert(symbols@[j - i - 1] == syms0.remove(0)[j - i - 1]);
                assert(syms0.remove(0)[j - i - 1] == syms0[j - i]);
                assert(syms0[j - i]@ == symsv[j]);
            }
            assert forall|j: int| i + 1 <= j < n implies args@[j - i - 1]@ == #[trigger] valsv[j] by {
                assert(args@[j - i - 1] == vals0.remove(0)[j - i - 1]);
                assert(vals0.remove(0)[j - i - 1] == vals0[j - i]);
                assert(vals0[j - i]@ == valsv[j]);
            }
            assert(symbol@ == symsv[i as int]);
            assert(value@ == valsv[i as int]);
            assert(binds.take(i + 1).drop_last() =~= binds.take(i as int));
            assert(binds.take(i + 1).last() == binds[i as int]);
            assert(binds[i as int] == (symsv[i as int]->Sym_0, valsv[i as int]));
        }
        itp.scopes.put(target, symbol, value);
        proof {
            assert forall|k: Seq<char>| #[trigger]
                lookup_pairs(itp.scopes.frames@[target as int].contents(), k) == match lookup_pairs(
                binds.take(i + 1),
                k,
            ) {
                Option::Some(v) => Option::Some(v),
                Option::None => lookup_pairs(frames0[target as int].contents(), k),
            } by {
                assert(lookup_pairs(itp.scopes.frames@[target as int].contents(), k) == if k
                    == symsv[i as int]->Sym_0 {
                    Option::Some(valsv[i as int])
                } else {
                    lookup_pairs(before[target as int].contents(), k)
                });
            }
        }
        i = i + 1;
    }
    proof {
        assert(binds.take(n as int) =~= binds);
        assert(var_result(loc, argv) == LValV::Sexpr(Seq::<LValV>::empty()));
    }
    LVal::sexpr()
}

/// Re-enter the evaluator on the contents of one q-expression, as an
/// evaluable list.
#[verifier::rlimit(100)]
pub fn builtin_eval(itp: &mut Interp, env: usize, args: Vec<LVal>, depth: u64) -> (r: LVal)
    requires
        old(itp).wf(),
        env < old(itp).scopes.frames@.len(),
    ensures
        state_ok(*old(itp), *final(itp)),
        view_seq(args@).len() < 1 ==> r@ == LValV::Error(msg_few_exact("eval"@, 1, args@.len() as int))
            && *final(itp) == *old(itp),
        view_seq(args@).len() > 1 ==> r@ == LValV::Error(
            msg_many_exact("eval"@, 1, args@.len() as int),
        ) && *final(itp) == *old(itp),
        view_seq(args@).len() == 1 && !(view_seq(args@)[0] is Qexpr) ==> r@ == LValV::Error(
            msg_wrong_type("eval"@, 1, "a q-expression"@, view_seq(args@)[0]),
        ) && *final(itp) == *old(itp),
        view_seq(args@).len() == 1 && view_seq(args@)[0] is Qexpr ==> ({
            let items = view_seq(args@)[0]->Qexpr_0;
            let frames0 = old(itp).scopes.frames@;
            &&& (depth <= 1 ==> r@ == LValV::Error(msg_depth()) && *final(itp) == *old(itp))
            &&& (depth >= 2 ==> (match crate::eval::list_outcome(frames0, env as int, items) {
                Option::Some(res) => r@ == res,
                Option::None => true,
            }) && (crate::eval::list_keeps_state(frames0, env as int, items) ==> *final(itp)
                == *old(itp)))
        }),
        match crate::eval::builtin_spec(
            crate::eval::view_frames(old(itp).scopes.frames@),
            env as int,
            crate::lval::LBuiltin::Eval,
            view_seq(args@),
            depth as nat,
        ) {
            Option::Some(res) => r@ == res && crate::eval::states_agree(*old(itp), *final(itp)),
            Option::None => true,
        },
    decreases depth, 0int, 0int, 0int,
{
    let ghost argv = view_seq(args@);
    proof {
        lemma_view_seq(args@);
    }
    if args.len() < 1 {
        return err_few_exact("eval", 1, args.len());
    }
    if args.len() > 1 {
        return err_many_exact("eval", 1, args.len());
    }
    proof {
        assert(argv[0] == args@[0]@);
    }
    let mut args = args;
    let arg = match args.pop() {
        Option::Some(v) => v,
        Option::None => unreached(),
    };
    let items = match arg {
        LVal::Qexpr(items) => items,
        other => {
            return err_wrong_type("eval", 1, "a q-expression", &other);
        },
    };
    if depth == 0 {
        return depth_error();
    }
    eval(itp, env, LVal::Sexpr(items), depth - 1)
}

/// The error text for a source file the host did not provide.
pub open spec fn msg_no_file(name: Seq<char>) -> Seq<char> {
    "could not load file: `"@ + name + "`"@
}

/// The contents of the first table entry carrying `name`, if any.
pub open spec fn file_lookup(files: Seq<(String, String)>, name: Seq<char>) -> Option<Seq<char>>
    decreases files,
{
    if files.len() == 0 {
        Option::None
    } else if files.first().0@ == name {
        Option::Some(files.first().1@)
    } else {
        file_lookup(files.drop_first(), name)
    }
}

/// Parse and run one unit of source from the interpreter's source table:
/// every top-level expression is evaluated in order with the shared scope,
/// and each error value is printed.
#[verifier::loop_isolation(false)]
pub fn builtin_load(itp: &mut Interp, env: usize, args: Vec<LVal>, depth: u64) -> (r: LVal)
    requires
        old(itp).wf(),
        env < old(itp).scopes.frames@.len(),
    ensures
        state_ok(*old(itp), *final(itp)),
        view_seq(args@).len() < 1 ==> r@ == LValV::Error(msg_few_exact("load"@, 1, args@.len() as int))
            && *final(itp) == *old(itp),
        view_seq(args@).len() > 1 ==> r@ == LValV::Error(
            msg_many_exact("load"@, 1, args@.len() as int),
        ) && *final(itp) == *old(itp),
        view_seq(args@).len() == 1 && !(view_seq(args@)[0] is Str) ==> r@ == LValV::Error(
            msg_wrong_type("load"@, 1, "a string"@, view_seq(args@)[0]),
        ) && *final(itp) == *old(itp),
        view_seq(args@).len() == 1 && view_seq(args@)[0] is Str && (forall|j: int|
            0 <= j < old(itp).files@.len() ==> (#[trigger] old(itp).files@[j]).0@ != view_seq(
                args@,
            )[0]->Str_0) ==> r@ == LValV::Error(msg_no_file(view_seq(args@)[0]->Str_0))
            && *final(itp) == *old(itp),
        r@ is Error || r@ == LValV::Sexpr(Seq::empty()),
        view_seq(args@).len() == 1 && view_seq(args@)[0] is Str ==> ({
            let name = view_seq(args@)[0]->Str_0;
            match file_lookup(old(itp).files@, name) {
                Option::Some(contents) => match crate::parser::lexer::spec_tokenize(
                    contents,
                    0,
                    name,
                    1,
                ) {
                    Result::Ok(ts) => match crate::parser::spec_parse_all(ts, 0) {
                        Option::Some(es) => depth >= 1 ==> r@ == LValV::Sexpr(Seq::empty()),
                        Option::None => r@ is Error,
                    },
                    Result::Err(e) => r@ is Error,
                },
                Option::None => true,
            }
        }),
    decreases depth, 0int, 0int, 0int,
{
    let ghost argv = view_seq(args@);
    proof {
        lemma_view_seq(args@);
    }
    if args.len() < 1 {
        return err_few_exact("load", 1, args.len());
    }
    if args.len() > 1 {
        return err_many_exact("load", 1, args.len());
    }
    proof {
        assert(argv[0] == args@[0]@);
    }
    let mut args = args;
    let arg = match args.pop() {
        Option::Some(v) => v,
        Option::None => unreached(),
    };
    let filename = match arg {
        LVal::Str(text) => text,
        other => {
            return err_wrong_type("load", 1, "a string", &other);
        },
    };
    // Look the file up in the host-provided source table.
    let ghost found = file_lookup(itp.files@, filename@);
    let mut contents: Option<String> = Option::None;
    let mut i: usize = 0;
    let n = itp.files.len();
    proof {
        assert(itp.files@.skip(0) =~= itp.files@);
    }
    while i < n
        invariant
            n == itp.files@.len(),
            i <= n,
            contents is None,
            forall|j: int| 0 <= j < i ==> (#[trigger] itp.files@[j]).0@ != filename@,
            found == file_lookup(itp.files@.skip(i as int), filename@),
        decreases n - i,
    {
        proof {
            assert(itp.files@.skip(i as int).first() == itp.files@[i as int]);
            assert(itp.files@.skip(i as int).drop_first() =~= itp.files@.skip(i + 1));
        }
        if itp.files[i].0.eq(&filename) {
            contents = Option::Some(itp.files[i].1.clone());
            break ;
        }
        i = i + 1;
    }
    let text = match contents {
        Option::Some(text) => text,
        Option::None => {
            proof {
                assert(itp.files@.skip(n as int) =~= Seq::<(String, String)>::empty());
            }
            let mut m = "could not load file: `".to_owned();
            m.append(filename.as_str());
            m.append("`");
            return LVal::err(m);
        },
    };
    proof {
        assert(found == Option::Some(text@));
    }
    // Parse it.
    let ast = match crate::parser::Parser::parse(text.as_str(), filename.as_str()) {
        Result::Ok(node) => node,
        Result::Err(err) => {
            return LVal::err(err.to_text());
        },
    };
    let converted = crate::lval::LVal::from_ast(ast);
    let is_list = match &converted {
        LVal::Sexpr(_) => true,
        LVal::Qexpr(_) => true,
        _ => false,
    };
    let exprs: Vec<LVal> = if is_list {
        converted.into_values()
    } else {
        let mut one: Vec<LVal> = Vec::new();
        one.push(converted);
        one
    };
    // Run it, printing any error value.
    let mut i: usize = 0;
    let n = exprs.len();
    let mut exprs = exprs;
    while i < n
        invariant
            i <= n,
            n - i == exprs@.len(),
            itp.wf(),
            state_ok(*old(itp), *itp),
            env < itp.scopes.frames@.len(),
        decreases n - i,
    {
        if depth == 0 {
            return depth_error();
        }
        let ghost pre = *itp;
        let item = exprs.remove(0);
        let result = eval(itp, env, item, depth - 1);
        proof {
            crate::eval::lemma_prefix_trans(old(itp).out@, pre.out@, itp.out@);
        }
        let is_error = match &result {
            LVal::Error(_) => true,
            _ => false,
        };
        if is_error {
            let ghost pre2 = *itp;
            print_value(itp, env, result, depth);
            proof {
                crate::eval::lemma_prefix_trans(old(itp).out@, pre2.out@, itp.out@);
            }
        }
        i = i + 1;
    }
    LVal::sexpr()
}

/// The line a value prints as: an error with the error marker, anything else
/// by its display rendering.
pub open spec fn printed_line(frames: Seq<crate::lenv::LEnv>, env: int, v: LValV, depth: nat) -> Seq<
    char,
> {
    match v {
        LValV::Error(m) => "Error: "@ + m,
        _ => crate::lenv::display_v(frames, crate::lenv::DispCtx::Chain(env), v, depth),
    }
}

/// Append the printed line for `v` to the interpreter's output.
pub fn print_value(itp: &mut Interp, env: usize, v: LVal, depth: u64)
    requires
        old(itp).wf(),
        env < old(itp).scopes.frames@.len(),
    ensures
        final(itp).scopes == old(itp).scopes,
        final(itp).files == old(itp).files,
        final(itp).out@ == old(itp).out@.push(final(itp).out@.last()),
        final(itp).out@.last()@ == printed_line(
            old(itp).scopes.frames@,
            env as int,
            v@,
            depth as nat,
        ),
        state_ok(*old(itp), *final(itp)),
{
    let line = match &v {
        LVal::Error(m) => {
            let mut line = "Error: ".to_owned();
            line.append(m.as_str());
            line
        },
        other => other.to_string(&itp.scopes, env, depth),
    };
    let ghost out0 = itp.out@;
    itp.out.push(line);
    proof {
        assert(out0.is_prefix_of(itp.out@)) by {
            assert(out0 =~= itp.out@.subrange(0, out0.len() as int));
        }
    }
}

/// What `error` returns: an error value carrying its one string argument.
pub open spec fn error_result(args: Seq<LValV>) -> LValV {
    if args.len() < 1 {
        LValV::Error(msg_few_exact("error"@, 1, args.len() as int))
    } else if args.len() > 1 {
        LValV::Error(msg_many_exact("error"@, 1, args.len() as int))
    } else if !(args[0] is Str) {
        LValV::Error(msg_wrong_type("error"@, 1, "a string"@, args[0]))
    } else {
        LValV::Error(args[0]->Str_0)
    }
}

/// What `println` returns: the empty s-expression, or a count error.
pub open spec fn println_result(args: Seq<LValV>) -> LValV {
    if args.len() < 1 {
        LValV::Error(msg_few_exact("println"@, 1, args.len() as int))
    } else if args.len() > 1 {
        LValV::Error(msg_many_exact("println"@, 1, args.len() as int))
    } else {
        LValV::Sexpr(Seq::empty())
    }
}

/// Construct an error value from a string.
pub fn builtin_error(args: Vec<LVal>) -> (r: LVal)
    ensures
        r@ == error_result(view_seq(args@)),
{
    let ghost argv = view_seq(args@);
    proof {
        lemma_view_seq(args@);
    }
    if args.len() < 1 {
        return err_few_exact("error", 1, args.len());
    }
    if args.len() > 1 {
        return err_many_exact("error", 1, args.len());
    }
    proof {
        assert(argv[0] == args@[0]@);
    }
    let mut args = args;
    let arg = match args.pop() {
        Option::Some(v) => v,
        Option::None => unreached(),
    };
    match arg {
        LVal::Str(text) => LVal::err(text),
        other => err_wrong_type("error", 1, "a string", &other),
    }
}

/// Print one value: its rendered line is appended to the output.
pub fn builtin_println(itp: &mut Interp, env: usize, args: Vec<LVal>, depth: u64) -> (r: LVal)
    requires
        old(itp).wf(),
        env < old(itp).scopes.frames@.len(),
    ensures
        state_ok(*old(itp), *final(itp)),
        r@ == println_result(view_seq(args@)),
        view_seq(args@).len() != 1 ==> *final(itp) == *old(itp),
        view_seq(args@).len() == 1 ==> final(itp).scopes == old(itp).scopes && final(itp).out@
            == old(itp).out@.push(final(itp).out@.last()) && final(itp).out@.last()@
            == printed_line(
            old(itp).scopes.frames@,
            env as int,
            view_seq(args@)[0],
            depth as nat,
        ),
{
    let ghost argv = view_seq(args@);
    proof {
        lemma_view_seq(args@);
    }
    if args.len() < 1 {
        return err_few_exact("println", 1, args.len());
    }
    if args.len() > 1 {
        return err_many_exact("println", 1, args.len());
    }
    proof {
        assert(argv[0] == args@[0]@);
    }
    let mut args = args;
    let arg = match args.pop() {
        Option::Some(v) => v,
        Option::None => unreached(),
    };
    print_value(itp, env, arg, depth);
    LVal::sexpr()
}

/// Bind symbols to values in the outermost (global) scope.
pub fn builtin_def(itp: &mut Interp, env: usize, args: Vec<LVal>) -> (r: LVal)
    requires
        old(itp).wf(),
        env < old(itp).scopes.frames@.len(),
    ensures
        state_ok(*old(itp), *final(itp)),
        final(itp).out == old(itp).out,
        r@ == var_result(VariableLocation::Global, view_seq(args@)),
        r@ is Error ==> *final(itp) == *old(itp),
        r@ is Sexpr ==> var_state(
            VariableLocation::Global,
            *old(itp),
            *final(itp),
            env as int,
            view_seq(args@),
        ),
{
    builtin_var(VariableLocation::Global, itp, env, args)
}

/// Bind symbols to values in the current scope.
pub fn builtin_put(itp: &mut Interp, env: usize, args: Vec<LVal>) -> (r: LVal)
    requires
        old(itp).wf(),
        env < old(itp).scopes.frames@.len(),
    ensures
        state_ok(*old(itp), *final(itp)),
        final(itp).out == old(itp).out,
        r@ == var_result(VariableLocation::Local, view_seq(args@)),
        r@ is Error ==> *final(itp) == *old(itp),
        r@ is Sexpr ==> var_state(
            VariableLocation::Local,
            *old(itp),
            *final(itp),
            env as int,
            view_seq(args@),
        ),
{
    builtin_var(VariableLocation::Local, itp, env, args)
}

} // verus!

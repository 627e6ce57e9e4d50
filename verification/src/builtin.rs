//! The registry of native operations.  Every operation receives its already
//! evaluated arguments, checks its own contract — argument count, argument
//! types, non-empty lists — and returns a value; a violated contract is an
//! `Error` value, never a fault.

use vstd::prelude::*;
use crate::lval::{LVal, LValV, LBuiltin, kind_name_of, show};
use crate::util::{dec_nat, usize_to_string};

pub mod conditions;
pub mod env;
pub mod list;
pub mod math;

verus! {

/// The binding the standard environment gives a canonical name, if any.
/// The chain tests in the reverse of the order `initialize` binds, so it
/// composes definitionally with the insertions.
pub open spec fn builtin_binding(k: Seq<char>) -> Option<LValV> {
    if k == "max"@ {
        Option::Some(LValV::Builtin(LBuiltin::Max))
    } else if k == "min"@ {
        Option::Some(LValV::Builtin(LBuiltin::Min))
    } else if k == "%"@ {
        Option::Some(LValV::Builtin(LBuiltin::Mod))
    } else if k == "/"@ {
        Option::Some(LValV::Builtin(LBuiltin::Div))
    } else if k == "*"@ {
        Option::Some(LValV::Builtin(LBuiltin::Mul))
    } else if k == "-"@ {
        Option::Some(LValV::Builtin(LBuiltin::Sub))
    } else if k == "+"@ {
        Option::Some(LValV::Builtin(LBuiltin::Add))
    } else if k == "cons"@ {
        Option::Some(LValV::Builtin(LBuiltin::Cons))
    } else if k == "join"@ {
        Option::Some(LValV::Builtin(LBuiltin::Join))
    } else if k == "list"@ {
        Option::Some(LValV::Builtin(LBuiltin::List))
    } else if k == "tail"@ {
        Option::Some(LValV::Builtin(LBuiltin::Tail))
    } else if k == "head"@ {
        Option::Some(LValV::Builtin(LBuiltin::Head))
    } else if k == "not"@ {
        Option::Some(LValV::Builtin(LBuiltin::Not))
    } else if k == "and"@ {
        Option::Some(LValV::Builtin(LBuiltin::And))
    } else if k == "or"@ {
        Option::Some(LValV::Builtin(LBuiltin::Or))
    } else if k == "if"@ {
        Option::Some(LValV::Builtin(LBuiltin::If))
    } else if k == "!="@ {
        Option::Some(LValV::Builtin(LBuiltin::Ne))
    } else if k == "=="@ {
        Option::Some(LValV::Builtin(LBuiltin::Eq))
    } else if k == ">"@ {
        Option::Some(LValV::Builtin(LBuiltin::Gt))
    } else if k == ">="@ {
        Option::Some(LValV::Builtin(LBuiltin::Ge))
    } else if k == "<="@ {
        Option::Some(LValV::Builtin(LBuiltin::Le))
    } else if k == "<"@ {
        Option::Some(LValV::Builtin(LBuiltin::Lt))
    } else if k == "println"@ {
        Option::Some(LValV::Builtin(LBuiltin::Println))
    } else if k == "error"@ {
        Option::Some(LValV::Builtin(LBuiltin::ErrorOp))
    } else if k == "load"@ {
        Option::Some(LValV::Builtin(LBuiltin::Load))
    } else if k == "eval"@ {
        Option::Some(LValV::Builtin(LBuiltin::Eval))
    } else if k == "="@ {
        Option::Some(LValV::Builtin(LBuiltin::Put))
    } else if k == "def"@ {
        Option::Some(LValV::Builtin(LBuiltin::Def))
    } else if k == "\\"@ {
        Option::Some(LValV::Builtin(LBuiltin::Lambda))
    } else {
        Option::None
    }
}

/// Populate a scope with every native operation under its canonical name.
#[verifier::rlimit(60)]
pub fn initialize(env: &mut crate::lenv::LEnv)
    requires
        old(env).wf(),
    ensures
        final(env).wf(),
        final(env).parent == old(env).parent,
        forall|k: Seq<char>| #[trigger]
            crate::lval::lookup_pairs(final(env).contents(), k) == match builtin_binding(k) {
                Option::Some(v) => Option::Some(v),
                Option::None => crate::lval::lookup_pairs(old(env).contents(), k),
            },
{
    // Environment
    env.put(LVal::sym("\\"), LVal::func(LBuiltin::Lambda));
    env.put(LVal::sym("def"), LVal::func(LBuiltin::Def));
    env.put(LVal::sym("="), LVal::func(LBuiltin::Put));
    env.put(LVal::sym("eval"), LVal::func(LBuiltin::Eval));
    env.put(LVal::sym("load"), LVal::func(LBuiltin::Load));
    env.put(LVal::sym("error"), LVal::func(LBuiltin::ErrorOp));
    env.put(LVal::sym("println"), LVal::func(LBuiltin::Println));
    // Conditions
    env.put(LVal::sym("<"), LVal::func(LBuiltin::Lt));
    env.put(LVal::sym("<="), LVal::func(LBuiltin::Le));
    env.put(LVal::sym(">="), LVal::func(LBuiltin::Ge));
    env.put(LVal::sym(">"), LVal::func(LBuiltin::Gt));
    env.put(LVal::sym("=="), LVal::func(LBuiltin::Eq));
    env.put(LVal::sym("!="), LVal::func(LBuiltin::Ne));
    env.put(LVal::sym("if"), LVal::func(LBuiltin::If));
    env.put(LVal::sym("or"), LVal::func(LBuiltin::Or));
    env.put(LVal::sym("and"), LVal::func(LBuiltin::And));
    env.put(LVal::sym("not"), LVal::func(LBuiltin::Not));
    // Lists
    env.put(LVal::sym("head"), LVal::func(LBuiltin::Head));
    env.put(LVal::sym("tail"), LVal::func(LBuiltin::Tail));
    env.put(LVal::sym("list"), LVal::func(LBuiltin::List));
    env.put(LVal::sym("join"), LVal::func(LBuiltin::Join));
    env.put(LVal::sym("cons"), LVal::func(LBuiltin::Cons));
    // Math
    env.put(LVal::sym("+"), LVal::func(LBuiltin::Add));
    env.put(LVal::sym("-"), LVal::func(LBuiltin::Sub));
    env.put(LVal::sym("*"), LVal::func(LBuiltin::Mul));
    env.put(LVal::sym("/"), LVal::func(LBuiltin::Div));
    env.put(LVal::sym("%"), LVal::func(LBuiltin::Mod));
    env.put(LVal::sym("min"), LVal::func(LBuiltin::Min));
    env.put(LVal::sym("max"), LVal::func(LBuiltin::Max));
}

/// "`<name>` called with too few arguments: expected X, got Y".
pub open spec fn msg_few_exact(name: Seq<char>, expected: int, got: int) -> Seq<char> {
    "`"@ + name + "` called with too few arguments: expected "@ + dec_nat(expected as nat)
        + ", got "@ + dec_nat(got as nat)
}

/// "`<name>` called with too many arguments: expected X, got Y".
pub open spec fn msg_many_exact(name: Seq<char>, expected: int, got: int) -> Seq<char> {
    "`"@ + name + "` called with too many arguments: expected "@ + dec_nat(expected as nat)
        + ", got "@ + dec_nat(got as nat)
}

/// "`<name>` called with too few arguments: expected at least X, got Y".
pub open spec fn msg_few_min(name: Seq<char>, expected: int, got: int) -> Seq<char> {
    "`"@ + name + "` called with too few arguments: expected at least "@ + dec_nat(
        expected as nat,
    ) + ", got "@ + dec_nat(got as nat)
}

/// "`<name>` called with too many arguments: expected at most X, got Y".
pub open spec fn msg_many_max(name: Seq<char>, expected: int, got: int) -> Seq<char> {
    "`"@ + name + "` called with too many arguments: expected at most "@ + dec_nat(
        expected as nat,
    ) + ", got "@ + dec_nat(got as nat)
}

/// "`<name>` called with wrong type for argument N: expected T, got U: `v`".
pub open spec fn msg_wrong_type(
    name: Seq<char>,
    pos: int,
    expected: Seq<char>,
    got: LValV,
) -> Seq<char> {
    "`"@ + name + "` called with wrong type for argument "@ + dec_nat(pos as nat) + ": expected "@
        + expected + ", got "@ + kind_name_of(got) + ": `"@ + show(got) + "`"@
}

/// "`<name>` called with empty q-expr".
pub open spec fn msg_empty_qexpr(name: Seq<char>) -> Seq<char> {
    "`"@ + name + "` called with empty q-expr"@
}

/// Error value for too few arguments against an exact count.
pub fn err_few_exact(name: &str, expected: usize, got: usize) -> (r: LVal)
    ensures
        r@ == LValV::Error(msg_few_exact(name@, expected as int, got as int)),
{
    let mut m = "`".to_owned();
    m.append(name);
    m.append("` called with too few arguments: expected ");
    m.append(usize_to_string(expected).as_str());
    m.append(", got ");
    m.append(usize_to_string(got).as_str());
    LVal::err(m)
}

/// Error value for too many arguments against an exact count.
pub fn err_many_exact(name: &str, expected: usize, got: usize) -> (r: LVal)
    ensures
        r@ == LValV::Error(msg_many_exact(name@, expected as int, got as int)),
{
    let mut m = "`".to_owned();
    m.append(name);
    m.append("` called with too many arguments: expected ");
    m.append(usize_to_string(expected).as_str());
    m.append(", got ");
    m.append(usize_to_string(got).as_str());
    LVal::err(m)
}

/// Error value for too few arguments against a minimum count.
pub fn err_few_min(name: &str, expected: usize, got: usize) -> (r: LVal)
    ensures
        r@ == LValV::Error(msg_few_min(name@, expected as int, got as int)),
{
    let mut m = "`".to_owned();
    m.append(name);
    m.append("` called with too few arguments: expected at least ");
    m.append(usize_to_string(expected).as_str());
    m.append(", got ");
    m.append(usize_to_string(got).as_str());
    LVal::err(m)
}

/// Error value for too many arguments against a maximum count.
pub fn err_many_max(name: &str, expected: usize, got: usize) -> (r: LVal)
    ensures
        r@ == LValV::Error(msg_many_max(name@, expected as int, got as int)),
{
    let mut m = "`".to_owned();
    m.append(name);
    m.append("` called with too many arguments: expected at most ");
    m.append(usize_to_string(expected).as_str());
    m.append(", got ");
    m.append(usize_to_string(got).as_str());
    LVal::err(m)
}

/// Error value for a wrong argument type; `pos` counts from one.
pub fn err_wrong_type(name: &str, pos: usize, expected: &str, got: &LVal) -> (r: LVal)
    ensures
        r@ == LValV::Error(msg_wrong_type(name@, pos as int, expected@, got@)),
{
    let mut m = "`".to_owned();
    m.append(name);
    m.append("` called with wrong type for argument ");
    m.append(usize_to_string(pos).as_str());
    m.append(": expected ");
    m.append(expected);
    m.append(", got ");
    m.append(got.kind_name());
    m.append(": `");
    m.append(got.to_show_string().as_str());
    m.append("`");
    LVal::err(m)
}

/// Error value for an empty q-expression argument.
pub fn err_empty_qexpr(name: &str) -> (r: LVal)
    ensures
        r@ == LValV::Error(msg_empty_qexpr(name@)),
{
    let mut m = "`".to_owned();
    m.append(name);
    m.append("` called with empty q-expr");
    LVal::err(m)
}

} // verus!

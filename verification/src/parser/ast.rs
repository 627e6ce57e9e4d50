//! The abstract syntax tree, and its conversion to runtime values.

use vstd::prelude::*;
use crate::parser::tokens::SourceLocation;
use crate::lval::{LVal, LValV, view_seq, lemma_view_seq, lemma_view_seq_push};

verus! {

/// An expression AST node: the expression and where it was read.
#[derive(Debug)]
pub struct ExprNode {
    /// The expression's value.
    pub value: Expr,
    /// The location of the definition in the input.
    pub location: SourceLocation,
}

/// An expression.
#[derive(Debug)]
pub enum Expr {
    SExpr(Vec<ExprNode>),
    QExpr(Vec<ExprNode>),
    Str(String),
    Symbol(String),
    Number(i64),
}

/// The mathematical model of an expression.
pub enum ExprV {
    SExpr(Seq<ExprV>),
    QExpr(Seq<ExprV>),
    Str(Seq<char>),
    Sym(Seq<char>),
    Num(int),
}

/// Model of a sequence of AST nodes.
pub open spec fn view_nodes(s: Seq<ExprNode>) -> Seq<ExprV>
    decreases s,
{
    if s.len() == 0 {
        Seq::empty()
    } else {
        view_nodes(s.drop_last()).push(s.last()@)
    }
}

impl View for ExprNode {
    type V = ExprV;

    open spec fn view(&self) -> ExprV
        decreases self,
    {
        self.value.view()
    }
}

impl View for Expr {
    type V = ExprV;

    open spec fn view(&self) -> ExprV
        decreases self,
    {
        match self {
            Expr::SExpr(nodes) => ExprV::SExpr(view_nodes(nodes@)),
            Expr::QExpr(nodes) => ExprV::QExpr(view_nodes(nodes@)),
            Expr::Str(s) => ExprV::Str(s@),
            Expr::Symbol(s) => ExprV::Sym(s@),
            Expr::Number(n) => ExprV::Num(*n as int),
        }
    }
}

/// `view_nodes` maps the sequence pointwise.
pub proof fn lemma_view_nodes(s: Seq<ExprNode>)
    ensures
        view_nodes(s).len() == s.len(),
        forall|i: int| 0 <= i < s.len() ==> view_nodes(s)[i] == #[trigger] s[i]@,
    decreases s,
{
    if s.len() > 0 {
        lemma_view_nodes(s.drop_last());
        assert(view_nodes(s) == view_nodes(s.drop_last()).push(s.last()@));
        assert forall|i: int| 0 <= i < s.len() implies view_nodes(s)[i] == #[trigger] s[i]@ by {
            if i < s.len() - 1 {
                assert(view_nodes(s.drop_last())[i] == s.drop_last()[i]@);
                assert(s.drop_last()[i] == s[i]);
            } else {
                assert(s.last() == s[s.len() - 1]);
                assert(view_nodes(s)[i] == s.last()@);
            }
        }
    }
}

impl ExprNode {
    /// A node carrying `expr`, read at `location`.
    pub fn new(expr: Expr, location: SourceLocation) -> (r: ExprNode)
        ensures
            r.value == expr,
            r.location == location,
    {
        ExprNode { value: expr, location }
    }
}

/// Element-wise structural equality of two node sequences.
pub open spec fn eq_exprs(x: Seq<ExprV>, y: Seq<ExprV>) -> bool
    decreases x,
{
    if x.len() != y.len() {
        false
    } else if x.len() == 0 {
        true
    } else {
        eq_exprs(x.drop_last(), y.drop_last()) && eq_expr(x.last(), y.last())
    }
}

/// Structural equality of two expressions.
pub open spec fn eq_expr(a: ExprV, b: ExprV) -> bool
    decreases a,
{
    match (a, b) {
        (ExprV::Num(x), ExprV::Num(y)) => x == y,
        (ExprV::Sym(x), ExprV::Sym(y)) => x == y,
        (ExprV::Str(x), ExprV::Str(y)) => x == y,
        (ExprV::SExpr(x), ExprV::SExpr(y)) => eq_exprs(x, y),
        (ExprV::QExpr(x), ExprV::QExpr(y)) => eq_exprs(x, y),
        _ => false,
    }
}

/// Whether two expressions are structurally equal; see `eq_expr`.
pub fn expr_eq(a: &Expr, b: &Expr) -> (r: bool)
    ensures
        r == eq_expr(a@, b@),
    decreases a,
{
    match (a, b) {
        (Expr::Number(x), Expr::Number(y)) => *x == *y,
        (Expr::Symbol(x), Expr::Symbol(y)) => x.eq(y),
        (Expr::Str(x), Expr::Str(y)) => x.eq(y),
        (Expr::SExpr(x), Expr::SExpr(y)) => node_vec_eq(x, y),
        (Expr::QExpr(x), Expr::QExpr(y)) => node_vec_eq(x, y),
        _ => false,
    }
}

/// Element-wise structural equality of two node vectors; see `eq_exprs`.
fn node_vec_eq(x: &Vec<ExprNode>, y: &Vec<ExprNode>) -> (r: bool)
    ensures
        r == eq_exprs(view_nodes(x@), view_nodes(y@)),
    decreases x,
{
    let ghost vx = view_nodes(x@);
    let ghost vy = view_nodes(y@);
    proof {
        lemma_view_nodes(x@);
        lemma_view_nodes(y@);
        lemma_eq_exprs_pointwise(vx, vy);
    }
    if x.len() != y.len() {
        return false;
    }
    let mut i: usize = 0;
    while i < x.len()
        invariant
            i <= x@.len(),
            x@.len() == y@.len(),
            vx == view_nodes(x@),
            vy == view_nodes(y@),
            vx.len() == x@.len(),
            vy.len() == y@.len(),
            forall|j: int| 0 <= j < x@.len() ==> vx[j] == #[trigger] x@[j]@,
            forall|j: int| 0 <= j < y@.len() ==> vy[j] == #[trigger] y@[j]@,
            forall|j: int| 0 <= j < i ==> eq_expr(#[trigger] vx[j], vy[j]),
        decreases x@.len() - i,
    {
        proof {
            assert(vx[i as int] == x@[i as int]@);
            assert(x@[i as int]@ == x@[i as int].value@);
            assert(vy[i as int] == y@[i as int]@);
            assert(y@[i as int]@ == y@[i as int].value@);
        }
        if !expr_eq(&x[i].value, &y[i].value) {
            proof {
                lemma_eq_exprs_pointwise(vx, vy);
            }
            return false;
        }
        i = i + 1;
    }
    proof {
        lemma_eq_exprs_pointwise(vx, vy);
    }
    true
}

/// `eq_exprs` is element-wise equality.
pub proof fn lemma_eq_exprs_pointwise(x: Seq<ExprV>, y: Seq<ExprV>)
    ensures
        eq_exprs(x, y) <==> (x.len() == y.len() && forall|i: int|
            0 <= i < x.len() ==> eq_expr(#[trigger] x[i], y[i])),
    decreases x,
{
    if x.len() == y.len() && x.len() > 0 {
        lemma_eq_exprs_pointwise(x.drop_last(), y.drop_last());
        assert(x.last() == x[x.len() - 1]);
        assert(y.last() == y[y.len() - 1]);
        assert forall|i: int| 0 <= i < x.len() - 1 implies (eq_expr(
            #[trigger] x.drop_last()[i],
            y.drop_last()[i],
        ) <==> eq_expr(x[i], y[i])) by {
            assert(x.drop_last()[i] == x[i]);
            assert(y.drop_last()[i] == y[i]);
        }
        if eq_exprs(x, y) {
            assert forall|i: int| 0 <= i < x.len() implies eq_expr(#[trigger] x[i], y[i]) by {
                if i < x.len() - 1 {
                    assert(eq_expr(x.drop_last()[i], y.drop_last()[i]));
                }
            }
        }
    }
}

impl PartialEq for Expr {
    /// Structural equality; see `eq_expr`.
    fn eq(&self, other: &Self) -> (r: bool) {
        expr_eq(self, other)
    }
}

impl vstd::std_specs::cmp::PartialEqSpecImpl for Expr {
    open spec fn obeys_eq_spec() -> bool {
        true
    }

    open spec fn eq_spec(&self, other: &Self) -> bool {
        eq_expr(self@, other@)
    }
}

impl PartialEq for ExprNode {
    /// Structural equality of the expression and the location.
    fn eq(&self, other: &Self) -> (r: bool) {
        expr_eq(&self.value, &other.value) && self.location.eq(&other.location)
    }
}

impl vstd::std_specs::cmp::PartialEqSpecImpl for ExprNode {
    open spec fn obeys_eq_spec() -> bool {
        true
    }

    open spec fn eq_spec(&self, other: &Self) -> bool {
        eq_expr(self@, other@) && self.location.filename@ == other.location.filename@
            && self.location.lineno == other.location.lineno
    }
}

/// The value an expression converts to: each node kind maps to the
/// corresponding value variant, one to one, with no evaluation performed.
pub open spec fn lval_of_expr(e: ExprV) -> LValV
    decreases e,
{
    match e {
        ExprV::Num(n) => LValV::Num(n),
        ExprV::Sym(s) => LValV::Sym(s),
        ExprV::Str(s) => LValV::Str(s),
        ExprV::SExpr(children) => LValV::Sexpr(lvals_of_exprs(children)),
        ExprV::QExpr(children) => LValV::Qexpr(lvals_of_exprs(children)),
    }
}

/// The values a sequence of expressions converts to.
pub open spec fn lvals_of_exprs(es: Seq<ExprV>) -> Seq<LValV>
    decreases es,
{
    if es.len() == 0 {
        Seq::empty()
    } else {
        lvals_of_exprs(es.drop_last()).push(lval_of_expr(es.last()))
    }
}

/// Conversion of a vector of AST nodes to values.
fn from_ast_vec(nodes: &Vec<ExprNode>) -> (r: Vec<LVal>)
    ensures
        view_seq(r@) == lvals_of_exprs(view_nodes(nodes@)),
    decreases nodes,
{
    let ghost nv = view_nodes(nodes@);
    proof {
        lemma_view_nodes(nodes@);
    }
    let mut out: Vec<LVal> = Vec::new();
    let mut i: usize = 0;
    proof {
        assert(view_seq(out@) =~= lvals_of_exprs(nv.take(0)));
    }
    while i < nodes.len()
        invariant
            i <= nodes@.len(),
            nv == view_nodes(nodes@),
            nv.len() == nodes@.len(),
            forall|j: int| 0 <= j < nodes@.len() ==> nv[j] == #[trigger] nodes@[j]@,
            view_seq(out@) == lvals_of_exprs(nv.take(i as int)),
        decreases nodes@.len() - i,
    {
        let ghost outbefore = out@;
        let v = from_ast_ref(&nodes[i]);
        out.push(v);
        proof {
            lemma_view_seq_push(outbefore, out@.last());
            assert(nv.take(i + 1).drop_last() =~= nv.take(i as int));
            assert(nv.take(i + 1).last() == nv[i as int]);
        }
        i = i + 1;
    }
    proof {
        assert(nv.take(nodes@.len() as int) =~= nv);
    }
    out
}

/// Conversion of one AST node, by reference.
fn from_ast_ref(ast: &ExprNode) -> (r: LVal)
    ensures
        r@ == lval_of_expr(ast@),
    decreases ast,
{
    match &ast.value {
        Expr::Number(i) => LVal::num(*i),
        Expr::Symbol(s) => LVal::Sym(s.clone()),
        Expr::Str(s) => LVal::Str(s.clone()),
        Expr::SExpr(exprs) => LVal::Sexpr(from_ast_vec(exprs)),
        Expr::QExpr(exprs) => LVal::Qexpr(from_ast_vec(exprs)),
    }
}

impl LVal {
    /// Construct a value from a given AST: a one-to-one conversion with no
    /// evaluation.
    pub fn from_ast(ast: ExprNode) -> (r: LVal)
        ensures
            r@ == lval_of_expr(ast@),
    {
        from_ast_ref(&ast)
    }
}

} // verus!

//! The syntax tree.

use crate::symbol::BinaryKind;
use std::ops::Range;
use vstd::prelude::*;

verus! {

/// A name with the range of source offsets it was read from.
pub struct Ident(pub String, pub Range<usize>);

/// A variable with its optional type annotation: `name` or `name: Type`.
pub struct VarDef(pub Ident, pub Option<Ident>);

/// A sequence of expressions of one nesting level.
pub struct Block(pub Vec<Expr>);

/// An expression.
pub enum Expr {
    /// A number literal, held as the text it was written with.
    LitNum(String, Range<usize>),
    /// A string literal, escapes resolved.
    LitStr(String, Range<usize>),
    /// `@`, the value of the statement before this one.
    LastLine(Range<usize>),
    /// A variable, possibly annotated with a type.
    Var(VarDef),
    /// A block of statements.
    Block(Block),
    /// An operator applied to its operands.
    Operation(Box<Operation>),
    /// A call: the callee's name and the arguments.
    Call(Ident, Vec<Expr>),
    /// A function literal: parameters, optional return type, body.
    Func(Box<(Vec<VarDef>, Option<Ident>, Expr)>),
}

/// An operator with its operands.
pub enum Operation {
    If(Expr, Expr),
    IfElse(Expr, Expr, Expr),
    While(Expr, Expr),
    Add(Expr, Expr),
    Sub(Expr, Expr),
    Mul(Expr, Expr),
    Div(Expr, Expr),
    BitAnd(Expr, Expr),
    BitOr(Expr, Expr),
    EQ(Expr, Expr),
    NE(Expr, Expr),
    GT(Expr, Expr),
    LT(Expr, Expr),
    GE(Expr, Expr),
    LE(Expr, Expr),
    And(Expr, Expr),
    Or(Expr, Expr),
    Assign(Expr, Expr),
}

/// Mathematical content of an [`Ident`].
pub struct IdentView {
    pub name: Seq<char>,
    pub span: Range<usize>,
}

/// Mathematical content of a [`VarDef`].
pub struct VarDefView {
    pub name: IdentView,
    pub ty: Option<IdentView>,
}

/// Mathematical content of an [`Expr`]. The seventeen two-operand operations
/// are one variant, told apart by their [`BinaryKind`].
pub enum ExprView {
    LitNum(Seq<char>, Range<usize>),
    LitStr(Seq<char>, Range<usize>),
    LastLine(Range<usize>),
    Var(VarDefView),
    Block(Seq<ExprView>),
    Binary(BinaryKind, Box<ExprView>, Box<ExprView>),
    IfElse(Box<ExprView>, Box<ExprView>, Box<ExprView>),
    Call(IdentView, Seq<ExprView>),
    Func(Seq<VarDefView>, Option<IdentView>, Box<ExprView>),
}

impl View for Ident {
    type V = IdentView;

    open spec fn view(&self) -> IdentView {
        IdentView { name: self.0@, span: self.1 }
    }
}

/// Content of an optional identifier.
pub open spec fn opt_ident_view(i: Option<Ident>) -> Option<IdentView> {
    match i {
        Some(x) => Some(x@),
        None => None,
    }
}

impl View for VarDef {
    type V = VarDefView;

    open spec fn view(&self) -> VarDefView {
        VarDefView { name: self.0@, ty: opt_ident_view(self.1) }
    }
}

/// Contents of a parameter list.
pub open spec fn var_def_views(defs: Seq<VarDef>) -> Seq<VarDefView> {
    defs.map_values(|d: VarDef| d@)
}

/// A two-operand node.
pub open spec fn binary_view(kind: BinaryKind, l: ExprView, r: ExprView) -> ExprView {
    ExprView::Binary(kind, Box::new(l), Box::new(r))
}

/// A conditional with both arms.
pub open spec fn if_else_view(c: ExprView, t: ExprView, e: ExprView) -> ExprView {
    ExprView::IfElse(Box::new(c), Box::new(t), Box::new(e))
}

/// Content of an expression.
pub open spec fn expr_view(e: Expr) -> ExprView
    decreases e,
{
    match e {
        Expr::LitNum(s, r) => ExprView::LitNum(s@, r),
        Expr::LitStr(s, r) => ExprView::LitStr(s@, r),
        Expr::LastLine(r) => ExprView::LastLine(r),
        Expr::Var(v) => ExprView::Var(v@),
        Expr::Block(b) => ExprView::Block(expr_views(b.0@)),
        Expr::Operation(o) => operation_view(*o),
        Expr::Call(name, args) => ExprView::Call(name@, expr_views(args@)),
        Expr::Func(f) => ExprView::Func(var_def_views((*f).0@), opt_ident_view((*f).1), Box::new(expr_view((*f).2))),
    }
}

/// Contents of a run of expressions.
pub open spec fn expr_views(es: Seq<Expr>) -> Seq<ExprView>
    decreases es,
{
    Seq::new(es.len(), |i: int| if 0 <= i < es.len() { expr_view(es[i]) } else { arbitrary() })
}

/// Content of an operation.
pub open spec fn operation_view(o: Operation) -> ExprView
    decreases o,
{
    match o {
        Operation::If(l, r) => binary_view(BinaryKind::If, expr_view(l), expr_view(r)),
        Operation::IfElse(c, t, e) => if_else_view(expr_view(c), expr_view(t), expr_view(e)),
        Operation::While(l, r) => binary_view(BinaryKind::While, expr_view(l), expr_view(r)),
        Operation::Add(l, r) => binary_view(BinaryKind::Add, expr_view(l), expr_view(r)),
        Operation::Sub(l, r) => binary_view(BinaryKind::Sub, expr_view(l), expr_view(r)),
        Operation::Mul(l, r) => binary_view(BinaryKind::Mul, expr_view(l), expr_view(r)),
        Operation::Div(l, r) => binary_view(BinaryKind::Div, expr_view(l), expr_view(r)),
        Operation::BitAnd(l, r) => binary_view(BinaryKind::BitAnd, expr_view(l), expr_view(r)),
        Operation::BitOr(l, r) => binary_view(BinaryKind::BitOr, expr_view(l), expr_view(r)),
        Operation::EQ(l, r) => binary_view(BinaryKind::EQ, expr_view(l), expr_view(r)),
        Operation::NE(l, r) => binary_view(BinaryKind::NE, expr_view(l), expr_view(r)),
        Operation::GT(l, r) => binary_view(BinaryKind::GT, expr_view(l), expr_view(r)),
        Operation::LT(l, r) => binary_view(BinaryKind::LT, expr_view(l), expr_view(r)),
        Operation::GE(l, r) => binary_view(BinaryKind::GE, expr_view(l), expr_view(r)),
        Operation::LE(l, r) => binary_view(BinaryKind::LE, expr_view(l), expr_view(r)),
        Operation::And(l, r) => binary_view(BinaryKind::And, expr_view(l), expr_view(r)),
        Operation::Or(l, r) => binary_view(BinaryKind::Or, expr_view(l), expr_view(r)),
        Operation::Assign(l, r) => binary_view(BinaryKind::Assign, expr_view(l), expr_view(r)),
    }
}

impl View for Expr {
    type V = ExprView;

    open spec fn view(&self) -> ExprView {
        expr_view(*self)
    }
}

impl View for Operation {
    type V = ExprView;

    open spec fn view(&self) -> ExprView {
        operation_view(*self)
    }
}

impl View for Block {
    type V = Seq<ExprView>;

    open spec fn view(&self) -> Seq<ExprView> {
        expr_views(self.0@)
    }
}

/// Adding an expression at the end adds its content at the end.
pub proof fn lemma_expr_views_push(es: Seq<Expr>, e: Expr)
    ensures
        expr_views(es.push(e)) == expr_views(es).push(e@),
{
    assert(expr_views(es.push(e)) =~= expr_views(es).push(e@));
}

/// Adding a parameter at the end adds its content at the end.
pub proof fn lemma_var_def_views_push(ds: Seq<VarDef>, d: VarDef)
    ensures
        var_def_views(ds.push(d)) == var_def_views(ds).push(d@),
{
    assert(var_def_views(ds.push(d)) =~= var_def_views(ds).push(d@));
}

impl Clone for Ident {
    fn clone(&self) -> (r: Self)
        ensures
            r@ == self@,
    {
        Ident(self.0.clone(), self.1.start..self.1.end)
    }
}

impl Clone for VarDef {
    fn clone(&self) -> (r: Self)
        ensures
            r@ == self@,
    {
        let ty = match &self.1 {
            Some(t) => Some(t.clone()),
            None => None,
        };
        VarDef(self.0.clone(), ty)
    }
}

/// A copy of a parameter list.
pub fn clone_var_defs(defs: &Vec<VarDef>) -> (r: Vec<VarDef>)
    ensures
        var_def_views(r@) == var_def_views(defs@),
{
    let mut out: Vec<VarDef> = Vec::new();
    let mut i: usize = 0;
    while i < defs.len()
        invariant
            i <= defs.len(),
            out.len() == i,
            forall|k: int| 0 <= k < i ==> out@[k]@ == defs@[k]@,
        decreases defs.len() - i,
    {
        out.push(defs[i].clone());
        i += 1;
    }
    assert(var_def_views(out@) =~= var_def_views(defs@));
    out
}

/// A copy of an expression.
pub fn clone_expr(e: &Expr) -> (r: Expr)
    ensures
        r@ == e@,
    decreases e,
{
    match e {
        Expr::LitNum(s, r) => Expr::LitNum(s.clone(), r.start..r.end),
        Expr::LitStr(s, r) => Expr::LitStr(s.clone(), r.start..r.end),
        Expr::LastLine(r) => Expr::LastLine(r.start..r.end),
        Expr::Var(v) => Expr::Var(v.clone()),
        Expr::Block(b) => Expr::Block(Block(clone_exprs(&b.0))),
        Expr::Operation(o) => Expr::Operation(Box::new(clone_operation(o))),
        Expr::Call(name, args) => Expr::Call(name.clone(), clone_exprs(args)),
        Expr::Func(f) => {
            let ret = match &f.1 {
                Some(t) => Some(t.clone()),
                None => None,
            };
            Expr::Func(Box::new((clone_var_defs(&f.0), ret, clone_expr(&f.2))))
        },
    }
}

/// A copy of a run of expressions.
pub fn clone_exprs(es: &Vec<Expr>) -> (r: Vec<Expr>)
    ensures
        expr_views(r@) == expr_views(es@),
    decreases es,
{
    let mut out: Vec<Expr> = Vec::new();
    let mut i: usize = 0;
    while i < es.len()
        invariant
            i <= es.len(),
            out.len() == i,
            forall|k: int| 0 <= k < i ==> out@[k]@ == es@[k]@,
        decreases es.len() - i,
    {
        out.push(clone_expr(&es[i]));
        i += 1;
    }
    assert(expr_views(out@) =~= expr_views(es@));
    out
}

/// A copy of an operation.
pub fn clone_operation(o: &Operation) -> (r: Operation)
    ensures
        r@ == o@,
    decreases o,
{
    match o {
        Operation::IfElse(c, t, e) => Operation::IfElse(clone_expr(c), clone_expr(t), clone_expr(e)),
        Operation::If(l, r) => Operation::If(clone_expr(l), clone_expr(r)),
        Operation::While(l, r) => Operation::While(clone_expr(l), clone_expr(r)),
        Operation::Add(l, r) => Operation::Add(clone_expr(l), clone_expr(r)),
        Operation::Sub(l, r) => Operation::Sub(clone_expr(l), clone_expr(r)),
        Operation::Mul(l, r) => Operation::Mul(clone_expr(l), clone_expr(r)),
        Operation::Div(l, r) => Operation::Div(clone_expr(l), clone_expr(r)),
        Operation::BitAnd(l, r) => Operation::BitAnd(clone_expr(l), clone_expr(r)),
        Operation::BitOr(l, r) => Operation::BitOr(clone_expr(l), clone_expr(r)),
        Operation::EQ(l, r) => Operation::EQ(clone_expr(l), clone_expr(r)),
        Operation::NE(l, r) => Operation::NE(clone_expr(l), clone_expr(r)),
        Operation::GT(l, r) => Operation::GT(clone_expr(l), clone_expr(r)),
        Operation::LT(l, r) => Operation::LT(clone_expr(l), clone_expr(r)),
        Operation::GE(l, r) => Operation::GE(clone_expr(l), clone_expr(r)),
        Operation::LE(l, r) => Operation::LE(clone_expr(l), clone_expr(r)),
        Operation::And(l, r) => Operation::And(clone_expr(l), clone_expr(r)),
        Operation::Or(l, r) => Operation::Or(clone_expr(l), clone_expr(r)),
        Operation::Assign(l, r) => Operation::Assign(clone_expr(l), clone_expr(r)),
    }
}

impl Clone for Expr {
    fn clone(&self) -> (r: Self)
        ensures
            r@ == self@,
    {
        clone_expr(self)
    }
}

impl Clone for Operation {
    fn clone(&self) -> (r: Self)
        ensures
            r@ == self@,
    {
        clone_operation(self)
    }
}

impl Clone for Block {
    fn clone(&self) -> (r: Self)
        ensures
            r@ == self@,
    {
        Block(clone_exprs(&self.0))
    }
}

} // verus!

use vstd::prelude::*;
use crate::span::Span;

verus! {

/// An expression and the bytes of the source it was parsed from.
#[derive(Debug, PartialEq, Eq)]
pub struct Expr {
    pub kind: ExprKind,
    pub span: Span,
}

#[derive(Debug, PartialEq, Eq)]
pub enum ExprKind {
    Literal(Literal),
    BinaryExpr(BinaryExpr),
    CondExpr(CondExpr),
}

#[derive(Debug, PartialEq, Eq)]
pub enum Literal {
    NatureNum(usize),
    Bool(bool),
}

#[derive(Debug, Copy, Clone, PartialEq, Eq, Structural)]
pub enum BinaryOp {
    Plus,
    Ampersand,
    Less,
    Equal,
}

#[derive(Debug, PartialEq, Eq)]
pub struct BinaryExpr {
    pub lhs: Box<Expr>,
    pub op: BinaryOp,
    pub rhs: Box<Expr>,
}

/// `condition ? then_branch : else_branch`
#[derive(Debug, PartialEq, Eq)]
pub struct CondExpr {
    pub condition: Box<Expr>,
    pub then_branch: Box<Expr>,
    pub else_branch: Box<Expr>,
}

impl Expr {
    pub fn new(kind: ExprKind, span: Span) -> (r: Expr)
        ensures
            r.kind == kind,
            r.span == span,
    {
        Expr { kind, span }
    }
}

/// The source text of an operator.
pub open spec fn op_text(op: BinaryOp) -> Seq<char> {
    match op {
        BinaryOp::Plus => "+"@,
        BinaryOp::Ampersand => "&"@,
        BinaryOp::Less => "<"@,
        BinaryOp::Equal => "="@,
    }
}

impl BinaryOp {
    pub fn raw(&self) -> (r: &'static str)
        ensures
            r@ == op_text(*self),
    {
        match self {
            BinaryOp::Plus => "+",
            BinaryOp::Ampersand => "&",
            BinaryOp::Less => "<",
            BinaryOp::Equal => "=",
        }
    }
}

/// A literal expression over `span`.
pub open spec fn literal_expr(lit: Literal, span: Span) -> Expr {
    Expr { kind: ExprKind::Literal(lit), span }
}

/// `lhs op rhs`, spanning from the start of `lhs` to the end of `rhs`.
pub open spec fn binary_expr(lhs: Expr, op: BinaryOp, rhs: Expr) -> Expr {
    Expr {
        kind: ExprKind::BinaryExpr(BinaryExpr { lhs: Box::new(lhs), op, rhs: Box::new(rhs) }),
        span: Span { start: lhs.span.start, end: rhs.span.end },
    }
}

/// `c ? t : e`, spanning from the start of `c` to the end of `e`.
pub open spec fn cond_expr(c: Expr, t: Expr, e: Expr) -> Expr {
    Expr {
        kind: ExprKind::CondExpr(
            CondExpr { condition: Box::new(c), then_branch: Box::new(t), else_branch: Box::new(e) },
        ),
        span: Span { start: c.span.start, end: e.span.end },
    }
}

pub fn make_binary(lhs: Expr, op: BinaryOp, rhs: Expr) -> (r: Expr)
    ensures
        r == binary_expr(lhs, op, rhs),
{
    let span = Span { start: lhs.span.start, end: rhs.span.end };
    Expr {
        kind: ExprKind::BinaryExpr(BinaryExpr { lhs: Box::new(lhs), op, rhs: Box::new(rhs) }),
        span,
    }
}

pub fn make_cond(c: Expr, t: Expr, e: Expr) -> (r: Expr)
    ensures
        r == cond_expr(c, t, e),
{
    let span = Span { start: c.span.start, end: e.span.end };
    Expr {
        kind: ExprKind::CondExpr(
            CondExpr { condition: Box::new(c), then_branch: Box::new(t), else_branch: Box::new(e) },
        ),
        span,
    }
}

} // verus!

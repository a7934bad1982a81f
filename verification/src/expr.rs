//! Expression nodes: a tagged union of literal, grouping, unary,
//! binary, logical, variable and assignment forms. Each node owns its
//! children exclusively; the tree is acyclic.

use vstd::prelude::*;
use crate::token::{SpecToken, Token};

verus! {

#[derive(PartialEq, Debug)]
pub enum Expr {
    Grouping(Grouping),
    Binary(Binary),
    Literal(Literal),
    Logical(Logical),
    Var(Var),
    Assignment(Assignment),
    Unary(Unary),
}

#[derive(PartialEq, Debug)]
pub struct Grouping {
    pub expr: Box<Expr>,
}

#[derive(PartialEq, Debug)]
pub struct Binary {
    pub left: Box<Expr>,
    pub right: Box<Expr>,
    pub operator: Token,
}

#[derive(PartialEq, Debug)]
pub struct Logical {
    pub left: Box<Expr>,
    pub right: Box<Expr>,
    pub operator: Token,
}

#[derive(PartialEq, Debug)]
pub struct Unary {
    pub expr: Box<Expr>,
    pub operator: Token,
}

#[derive(PartialEq, Debug)]
pub struct Literal {
    pub token: Token,
}

#[derive(PartialEq, Debug)]
pub struct Var {
    pub name: Token,
}

#[derive(PartialEq, Debug)]
pub struct Assignment {
    pub name: Token,
    pub value: Box<Expr>,
}

/// Mathematical model of an expression tree.
pub enum SpecExpr {
    Grouping(Box<SpecExpr>),
    Binary { left: Box<SpecExpr>, right: Box<SpecExpr>, operator: SpecToken },
    Literal(SpecToken),
    Logical { left: Box<SpecExpr>, right: Box<SpecExpr>, operator: SpecToken },
    Var(SpecToken),
    Assignment { name: SpecToken, value: Box<SpecExpr> },
    Unary { operator: SpecToken, expr: Box<SpecExpr> },
}

pub open spec fn spec_expr_view(e: Expr) -> SpecExpr
    decreases e,
{
    match e {
        Expr::Grouping(g) => SpecExpr::Grouping(Box::new(spec_expr_view(*g.expr))),
        Expr::Binary(b) => SpecExpr::Binary {
            left: Box::new(spec_expr_view(*b.left)),
            right: Box::new(spec_expr_view(*b.right)),
            operator: b.operator@,
        },
        Expr::Literal(l) => SpecExpr::Literal(l.token@),
        Expr::Logical(l) => SpecExpr::Logical {
            left: Box::new(spec_expr_view(*l.left)),
            right: Box::new(spec_expr_view(*l.right)),
            operator: l.operator@,
        },
        Expr::Var(v) => SpecExpr::Var(v.name@),
        Expr::Assignment(a) => SpecExpr::Assignment {
            name: a.name@,
            value: Box::new(spec_expr_view(*a.value)),
        },
        Expr::Unary(u) => SpecExpr::Unary {
            operator: u.operator@,
            expr: Box::new(spec_expr_view(*u.expr)),
        },
    }
}

impl View for Expr {
    type V = SpecExpr;

    open spec fn view(&self) -> SpecExpr {
        spec_expr_view(*self)
    }
}

} // verus!

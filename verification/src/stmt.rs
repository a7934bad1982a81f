//! Statement nodes: expression statements, print, variable
//! declarations, blocks, conditionals and loops. A `for` loop never
//! appears here: the parser desugars it into a block and a while loop.

use vstd::prelude::*;
use crate::expr::{Expr, SpecExpr, spec_expr_view};

verus! {

#[derive(PartialEq, Debug)]
pub enum Stmt {
    Declaration(Var),
    Expr(Expr),
    Print(Expr),
    Block(Block),
    If(IfStmt),
    While(While),
}

#[derive(PartialEq, Debug)]
pub struct Block {
    pub stmt_vec: Vec<Stmt>,
}

#[derive(PartialEq, Debug)]
pub struct Var {
    pub value: Expr,
    pub name: String,
}

#[derive(PartialEq, Debug)]
pub struct While {
    pub condition: Expr,
    pub body: Box<Stmt>,
}

#[derive(PartialEq, Debug)]
pub struct IfStmt {
    pub truth_branch: Box<Stmt>,
    pub false_branch: Box<Option<Stmt>>,
    pub condition: Expr,
}

/// Mathematical model of a statement tree.
pub enum SpecStmt {
    Declaration { name: Seq<char>, value: SpecExpr },
    Expr(SpecExpr),
    Print(SpecExpr),
    Block(Seq<SpecStmt>),
    If { condition: SpecExpr, truth_branch: Box<SpecStmt>, false_branch: Option<Box<SpecStmt>> },
    While { condition: SpecExpr, body: Box<SpecStmt> },
}

pub open spec fn spec_stmt_view(s: Stmt) -> SpecStmt
    decreases s,
{
    match s {
        Stmt::Declaration(v) => SpecStmt::Declaration {
            name: v.name@,
            value: spec_expr_view(v.value),
        },
        Stmt::Expr(e) => SpecStmt::Expr(spec_expr_view(e)),
        Stmt::Print(e) => SpecStmt::Print(spec_expr_view(e)),
        Stmt::Block(b) => SpecStmt::Block(spec_stmts_view(b.stmt_vec@)),
        Stmt::If(i) => SpecStmt::If {
            condition: spec_expr_view(i.condition),
            truth_branch: Box::new(spec_stmt_view(*i.truth_branch)),
            false_branch: match *i.false_branch {
                Some(s2) => Some(Box::new(spec_stmt_view(s2))),
                None => None,
            },
        },
        Stmt::While(w) => SpecStmt::While {
            condition: spec_expr_view(w.condition),
            body: Box::new(spec_stmt_view(*w.body)),
        },
    }
}

pub open spec fn spec_stmts_view(ss: Seq<Stmt>) -> Seq<SpecStmt>
    decreases ss,
{
    if ss.len() == 0 {
        Seq::empty()
    } else {
        seq![spec_stmt_view(ss[0])] + spec_stmts_view(ss.drop_first())
    }
}

impl View for Stmt {
    type V = SpecStmt;

    open spec fn view(&self) -> SpecStmt {
        spec_stmt_view(*self)
    }
}

/// The statement views are the element views, in order.
pub proof fn lemma_spec_stmts_view(ss: Seq<Stmt>)
    ensures
        spec_stmts_view(ss).len() == ss.len(),
        forall|i: int| 0 <= i < ss.len() ==> spec_stmts_view(ss)[i] == spec_stmt_view(#[trigger] ss[i]),
    decreases ss,
{
    if ss.len() > 0 {
        lemma_spec_stmts_view(ss.drop_first());
        assert forall|i: int| 0 <= i < ss.len() implies spec_stmts_view(ss)[i] == spec_stmt_view(
            ss[i],
        ) by {
            if i > 0 {
                assert(ss.drop_first()[i - 1] == ss[i]);
            }
        }
    }
}

} // verus!

//! Recursive-descent parser: tokens to statements, precedence
//! climbing from assignment down to primary, each binary level
//! left-associative. A `for` loop is desugared here into an optional
//! initializer, a while loop, and the increment appended inside a
//! wrapping block. A malformed statement is reported with its line and
//! parsing synchronizes to the next statement boundary, so one bad
//! statement does not suppress later diagnostics.

use vstd::prelude::*;
use crate::expr::{Assignment, Binary, Expr, Grouping, Literal, Logical, SpecExpr, Unary, Var};
use crate::stmt::{Block, IfStmt, SpecStmt, Stmt, While, spec_stmts_view, spec_stmt_view, lemma_spec_stmts_view};
use crate::token::{SpecLiteral, SpecToken, Token, TokenType, clone_token};
use crate::scanner::token_views;
use vstd::string::StringExecFns;
use vstd::slice::spec_slice_len;

verus! {



/// Concatenation of error lists is associative.
pub broadcast proof fn lemma_err_add_assoc(a: Seq<ParseError>, b: Seq<ParseError>, c: Seq<ParseError>)
    ensures
        #[trigger] (a + b + c) == a + (b + c),
{
    assert(a + b + c =~= a + (b + c));
}


/// Concatenating error lists, one grouping to the other.
proof fn lemma_assoc(a: Seq<ParseError>, b: Seq<ParseError>, c: Seq<ParseError>)
    ensures
        (a + b) + c == a + (b + c),
        a + Seq::<ParseError>::empty() == a,
{
    assert((a + b) + c =~= a + (b + c));
    assert(a + Seq::<ParseError>::empty() =~= a);
}

/// A syntax error: what was missing or malformed, tagged with the
/// line of the token where it was noticed.
#[derive(PartialEq, Eq, Structural, Debug, Copy, Clone)]
pub enum ParseErrorKind {
    Missing(TokenType),
    ExpectedExpression,
    InvalidAssignmentTarget,
    UnterminatedBlock,
    ExpectedVariableName,
}

#[derive(PartialEq, Eq, Structural, Debug, Copy, Clone)]
pub struct ParseError {
    pub kind: ParseErrorKind,
    pub line: u32,
}

/// The line blamed for an error noticed at position `i`.
pub open spec fn peek_line(toks: Seq<SpecToken>, i: int) -> u32 {
    if 0 <= i < toks.len() {
        toks[i].line
    } else if toks.len() > 0 {
        toks.last().line
    } else {
        1
    }
}

/// The cursor is exhausted: past the tokens, or at the end-of-input
/// token.
pub open spec fn at_end(toks: Seq<SpecToken>, i: int) -> bool {
    i >= toks.len() || i < 0 || toks[i].t_type == TokenType::EOF
}

pub open spec fn tok_is(toks: Seq<SpecToken>, i: int, t: TokenType) -> bool {
    0 <= i < toks.len() && toks[i].t_type == t
}

/// What parsing one expression yields: the node if the parse
/// succeeded, the position after what was consumed, and the errors
/// this parse emitted.
pub struct PExpr {
    pub node: Option<SpecExpr>,
    pub next: int,
    pub errs: Seq<ParseError>,
}

/// Likewise for one statement.
pub struct PStmt {
    pub node: Option<SpecStmt>,
    pub next: int,
    pub errs: Seq<ParseError>,
}

/// The synthetic token a `var` declaration without initializer gets:
/// it initializes to nil.
pub open spec fn nil_token(line: u32) -> SpecToken {
    SpecToken {
        t_type: TokenType::Nil,
        lexeme: Seq::empty(),
        literal: SpecLiteral::Nil,
        line,
    }
}

/// The synthetic token a `for` loop without condition gets: the loop
/// condition defaults to true.
pub open spec fn true_token(line: u32) -> SpecToken {
    SpecToken {
        t_type: TokenType::True,
        lexeme: "true"@,
        literal: SpecLiteral::Boolean(true),
        line,
    }
}

/// primary: literals, identifiers, and parenthesized expressions.
#[verifier::opaque]
pub open spec fn sp_primary(toks: Seq<SpecToken>, i: int) -> PExpr
    decreases toks.len() - i, 0int,
{
    if !(0 <= i < toks.len()) {
        PExpr {
            node: None,
            next: i,
            errs: seq![
                ParseError { kind: ParseErrorKind::ExpectedExpression, line: peek_line(toks, i) },
            ],
        }
    } else {
        let t = toks[i];
        match t.t_type {
            TokenType::Identifier => PExpr { node: Some(SpecExpr::Var(t)), next: i + 1, errs: Seq::empty() },
            TokenType::Number => PExpr { node: Some(SpecExpr::Literal(t)), next: i + 1, errs: Seq::empty() },
            TokenType::String => PExpr { node: Some(SpecExpr::Literal(t)), next: i + 1, errs: Seq::empty() },
            TokenType::False => PExpr { node: Some(SpecExpr::Literal(t)), next: i + 1, errs: Seq::empty() },
            TokenType::True => PExpr { node: Some(SpecExpr::Literal(t)), next: i + 1, errs: Seq::empty() },
            TokenType::Nil => PExpr { node: Some(SpecExpr::Literal(t)), next: i + 1, errs: Seq::empty() },
            TokenType::LeftParen => {
                let inner = sp_expression(toks, i + 1);
                match inner.node {
                    None => PExpr { node: None, next: inner.next, errs: inner.errs },
                    Some(x) => if tok_is(toks, inner.next, TokenType::RightParen) {
                        PExpr {
                            node: Some(SpecExpr::Grouping(Box::new(x))),
                            next: inner.next + 1,
                            errs: inner.errs,
                        }
                    } else {
                        PExpr {
                            node: None,
                            next: inner.next,
                            errs: inner.errs + seq![
                                ParseError {
                                    kind: ParseErrorKind::Missing(TokenType::RightParen),
                                    line: peek_line(toks, inner.next),
                                },
                            ],
                        }
                    },
                }
            },
            _ => PExpr {
                node: None,
                next: i,
                errs: seq![
                    ParseError { kind: ParseErrorKind::ExpectedExpression, line: t.line },
                ],
            },
        }
    }
}

/// unary: prefix `!` and `-`, right-recursive.
#[verifier::opaque]
pub open spec fn sp_unary(toks: Seq<SpecToken>, i: int) -> PExpr
    decreases toks.len() - i, 1int,
{
    if tok_is(toks, i, TokenType::Bang) || tok_is(toks, i, TokenType::Minus) {
        let sub = sp_unary(toks, i + 1);
        match sub.node {
            None => PExpr { node: None, next: sub.next, errs: sub.errs },
            Some(x) => PExpr {
                node: Some(SpecExpr::Unary { operator: toks[i], expr: Box::new(x) }),
                next: sub.next,
                errs: sub.errs,
            },
        }
    } else {
        sp_primary(toks, i)
    }
}

/// multiplication operators, looping left-associatively.
#[verifier::opaque]
pub open spec fn sp_mult_tail(toks: Seq<SpecToken>, j: int, left: SpecExpr) -> PExpr
    decreases toks.len() - j, 2int,
{
    if tok_is(toks, j, TokenType::Star) || tok_is(toks, j, TokenType::Slash) {
        let right = sp_unary(toks, j + 1);
        match right.node {
            None => PExpr { node: None, next: right.next, errs: right.errs },
            Some(rx) => {
                let node = SpecExpr::Binary {
                    left: Box::new(left),
                    right: Box::new(rx),
                    operator: toks[j],
                };
                if j < right.next <= toks.len() {
                    let rest = sp_mult_tail(toks, right.next, node);
                    PExpr { node: rest.node, next: rest.next, errs: right.errs + rest.errs }
                } else {
                    PExpr { node: Some(node), next: right.next, errs: right.errs }
                }
            },
        }
    } else {
        PExpr { node: Some(left), next: j, errs: Seq::empty() }
    }
}

#[verifier::opaque]
pub open spec fn sp_mult(toks: Seq<SpecToken>, i: int) -> PExpr
    decreases toks.len() - i, 3int,
{
    let first = sp_unary(toks, i);
    match first.node {
        None => first,
        Some(x) => {
            if i <= first.next <= toks.len() {
                let rest = sp_mult_tail(toks, first.next, x);
                PExpr { node: rest.node, next: rest.next, errs: first.errs + rest.errs }
            } else {
                PExpr { node: Some(x), next: first.next, errs: first.errs }
            }
        },
    }
}

/// addition operators.
#[verifier::opaque]
pub open spec fn sp_add_tail(toks: Seq<SpecToken>, j: int, left: SpecExpr) -> PExpr
    decreases toks.len() - j, 4int,
{
    if tok_is(toks, j, TokenType::Plus) || tok_is(toks, j, TokenType::Minus) {
        let right = sp_mult(toks, j + 1);
        match right.node {
            None => PExpr { node: None, next: right.next, errs: right.errs },
            Some(rx) => {
                let node = SpecExpr::Binary {
                    left: Box::new(left),
                    right: Box::new(rx),
                    operator: toks[j],
                };
                if j < right.next <= toks.len() {
                    let rest = sp_add_tail(toks, right.next, node);
                    PExpr { node: rest.node, next: rest.next, errs: right.errs + rest.errs }
                } else {
                    PExpr { node: Some(node), next: right.next, errs: right.errs }
                }
            },
        }
    } else {
        PExpr { node: Some(left), next: j, errs: Seq::empty() }
    }
}

#[verifier::opaque]
pub open spec fn sp_add(toks: Seq<SpecToken>, i: int) -> PExpr
    decreases toks.len() - i, 5int,
{
    let first = sp_mult(toks, i);
    match first.node {
        None => first,
        Some(x) => {
            if i <= first.next <= toks.len() {
                let rest = sp_add_tail(toks, first.next, x);
                PExpr { node: rest.node, next: rest.next, errs: first.errs + rest.errs }
            } else {
                PExpr { node: Some(x), next: first.next, errs: first.errs }
            }
        },
    }
}

/// comparison operators.
#[verifier::opaque]
pub open spec fn sp_cmp_tail(toks: Seq<SpecToken>, j: int, left: SpecExpr) -> PExpr
    decreases toks.len() - j, 6int,
{
    if tok_is(toks, j, TokenType::Greater) || tok_is(toks, j, TokenType::GreaterEqual) || tok_is(
        toks,
        j,
        TokenType::Less,
    ) || tok_is(toks, j, TokenType::LessEqual) {
        let right = sp_add(toks, j + 1);
        match right.node {
            None => PExpr { node: None, next: right.next, errs: right.errs },
            Some(rx) => {
                let node = SpecExpr::Binary {
                    left: Box::new(left),
                    right: Box::new(rx),
                    operator: toks[j],
                };
                if j < right.next <= toks.len() {
                    let rest = sp_cmp_tail(toks, right.next, node);
                    PExpr { node: rest.node, next: rest.next, errs: right.errs + rest.errs }
                } else {
                    PExpr { node: Some(node), next: right.next, errs: right.errs }
                }
            },
        }
    } else {
        PExpr { node: Some(left), next: j, errs: Seq::empty() }
    }
}

#[verifier::opaque]
pub open spec fn sp_cmp(toks: Seq<SpecToken>, i: int) -> PExpr
    decreases toks.len() - i, 7int,
{
    let first = sp_add(toks, i);
    match first.node {
        None => first,
        Some(x) => {
            if i <= first.next <= toks.len() {
                let rest = sp_cmp_tail(toks, first.next, x);
                PExpr { node: rest.node, next: rest.next, errs: first.errs + rest.errs }
            } else {
                PExpr { node: Some(x), next: first.next, errs: first.errs }
            }
        },
    }
}

/// equality operators.
#[verifier::opaque]
pub open spec fn sp_eq_tail(toks: Seq<SpecToken>, j: int, left: SpecExpr) -> PExpr
    decreases toks.len() - j, 8int,
{
    if tok_is(toks, j, TokenType::EqualEqual) || tok_is(toks, j, TokenType::BangEqual) {
        let right = sp_cmp(toks, j + 1);
        match right.node {
            None => PExpr { node: None, next: right.next, errs: right.errs },
            Some(rx) => {
                let node = SpecExpr::Binary {
                    left: Box::new(left),
                    right: Box::new(rx),
                    operator: toks[j],
                };
                if j < right.next <= toks.len() {
                    let rest = sp_eq_tail(toks, right.next, node);
                    PExpr { node: rest.node, next: rest.next, errs: right.errs + rest.errs }
                } else {
                    PExpr { node: Some(node), next: right.next, errs: right.errs }
                }
            },
        }
    } else {
        PExpr { node: Some(left), next: j, errs: Seq::empty() }
    }
}

#[verifier::opaque]
pub open spec fn sp_eq(toks: Seq<SpecToken>, i: int) -> PExpr
    decreases toks.len() - i, 9int,
{
    let first = sp_cmp(toks, i);
    match first.node {
        None => first,
        Some(x) => {
            if i <= first.next <= toks.len() {
                let rest = sp_eq_tail(toks, first.next, x);
                PExpr { node: rest.node, next: rest.next, errs: first.errs + rest.errs }
            } else {
                PExpr { node: Some(x), next: first.next, errs: first.errs }
            }
        },
    }
}

/// logical `and`, short of `or`.
#[verifier::opaque]
pub open spec fn sp_and_tail(toks: Seq<SpecToken>, j: int, left: SpecExpr) -> PExpr
    decreases toks.len() - j, 10int,
{
    if tok_is(toks, j, TokenType::And) {
        let right = sp_eq(toks, j + 1);
        match right.node {
            None => PExpr { node: None, next: right.next, errs: right.errs },
            Some(rx) => {
                let node = SpecExpr::Logical {
                    left: Box::new(left),
                    right: Box::new(rx),
                    operator: toks[j],
                };
                if j < right.next <= toks.len() {
                    let rest = sp_and_tail(toks, right.next, node);
                    PExpr { node: rest.node, next: rest.next, errs: right.errs + rest.errs }
                } else {
                    PExpr { node: Some(node), next: right.next, errs: right.errs }
                }
            },
        }
    } else {
        PExpr { node: Some(left), next: j, errs: Seq::empty() }
    }
}

#[verifier::opaque]
pub open spec fn sp_and(toks: Seq<SpecToken>, i: int) -> PExpr
    decreases toks.len() - i, 11int,
{
    let first = sp_eq(toks, i);
    match first.node {
        None => first,
        Some(x) => {
            if i <= first.next <= toks.len() {
                let rest = sp_and_tail(toks, first.next, x);
                PExpr { node: rest.node, next: rest.next, errs: first.errs + rest.errs }
            } else {
                PExpr { node: Some(x), next: first.next, errs: first.errs }
            }
        },
    }
}

/// logical `or`, the loosest binary level.
#[verifier::opaque]
pub open spec fn sp_or_tail(toks: Seq<SpecToken>, j: int, left: SpecExpr) -> PExpr
    decreases toks.len() - j, 12int,
{
    if tok_is(toks, j, TokenType::Or) {
        let right = sp_and(toks, j + 1);
        match right.node {
            None => PExpr { node: None, next: right.next, errs: right.errs },
            Some(rx) => {
                let node = SpecExpr::Logical {
                    left: Box::new(left),
                    right: Box::new(rx),
                    operator: toks[j],
                };
                if j < right.next <= toks.len() {
                    let rest = sp_or_tail(toks, right.next, node);
                    PExpr { node: rest.node, next: rest.next, errs: right.errs + rest.errs }
                } else {
                    PExpr { node: Some(node), next: right.next, errs: right.errs }
                }
            },
        }
    } else {
        PExpr { node: Some(left), next: j, errs: Seq::empty() }
    }
}

#[verifier::opaque]
pub open spec fn sp_or(toks: Seq<SpecToken>, i: int) -> PExpr
    decreases toks.len() - i, 13int,
{
    let first = sp_and(toks, i);
    match first.node {
        None => first,
        Some(x) => {
            if i <= first.next <= toks.len() {
                let rest = sp_or_tail(toks, first.next, x);
                PExpr { node: rest.node, next: rest.next, errs: first.errs + rest.errs }
            } else {
                PExpr { node: Some(x), next: first.next, errs: first.errs }
            }
        },
    }
}

/// assignment: right-associative, and only a variable may stand on
/// the left.
#[verifier::opaque]
pub open spec fn sp_assign(toks: Seq<SpecToken>, i: int) -> PExpr
    decreases toks.len() - i, 14int,
{
    let lhs = sp_or(toks, i);
    match lhs.node {
        None => lhs,
        Some(lx) => if tok_is(toks, lhs.next, TokenType::Equal) && lhs.next >= i {
            let rhs = sp_assign(toks, lhs.next + 1);
            match rhs.node {
                None => PExpr { node: None, next: rhs.next, errs: lhs.errs + rhs.errs },
                Some(rx) => match lx {
                    SpecExpr::Var(name_tok) => PExpr {
                        node: Some(
                            SpecExpr::Assignment { name: name_tok, value: Box::new(rx) },
                        ),
                        next: rhs.next,
                        errs: lhs.errs + rhs.errs,
                    },
                    _ => PExpr {
                        node: None,
                        next: rhs.next,
                        errs: lhs.errs + rhs.errs + seq![
                            ParseError {
                                kind: ParseErrorKind::InvalidAssignmentTarget,
                                line: toks[lhs.next].line,
                            },
                        ],
                    },
                },
            }
        } else {
            lhs
        },
    }
}

#[verifier::opaque]
pub open spec fn sp_expression(toks: Seq<SpecToken>, i: int) -> PExpr
    decreases toks.len() - i, 15int,
{
    sp_assign(toks, i)
}

/// An expression statement: an expression closed by a semicolon.
#[verifier::opaque]
pub open spec fn sp_expr_stmt(toks: Seq<SpecToken>, i: int) -> PStmt
    decreases toks.len() - i, 16int,
{
    let e = sp_expression(toks, i);
    match e.node {
        None => PStmt { node: None, next: e.next, errs: e.errs },
        Some(x) => if tok_is(toks, e.next, TokenType::Semicolon) {
            PStmt { node: Some(SpecStmt::Expr(x)), next: e.next + 1, errs: e.errs }
        } else {
            PStmt {
                node: None,
                next: e.next,
                errs: e.errs + seq![
                    ParseError {
                        kind: ParseErrorKind::Missing(TokenType::Semicolon),
                        line: peek_line(toks, e.next),
                    },
                ],
            }
        },
    }
}

/// A print statement, after the `print` keyword.
#[verifier::opaque]
pub open spec fn sp_print_stmt(toks: Seq<SpecToken>, i: int) -> PStmt
    decreases toks.len() - i, 16int,
{
    let e = sp_expression(toks, i);
    match e.node {
        None => PStmt { node: None, next: e.next, errs: e.errs },
        Some(x) => if tok_is(toks, e.next, TokenType::Semicolon) {
            PStmt { node: Some(SpecStmt::Print(x)), next: e.next + 1, errs: e.errs }
        } else {
            PStmt {
                node: None,
                next: e.next,
                errs: e.errs + seq![
                    ParseError {
                        kind: ParseErrorKind::Missing(TokenType::Semicolon),
                        line: peek_line(toks, e.next),
                    },
                ],
            }
        },
    }
}

/// A variable declaration, after the `var` keyword. Without an
/// initializer the variable is initialized to nil.
#[verifier::opaque]
pub open spec fn sp_var_decl(toks: Seq<SpecToken>, i: int) -> PStmt
    decreases toks.len() - i, 16int,
{
    if !tok_is(toks, i, TokenType::Identifier) {
        PStmt {
            node: None,
            next: i,
            errs: seq![
                ParseError {
                    kind: ParseErrorKind::ExpectedVariableName,
                    line: peek_line(toks, i),
                },
            ],
        }
    } else {
        let name = toks[i];
        if tok_is(toks, i + 1, TokenType::Semicolon) {
            PStmt {
                node: Some(
                    SpecStmt::Declaration {
                        name: name.lexeme,
                        value: SpecExpr::Literal(nil_token(name.line)),
                    },
                ),
                next: i + 2,
                errs: Seq::empty(),
            }
        } else if tok_is(toks, i + 1, TokenType::Equal) {
            let e = sp_expression(toks, i + 2);
            match e.node {
                None => PStmt { node: None, next: e.next, errs: e.errs },
                Some(x) => if tok_is(toks, e.next, TokenType::Semicolon) {
                    PStmt {
                        node: Some(SpecStmt::Declaration { name: name.lexeme, value: x }),
                        next: e.next + 1,
                        errs: e.errs,
                    }
                } else {
                    PStmt {
                        node: None,
                        next: e.next,
                        errs: e.errs + seq![
                            ParseError {
                                kind: ParseErrorKind::Missing(TokenType::Semicolon),
                                line: peek_line(toks, e.next),
                            },
                        ],
                    }
                },
            }
        } else {
            PStmt {
                node: None,
                next: i + 1,
                errs: seq![
                    ParseError {
                        kind: ParseErrorKind::Missing(TokenType::Equal),
                        line: peek_line(toks, i + 1),
                    },
                ],
            }
        }
    }
}

/// The statement boundary scan after a malformed statement: skip past
/// the next semicolon, or stop where a statement or block plainly
/// begins or ends.
#[verifier::opaque]
pub open spec fn sp_sync(toks: Seq<SpecToken>, j: int) -> int
    decreases toks.len() - j,
{
    if at_end(toks, j) {
        j
    } else if toks[j].t_type == TokenType::Semicolon {
        j + 1
    } else if toks[j].t_type == TokenType::Var || toks[j].t_type == TokenType::For
        || toks[j].t_type == TokenType::If || toks[j].t_type == TokenType::While
        || toks[j].t_type == TokenType::Print || toks[j].t_type == TokenType::LeftBrace
        || toks[j].t_type == TokenType::RightBrace {
        j
    } else {
        sp_sync(toks, j + 1)
    }
}

/// The statements of a block, up to the closing brace; reaching the
/// end of input first is an unterminated-block error.
#[verifier::opaque]
pub open spec fn sp_block_items(toks: Seq<SpecToken>, i: int) -> (Option<Seq<SpecStmt>>, int, Seq<
    ParseError,
>)
    decreases toks.len() - i, 20int,
{
    if at_end(toks, i) {
        (
            None,
            i,
            seq![
                ParseError { kind: ParseErrorKind::UnterminatedBlock, line: peek_line(toks, i) },
            ],
        )
    } else if toks[i].t_type == TokenType::RightBrace {
        (Some(Seq::empty()), i + 1, Seq::empty())
    } else {
        let s = sp_next(toks, i);
        let k = if i < s.next <= toks.len() { s.next } else { i + 1 };
        let rest = sp_block_items(toks, k);
        match s.node {
            Some(x) => (
                match rest.0 {
                    Some(ss) => Some(seq![x] + ss),
                    None => None,
                },
                rest.1,
                s.errs + rest.2,
            ),
            None => (rest.0, rest.1, s.errs + rest.2),
        }
    }
}

/// An if statement, after the `if` keyword.
#[verifier::opaque]
pub open spec fn sp_if(toks: Seq<SpecToken>, i: int) -> PStmt
    decreases toks.len() - i, 16int,
{
    if !tok_is(toks, i, TokenType::LeftParen) {
        PStmt {
            node: None,
            next: i,
            errs: seq![
                ParseError {
                    kind: ParseErrorKind::Missing(TokenType::LeftParen),
                    line: peek_line(toks, i),
                },
            ],
        }
    } else {
        let c = sp_expression(toks, i + 1);
        match c.node {
            None => PStmt { node: None, next: c.next, errs: c.errs },
            Some(cond) => if !tok_is(toks, c.next, TokenType::RightParen) {
                PStmt {
                    node: None,
                    next: c.next,
                    errs: c.errs + seq![
                        ParseError {
                            kind: ParseErrorKind::Missing(TokenType::RightParen),
                            line: peek_line(toks, c.next),
                        },
                    ],
                }
            } else if c.next < i {
                PStmt { node: None, next: c.next, errs: c.errs }
            } else {
                let tb = sp_next(toks, c.next + 1);
                match tb.node {
                    None => PStmt { node: None, next: tb.next, errs: c.errs + tb.errs },
                    Some(tbx) => if tok_is(toks, tb.next, TokenType::Else) && tb.next >= i {
                        let eb = sp_next(toks, tb.next + 1);
                        match eb.node {
                            None => PStmt {
                                node: None,
                                next: eb.next,
                                errs: c.errs + tb.errs + eb.errs,
                            },
                            Some(ebx) => PStmt {
                                node: Some(
                                    SpecStmt::If {
                                        condition: cond,
                                        truth_branch: Box::new(tbx),
                                        false_branch: Some(Box::new(ebx)),
                                    },
                                ),
                                next: eb.next,
                                errs: c.errs + tb.errs + eb.errs,
                            },
                        }
                    } else {
                        PStmt {
                            node: Some(
                                SpecStmt::If {
                                    condition: cond,
                                    truth_branch: Box::new(tbx),
                                    false_branch: None,
                                },
                            ),
                            next: tb.next,
                            errs: c.errs + tb.errs,
                        }
                    },
                }
            },
        }
    }
}

/// A while statement, after the `while` keyword; the body must be a
/// block.
#[verifier::opaque]
pub open spec fn sp_while(toks: Seq<SpecToken>, i: int) -> PStmt
    decreases toks.len() - i, 16int,
{
    if !tok_is(toks, i, TokenType::LeftParen) {
        PStmt {
            node: None,
            next: i,
            errs: seq![
                ParseError {
                    kind: ParseErrorKind::Missing(TokenType::LeftParen),
                    line: peek_line(toks, i),
                },
            ],
        }
    } else {
        let c = sp_expression(toks, i + 1);
        match c.node {
            None => PStmt { node: None, next: c.next, errs: c.errs },
            Some(cond) => if !tok_is(toks, c.next, TokenType::RightParen) {
                PStmt {
                    node: None,
                    next: c.next,
                    errs: c.errs + seq![
                        ParseError {
                            kind: ParseErrorKind::Missing(TokenType::RightParen),
                            line: peek_line(toks, c.next),
                        },
                    ],
                }
            } else if !tok_is(toks, c.next + 1, TokenType::LeftBrace) {
                PStmt {
                    node: None,
                    next: c.next + 1,
                    errs: c.errs + seq![
                        ParseError {
                            kind: ParseErrorKind::Missing(TokenType::LeftBrace),
                            line: peek_line(toks, c.next + 1),
                        },
                    ],
                }
            } else if c.next < i {
                PStmt { node: None, next: c.next, errs: c.errs }
            } else {
                let body = sp_next(toks, c.next + 1);
                match body.node {
                    None => PStmt { node: None, next: body.next, errs: c.errs + body.errs },
                    Some(bx) => PStmt {
                        node: Some(SpecStmt::While { condition: cond, body: Box::new(bx) }),
                        next: body.next,
                        errs: c.errs + body.errs,
                    },
                }
            },
        }
    }
}

/// A for statement, after the `for` keyword: `(`, an optional
/// initializer clause, and the rest. The whole construct is desugared
/// here; the evaluator never sees a dedicated for form.
#[verifier::opaque]
pub open spec fn sp_for(toks: Seq<SpecToken>, i: int) -> PStmt
    decreases toks.len() - i, 18int,
{
    if !tok_is(toks, i, TokenType::LeftParen) {
        PStmt {
            node: None,
            next: i,
            errs: seq![
                ParseError {
                    kind: ParseErrorKind::Missing(TokenType::LeftParen),
                    line: peek_line(toks, i),
                },
            ],
        }
    } else {
        let init: PStmt = if tok_is(toks, i + 1, TokenType::Semicolon) {
            PStmt { node: None, next: i + 2, errs: Seq::empty() }
        } else if tok_is(toks, i + 1, TokenType::Var) {
            sp_var_decl(toks, i + 2)
        } else {
            sp_expr_stmt(toks, i + 1)
        };
        let has_init = !tok_is(toks, i + 1, TokenType::Semicolon);
        if has_init && init.node is None {
            PStmt { node: None, next: init.next, errs: init.errs }
        } else {
            let rest = sp_for_tail(toks, i, init.next, init.node);
            PStmt { node: rest.node, next: rest.next, errs: init.errs + rest.errs }
        }
    }
}

/// The condition clause of a for statement, ending at its semicolon;
/// an omitted condition defaults to a synthetic `true` literal.
#[verifier::opaque]
pub open spec fn sp_for_tail(toks: Seq<SpecToken>, i: int, p: int, init: Option<SpecStmt>) -> PStmt
    decreases toks.len() - i, 17int,
{
    if !(0 <= i && i < p <= toks.len()) {
        PStmt { node: None, next: p, errs: Seq::empty() }
    } else {
        let cond: PExpr = if tok_is(toks, p, TokenType::Semicolon) {
            PExpr { node: None, next: p, errs: Seq::empty() }
        } else {
            sp_expression(toks, p)
        };
        let has_cond = !tok_is(toks, p, TokenType::Semicolon);
        if has_cond && cond.node is None {
            PStmt { node: None, next: cond.next, errs: cond.errs }
        } else if !tok_is(toks, cond.next, TokenType::Semicolon) {
            PStmt {
                node: None,
                next: cond.next,
                errs: cond.errs + seq![
                    ParseError {
                        kind: ParseErrorKind::Missing(TokenType::Semicolon),
                        line: peek_line(toks, cond.next),
                    },
                ],
            }
        } else if cond.next < p {
            PStmt { node: None, next: cond.next, errs: cond.errs }
        } else {
            let rest = sp_for_body(toks, i, cond.next + 1, init, cond.node);
            PStmt { node: rest.node, next: rest.next, errs: cond.errs + rest.errs }
        }
    }
}

/// The increment clause and body of a for statement: the desugared
/// result runs the initializer once, then a while loop over the body
/// with the increment appended inside a wrapping block.
#[verifier::opaque]
pub open spec fn sp_for_body(
    toks: Seq<SpecToken>,
    i: int,
    q: int,
    init: Option<SpecStmt>,
    cond: Option<SpecExpr>,
) -> PStmt
    decreases toks.len() - i, 16int,
{
    if !(0 <= i && i < q <= toks.len()) {
        PStmt { node: None, next: q, errs: Seq::empty() }
    } else {
        let incr: PExpr = if tok_is(toks, q, TokenType::RightParen) {
            PExpr { node: None, next: q, errs: Seq::empty() }
        } else {
            sp_expression(toks, q)
        };
        let has_incr = !tok_is(toks, q, TokenType::RightParen);
        if has_incr && incr.node is None {
            PStmt { node: None, next: incr.next, errs: incr.errs }
        } else if !tok_is(toks, incr.next, TokenType::RightParen) {
            PStmt {
                node: None,
                next: incr.next,
                errs: incr.errs + seq![
                    ParseError {
                        kind: ParseErrorKind::Missing(TokenType::RightParen),
                        line: peek_line(toks, incr.next),
                    },
                ],
            }
        } else if incr.next < i {
            PStmt { node: None, next: incr.next, errs: incr.errs }
        } else {
            let rp_line = toks[incr.next].line;
            let body = sp_next(toks, incr.next + 1);
            match body.node {
                None => PStmt { node: None, next: body.next, errs: incr.errs + body.errs },
                Some(bx) => {
                    let body2 = match incr.node {
                        Some(ix) => SpecStmt::Block(seq![bx, SpecStmt::Expr(ix)]),
                        None => bx,
                    };
                    let condition = match cond {
                        Some(cx) => cx,
                        None => SpecExpr::Literal(true_token(rp_line)),
                    };
                    let w = SpecStmt::While { condition, body: Box::new(body2) };
                    let desugared = match init {
                        Some(ix) => SpecStmt::Block(seq![ix, w]),
                        None => w,
                    };
                    PStmt {
                        node: Some(desugared),
                        next: body.next,
                        errs: incr.errs + body.errs,
                    }
                },
            }
        }
    }
}

/// One statement at the cursor: dispatch on the leading token; on a
/// malformed statement, record its errors and synchronize to the next
/// statement boundary.
#[verifier::opaque]
pub open spec fn sp_next(toks: Seq<SpecToken>, i: int) -> PStmt
    decreases toks.len() - i, 19int,
{
    let r: PStmt = if tok_is(toks, i, TokenType::Print) {
        sp_print_stmt(toks, i + 1)
    } else if tok_is(toks, i, TokenType::Var) {
        sp_var_decl(toks, i + 1)
    } else if tok_is(toks, i, TokenType::LeftBrace) {
        let b = sp_block_items(toks, i + 1);
        match b.0 {
            Some(ss) => PStmt { node: Some(SpecStmt::Block(ss)), next: b.1, errs: b.2 },
            None => PStmt { node: None, next: b.1, errs: b.2 },
        }
    } else if tok_is(toks, i, TokenType::For) {
        sp_for(toks, i + 1)
    } else if tok_is(toks, i, TokenType::If) {
        sp_if(toks, i + 1)
    } else if tok_is(toks, i, TokenType::While) {
        sp_while(toks, i + 1)
    } else {
        sp_expr_stmt(toks, i)
    };
    match r.node {
        Some(_) => r,
        None => {
            let from = if r.next > i { r.next } else { i + 1 };
            let from2 = if from <= toks.len() { from } else { toks.len() as int };
            PStmt { node: None, next: sp_sync(toks, from2), errs: r.errs }
        },
    }
}

/// The whole program: statements in order until the end of input,
/// with every malformed statement reported and skipped.
#[verifier::opaque]
pub open spec fn sp_program(toks: Seq<SpecToken>, i: int) -> (Seq<SpecStmt>, Seq<ParseError>)
    decreases toks.len() - i, 21int,
{
    if at_end(toks, i) {
        (Seq::empty(), Seq::empty())
    } else {
        let s = sp_next(toks, i);
        let k = if i < s.next <= toks.len() { s.next } else { i + 1 };
        let rest = sp_program(toks, k);
        match s.node {
            Some(x) => (seq![x] + rest.0, s.errs + rest.1),
            None => (rest.0, s.errs + rest.1),
        }
    }
}

/// The parser's contract: the statements and syntax errors produced
/// for a token stream.
pub open spec fn sp_parse(toks: Seq<SpecToken>) -> (Seq<SpecStmt>, Seq<ParseError>) {
    sp_program(toks, 0)
}



/// How `sp_mult_tail` unfolds at one position, for each case.
proof fn lemma_mult_tail_cases(toks: Seq<SpecToken>, j: int, left: SpecExpr)
    ensures
        !(tok_is(toks, j, TokenType::Star) || tok_is(toks, j, TokenType::Slash)) ==> sp_mult_tail(toks, j, left) == (PExpr {
            node: Some(left),
            next: j,
            errs: Seq::<ParseError>::empty(),
        }),
        (tok_is(toks, j, TokenType::Star) || tok_is(toks, j, TokenType::Slash)) ==> ({
            let right = sp_unary(toks, j + 1);
            match right.node {
                None => sp_mult_tail(toks, j, left) == (PExpr {
                    node: None,
                    next: right.next,
                    errs: right.errs,
                }),
                Some(rx) => ({
                    let node = SpecExpr::Binary {
                        left: Box::new(left),
                        right: Box::new(rx),
                        operator: toks[j],
                    };
                    j < right.next <= toks.len() ==> sp_mult_tail(toks, j, left) == (PExpr {
                        node: sp_mult_tail(toks, right.next, node).node,
                        next: sp_mult_tail(toks, right.next, node).next,
                        errs: right.errs + sp_mult_tail(toks, right.next, node).errs,
                    })
                }),
            }
        }),
{
    reveal(sp_mult_tail);
    reveal(sp_unary);
}

/// How `sp_add_tail` unfolds at one position, for each case.
proof fn lemma_add_tail_cases(toks: Seq<SpecToken>, j: int, left: SpecExpr)
    ensures
        !(tok_is(toks, j, TokenType::Plus) || tok_is(toks, j, TokenType::Minus)) ==> sp_add_tail(toks, j, left) == (PExpr {
            node: Some(left),
            next: j,
            errs: Seq::<ParseError>::empty(),
        }),
        (tok_is(toks, j, TokenType::Plus) || tok_is(toks, j, TokenType::Minus)) ==> ({
            let right = sp_mult(toks, j + 1);
            match right.node {
                None => sp_add_tail(toks, j, left) == (PExpr {
                    node: None,
                    next: right.next,
                    errs: right.errs,
                }),
                Some(rx) => ({
                    let node = SpecExpr::Binary {
                        left: Box::new(left),
                        right: Box::new(rx),
                        operator: toks[j],
                    };
                    j < right.next <= toks.len() ==> sp_add_tail(toks, j, left) == (PExpr {
                        node: sp_add_tail(toks, right.next, node).node,
                        next: sp_add_tail(toks, right.next, node).next,
                        errs: right.errs + sp_add_tail(toks, right.next, node).errs,
                    })
                }),
            }
        }),
{
    reveal(sp_add_tail);
    reveal(sp_mult);
}

/// How `sp_cmp_tail` unfolds at one position, for each case.
proof fn lemma_cmp_tail_cases(toks: Seq<SpecToken>, j: int, left: SpecExpr)
    ensures
        !(tok_is(toks, j, TokenType::Greater) || tok_is(toks, j, TokenType::GreaterEqual) || tok_is(toks, j, TokenType::Less) || tok_is(toks, j, TokenType::LessEqual)) ==> sp_cmp_tail(toks, j, left) == (PExpr {
            node: Some(left),
            next: j,
            errs: Seq::<ParseError>::empty(),
        }),
        (tok_is(toks, j, TokenType::Greater) || tok_is(toks, j, TokenType::GreaterEqual) || tok_is(toks, j, TokenType::Less) || tok_is(toks, j, TokenType::LessEqual)) ==> ({
            let right = sp_add(toks, j + 1);
            match right.node {
                None => sp_cmp_tail(toks, j, left) == (PExpr {
                    node: None,
                    next: right.next,
                    errs: right.errs,
                }),
                Some(rx) => ({
                    let node = SpecExpr::Binary {
                        left: Box::new(left),
                        right: Box::new(rx),
                        operator: toks[j],
                    };
                    j < right.next <= toks.len() ==> sp_cmp_tail(toks, j, left) == (PExpr {
                        node: sp_cmp_tail(toks, right.next, node).node,
                        next: sp_cmp_tail(toks, right.next, node).next,
                        errs: right.errs + sp_cmp_tail(toks, right.next, node).errs,
                    })
                }),
            }
        }),
{
    reveal(sp_cmp_tail);
    reveal(sp_add);
}

/// How `sp_eq_tail` unfolds at one position, for each case.
proof fn lemma_eq_tail_cases(toks: Seq<SpecToken>, j: int, left: SpecExpr)
    ensures
        !(tok_is(toks, j, TokenType::EqualEqual) || tok_is(toks, j, TokenType::BangEqual)) ==> sp_eq_tail(toks, j, left) == (PExpr {
            node: Some(left),
            next: j,
            errs: Seq::<ParseError>::empty(),
        }),
        (tok_is(toks, j, TokenType::EqualEqual) || tok_is(toks, j, TokenType::BangEqual)) ==> ({
            let right = sp_cmp(toks, j + 1);
            match right.node {
                None => sp_eq_tail(toks, j, left) == (PExpr {
                    node: None,
                    next: right.next,
                    errs: right.errs,
                }),
                Some(rx) => ({
                    let node = SpecExpr::Binary {
                        left: Box::new(left),
                        right: Box::new(rx),
                        operator: toks[j],
                    };
                    j < right.next <= toks.len() ==> sp_eq_tail(toks, j, left) == (PExpr {
                        node: sp_eq_tail(toks, right.next, node).node,
                        next: sp_eq_tail(toks, right.next, node).next,
                        errs: right.errs + sp_eq_tail(toks, right.next, node).errs,
                    })
                }),
            }
        }),
{
    reveal(sp_eq_tail);
    reveal(sp_cmp);
}

/// How `sp_and_tail` unfolds at one position, for each case.
proof fn lemma_and_tail_cases(toks: Seq<SpecToken>, j: int, left: SpecExpr)
    ensures
        !(tok_is(toks, j, TokenType::And)) ==> sp_and_tail(toks, j, left) == (PExpr {
            node: Some(left),
            next: j,
            errs: Seq::<ParseError>::empty(),
        }),
        (tok_is(toks, j, TokenType::And)) ==> ({
            let right = sp_eq(toks, j + 1);
            match right.node {
                None => sp_and_tail(toks, j, left) == (PExpr {
                    node: None,
                    next: right.next,
                    errs: right.errs,
                }),
                Some(rx) => ({
                    let node = SpecExpr::Logical {
                        left: Box::new(left),
                        right: Box::new(rx),
                        operator: toks[j],
                    };
                    j < right.next <= toks.len() ==> sp_and_tail(toks, j, left) == (PExpr {
                        node: sp_and_tail(toks, right.next, node).node,
                        next: sp_and_tail(toks, right.next, node).next,
                        errs: right.errs + sp_and_tail(toks, right.next, node).errs,
                    })
                }),
            }
        }),
{
    reveal(sp_and_tail);
    reveal(sp_eq);
}

/// How `sp_or_tail` unfolds at one position, for each case.
proof fn lemma_or_tail_cases(toks: Seq<SpecToken>, j: int, left: SpecExpr)
    ensures
        !(tok_is(toks, j, TokenType::Or)) ==> sp_or_tail(toks, j, left) == (PExpr {
            node: Some(left),
            next: j,
            errs: Seq::<ParseError>::empty(),
        }),
        (tok_is(toks, j, TokenType::Or)) ==> ({
            let right = sp_and(toks, j + 1);
            match right.node {
                None => sp_or_tail(toks, j, left) == (PExpr {
                    node: None,
                    next: right.next,
                    errs: right.errs,
                }),
                Some(rx) => ({
                    let node = SpecExpr::Logical {
                        left: Box::new(left),
                        right: Box::new(rx),
                        operator: toks[j],
                    };
                    j < right.next <= toks.len() ==> sp_or_tail(toks, j, left) == (PExpr {
                        node: sp_or_tail(toks, right.next, node).node,
                        next: sp_or_tail(toks, right.next, node).next,
                        errs: right.errs + sp_or_tail(toks, right.next, node).errs,
                    })
                }),
            }
        }),
{
    reveal(sp_or_tail);
    reveal(sp_and);
}

pub open spec fn opt_expr_view(o: Option<Expr>) -> Option<SpecExpr> {
    match o {
        Some(e) => Some(e@),
        None => None,
    }
}

pub open spec fn opt_stmt_view(o: Option<Stmt>) -> Option<SpecStmt> {
    match o {
        Some(s) => Some(s@),
        None => None,
    }
}

/// The parser: a cursor over a borrowed token list, and the syntax
/// errors found so far.
pub struct Parser<'a> {
    tokens: &'a [Token],
    pos: usize,
    errors: Vec<ParseError>,
}

impl<'a> Parser<'a> {
    /// The models of the tokens being parsed.
    pub closed spec fn toks(&self) -> Seq<SpecToken> {
        token_views(self.tokens@)
    }

    pub closed spec fn spec_pos(&self) -> int {
        self.pos as int
    }

    pub closed spec fn spec_errors(&self) -> Seq<ParseError> {
        self.errors@
    }

    pub closed spec fn wf(&self) -> bool {
        self.pos <= self.tokens@.len()
    }

    /// A parser that has not consumed anything yet.
    pub closed spec fn fresh(&self) -> bool {
        &&& self.wf()
        &&& self.pos == 0
        &&& self.errors@.len() == 0
    }

    proof fn lemma_views(&self)
        ensures
            self.toks().len() == self.tokens@.len(),
            self.tokens@.len() <= usize::MAX,
            forall|i: int|
                0 <= i < self.tokens@.len() ==> self.toks()[i] == (#[trigger] self.tokens@[i])@,
    {
        broadcast use vstd::slice::axiom_spec_len;

        assert(spec_slice_len(self.tokens) == self.tokens@.len());
    }

    pub fn new(borrowed_token_list: &'a [Token]) -> (p: Parser<'a>)
        ensures
            p.fresh(),
            p.toks() == token_views(borrowed_token_list@),
    {
        Parser { tokens: borrowed_token_list, pos: 0, errors: Vec::new() }
    }

    /// The syntax errors found, in source order.
    pub fn parse_errors(&self) -> (r: &Vec<ParseError>)
        ensures
            r@ == self.spec_errors(),
    {
        &self.errors
    }

    fn peek_is(&self, t: TokenType) -> (r: bool)
        requires
            self.wf(),
        ensures
            r == tok_is(self.toks(), self.spec_pos(), t),
    {
        proof {
            self.lemma_views();
        }
        self.pos < self.tokens.len() && self.tokens[self.pos].t_type == t
    }

    fn is_at_end(&self) -> (r: bool)
        requires
            self.wf(),
        ensures
            r == at_end(self.toks(), self.spec_pos()),
    {
        proof {
            self.lemma_views();
        }
        self.pos >= self.tokens.len() || self.tokens[self.pos].t_type == TokenType::EOF
    }

    fn cur_line(&self) -> (r: u32)
        requires
            self.wf(),
        ensures
            r == peek_line(self.toks(), self.spec_pos()),
    {
        proof {
            self.lemma_views();
        }
        if self.pos < self.tokens.len() {
            self.tokens[self.pos].line
        } else if self.tokens.len() > 0 {
            self.tokens[self.tokens.len() - 1].line
        } else {
            1
        }
    }

    fn push_err(&mut self, kind: ParseErrorKind, line: u32)
        requires
            old(self).wf(),
        ensures
            final(self).wf(),
            final(self).tokens == old(self).tokens,
            final(self).spec_pos() == old(self).spec_pos(),
            final(self).spec_errors() == old(self).spec_errors() + seq![
                ParseError { kind, line },
            ],
    {
        self.errors.push(ParseError { kind, line });
        proof {
            assert(self.spec_errors() =~= old(self).spec_errors() + seq![
                ParseError { kind, line },
            ]);
        }
    }

    /// Clone the token at the cursor and step past it.
    fn take_token(&mut self) -> (t: Token)
        requires
            old(self).wf(),
            old(self).spec_pos() < old(self).toks().len(),
        ensures
            final(self).wf(),
            final(self).tokens == old(self).tokens,
            final(self).spec_errors() == old(self).spec_errors(),
            final(self).spec_pos() == old(self).spec_pos() + 1,
            t@ == old(self).toks()[old(self).spec_pos()],
    {
        proof {
            self.lemma_views();
        }
        let t = clone_token(&self.tokens[self.pos]);
        self.pos = self.pos + 1;
        t
    }

    #[verifier::spinoff_prover]
    #[verifier::rlimit(100)]
    fn primary(&mut self) -> (r: Option<Expr>)
        requires
            old(self).wf(),
        ensures
            final(self).wf(),
            final(self).tokens == old(self).tokens,
            final(self).spec_pos() >= old(self).spec_pos(),
            ({
                let p = sp_primary(old(self).toks(), old(self).spec_pos());
                &&& opt_expr_view(r) == p.node
                &&& final(self).spec_pos() == p.next
                &&& final(self).spec_errors() == old(self).spec_errors() + p.errs
            }),
        decreases old(self).toks().len() - old(self).spec_pos(), 0int,
    {
        broadcast use lemma_err_add_assoc, Seq::<ParseError>::add_empty_right, Seq::<ParseError>::add_empty_left;

        reveal(sp_primary);
        proof {
            self.lemma_views();
        }
        proof {
            self.lemma_views();
        }
        if self.pos >= self.tokens.len() {
            let line = self.cur_line();
            self.push_err(ParseErrorKind::ExpectedExpression, line);
            return None;
        }
        let t_type = self.tokens[self.pos].t_type;
        match t_type {
            TokenType::Identifier => {
                let t = self.take_token();
                Some(Expr::Var(Var { name: t }))
            },
            TokenType::Number | TokenType::String | TokenType::False | TokenType::True
                | TokenType::Nil => {
                let t = self.take_token();
                Some(Expr::Literal(Literal { token: t }))
            },
            TokenType::LeftParen => {
                self.pos = self.pos + 1;
                let inner = self.expression();
                match inner {
                    None => None,
                    Some(x) => {
                        if self.peek_is(TokenType::RightParen) {
                            self.pos = self.pos + 1;
                            Some(Expr::Grouping(Grouping { expr: Box::new(x) }))
                        } else {
                            let line = self.cur_line();
                            self.push_err(
                                ParseErrorKind::Missing(TokenType::RightParen),
                                line,
                            );
                            None
                        }
                    },
                }
            },
            _ => {
                let line = self.tokens[self.pos].line;
                self.push_err(ParseErrorKind::ExpectedExpression, line);
                None
            },
        }
    }

    #[verifier::spinoff_prover]
    #[verifier::rlimit(100)]
    fn unary(&mut self) -> (r: Option<Expr>)
        requires
            old(self).wf(),
        ensures
            final(self).wf(),
            final(self).tokens == old(self).tokens,
            final(self).spec_pos() >= old(self).spec_pos(),
            ({
                let p = sp_unary(old(self).toks(), old(self).spec_pos());
                &&& opt_expr_view(r) == p.node
                &&& final(self).spec_pos() == p.next
                &&& final(self).spec_errors() == old(self).spec_errors() + p.errs
            }),
        decreases old(self).toks().len() - old(self).spec_pos(), 1int,
    {
        reveal(sp_unary);
        proof {
            self.lemma_views();
        }
        if self.peek_is(TokenType::Bang) || self.peek_is(TokenType::Minus) {
            let ghost toksg = old(self).toks();
            let ghost j = old(self).spec_pos();
            let op = self.take_token();
            let sub = self.unary();
            match sub {
                None => {
                    proof {
                        let ss = sp_unary(toksg, j + 1);
                        assert(sp_unary(toksg, j).node is None);
                        assert(sp_unary(toksg, j).next == ss.next);
                        assert(sp_unary(toksg, j).errs == ss.errs);
                    }
                    None
                },
                Some(x) => {
                    let ghost xv = x@;
                    let ghost opv = op@;
                    let node = Expr::Unary(Unary { expr: Box::new(x), operator: op });
                    proof {
                        let ss = sp_unary(toksg, j + 1);
                        assert(node@ == (SpecExpr::Unary { operator: opv, expr: Box::new(xv) }));
                        assert(sp_unary(toksg, j).node == Some(node@));
                        assert(sp_unary(toksg, j).next == ss.next);
                        assert(sp_unary(toksg, j).errs == ss.errs);
                    }
                    Some(node)
                },
            }
        } else {
            self.primary()
        }
    }

    #[verifier::spinoff_prover]
    #[verifier::rlimit(100)]
    fn mult_tail(&mut self, left: Expr) -> (r: Option<Expr>)
        requires
            old(self).wf(),
        ensures
            final(self).wf(),
            final(self).tokens == old(self).tokens,
            final(self).spec_pos() >= old(self).spec_pos(),
            ({
                let p = sp_mult_tail(old(self).toks(), old(self).spec_pos(), left@);
                &&& opt_expr_view(r) == p.node
                &&& final(self).spec_pos() == p.next
                &&& final(self).spec_errors() == old(self).spec_errors() + p.errs
            }),
        decreases old(self).toks().len() - old(self).spec_pos(), 2int,
    {
        let ghost toksg = old(self).toks();
        let ghost j = old(self).spec_pos();
        let ghost leftv = left@;
        proof {
            self.lemma_views();
            lemma_mult_tail_cases(toksg, j, leftv);
        }
        if self.peek_is(TokenType::Star) || self.peek_is(TokenType::Slash) {
            let ghost e0 = self.spec_errors();
            let op = self.take_token();
            let right = self.unary();
            match right {
                None => None,
                Some(rx) => {
                    let ghost rxv = rx@;
                    let ghost opv = op@;
                    let node = Expr::Binary(
                        Binary { left: Box::new(left), right: Box::new(rx), operator: op },
                    );
                    let ghost nodev = node@;
                    proof {
                        assert(nodev == (SpecExpr::Binary {
                            left: Box::new(leftv),
                            right: Box::new(rxv),
                            operator: opv,
                        }));
                    }
                    let r2 = self.mult_tail(node);
                    proof {
                        let rs = sp_unary(toksg, j + 1);
                        let pr = sp_mult_tail(toksg, rs.next, nodev);
                        assert(self.spec_errors() =~= e0 + (rs.errs + pr.errs));
                    }
                    r2
                },
            }
        } else {
            proof {
                assert(old(self).spec_errors() + Seq::<ParseError>::empty() =~= old(
                    self,
                ).spec_errors());
            }
            Some(left)
        }
    }

    #[verifier::spinoff_prover]
    #[verifier::rlimit(100)]
    fn multiplication(&mut self) -> (r: Option<Expr>)
        requires
            old(self).wf(),
        ensures
            final(self).wf(),
            final(self).tokens == old(self).tokens,
            final(self).spec_pos() >= old(self).spec_pos(),
            ({
                let p = sp_mult(old(self).toks(), old(self).spec_pos());
                &&& opt_expr_view(r) == p.node
                &&& final(self).spec_pos() == p.next
                &&& final(self).spec_errors() == old(self).spec_errors() + p.errs
            }),
        decreases old(self).toks().len() - old(self).spec_pos(), 3int,
    {
        broadcast use lemma_err_add_assoc, Seq::<ParseError>::add_empty_right, Seq::<ParseError>::add_empty_left;

        reveal(sp_mult);
        proof {
            self.lemma_views();
        }
        let first = self.unary();
        match first {
            None => None,
            Some(x) => self.mult_tail(x),
        }
    }

    #[verifier::spinoff_prover]
    #[verifier::rlimit(100)]
    fn add_tail(&mut self, left: Expr) -> (r: Option<Expr>)
        requires
            old(self).wf(),
        ensures
            final(self).wf(),
            final(self).tokens == old(self).tokens,
            final(self).spec_pos() >= old(self).spec_pos(),
            ({
                let p = sp_add_tail(old(self).toks(), old(self).spec_pos(), left@);
                &&& opt_expr_view(r) == p.node
                &&& final(self).spec_pos() == p.next
                &&& final(self).spec_errors() == old(self).spec_errors() + p.errs
            }),
        decreases old(self).toks().len() - old(self).spec_pos(), 4int,
    {
        let ghost toksg = old(self).toks();
        let ghost j = old(self).spec_pos();
        let ghost leftv = left@;
        proof {
            self.lemma_views();
            lemma_add_tail_cases(toksg, j, leftv);
        }
        if self.peek_is(TokenType::Plus) || self.peek_is(TokenType::Minus) {
            let ghost e0 = self.spec_errors();
            let op = self.take_token();
            let right = self.multiplication();
            match right {
                None => None,
                Some(rx) => {
                    let ghost rxv = rx@;
                    let ghost opv = op@;
                    let node = Expr::Binary(
                        Binary { left: Box::new(left), right: Box::new(rx), operator: op },
                    );
                    let ghost nodev = node@;
                    proof {
                        assert(nodev == (SpecExpr::Binary {
                            left: Box::new(leftv),
                            right: Box::new(rxv),
                            operator: opv,
                        }));
                    }
                    let r2 = self.add_tail(node);
                    proof {
                        let rs = sp_mult(toksg, j + 1);
                        let pr = sp_add_tail(toksg, rs.next, nodev);
                        assert(self.spec_errors() =~= e0 + (rs.errs + pr.errs));
                    }
                    r2
                },
            }
        } else {
            proof {
                assert(old(self).spec_errors() + Seq::<ParseError>::empty() =~= old(
                    self,
                ).spec_errors());
            }
            Some(left)
        }
    }

    #[verifier::spinoff_prover]
    #[verifier::rlimit(100)]
    fn addition(&mut self) -> (r: Option<Expr>)
        requires
            old(self).wf(),
        ensures
            final(self).wf(),
            final(self).tokens == old(self).tokens,
            final(self).spec_pos() >= old(self).spec_pos(),
            ({
                let p = sp_add(old(self).toks(), old(self).spec_pos());
                &&& opt_expr_view(r) == p.node
                &&& final(self).spec_pos() == p.next
                &&& final(self).spec_errors() == old(self).spec_errors() + p.errs
            }),
        decreases old(self).toks().len() - old(self).spec_pos(), 5int,
    {
        broadcast use lemma_err_add_assoc, Seq::<ParseError>::add_empty_right, Seq::<ParseError>::add_empty_left;

        reveal(sp_add);
        proof {
            self.lemma_views();
        }
        let first = self.multiplication();
        match first {
            None => None,
            Some(x) => self.add_tail(x),
        }
    }

    #[verifier::spinoff_prover]
    #[verifier::rlimit(100)]
    fn cmp_tail(&mut self, left: Expr) -> (r: Option<Expr>)
        requires
            old(self).wf(),
        ensures
            final(self).wf(),
            final(self).tokens == old(self).tokens,
            final(self).spec_pos() >= old(self).spec_pos(),
            ({
                let p = sp_cmp_tail(old(self).toks(), old(self).spec_pos(), left@);
                &&& opt_expr_view(r) == p.node
                &&& final(self).spec_pos() == p.next
                &&& final(self).spec_errors() == old(self).spec_errors() + p.errs
            }),
        decreases old(self).toks().len() - old(self).spec_pos(), 6int,
    {
        let ghost toksg = old(self).toks();
        let ghost j = old(self).spec_pos();
        let ghost leftv = left@;
        proof {
            self.lemma_views();
            lemma_cmp_tail_cases(toksg, j, leftv);
        }
        if self.peek_is(TokenType::Greater) || self.peek_is(TokenType::GreaterEqual) || self.peek_is(TokenType::Less) || self.peek_is(TokenType::LessEqual) {
            let ghost e0 = self.spec_errors();
            let op = self.take_token();
            let right = self.addition();
            match right {
                None => None,
                Some(rx) => {
                    let ghost rxv = rx@;
                    let ghost opv = op@;
                    let node = Expr::Binary(
                        Binary { left: Box::new(left), right: Box::new(rx), operator: op },
                    );
                    let ghost nodev = node@;
                    proof {
                        assert(nodev == (SpecExpr::Binary {
                            left: Box::new(leftv),
                            right: Box::new(rxv),
                            operator: opv,
                        }));
                    }
                    let r2 = self.cmp_tail(node);
                    proof {
                        let rs = sp_add(toksg, j + 1);
                        let pr = sp_cmp_tail(toksg, rs.next, nodev);
                        assert(self.spec_errors() =~= e0 + (rs.errs + pr.errs));
                    }
                    r2
                },
            }
        } else {
            proof {
                assert(old(self).spec_errors() + Seq::<ParseError>::empty() =~= old(
                    self,
                ).spec_errors());
            }
            Some(left)
        }
    }

    #[verifier::spinoff_prover]
    #[verifier::rlimit(100)]
    fn comparison(&mut self) -> (r: Option<Expr>)
        requires
            old(self).wf(),
        ensures
            final(self).wf(),
            final(self).tokens == old(self).tokens,
            final(self).spec_pos() >= old(self).spec_pos(),
            ({
                let p = sp_cmp(old(self).toks(), old(self).spec_pos());
                &&& opt_expr_view(r) == p.node
                &&& final(self).spec_pos() == p.next
                &&& final(self).spec_errors() == old(self).spec_errors() + p.errs
            }),
        decreases old(self).toks().len() - old(self).spec_pos(), 7int,
    {
        broadcast use lemma_err_add_assoc, Seq::<ParseError>::add_empty_right, Seq::<ParseError>::add_empty_left;

        reveal(sp_cmp);
        proof {
            self.lemma_views();
        }
        let first = self.addition();
        match first {
            None => None,
            Some(x) => self.cmp_tail(x),
        }
    }

    #[verifier::spinoff_prover]
    #[verifier::rlimit(100)]
    fn eq_tail(&mut self, left: Expr) -> (r: Option<Expr>)
        requires
            old(self).wf(),
        ensures
            final(self).wf(),
            final(self).tokens == old(self).tokens,
            final(self).spec_pos() >= old(self).spec_pos(),
            ({
                let p = sp_eq_tail(old(self).toks(), old(self).spec_pos(), left@);
                &&& opt_expr_view(r) == p.node
                &&& final(self).spec_pos() == p.next
                &&& final(self).spec_errors() == old(self).spec_errors() + p.errs
            }),
        decreases old(self).toks().len() - old(self).spec_pos(), 8int,
    {
        let ghost toksg = old(self).toks();
        let ghost j = old(self).spec_pos();
        let ghost leftv = left@;
        proof {
            self.lemma_views();
            lemma_eq_tail_cases(toksg, j, leftv);
        }
        if self.peek_is(TokenType::EqualEqual) || self.peek_is(TokenType::BangEqual) {
            let ghost e0 = self.spec_errors();
            let op = self.take_token();
            let right = self.comparison();
            match right {
                None => None,
                Some(rx) => {
                    let ghost rxv = rx@;
                    let ghost opv = op@;
                    let node = Expr::Binary(
                        Binary { left: Box::new(left), right: Box::new(rx), operator: op },
                    );
                    let ghost nodev = node@;
                    proof {
                        assert(nodev == (SpecExpr::Binary {
                            left: Box::new(leftv),
                            right: Box::new(rxv),
                            operator: opv,
                        }));
                    }
                    let r2 = self.eq_tail(node);
                    proof {
                        let rs = sp_cmp(toksg, j + 1);
                        let pr = sp_eq_tail(toksg, rs.next, nodev);
                        assert(self.spec_errors() =~= e0 + (rs.errs + pr.errs));
                    }
                    r2
                },
            }
        } else {
            proof {
                assert(old(self).spec_errors() + Seq::<ParseError>::empty() =~= old(
                    self,
                ).spec_errors());
            }
            Some(left)
        }
    }

    #[verifier::spinoff_prover]
    #[verifier::rlimit(100)]
    fn equality(&mut self) -> (r: Option<Expr>)
        requires
            old(self).wf(),
        ensures
            final(self).wf(),
            final(self).tokens == old(self).tokens,
            final(self).spec_pos() >= old(self).spec_pos(),
            ({
                let p = sp_eq(old(self).toks(), old(self).spec_pos());
                &&& opt_expr_view(r) == p.node
                &&& final(self).spec_pos() == p.next
                &&& final(self).spec_errors() == old(self).spec_errors() + p.errs
            }),
        decreases old(self).toks().len() - old(self).spec_pos(), 9int,
    {
        broadcast use lemma_err_add_assoc, Seq::<ParseError>::add_empty_right, Seq::<ParseError>::add_empty_left;

        reveal(sp_eq);
        proof {
            self.lemma_views();
        }
        let first = self.comparison();
        match first {
            None => None,
            Some(x) => self.eq_tail(x),
        }
    }

    #[verifier::spinoff_prover]
    #[verifier::rlimit(100)]
    fn and_tail(&mut self, left: Expr) -> (r: Option<Expr>)
        requires
            old(self).wf(),
        ensures
            final(self).wf(),
            final(self).tokens == old(self).tokens,
            final(self).spec_pos() >= old(self).spec_pos(),
            ({
                let p = sp_and_tail(old(self).toks(), old(self).spec_pos(), left@);
                &&& opt_expr_view(r) == p.node
                &&& final(self).spec_pos() == p.next
                &&& final(self).spec_errors() == old(self).spec_errors() + p.errs
            }),
        decreases old(self).toks().len() - old(self).spec_pos(), 10int,
    {
        let ghost toksg = old(self).toks();
        let ghost j = old(self).spec_pos();
        let ghost leftv = left@;
        proof {
            self.lemma_views();
            lemma_and_tail_cases(toksg, j, leftv);
        }
        if self.peek_is(TokenType::And) {
            let ghost e0 = self.spec_errors();
            let op = self.take_token();
            let right = self.equality();
            match right {
                None => None,
                Some(rx) => {
                    let ghost rxv = rx@;
                    let ghost opv = op@;
                    let node = Expr::Logical(
                        Logical { left: Box::new(left), right: Box::new(rx), operator: op },
                    );
                    let ghost nodev = node@;
                    proof {
                        assert(nodev == (SpecExpr::Logical {
                            left: Box::new(leftv),
                            right: Box::new(rxv),
                            operator: opv,
                        }));
                    }
                    let r2 = self.and_tail(node);
                    proof {
                        let rs = sp_eq(toksg, j + 1);
                        let pr = sp_and_tail(toksg, rs.next, nodev);
                        assert(self.spec_errors() =~= e0 + (rs.errs + pr.errs));
                    }
                    r2
                },
            }
        } else {
            proof {
                assert(old(self).spec_errors() + Seq::<ParseError>::empty() =~= old(
                    self,
                ).spec_errors());
            }
            Some(left)
        }
    }

    #[verifier::spinoff_prover]
    #[verifier::rlimit(100)]
    fn logic_and(&mut self) -> (r: Option<Expr>)
        requires
            old(self).wf(),
        ensures
            final(self).wf(),
            final(self).tokens == old(self).tokens,
            final(self).spec_pos() >= old(self).spec_pos(),
            ({
                let p = sp_and(old(self).toks(), old(self).spec_pos());
                &&& opt_expr_view(r) == p.node
                &&& final(self).spec_pos() == p.next
                &&& final(self).spec_errors() == old(self).spec_errors() + p.errs
            }),
        decreases old(self).toks().len() - old(self).spec_pos(), 11int,
    {
        broadcast use lemma_err_add_assoc, Seq::<ParseError>::add_empty_right, Seq::<ParseError>::add_empty_left;

        reveal(sp_and);
        proof {
            self.lemma_views();
        }
        let first = self.equality();
        match first {
            None => None,
            Some(x) => self.and_tail(x),
        }
    }

    #[verifier::spinoff_prover]
    #[verifier::rlimit(100)]
    fn or_tail(&mut self, left: Expr) -> (r: Option<Expr>)
        requires
            old(self).wf(),
        ensures
            final(self).wf(),
            final(self).tokens == old(self).tokens,
            final(self).spec_pos() >= old(self).spec_pos(),
            ({
                let p = sp_or_tail(old(self).toks(), old(self).spec_pos(), left@);
                &&& opt_expr_view(r) == p.node
                &&& final(self).spec_pos() == p.next
                &&& final(self).spec_errors() == old(self).spec_errors() + p.errs
            }),
        decreases old(self).toks().len() - old(self).spec_pos(), 12int,
    {
        let ghost toksg = old(self).toks();
        let ghost j = old(self).spec_pos();
        let ghost leftv = left@;
        proof {
            self.lemma_views();
            lemma_or_tail_cases(toksg, j, leftv);
        }
        if self.peek_is(TokenType::Or) {
            let ghost e0 = self.spec_errors();
            let op = self.take_token();
            let right = self.logic_and();
            match right {
                None => None,
                Some(rx) => {
                    let ghost rxv = rx@;
                    let ghost opv = op@;
                    let node = Expr::Logical(
                        Logical { left: Box::new(left), right: Box::new(rx), operator: op },
                    );
                    let ghost nodev = node@;
                    proof {
                        assert(nodev == (SpecExpr::Logical {
                            left: Box::new(leftv),
                            right: Box::new(rxv),
                            operator: opv,
                        }));
                    }
                    let r2 = self.or_tail(node);
                    proof {
                        let rs = sp_and(toksg, j + 1);
                        let pr = sp_or_tail(toksg, rs.next, nodev);
                        assert(self.spec_errors() =~= e0 + (rs.errs + pr.errs));
                    }
                    r2
                },
            }
        } else {
            proof {
                assert(old(self).spec_errors() + Seq::<ParseError>::empty() =~= old(
                    self,
                ).spec_errors());
            }
            Some(left)
        }
    }

    #[verifier::spinoff_prover]
    #[verifier::rlimit(100)]
    fn logic_or(&mut self) -> (r: Option<Expr>)
        requires
            old(self).wf(),
        ensures
            final(self).wf(),
            final(self).tokens == old(self).tokens,
            final(self).spec_pos() >= old(self).spec_pos(),
            ({
                let p = sp_or(old(self).toks(), old(self).spec_pos());
                &&& opt_expr_view(r) == p.node
                &&& final(self).spec_pos() == p.next
                &&& final(self).spec_errors() == old(self).spec_errors() + p.errs
            }),
        decreases old(self).toks().len() - old(self).spec_pos(), 13int,
    {
        broadcast use lemma_err_add_assoc, Seq::<ParseError>::add_empty_right, Seq::<ParseError>::add_empty_left;

        reveal(sp_or);
        proof {
            self.lemma_views();
        }
        let first = self.logic_and();
        match first {
            None => None,
            Some(x) => self.or_tail(x),
        }
    }

    #[verifier::spinoff_prover]
    #[verifier::rlimit(100)]
    fn assignment(&mut self) -> (r: Option<Expr>)
        requires
            old(self).wf(),
        ensures
            final(self).wf(),
            final(self).tokens == old(self).tokens,
            final(self).spec_pos() >= old(self).spec_pos(),
            ({
                let p = sp_assign(old(self).toks(), old(self).spec_pos());
                &&& opt_expr_view(r) == p.node
                &&& final(self).spec_pos() == p.next
                &&& final(self).spec_errors() == old(self).spec_errors() + p.errs
            }),
        decreases old(self).toks().len() - old(self).spec_pos(), 14int,
    {
        broadcast use lemma_err_add_assoc, Seq::<ParseError>::add_empty_right, Seq::<ParseError>::add_empty_left;

        reveal(sp_assign);
        proof {
            self.lemma_views();
        }
        proof {
            self.lemma_views();
        }
        let lhs = self.logic_or();
        match lhs {
            None => None,
            Some(lx) => {
                if self.peek_is(TokenType::Equal) {
                    let eq_line = self.tokens[self.pos].line;
                    proof {
                        self.lemma_views();
                    }
                    self.pos = self.pos + 1;
                    let rhs = self.assignment();
                    match rhs {
                        None => None,
                        Some(rx) => match lx {
                            Expr::Var(v) => Some(
                                Expr::Assignment(
                                    Assignment { name: v.name, value: Box::new(rx) },
                                ),
                            ),
                            _ => {
                                self.push_err(
                                    ParseErrorKind::InvalidAssignmentTarget,
                                    eq_line,
                                );
                                None
                            },
                        },
                    }
                } else {
                    Some(lx)
                }
            },
        }
    }

    #[verifier::spinoff_prover]
    #[verifier::rlimit(100)]
    fn expression(&mut self) -> (r: Option<Expr>)
        requires
            old(self).wf(),
        ensures
            final(self).wf(),
            final(self).tokens == old(self).tokens,
            final(self).spec_pos() >= old(self).spec_pos(),
            ({
                let p = sp_expression(old(self).toks(), old(self).spec_pos());
                &&& opt_expr_view(r) == p.node
                &&& final(self).spec_pos() == p.next
                &&& final(self).spec_errors() == old(self).spec_errors() + p.errs
            }),
        decreases old(self).toks().len() - old(self).spec_pos(), 15int,
    {
        broadcast use lemma_err_add_assoc, Seq::<ParseError>::add_empty_right, Seq::<ParseError>::add_empty_left;

        reveal(sp_expression);
        proof {
            self.lemma_views();
        }
        self.assignment()
    }

    #[verifier::spinoff_prover]
    #[verifier::rlimit(100)]
    fn stmt_expr(&mut self) -> (r: Option<Stmt>)
        requires
            old(self).wf(),
        ensures
            final(self).wf(),
            final(self).tokens == old(self).tokens,
            final(self).spec_pos() >= old(self).spec_pos(),
            r is Some ==> final(self).spec_pos() > old(self).spec_pos(),
            ({
                let p = sp_expr_stmt(old(self).toks(), old(self).spec_pos());
                &&& opt_stmt_view(r) == p.node
                &&& final(self).spec_pos() == p.next
                &&& final(self).spec_errors() == old(self).spec_errors() + p.errs
            }),
        decreases old(self).toks().len() - old(self).spec_pos(), 16int,
    {
        reveal(sp_expr_stmt);
        proof {
            self.lemma_views();
        }
        let e = self.expression();
        match e {
            None => None,
            Some(x) => {
                if self.peek_is(TokenType::Semicolon) {
                    proof {
                        self.lemma_views();
                    }
                    self.pos = self.pos + 1;
                    Some(Stmt::Expr(x))
                } else {
                    let line = self.cur_line();
                    self.push_err(ParseErrorKind::Missing(TokenType::Semicolon), line);
                    proof {
                        lemma_assoc(
                            old(self).spec_errors(),
                            sp_expression(old(self).toks(), old(self).spec_pos()).errs,
                            seq![
                                ParseError {
                                    kind: ParseErrorKind::Missing(TokenType::Semicolon),
                                    line,
                                },
                            ],
                        );
                    }
                    None
                }
            },
        }
    }

    #[verifier::spinoff_prover]
    #[verifier::rlimit(100)]
    fn print_statement(&mut self) -> (r: Option<Stmt>)
        requires
            old(self).wf(),
        ensures
            final(self).wf(),
            final(self).tokens == old(self).tokens,
            final(self).spec_pos() >= old(self).spec_pos(),
            ({
                let p = sp_print_stmt(old(self).toks(), old(self).spec_pos());
                &&& opt_stmt_view(r) == p.node
                &&& final(self).spec_pos() == p.next
                &&& final(self).spec_errors() == old(self).spec_errors() + p.errs
            }),
        decreases old(self).toks().len() - old(self).spec_pos(), 16int,
    {
        reveal(sp_print_stmt);
        proof {
            self.lemma_views();
        }
        let e = self.expression();
        match e {
            None => None,
            Some(x) => {
                if self.peek_is(TokenType::Semicolon) {
                    proof {
                        self.lemma_views();
                    }
                    self.pos = self.pos + 1;
                    Some(Stmt::Print(x))
                } else {
                    let line = self.cur_line();
                    self.push_err(ParseErrorKind::Missing(TokenType::Semicolon), line);
                    proof {
                        lemma_assoc(
                            old(self).spec_errors(),
                            sp_expression(old(self).toks(), old(self).spec_pos()).errs,
                            seq![
                                ParseError {
                                    kind: ParseErrorKind::Missing(TokenType::Semicolon),
                                    line,
                                },
                            ],
                        );
                    }
                    None
                }
            },
        }
    }

    #[verifier::spinoff_prover]
    #[verifier::rlimit(100)]
    fn variable_declaration(&mut self) -> (r: Option<Stmt>)
        requires
            old(self).wf(),
        ensures
            final(self).wf(),
            final(self).tokens == old(self).tokens,
            final(self).spec_pos() >= old(self).spec_pos(),
            ({
                let p = sp_var_decl(old(self).toks(), old(self).spec_pos());
                &&& opt_stmt_view(r) == p.node
                &&& final(self).spec_pos() == p.next
                &&& final(self).spec_errors() == old(self).spec_errors() + p.errs
            }),
        decreases old(self).toks().len() - old(self).spec_pos(), 16int,
    {
        broadcast use lemma_err_add_assoc, Seq::<ParseError>::add_empty_right, Seq::<ParseError>::add_empty_left;

        reveal(sp_var_decl);
        proof {
            self.lemma_views();
        }
        if !self.peek_is(TokenType::Identifier) {
            let line = self.cur_line();
            self.push_err(ParseErrorKind::ExpectedVariableName, line);
            return None;
        }
        let name_tok = self.take_token();
        if self.peek_is(TokenType::Semicolon) {
            proof {
                self.lemma_views();
            }
            self.pos = self.pos + 1;
            let token = Token::new(
                TokenType::Nil,
                String::new(),
                crate::token::Literal::Nil,
                name_tok.line,
            );
            let value = Expr::Literal(Literal { token });
            Some(Stmt::Declaration(crate::stmt::Var { value, name: name_tok.lexeme }))
        } else if self.peek_is(TokenType::Equal) {
            proof {
                self.lemma_views();
            }
            self.pos = self.pos + 1;
            let e = self.expression();
            match e {
                None => None,
                Some(x) => {
                    if self.peek_is(TokenType::Semicolon) {
                        proof {
                            self.lemma_views();
                        }
                        self.pos = self.pos + 1;
                        Some(Stmt::Declaration(crate::stmt::Var { value: x, name: name_tok.lexeme }))
                    } else {
                        let line = self.cur_line();
                        self.push_err(
                            ParseErrorKind::Missing(TokenType::Semicolon),
                            line,
                        );
                        None
                    }
                },
            }
        } else {
            let line = self.cur_line();
            self.push_err(ParseErrorKind::Missing(TokenType::Equal), line);
            None
        }
    }

    /// Skip to the next statement boundary after a malformed statement.
    #[verifier::spinoff_prover]
    #[verifier::rlimit(100)]
    fn sync_scan(&mut self)
        requires
            old(self).wf(),
        ensures
            final(self).wf(),
            final(self).tokens == old(self).tokens,
            final(self).spec_errors() == old(self).spec_errors(),
            final(self).spec_pos() == sp_sync(old(self).toks(), old(self).spec_pos()),
            final(self).spec_pos() >= old(self).spec_pos(),
        decreases old(self).toks().len() - old(self).spec_pos(),
    {
        broadcast use lemma_err_add_assoc, Seq::<ParseError>::add_empty_right, Seq::<ParseError>::add_empty_left;

        reveal_with_fuel(sp_sync, 2);
        proof {
            self.lemma_views();
        }
        proof {
            self.lemma_views();
        }
        if self.is_at_end() {
            return;
        }
        let t = self.tokens[self.pos].t_type;
        if t == TokenType::Semicolon {
            proof {
                self.lemma_views();
            }
            self.pos = self.pos + 1;
            return;
        }
        if t == TokenType::Var || t == TokenType::For || t == TokenType::If
            || t == TokenType::While || t == TokenType::Print || t == TokenType::LeftBrace
            || t == TokenType::RightBrace {
            return;
        }
        proof {
            self.lemma_views();
        }
        self.pos = self.pos + 1;
        self.sync_scan();
    }

    #[verifier::spinoff_prover]
    #[verifier::rlimit(100)]
    fn block_items(&mut self) -> (r: Option<Vec<Stmt>>)
        requires
            old(self).wf(),
        ensures
            final(self).wf(),
            final(self).tokens == old(self).tokens,
            final(self).spec_pos() >= old(self).spec_pos(),
            ({
                let b = sp_block_items(old(self).toks(), old(self).spec_pos());
                &&& (match r {
                    Some(v) => b.0 == Some(spec_stmts_view(v@)),
                    None => b.0 is None,
                })
                &&& final(self).spec_pos() == b.1
                &&& final(self).spec_errors() == old(self).spec_errors() + b.2
            }),
        decreases old(self).toks().len() - old(self).spec_pos(), 20int,
    {
        broadcast use lemma_err_add_assoc, Seq::<ParseError>::add_empty_right, Seq::<ParseError>::add_empty_left;

        reveal_with_fuel(sp_block_items, 2);
        proof {
            self.lemma_views();
        }
        if self.is_at_end() {
            let line = self.cur_line();
            self.push_err(ParseErrorKind::UnterminatedBlock, line);
            return None;
        }
        if self.peek_is(TokenType::RightBrace) {
            proof {
                self.lemma_views();
            }
            self.pos = self.pos + 1;
            let empty: Vec<Stmt> = Vec::new();
            proof {
                assert(spec_stmts_view(empty@) =~= Seq::<SpecStmt>::empty());
            }
            return Some(empty);
        }
        let s = self.next_stmt();
        let rest = self.block_items();
        match s {
            Some(x) => match rest {
                Some(mut ss) => {
                    let ghost ssv0 = ss@;
                    proof {
                        lemma_spec_stmts_view(ssv0);
                    }
                    ss.insert(0, x);
                    proof {
                        lemma_spec_stmts_view(ss@);
                        assert(ss@[0] == x);
                        assert(ss@.drop_first() =~= ssv0);
                        assert(spec_stmts_view(ss@) =~= seq![x@] + spec_stmts_view(ssv0));
                    }
                    Some(ss)
                },
                None => None,
            },
            None => rest,
        }
    }

    #[verifier::spinoff_prover]
    #[verifier::rlimit(100)]
    fn if_statement(&mut self) -> (r: Option<Stmt>)
        requires
            old(self).wf(),
        ensures
            final(self).wf(),
            final(self).tokens == old(self).tokens,
            final(self).spec_pos() >= old(self).spec_pos(),
            ({
                let p = sp_if(old(self).toks(), old(self).spec_pos());
                &&& opt_stmt_view(r) == p.node
                &&& final(self).spec_pos() == p.next
                &&& final(self).spec_errors() == old(self).spec_errors() + p.errs
            }),
        decreases old(self).toks().len() - old(self).spec_pos(), 16int,
    {
        broadcast use lemma_err_add_assoc, Seq::<ParseError>::add_empty_right, Seq::<ParseError>::add_empty_left;

        reveal(sp_if);
        proof {
            self.lemma_views();
        }
        if !self.peek_is(TokenType::LeftParen) {
            let line = self.cur_line();
            self.push_err(ParseErrorKind::Missing(TokenType::LeftParen), line);
            return None;
        }
        proof {
            self.lemma_views();
        }
        self.pos = self.pos + 1;
        let c = self.expression();
        match c {
            None => None,
            Some(cond) => {
                if !self.peek_is(TokenType::RightParen) {
                    let line = self.cur_line();
                    self.push_err(ParseErrorKind::Missing(TokenType::RightParen), line);
                    return None;
                }
                proof {
                    self.lemma_views();
                }
                self.pos = self.pos + 1;
                let tb = self.next_stmt();
                match tb {
                    None => None,
                    Some(tbx) => {
                        if self.peek_is(TokenType::Else) {
                            proof {
                                self.lemma_views();
                            }
                            self.pos = self.pos + 1;
                            let eb = self.next_stmt();
                            match eb {
                                None => None,
                                Some(ebx) => Some(
                                    Stmt::If(
                                        IfStmt {
                                            truth_branch: Box::new(tbx),
                                            false_branch: Box::new(Some(ebx)),
                                            condition: cond,
                                        },
                                    ),
                                ),
                            }
                        } else {
                            Some(
                                Stmt::If(
                                    IfStmt {
                                        truth_branch: Box::new(tbx),
                                        false_branch: Box::new(None),
                                        condition: cond,
                                    },
                                ),
                            )
                        }
                    },
                }
            },
        }
    }

    #[verifier::spinoff_prover]
    #[verifier::rlimit(100)]
    fn while_statement(&mut self) -> (r: Option<Stmt>)
        requires
            old(self).wf(),
        ensures
            final(self).wf(),
            final(self).tokens == old(self).tokens,
            final(self).spec_pos() >= old(self).spec_pos(),
            ({
                let p = sp_while(old(self).toks(), old(self).spec_pos());
                &&& opt_stmt_view(r) == p.node
                &&& final(self).spec_pos() == p.next
                &&& final(self).spec_errors() == old(self).spec_errors() + p.errs
            }),
        decreases old(self).toks().len() - old(self).spec_pos(), 16int,
    {
        broadcast use lemma_err_add_assoc, Seq::<ParseError>::add_empty_right, Seq::<ParseError>::add_empty_left;

        reveal(sp_while);
        proof {
            self.lemma_views();
        }
        if !self.peek_is(TokenType::LeftParen) {
            let line = self.cur_line();
            self.push_err(ParseErrorKind::Missing(TokenType::LeftParen), line);
            return None;
        }
        proof {
            self.lemma_views();
        }
        self.pos = self.pos + 1;
        let c = self.expression();
        match c {
            None => None,
            Some(cond) => {
                if !self.peek_is(TokenType::RightParen) {
                    let line = self.cur_line();
                    self.push_err(ParseErrorKind::Missing(TokenType::RightParen), line);
                    return None;
                }
                proof {
                    self.lemma_views();
                }
                self.pos = self.pos + 1;
                if !self.peek_is(TokenType::LeftBrace) {
                    let line = self.cur_line();
                    self.push_err(ParseErrorKind::Missing(TokenType::LeftBrace), line);
                    return None;
                }
                let body = self.next_stmt();
                match body {
                    None => None,
                    Some(bx) => Some(
                        Stmt::While(While { condition: cond, body: Box::new(bx) }),
                    ),
                }
            },
        }
    }


    #[verifier::spinoff_prover]
    #[verifier::rlimit(100)]
    fn for_statement(&mut self) -> (r: Option<Stmt>)
        requires
            old(self).wf(),
        ensures
            final(self).wf(),
            final(self).tokens == old(self).tokens,
            final(self).spec_pos() >= old(self).spec_pos(),
            ({
                let p = sp_for(old(self).toks(), old(self).spec_pos());
                &&& opt_stmt_view(r) == p.node
                &&& final(self).spec_pos() == p.next
                &&& final(self).spec_errors() == old(self).spec_errors() + p.errs
            }),
        decreases old(self).toks().len() - old(self).spec_pos(), 18int,
    {
        broadcast use lemma_err_add_assoc, Seq::<ParseError>::add_empty_right, Seq::<ParseError>::add_empty_left;

        reveal(sp_for);
        reveal(sp_for_tail);
        proof {
            self.lemma_views();
        }
        let ghost i = self.spec_pos();
        if !self.peek_is(TokenType::LeftParen) {
            let line = self.cur_line();
            self.push_err(ParseErrorKind::Missing(TokenType::LeftParen), line);
            return None;
        }
        self.pos = self.pos + 1;
        // Initializer clause.
        let mut init: Option<Stmt> = None;
        if self.peek_is(TokenType::Semicolon) {
            self.pos = self.pos + 1;
        } else if self.peek_is(TokenType::Var) {
            self.pos = self.pos + 1;
            match self.variable_declaration() {
                Some(s0) => {
                    init = Some(s0);
                },
                None => {
                    return None;
                },
            }
        } else {
            match self.stmt_expr() {
                Some(s0) => {
                    init = Some(s0);
                },
                None => {
                    return None;
                },
            }
        }
        self.for_tail(Ghost(i), init)
    }

    #[verifier::spinoff_prover]
    #[verifier::rlimit(100)]
    fn for_tail(&mut self, Ghost(i): Ghost<int>, init: Option<Stmt>) -> (r: Option<Stmt>)
        requires
            old(self).wf(),
            0 <= i < old(self).toks().len(),
            i < old(self).spec_pos() <= old(self).toks().len(),
        ensures
            final(self).wf(),
            final(self).tokens == old(self).tokens,
            final(self).spec_pos() >= old(self).spec_pos(),
            ({
                let p = sp_for_tail(old(self).toks(), i, old(self).spec_pos(), opt_stmt_view(init));
                &&& opt_stmt_view(r) == p.node
                &&& final(self).spec_pos() == p.next
                &&& final(self).spec_errors() == old(self).spec_errors() + p.errs
            }),
        decreases old(self).toks().len() - old(self).spec_pos(), 17int,
    {
        broadcast use lemma_err_add_assoc, Seq::<ParseError>::add_empty_right, Seq::<ParseError>::add_empty_left;

        reveal(sp_for_tail);
        reveal(sp_for_body);
        proof {
            self.lemma_views();
        }
        // Condition clause, up to its semicolon.
        let mut cond: Option<Expr> = None;
        if !self.peek_is(TokenType::Semicolon) {
            match self.expression() {
                None => {
                    return None;
                },
                Some(cx) => {
                    cond = Some(cx);
                },
            }
        }
        if !self.peek_is(TokenType::Semicolon) {
            let line = self.cur_line();
            self.push_err(ParseErrorKind::Missing(TokenType::Semicolon), line);
            return None;
        }
        proof {
            self.lemma_views();
        }
        self.pos = self.pos + 1;
        self.for_body(Ghost(i), init, cond)
    }

    #[verifier::spinoff_prover]
    #[verifier::rlimit(100)]
    fn for_body(&mut self, Ghost(i): Ghost<int>, init: Option<Stmt>, cond: Option<Expr>) -> (r:
        Option<Stmt>)
        requires
            old(self).wf(),
            0 <= i < old(self).toks().len(),
            i < old(self).spec_pos() <= old(self).toks().len(),
        ensures
            final(self).wf(),
            final(self).tokens == old(self).tokens,
            final(self).spec_pos() >= old(self).spec_pos(),
            ({
                let p = sp_for_body(
                    old(self).toks(),
                    i,
                    old(self).spec_pos(),
                    opt_stmt_view(init),
                    opt_expr_view(cond),
                );
                &&& opt_stmt_view(r) == p.node
                &&& final(self).spec_pos() == p.next
                &&& final(self).spec_errors() == old(self).spec_errors() + p.errs
            }),
        decreases old(self).toks().len() - old(self).spec_pos(), 16int,
    {
        broadcast use lemma_err_add_assoc, Seq::<ParseError>::add_empty_right, Seq::<ParseError>::add_empty_left;

        reveal(sp_for_body);
        proof {
            self.lemma_views();
        }
        // Increment clause.
        let mut incr: Option<Expr> = None;
        if !self.peek_is(TokenType::RightParen) {
            match self.expression() {
                None => {
                    return None;
                },
                Some(ix) => {
                    incr = Some(ix);
                },
            }
        }
        if !self.peek_is(TokenType::RightParen) {
            let line = self.cur_line();
            self.push_err(ParseErrorKind::Missing(TokenType::RightParen), line);
            return None;
        }
        proof {
            self.lemma_views();
        }
        let rp_line = self.tokens[self.pos].line;
        self.pos = self.pos + 1;
        // Body, then the desugared form.
        let body = match self.next_stmt() {
            None => {
                return None;
            },
            Some(b) => b,
        };
        let ghost bodyv = body@;
        let body2 = match incr {
            Some(ix) => {
                let ghost ixv = ix@;
                let incr_stmt = Stmt::Expr(ix);
                proof {
                    assert(incr_stmt@ == SpecStmt::Expr(ixv));
                }
                let mut v: Vec<Stmt> = Vec::new();
                v.push(body);
                v.push(incr_stmt);
                proof {
                    lemma_spec_stmts_view(v@);
                    assert(v@[0]@ == bodyv && v@[1]@ == SpecStmt::Expr(ixv));
                    assert(spec_stmts_view(v@) =~= seq![bodyv, SpecStmt::Expr(ixv)]);
                }
                Stmt::Block(Block { stmt_vec: v })
            },
            None => body,
        };
        let ghost body2v = body2@;
        let condition = match cond {
            Some(cx) => cx,
            None => {
                let token = Token::new(
                    TokenType::True,
                    String::from_str("true"),
                    crate::token::Literal::Boolean(true),
                    rp_line,
                );
                proof {
                    assert(token@ == true_token(rp_line));
                }
                Expr::Literal(Literal { token })
            },
        };
        let ghost condv = condition@;
        let w = Stmt::While(While { condition, body: Box::new(body2) });
        proof {
            assert(w@ == (SpecStmt::While { condition: condv, body: Box::new(body2v) }));
        }
        let ghost wv = w@;
        match init {
            Some(ixs) => {
                let ghost ixsv = ixs@;
                let mut v: Vec<Stmt> = Vec::new();
                v.push(ixs);
                v.push(w);
                proof {
                    lemma_spec_stmts_view(v@);
                    assert(v@[0]@ == ixsv && v@[1]@ == wv);
                    assert(spec_stmts_view(v@) =~= seq![ixsv, wv]);
                }
                Some(Stmt::Block(Block { stmt_vec: v }))
            },
            None => Some(w),
        }
    }

    #[verifier::spinoff_prover]
    #[verifier::rlimit(100)]
    fn next_stmt(&mut self) -> (r: Option<Stmt>)
        requires
            old(self).wf(),
        ensures
            final(self).wf(),
            final(self).tokens == old(self).tokens,
            final(self).spec_pos() >= old(self).spec_pos(),
            !at_end(old(self).toks(), old(self).spec_pos()) ==> final(self).spec_pos() > old(
                self,
            ).spec_pos(),
            ({
                let p = sp_next(old(self).toks(), old(self).spec_pos());
                &&& opt_stmt_view(r) == p.node
                &&& final(self).spec_pos() == p.next
                &&& final(self).spec_errors() == old(self).spec_errors() + p.errs
            }),
        decreases old(self).toks().len() - old(self).spec_pos(), 19int,
    {
        broadcast use lemma_err_add_assoc, Seq::<ParseError>::add_empty_right, Seq::<ParseError>::add_empty_left;

        reveal(sp_next);
        proof {
            self.lemma_views();
        }
        let start = self.pos;
        let r: Option<Stmt> = if self.peek_is(TokenType::Print) {
            proof {
                self.lemma_views();
            }
            self.pos = self.pos + 1;
            self.print_statement()
        } else if self.peek_is(TokenType::Var) {
            proof {
                self.lemma_views();
            }
            self.pos = self.pos + 1;
            self.variable_declaration()
        } else if self.peek_is(TokenType::LeftBrace) {
            proof {
                self.lemma_views();
            }
            self.pos = self.pos + 1;
            match self.block_items() {
                Some(v) => Some(Stmt::Block(Block { stmt_vec: v })),
                None => None,
            }
        } else if self.peek_is(TokenType::For) {
            proof {
                self.lemma_views();
            }
            self.pos = self.pos + 1;
            self.for_statement()
        } else if self.peek_is(TokenType::If) {
            proof {
                self.lemma_views();
            }
            self.pos = self.pos + 1;
            self.if_statement()
        } else if self.peek_is(TokenType::While) {
            proof {
                self.lemma_views();
            }
            self.pos = self.pos + 1;
            self.while_statement()
        } else {
            self.stmt_expr()
        };
        match r {
            Some(s) => Some(s),
            None => {
                if self.pos <= start {
                    if start < self.tokens.len() {
                        self.pos = start + 1;
                    } else {
                        self.pos = self.tokens.len();
                    }
                }
                self.sync_scan();
                None
            },
        }
    }

    /// Parse the whole token stream into statements, in order; the
    /// syntax errors are collected on the side.
    #[verifier::loop_isolation(false)]
    pub fn parse(&mut self) -> (r: Vec<Stmt>)
        requires
            old(self).fresh(),
        ensures
            final(self).wf(),
            spec_stmts_view(r@) == sp_parse(old(self).toks()).0,
            final(self).spec_errors() == sp_parse(old(self).toks()).1,
    {
        broadcast use lemma_err_add_assoc, Seq::<ParseError>::add_empty_right, Seq::<ParseError>::add_empty_left;

        reveal_with_fuel(sp_program, 2);
        proof {
            self.lemma_views();
        }
        let ghost toks = self.toks();
        let mut stmts: Vec<Stmt> = Vec::new();
        proof {
            lemma_spec_stmts_view(stmts@);
            assert(spec_stmts_view(stmts@) =~= Seq::<SpecStmt>::empty());
            assert(sp_parse(toks).0 =~= spec_stmts_view(stmts@) + sp_program(toks, 0).0);
            assert(sp_parse(toks).1 =~= self.spec_errors() + sp_program(toks, 0).1);
        }
        loop
            invariant
                self.wf(),
                self.toks() == toks,
                sp_parse(toks).0 =~= spec_stmts_view(stmts@) + sp_program(
                    toks,
                    self.spec_pos(),
                ).0,
                sp_parse(toks).1 =~= self.spec_errors() + sp_program(toks, self.spec_pos()).1,
            decreases toks.len() - self.spec_pos(),
        {
            if self.is_at_end() {
                break;
            }
            let ghost p0 = self.spec_pos();
            let ghost stmts0 = spec_stmts_view(stmts@);
            let s = self.next_stmt();
            proof {
                let sn = sp_next(toks, p0);
                let k = if p0 < sn.next <= toks.len() {
                    sn.next
                } else {
                    p0 + 1
                };
                assert(self.spec_pos() == k);
            }
            match s {
                Some(x) => {
                    let ghost sv0 = stmts@;
                    proof {
                        lemma_spec_stmts_view(stmts@);
                    }
                    stmts.push(x);
                    proof {
                        lemma_spec_stmts_view(stmts@);
                        assert forall|i: int| 0 <= i < stmts@.len() implies spec_stmts_view(
                            stmts@,
                        )[i] == stmts0.push(x@)[i] by {
                            assert(spec_stmts_view(stmts@)[i] == spec_stmt_view(stmts@[i]));
                            if i < sv0.len() {
                                assert(stmts@[i] == sv0[i]);
                                assert(stmts0[i] == spec_stmt_view(sv0[i]));
                            } else {
                                assert(stmts@[i] == x);
                            }
                        }
                        assert(spec_stmts_view(stmts@) =~= stmts0.push(x@));
                        assert(sp_parse(toks).0 =~= spec_stmts_view(stmts@) + sp_program(
                            toks,
                            self.spec_pos(),
                        ).0);
                        assert(sp_parse(toks).1 =~= self.spec_errors() + sp_program(
                            toks,
                            self.spec_pos(),
                        ).1);
                    }
                },
                None => {
                    proof {
                        assert(sp_parse(toks).0 =~= spec_stmts_view(stmts@) + sp_program(
                            toks,
                            self.spec_pos(),
                        ).0);
                        assert(sp_parse(toks).1 =~= self.spec_errors() + sp_program(
                            toks,
                            self.spec_pos(),
                        ).1);
                    }
                },
            }
        }
        proof {
            assert(sp_program(toks, self.spec_pos()).0 =~= Seq::<SpecStmt>::empty());
            assert(sp_program(toks, self.spec_pos()).1 =~= Seq::<ParseError>::empty());
            assert(spec_stmts_view(stmts@) =~= sp_parse(toks).0);
            assert(self.spec_errors() =~= sp_parse(toks).1);
        }
        stmts
    }
}

} // verus!

//! The evaluator: expressions evaluate left to right against the
//! scope chain; statements execute in order, printing through an
//! output buffer, and every execution is bounded by an explicit step
//! budget so that a runaway loop surfaces as an error instead of
//! spinning forever.

use vstd::prelude::*;
use crate::environment::{Environment, SpecEnv, spec_assign_env, spec_define_env, spec_lookup};
use crate::expr::{Expr, SpecExpr};
use crate::stmt::{SpecStmt, Stmt, lemma_spec_stmts_view, spec_stmts_view};
use crate::token::{SpecLiteral, SpecToken, TokenType};
use crate::value::{RuntimeError, SpecRuntimeError, SpecValue, Value, clone_value, spec_add,
    spec_div, spec_mul, spec_neg, spec_sub, spec_stringify, spec_truthy, spec_val_eq};
use crate::double::{double_eq, double_lt};

verus! {

/// The state an evaluation acts on: the scope chain and the lines
/// printed so far.
pub struct SpecState {
    pub env: SpecEnv,
    pub out: Seq<Seq<char>>,
}

pub open spec fn res_view(r: Result<Value, RuntimeError>) -> Result<SpecValue, SpecRuntimeError> {
    match r {
        Ok(v) => Ok(v@),
        Err(e) => Err(e@),
    }
}

/// The value a literal token denotes.
pub open spec fn spec_literal_value(tok: SpecToken) -> SpecValue {
    match tok.literal {
        SpecLiteral::String(s) => SpecValue::Str(s),
        SpecLiteral::Num(b) => SpecValue::Num(b),
        SpecLiteral::Boolean(b) => SpecValue::Bool(b),
        _ => SpecValue::Nil,
    }
}

/// What a binary operator yields on two already-evaluated operands.
/// Arithmetic and ordering demand numbers (`+` also joins strings);
/// equality compares any kinds structurally.
pub open spec fn spec_binary_op(operator: SpecToken, a: SpecValue, b: SpecValue) -> Result<
    SpecValue,
    SpecRuntimeError,
> {
    let line = operator.line;
    match operator.t_type {
        TokenType::Plus => match spec_add(a, b) {
            Some(v) => Ok(v),
            None => Err(SpecRuntimeError::TypeMismatch { line }),
        },
        TokenType::Minus => match spec_sub(a, b) {
            Some(v) => Ok(v),
            None => Err(SpecRuntimeError::TypeMismatch { line }),
        },
        TokenType::Slash => match spec_div(a, b) {
            Some(v) => Ok(v),
            None => Err(SpecRuntimeError::TypeMismatch { line }),
        },
        TokenType::Star => match spec_mul(a, b) {
            Some(v) => Ok(v),
            None => Err(SpecRuntimeError::TypeMismatch { line }),
        },
        TokenType::Greater => match (a, b) {
            (SpecValue::Num(x), SpecValue::Num(y)) => Ok(SpecValue::Bool(double_lt(y, x))),
            _ => Err(SpecRuntimeError::TypeMismatch { line }),
        },
        TokenType::GreaterEqual => match (a, b) {
            (SpecValue::Num(x), SpecValue::Num(y)) => Ok(
                SpecValue::Bool(double_lt(y, x) || double_eq(x, y)),
            ),
            _ => Err(SpecRuntimeError::TypeMismatch { line }),
        },
        TokenType::Less => match (a, b) {
            (SpecValue::Num(x), SpecValue::Num(y)) => Ok(SpecValue::Bool(double_lt(x, y))),
            _ => Err(SpecRuntimeError::TypeMismatch { line }),
        },
        TokenType::LessEqual => match (a, b) {
            (SpecValue::Num(x), SpecValue::Num(y)) => Ok(
                SpecValue::Bool(double_lt(x, y) || double_eq(x, y)),
            ),
            _ => Err(SpecRuntimeError::TypeMismatch { line }),
        },
        TokenType::EqualEqual => Ok(SpecValue::Bool(spec_val_eq(a, b))),
        TokenType::BangEqual => Ok(SpecValue::Bool(!spec_val_eq(a, b))),
        _ => Err(SpecRuntimeError::TypeMismatch { line }),
    }
}

/// Expression evaluation: operands left to right, short-circuiting
/// logical operators, assignment writing through the scope chain.
/// Total over the expression structure; returns the state after the
/// side effects that happened before any fault.
pub open spec fn spec_eval(e: SpecExpr, st: SpecState) -> (SpecState, Result<
    SpecValue,
    SpecRuntimeError,
>)
    decreases e,
{
    match e {
        SpecExpr::Literal(tok) => (st, Ok(spec_literal_value(tok))),
        SpecExpr::Grouping(inner) => spec_eval(*inner, st),
        SpecExpr::Unary { operator, expr } => {
            let (st1, r) = spec_eval(*expr, st);
            match r {
                Err(err) => (st1, Err(err)),
                Ok(v) => match operator.t_type {
                    TokenType::Minus => match spec_neg(v) {
                        Some(v2) => (st1, Ok(v2)),
                        None => (st1, Err(SpecRuntimeError::TypeMismatch { line: operator.line })),
                    },
                    TokenType::Bang => (st1, Ok(SpecValue::Bool(!spec_truthy(v)))),
                    _ => (st1, Err(SpecRuntimeError::TypeMismatch { line: operator.line })),
                },
            }
        },
        SpecExpr::Binary { left, right, operator } => {
            let (st1, rl) = spec_eval(*left, st);
            match rl {
                Err(err) => (st1, Err(err)),
                Ok(lv) => {
                    let (st2, rr) = spec_eval(*right, st1);
                    match rr {
                        Err(err) => (st2, Err(err)),
                        Ok(rv) => (st2, spec_binary_op(operator, lv, rv)),
                    }
                },
            }
        },
        SpecExpr::Logical { left, right, operator } => {
            let (st1, rl) = spec_eval(*left, st);
            match rl {
                Err(err) => (st1, Err(err)),
                Ok(lv) => match operator.t_type {
                    TokenType::Or => if spec_truthy(lv) {
                        (st1, Ok(lv))
                    } else {
                        spec_eval(*right, st1)
                    },
                    TokenType::And => if !spec_truthy(lv) {
                        (st1, Ok(lv))
                    } else {
                        spec_eval(*right, st1)
                    },
                    _ => (st1, Err(SpecRuntimeError::TypeMismatch { line: operator.line })),
                },
            }
        },
        SpecExpr::Var(name) => match spec_lookup(st.env, name.lexeme) {
            Some(v) => (st, Ok(v)),
            None => (
                st,
                Err(SpecRuntimeError::UndefinedVariable { name: name.lexeme, line: name.line }),
            ),
        },
        SpecExpr::Assignment { name, value } => {
            let (st1, r) = spec_eval(*value, st);
            match r {
                Err(err) => (st1, Err(err)),
                Ok(v) => match spec_assign_env(st1.env, name.lexeme, v) {
                    Some(env2) => (SpecState { env: env2, out: st1.out }, Ok(v)),
                    None => (
                        st1,
                        Err(
                            SpecRuntimeError::UndefinedVariable {
                                name: name.lexeme,
                                line: name.line,
                            },
                        ),
                    ),
                },
            }
        },
    }
}

/// What one statement execution yields: the state after it, the steps
/// left of the budget, and its result value or fault.
pub struct StepOut {
    pub st: SpecState,
    pub fuel: nat,
    pub res: Result<SpecValue, SpecRuntimeError>,
}

pub open spec fn cap_fuel(x: nat, bound: nat) -> nat {
    if x < bound {
        x
    } else {
        bound
    }
}

/// Statement execution, charged one step of the budget per statement
/// and per loop iteration. An exhausted budget surfaces as a fault
/// with the state reached so far.
pub open spec fn spec_exec_stmt(s: SpecStmt, st: SpecState, fuel: nat) -> StepOut
    decreases fuel, s,
{
    if fuel == 0 {
        StepOut { st, fuel: 0, res: Err(SpecRuntimeError::OutOfSteps) }
    } else {
        let f1 = (fuel - 1) as nat;
        match s {
            SpecStmt::Expr(e) => {
                let (st1, r) = spec_eval(e, st);
                StepOut { st: st1, fuel: f1, res: r }
            },
            SpecStmt::Print(e) => {
                let (st1, r) = spec_eval(e, st);
                match r {
                    Err(err) => StepOut { st: st1, fuel: f1, res: Err(err) },
                    Ok(v) => StepOut {
                        st: SpecState { env: st1.env, out: st1.out.push(spec_stringify(v)) },
                        fuel: f1,
                        res: Ok(SpecValue::Nil),
                    },
                }
            },
            SpecStmt::Declaration { name, value } => {
                let (st1, r) = spec_eval(value, st);
                match r {
                    Err(err) => StepOut { st: st1, fuel: f1, res: Err(err) },
                    Ok(v) => StepOut {
                        st: SpecState { env: spec_define_env(st1.env, name, v), out: st1.out },
                        fuel: f1,
                        res: Ok(v),
                    },
                }
            },
            SpecStmt::Block(ss) => {
                let pushed = SpecState {
                    env: st.env.push(Map::empty()),
                    out: st.out,
                };
                let o = spec_exec_stmts(ss, pushed, f1);
                StepOut {
                    st: SpecState { env: o.st.env.drop_last(), out: o.st.out },
                    fuel: o.fuel,
                    res: match o.res {
                        Err(err) => Err(err),
                        Ok(_) => Ok(SpecValue::Nil),
                    },
                }
            },
            SpecStmt::If { condition, truth_branch, false_branch } => {
                let (st1, rc) = spec_eval(condition, st);
                match rc {
                    Err(err) => StepOut { st: st1, fuel: f1, res: Err(err) },
                    Ok(c) => if spec_truthy(c) {
                        spec_exec_stmt(*truth_branch, st1, f1)
                    } else {
                        match false_branch {
                            Some(fb) => spec_exec_stmt(*fb, st1, f1),
                            None => StepOut { st: st1, fuel: f1, res: Ok(SpecValue::Nil) },
                        }
                    },
                }
            },
            SpecStmt::While { condition, body } => {
                let (st1, rc) = spec_eval(condition, st);
                match rc {
                    Err(err) => StepOut { st: st1, fuel: f1, res: Err(err) },
                    Ok(c) => if !spec_truthy(c) {
                        StepOut { st: st1, fuel: f1, res: Ok(SpecValue::Nil) }
                    } else {
                        let bo = spec_exec_stmt(*body, st1, f1);
                        match bo.res {
                            Err(err) => StepOut { st: bo.st, fuel: bo.fuel, res: Err(err) },
                            Ok(_) => spec_exec_stmt(
                                SpecStmt::While { condition, body },
                                bo.st,
                                cap_fuel(bo.fuel, f1),
                            ),
                        }
                    },
                }
            },
        }
    }
}

/// A statement list: each statement in order, stopping at the first
/// fault; the side effects before the fault remain.
pub open spec fn spec_exec_stmts(ss: Seq<SpecStmt>, st: SpecState, fuel: nat) -> StepOut
    decreases fuel, ss,
{
    if ss.len() == 0 {
        StepOut { st, fuel, res: Ok(SpecValue::Nil) }
    } else {
        let o = spec_exec_stmt(ss[0], st, fuel);
        match o.res {
            Err(err) => StepOut { st: o.st, fuel: o.fuel, res: Err(err) },
            Ok(_) => spec_exec_stmts(ss.drop_first(), o.st, cap_fuel(o.fuel, fuel)),
        }
    }
}

/// Assignment never changes how many scopes there are.
proof fn lemma_assign_len(env: SpecEnv, name: Seq<char>, v: SpecValue)
    ensures
        match spec_assign_env(env, name, v) {
            Some(e2) => e2.len() == env.len(),
            None => true,
        },
    decreases env.len(),
{
    if env.len() > 0 && !env.last().contains_key(name) {
        lemma_assign_len(env.drop_last(), name, v);
    }
}

/// Expression evaluation never changes how many scopes there are.
proof fn lemma_eval_len(e: SpecExpr, st: SpecState)
    ensures
        spec_eval(e, st).0.env.len() == st.env.len(),
    decreases e,
{
    match e {
        SpecExpr::Literal(_) => {},
        SpecExpr::Var(_) => {},
        SpecExpr::Grouping(inner) => {
            lemma_eval_len(*inner, st);
        },
        SpecExpr::Unary { operator, expr } => {
            lemma_eval_len(*expr, st);
        },
        SpecExpr::Binary { left, right, operator } => {
            lemma_eval_len(*left, st);
            let (st1, rl) = spec_eval(*left, st);
            if rl is Ok {
                lemma_eval_len(*right, st1);
            }
        },
        SpecExpr::Logical { left, right, operator } => {
            lemma_eval_len(*left, st);
            let (st1, rl) = spec_eval(*left, st);
            if rl is Ok {
                lemma_eval_len(*right, st1);
            }
        },
        SpecExpr::Assignment { name, value } => {
            lemma_eval_len(*value, st);
            let (st1, r) = spec_eval(*value, st);
            if r is Ok {
                lemma_assign_len(st1.env, name.lexeme, r->Ok_0);
            }
        },
    }
}

/// Statement execution spends budget but never mints it, and leaves
/// the scope chain as deep as it found it.
pub proof fn lemma_exec_props(s: SpecStmt, st: SpecState, fuel: nat)
    ensures
        spec_exec_stmt(s, st, fuel).fuel <= fuel,
        fuel > 0 ==> spec_exec_stmt(s, st, fuel).fuel <= fuel - 1,
        spec_exec_stmt(s, st, fuel).st.env.len() == st.env.len(),
    decreases fuel, s,
{
    if fuel > 0 {
        let f1 = (fuel - 1) as nat;
        match s {
            SpecStmt::Expr(e) => {
                lemma_eval_len(e, st);
            },
            SpecStmt::Print(e) => {
                lemma_eval_len(e, st);
            },
            SpecStmt::Declaration { name, value } => {
                lemma_eval_len(value, st);
            },
            SpecStmt::Block(ss) => {
                let pushed = SpecState { env: st.env.push(Map::empty()), out: st.out };
                lemma_exec_stmts_props(ss, pushed, f1);
            },
            SpecStmt::If { condition, truth_branch, false_branch } => {
                lemma_eval_len(condition, st);
                let (st1, rc) = spec_eval(condition, st);
                if rc is Ok {
                    if spec_truthy(rc->Ok_0) {
                        lemma_exec_props(*truth_branch, st1, f1);
                    } else {
                        match false_branch {
                            Some(fb) => {
                                lemma_exec_props(*fb, st1, f1);
                            },
                            None => {},
                        }
                    }
                }
            },
            SpecStmt::While { condition, body } => {
                lemma_eval_len(condition, st);
                let (st1, rc) = spec_eval(condition, st);
                if rc is Ok && spec_truthy(rc->Ok_0) {
                    lemma_exec_props(*body, st1, f1);
                    let bo = spec_exec_stmt(*body, st1, f1);
                    if bo.res is Ok {
                        lemma_exec_props(
                            SpecStmt::While { condition, body },
                            bo.st,
                            cap_fuel(bo.fuel, f1),
                        );
                    }
                }
            },
        }
    }
}

proof fn lemma_exec_stmts_props(ss: Seq<SpecStmt>, st: SpecState, fuel: nat)
    ensures
        spec_exec_stmts(ss, st, fuel).fuel <= fuel,
        spec_exec_stmts(ss, st, fuel).st.env.len() == st.env.len(),
    decreases fuel, ss,
{
    if ss.len() > 0 {
        lemma_exec_props(ss[0], st, fuel);
        let o = spec_exec_stmt(ss[0], st, fuel);
        if o.res is Ok {
            lemma_exec_stmts_props(ss.drop_first(), o.st, cap_fuel(o.fuel, fuel));
        }
    }
}

/// A law of loop exits: a while statement that completes without a
/// fault yields nil, and it stopped because evaluating its condition
/// came out falsy, leaving exactly the state the loop ends in. So a
/// loop such as one stepping a counter toward a bound ends in the
/// first state its condition rejects.
pub proof fn lemma_while_exit(condition: SpecExpr, body: Box<SpecStmt>, st: SpecState, fuel: nat)
    ensures
        ({
            let o = spec_exec_stmt(SpecStmt::While { condition, body }, st, fuel);
            o.res is Ok ==> {
                &&& o.res == Ok::<SpecValue, SpecRuntimeError>(SpecValue::Nil)
                &&& exists|pre: SpecState|
                    #[trigger] spec_eval(condition, pre).0 == o.st && (spec_eval(
                        condition,
                        pre,
                    ).1 matches Ok(c) && !spec_truthy(c))
            }
        }),
    decreases fuel,
{
    if fuel > 0 {
        let f1 = (fuel - 1) as nat;
        let (st1, rc) = spec_eval(condition, st);
        if rc is Ok && spec_truthy(rc->Ok_0) {
            let bo = spec_exec_stmt(*body, st1, f1);
            if bo.res is Ok {
                lemma_while_exit(condition, body, bo.st, cap_fuel(bo.fuel, f1));
            }
        } else if rc is Ok {
            assert(spec_eval(condition, st).0 == st1);
        }
    }
}

/// The short-circuit law for `or`: a truthy left operand is the whole
/// answer, with exactly the left operand's effects; the right operand
/// is never evaluated, so a fault in it cannot surface.
pub proof fn lemma_or_short_circuit(
    left: Box<SpecExpr>,
    right: Box<SpecExpr>,
    operator: SpecToken,
    st: SpecState,
)
    requires
        operator.t_type == TokenType::Or,
        spec_eval(*left, st).1 is Ok,
        spec_truthy(spec_eval(*left, st).1->Ok_0),
    ensures
        spec_eval(SpecExpr::Logical { left, right, operator }, st).0 == spec_eval(*left, st).0,
        spec_eval(SpecExpr::Logical { left, right, operator }, st).1 == spec_eval(*left, st).1,
{
}

/// The short-circuit law for `and`: a falsy left operand is the whole
/// answer, with exactly the left operand's effects; the right operand
/// is never evaluated, so a fault in it cannot surface.
pub proof fn lemma_and_short_circuit(
    left: Box<SpecExpr>,
    right: Box<SpecExpr>,
    operator: SpecToken,
    st: SpecState,
)
    requires
        operator.t_type == TokenType::And,
        spec_eval(*left, st).1 is Ok,
        !spec_truthy(spec_eval(*left, st).1->Ok_0),
    ensures
        spec_eval(SpecExpr::Logical { left, right, operator }, st).0 == spec_eval(*left, st).0,
        spec_eval(SpecExpr::Logical { left, right, operator }, st).1 == spec_eval(*left, st).1,
{
}

/// The default step budget an interpreter starts with.
pub const STEP_BUDGET: u64 = 1000000;

/// The tree-walking interpreter: the scope chain it owns, the lines
/// printed so far, and the remaining step budget.
pub struct Interpreter {
    env: Environment,
    output: Vec<String>,
    steps: u64,
}

impl Interpreter {
    pub closed spec fn wf(&self) -> bool {
        &&& self.env.wf()
        &&& self.env@.len() >= 1
    }

    /// The state the evaluator acts on.
    pub closed spec fn spec_state(&self) -> SpecState {
        SpecState { env: self.env@, out: self.output@.map_values(|s: String| s@) }
    }

    /// The steps left of the budget.
    pub closed spec fn fuel(&self) -> nat {
        self.steps as nat
    }

    pub fn new() -> (r: Interpreter)
        ensures
            r.wf(),
            r.spec_state().env =~= seq![Map::<Seq<char>, SpecValue>::empty()],
            r.spec_state().out =~= Seq::<Seq<char>>::empty(),
            r.fuel() == STEP_BUDGET,
    {
        let r = Interpreter { env: Environment::new(), output: Vec::new(), steps: STEP_BUDGET };
        proof {
            assert(r.spec_state().out =~= Seq::<Seq<char>>::empty());
        }
        r
    }

    /// An interpreter with a caller-chosen step budget.
    pub fn with_budget(steps: u64) -> (r: Interpreter)
        ensures
            r.wf(),
            r.spec_state().env =~= seq![Map::<Seq<char>, SpecValue>::empty()],
            r.spec_state().out =~= Seq::<Seq<char>>::empty(),
            r.fuel() == steps,
    {
        let r = Interpreter { env: Environment::new(), output: Vec::new(), steps };
        proof {
            assert(r.spec_state().out =~= Seq::<Seq<char>>::empty());
        }
        r
    }

    /// The scope chain, for the host to inspect.
    pub fn environment(&self) -> (r: &Environment)
        requires
            self.wf(),
        ensures
            r@ == self.spec_state().env,
            r.wf(),
    {
        &self.env
    }

    /// Hand the buffered output lines to the host and clear the buffer.
    pub fn take_output(&mut self) -> (r: Vec<String>)
        requires
            old(self).wf(),
        ensures
            final(self).wf(),
            r@.map_values(|s: String| s@) == old(self).spec_state().out,
            final(self).spec_state() == (SpecState {
                env: old(self).spec_state().env,
                out: Seq::<Seq<char>>::empty(),
            }),
            final(self).fuel() == old(self).fuel(),
    {
        let mut taken: Vec<String> = Vec::new();
        core::mem::swap(&mut taken, &mut self.output);
        proof {
            assert(self.spec_state().out =~= Seq::<Seq<char>>::empty());
        }
        taken
    }

    /// Evaluate one expression against the current state.
    pub fn evaluate_expression(&mut self, expr: Expr) -> (r: Result<Value, RuntimeError>)
        requires
            old(self).wf(),
        ensures
            final(self).wf(),
            final(self).fuel() == old(self).fuel(),
            ({
                let (st2, res) = spec_eval(expr@, old(self).spec_state());
                &&& final(self).spec_state() == st2
                &&& res_view(r) == res
            }),
    {
        self.eval_expr(&expr)
    }

    fn eval_expr(&mut self, e: &Expr) -> (r: Result<Value, RuntimeError>)
        requires
            old(self).wf(),
        ensures
            final(self).wf(),
            final(self).fuel() == old(self).fuel(),
            ({
                let (st2, res) = spec_eval(e@, old(self).spec_state());
                &&& final(self).spec_state() == st2
                &&& res_view(r) == res
            }),
        decreases e,
    {
        match e {
            Expr::Literal(l) => {
                let v = match &l.token.literal {
                    crate::token::Literal::String(s) => Value::String(s.clone()),
                    crate::token::Literal::Num(b) => Value::Number(*b),
                    crate::token::Literal::Boolean(b) => Value::Boolean(*b),
                    _ => Value::Nil,
                };
                Ok(v)
            },
            Expr::Grouping(g) => self.eval_expr(&g.expr),
            Expr::Unary(u) => {
                let v = match self.eval_expr(&u.expr) {
                    Ok(v) => v,
                    Err(err) => {
                        return Err(err);
                    },
                };
                match u.operator.t_type {
                    TokenType::Minus => match v.neg() {
                        Some(v2) => Ok(v2),
                        None => Err(RuntimeError::TypeMismatch { line: u.operator.line }),
                    },
                    TokenType::Bang => Ok(v.not()),
                    _ => Err(RuntimeError::TypeMismatch { line: u.operator.line }),
                }
            },
            Expr::Binary(b) => {
                let lv = match self.eval_expr(&b.left) {
                    Ok(v) => v,
                    Err(err) => {
                        return Err(err);
                    },
                };
                let rv = match self.eval_expr(&b.right) {
                    Ok(v) => v,
                    Err(err) => {
                        return Err(err);
                    },
                };
                self.binary_op(&b.operator, lv, rv)
            },
            Expr::Logical(l) => {
                let lv = match self.eval_expr(&l.left) {
                    Ok(v) => v,
                    Err(err) => {
                        return Err(err);
                    },
                };
                match l.operator.t_type {
                    TokenType::Or => {
                        if lv.truthyness() {
                            Ok(lv)
                        } else {
                            self.eval_expr(&l.right)
                        }
                    },
                    TokenType::And => {
                        if !lv.truthyness() {
                            Ok(lv)
                        } else {
                            self.eval_expr(&l.right)
                        }
                    },
                    _ => Err(RuntimeError::TypeMismatch { line: l.operator.line }),
                }
            },
            Expr::Var(v) => {
                match self.env.get(v.name.lexeme.as_str()) {
                    Some(val) => Ok(val),
                    None => Err(
                        RuntimeError::UndefinedVariable {
                            name: v.name.lexeme.clone(),
                            line: v.name.line,
                        },
                    ),
                }
            },
            Expr::Assignment(a) => {
                let v = match self.eval_expr(&a.value) {
                    Ok(v) => v,
                    Err(err) => {
                        return Err(err);
                    },
                };
                let v2 = clone_value(&v);
                if self.env.assign(a.name.lexeme.as_str(), v2) {
                    Ok(v)
                } else {
                    Err(
                        RuntimeError::UndefinedVariable {
                            name: a.name.lexeme.clone(),
                            line: a.name.line,
                        },
                    )
                }
            },
        }
    }

    /// Apply a binary operator to two evaluated operands.
    fn binary_op(&self, operator: &crate::token::Token, a: Value, b: Value) -> (r: Result<
        Value,
        RuntimeError,
    >)
        ensures
            res_view(r) == spec_binary_op(operator@, a@, b@),
    {
        let line = operator.line;
        match operator.t_type {
            TokenType::Plus => match a.add(b) {
                Some(v) => Ok(v),
                None => Err(RuntimeError::TypeMismatch { line }),
            },
            TokenType::Minus => match a.sub(b) {
                Some(v) => Ok(v),
                None => Err(RuntimeError::TypeMismatch { line }),
            },
            TokenType::Slash => match a.div(b) {
                Some(v) => Ok(v),
                None => Err(RuntimeError::TypeMismatch { line }),
            },
            TokenType::Star => match a.mul(b) {
                Some(v) => Ok(v),
                None => Err(RuntimeError::TypeMismatch { line }),
            },
            TokenType::Greater => match (a, b) {
                (Value::Number(x), Value::Number(y)) => Ok(
                    Value::Boolean(crate::double::lt_bits(y, x)),
                ),
                _ => Err(RuntimeError::TypeMismatch { line }),
            },
            TokenType::GreaterEqual => match (a, b) {
                (Value::Number(x), Value::Number(y)) => Ok(
                    Value::Boolean(crate::double::lt_bits(y, x) || crate::double::eq_bits(x, y)),
                ),
                _ => Err(RuntimeError::TypeMismatch { line }),
            },
            TokenType::Less => match (a, b) {
                (Value::Number(x), Value::Number(y)) => Ok(
                    Value::Boolean(crate::double::lt_bits(x, y)),
                ),
                _ => Err(RuntimeError::TypeMismatch { line }),
            },
            TokenType::LessEqual => match (a, b) {
                (Value::Number(x), Value::Number(y)) => Ok(
                    Value::Boolean(crate::double::lt_bits(x, y) || crate::double::eq_bits(x, y)),
                ),
                _ => Err(RuntimeError::TypeMismatch { line }),
            },
            TokenType::EqualEqual => {
                let eq = a.equals(&b);
                Ok(Value::Boolean(eq))
            },
            TokenType::BangEqual => {
                let eq = a.equals(&b);
                Ok(Value::Boolean(!eq))
            },
            _ => Err(RuntimeError::TypeMismatch { line }),
        }
    }

    /// Execute one statement against the current state.
    pub fn evaluate_node(&mut self, stmt: Stmt) -> (r: Result<Value, RuntimeError>)
        requires
            old(self).wf(),
        ensures
            final(self).wf(),
            ({
                let o = spec_exec_stmt(stmt@, old(self).spec_state(), old(self).fuel());
                &&& final(self).spec_state() == o.st
                &&& final(self).fuel() == o.fuel
                &&& res_view(r) == o.res
            }),
    {
        self.exec_stmt(&stmt)
    }

    /// Execute a program: the statements in order, stopping at the
    /// first runtime fault, which is returned; the side effects before
    /// it remain.
    #[verifier::loop_isolation(false)]
    pub fn run(&mut self, stmts: &Vec<Stmt>) -> (r: Option<RuntimeError>)
        requires
            old(self).wf(),
        ensures
            final(self).wf(),
            ({
                let o = spec_exec_stmts(
                    spec_stmts_view(stmts@),
                    old(self).spec_state(),
                    old(self).fuel(),
                );
                &&& final(self).spec_state() == o.st
                &&& final(self).fuel() == o.fuel
                &&& match r {
                    None => o.res is Ok,
                    Some(e) => o.res == Err::<SpecValue, SpecRuntimeError>(e@),
                }
            }),
    {
        let ghost ssv = spec_stmts_view(stmts@);
        let ghost st0 = self.spec_state();
        let ghost f0 = self.fuel();
        proof {
            lemma_spec_stmts_view(stmts@);
            assert(ssv.skip(0) =~= ssv);
            assert(ssv.skip(ssv.len() as int) =~= Seq::<SpecStmt>::empty());
        }
        let mut i: usize = 0;
        let mut failure: Option<RuntimeError> = None;
        while i < stmts.len() && failure.is_none()
            invariant
                self.wf(),
                i <= stmts@.len(),
                match failure {
                    None => spec_exec_stmts(ssv, st0, f0) == spec_exec_stmts(
                        ssv.skip(i as int),
                        self.spec_state(),
                        self.fuel(),
                    ),
                    Some(err) => {
                        let o = spec_exec_stmts(ssv, st0, f0);
                        &&& o.st == self.spec_state()
                        &&& o.fuel == self.fuel()
                        &&& o.res == Err::<SpecValue, SpecRuntimeError>(err@)
                    },
                },
            decreases stmts@.len() - i, (if failure is Some { 0int } else { 1int }),
        {
            let ghost st_i = self.spec_state();
            let ghost fuel_i = self.fuel();
            let r = self.exec_stmt(&stmts[i]);
            proof {
                let o = spec_exec_stmt(ssv.skip(i as int)[0], st_i, fuel_i);
                assert(ssv.skip(i as int)[0] == ssv[i as int]);
                assert(ssv[i as int] == (stmts@[i as int])@);
                lemma_exec_props(ssv.skip(i as int)[0], st_i, fuel_i);
                assert(ssv.skip(i as int).drop_first() =~= ssv.skip(i as int + 1));
                assert(cap_fuel(o.fuel, fuel_i) == o.fuel);
            }
            match r {
                Ok(_) => {
                    i = i + 1;
                },
                Err(err) => {
                    failure = Some(err);
                },
            }
        }
        proof {
            if failure is None {
                assert(i == stmts@.len());
            }
        }
        failure
    }

    #[verifier::loop_isolation(false)]
    #[verifier::rlimit(50)]
    fn exec_stmt(&mut self, s: &Stmt) -> (r: Result<Value, RuntimeError>)
        requires
            old(self).wf(),
        ensures
            final(self).wf(),
            ({
                let o = spec_exec_stmt(s@, old(self).spec_state(), old(self).fuel());
                &&& final(self).spec_state() == o.st
                &&& final(self).fuel() == o.fuel
                &&& res_view(r) == o.res
            }),
        decreases old(self).fuel(),
    {
        if self.steps == 0 {
            return Err(RuntimeError::OutOfSteps);
        }
        self.steps = self.steps - 1;
        let ghost st0 = old(self).spec_state();
        let ghost f0 = old(self).fuel();
        let ghost f1 = (f0 - 1) as nat;
        match s {
            Stmt::Expr(e) => self.eval_expr(e),
            Stmt::Print(e) => {
                let v = match self.eval_expr(e) {
                    Ok(v) => v,
                    Err(err) => {
                        return Err(err);
                    },
                };
                let line = v.stringify();
                self.output.push(line);
                proof {
                    assert(self.spec_state().out =~= spec_exec_stmt(s@, st0, f0).st.out);
                }
                Ok(Value::Nil)
            },
            Stmt::Declaration(var) => {
                let v = match self.eval_expr(&var.value) {
                    Ok(v) => v,
                    Err(err) => {
                        return Err(err);
                    },
                };
                let v2 = clone_value(&v);
                self.env.define(var.name.as_str(), v2);
                Ok(v)
            },
            Stmt::Block(b) => {
                self.env.enclose();
                let ghost ssv = spec_stmts_view(b.stmt_vec@);
                let ghost pushed = self.spec_state();
                let ghost fp = self.fuel();
                proof {
                    lemma_spec_stmts_view(b.stmt_vec@);
                    assert(pushed.env =~= st0.env.push(Map::empty()));
                    assert(pushed == SpecState { env: st0.env.push(Map::empty()), out: st0.out });
                }
                proof {
                    assert(ssv.skip(0) =~= ssv);
                    assert(ssv.skip(ssv.len() as int) =~= Seq::<SpecStmt>::empty());
                }
                let mut i: usize = 0;
                let mut failure: Option<RuntimeError> = None;
                while i < b.stmt_vec.len() && failure.is_none()
                    invariant
                        self.wf(),
                        self.spec_state().env.len() == pushed.env.len(),
                        i <= b.stmt_vec@.len(),
                        self.fuel() <= fp,
                        match failure {
                            None => spec_exec_stmts(ssv, pushed, fp) == spec_exec_stmts(
                                ssv.skip(i as int),
                                self.spec_state(),
                                self.fuel(),
                            ),
                            Some(err) => {
                                let o = spec_exec_stmts(ssv, pushed, fp);
                                &&& o.st == self.spec_state()
                                &&& o.fuel == self.fuel()
                                &&& o.res == Err::<SpecValue, SpecRuntimeError>(err@)
                            },
                        },
                    decreases b.stmt_vec@.len() - i, (if failure is Some { 0int } else { 1int }),
                {
                    let ghost st_i = self.spec_state();
                    let ghost fuel_i = self.fuel();
                    let r = self.exec_stmt(&b.stmt_vec[i]);
                    proof {
                        let o = spec_exec_stmt(ssv.skip(i as int)[0], st_i, fuel_i);
                        assert(ssv.skip(i as int)[0] == ssv[i as int]);
                        assert(ssv[i as int] == (b.stmt_vec@[i as int])@);
                        lemma_exec_props(ssv.skip(i as int)[0], st_i, fuel_i);
                        assert(ssv.skip(i as int).drop_first() =~= ssv.skip(i as int + 1));
                        assert(cap_fuel(o.fuel, fuel_i) == o.fuel);
                    }
                    match r {
                        Ok(_) => {
                            i = i + 1;
                        },
                        Err(err) => {
                            failure = Some(err);
                        },
                    }
                }
                proof {
                    if failure is None {
                        assert(i == b.stmt_vec@.len());
                    }
                }
                self.env.discard();
                proof {
                    let o = spec_exec_stmts(ssv, pushed, fp);
                    assert(self.spec_state().env =~= o.st.env.drop_last());
                }
                match failure {
                    None => Ok(Value::Nil),
                    Some(err) => Err(err),
                }
            },
            Stmt::If(ifstmt) => {
                let c = match self.eval_expr(&ifstmt.condition) {
                    Ok(v) => v,
                    Err(err) => {
                        return Err(err);
                    },
                };
                if c.truthyness() {
                    self.exec_stmt(&ifstmt.truth_branch)
                } else {
                    match &*ifstmt.false_branch {
                        Some(fb) => self.exec_stmt(fb),
                        None => Ok(Value::Nil),
                    }
                }
            },
            Stmt::While(w) => {
                let ghost wv = s@;
                loop
                    invariant
                        self.wf(),
                        self.fuel() < f0,
                        spec_exec_stmt(wv, st0, f0) == spec_exec_stmt(
                            wv,
                            self.spec_state(),
                            self.fuel() + 1,
                        ),
                    decreases self.fuel(),
                {
                    // The budget for this entry of the loop has
                    // already been charged on the way in.
                    let ghost st_i = self.spec_state();
                    let ghost fuel_i = self.fuel();
                    let c = match self.eval_expr(&w.condition) {
                        Ok(v) => v,
                        Err(err) => {
                            return Err(err);
                        },
                    };
                    if !c.truthyness() {
                        return Ok(Value::Nil);
                    }
                    let r = self.exec_stmt(&w.body);
                    proof {
                        lemma_exec_props((*w.body)@, spec_eval(w.condition@, st_i).0, fuel_i);
                        assert(cap_fuel(
                            spec_exec_stmt((*w.body)@, spec_eval(w.condition@, st_i).0, fuel_i).fuel,
                            fuel_i,
                        ) == spec_exec_stmt(
                            (*w.body)@,
                            spec_eval(w.condition@, st_i).0,
                            fuel_i,
                        ).fuel);
                    }
                    match r {
                        Ok(_) => {
                            if self.steps == 0 {
                                proof {
                                    let bo = spec_exec_stmt(
                                        (*w.body)@,
                                        spec_eval(w.condition@, st_i).0,
                                        fuel_i,
                                    );
                                    assert(spec_exec_stmt(wv, bo.st, 0) == StepOut {
                                        st: bo.st,
                                        fuel: 0,
                                        res: Err::<SpecValue, SpecRuntimeError>(
                                            SpecRuntimeError::OutOfSteps,
                                        ),
                                    });
                                }
                                return Err(RuntimeError::OutOfSteps);
                            }
                            self.steps = self.steps - 1;
                        },
                        Err(err) => {
                            return Err(err);
                        },
                    }
                }
            },
        }
    }
}

} // verus!

//! Runtime values and the dynamic-typing rules: truthiness, the
//! overloaded operators, structural equality, and stringification.

use vstd::prelude::*;
use vstd::string::StringExecFns;
use crate::double::{add_bits, div_bits, double_add, double_display, double_div, double_eq,
    double_mul, double_neg, double_sub, eq_bits, mul_bits, neg_bits, sub_bits, display_bits};

verus! {

/// A runtime value. Pure value semantics: copied freely, no identity.
/// A number is the bit pattern of an IEEE-754 binary64 value.
#[derive(PartialEq, Debug, Clone)]
pub enum Value {
    String(String),
    Number(u64),
    Boolean(bool),
    Nil,
}

/// Mathematical model of a [`Value`].
pub enum SpecValue {
    Str(Seq<char>),
    Num(u64),
    Bool(bool),
    Nil,
}

impl View for Value {
    type V = SpecValue;

    open spec fn view(&self) -> SpecValue {
        match self {
            Value::String(s) => SpecValue::Str(s@),
            Value::Number(b) => SpecValue::Num(*b),
            Value::Boolean(b) => SpecValue::Bool(*b),
            Value::Nil => SpecValue::Nil,
        }
    }
}

/// A runtime fault: an operator applied to operands of the wrong
/// kinds, a reference to a variable that no scope binds, or an
/// exhausted step budget.
#[derive(PartialEq, Debug, Clone)]
pub enum RuntimeError {
    TypeMismatch { line: u32 },
    UndefinedVariable { name: String, line: u32 },
    OutOfSteps,
}

/// Mathematical model of a [`RuntimeError`].
pub enum SpecRuntimeError {
    TypeMismatch { line: u32 },
    UndefinedVariable { name: Seq<char>, line: u32 },
    OutOfSteps,
}

impl View for RuntimeError {
    type V = SpecRuntimeError;

    open spec fn view(&self) -> SpecRuntimeError {
        match self {
            RuntimeError::TypeMismatch { line } => SpecRuntimeError::TypeMismatch { line: *line },
            RuntimeError::UndefinedVariable { name, line } => SpecRuntimeError::UndefinedVariable {
                name: name@,
                line: *line,
            },
            RuntimeError::OutOfSteps => SpecRuntimeError::OutOfSteps,
        }
    }
}

pub open spec fn opt_value_view(o: Option<Value>) -> Option<SpecValue> {
    match o {
        Some(v) => Some(v@),
        None => None,
    }
}

/// Only `false` and `nil` are falsy; every other value, including the
/// number zero and the empty string, is truthy.
pub open spec fn spec_truthy(v: SpecValue) -> bool {
    match v {
        SpecValue::Bool(b) => b,
        SpecValue::Nil => false,
        _ => true,
    }
}

/// `+` is overloaded: numbers add, strings concatenate; any other
/// pairing of kinds is a type error.
pub open spec fn spec_add(a: SpecValue, b: SpecValue) -> Option<SpecValue> {
    match (a, b) {
        (SpecValue::Num(x), SpecValue::Num(y)) => Some(SpecValue::Num(double_add(x, y))),
        (SpecValue::Str(x), SpecValue::Str(y)) => Some(SpecValue::Str(x + y)),
        _ => None,
    }
}

pub open spec fn spec_sub(a: SpecValue, b: SpecValue) -> Option<SpecValue> {
    match (a, b) {
        (SpecValue::Num(x), SpecValue::Num(y)) => Some(SpecValue::Num(double_sub(x, y))),
        _ => None,
    }
}

pub open spec fn spec_mul(a: SpecValue, b: SpecValue) -> Option<SpecValue> {
    match (a, b) {
        (SpecValue::Num(x), SpecValue::Num(y)) => Some(SpecValue::Num(double_mul(x, y))),
        _ => None,
    }
}

/// Division follows IEEE-754: a zero divisor yields an infinity or
/// NaN, never a fault.
pub open spec fn spec_div(a: SpecValue, b: SpecValue) -> Option<SpecValue> {
    match (a, b) {
        (SpecValue::Num(x), SpecValue::Num(y)) => Some(SpecValue::Num(double_div(x, y))),
        _ => None,
    }
}

pub open spec fn spec_neg(a: SpecValue) -> Option<SpecValue> {
    match a {
        SpecValue::Num(x) => Some(SpecValue::Num(double_neg(x))),
        _ => None,
    }
}

/// Structural equality across all kinds; values of different kinds are
/// never equal, and numbers compare by IEEE-754 equality.
pub open spec fn spec_val_eq(a: SpecValue, b: SpecValue) -> bool {
    match (a, b) {
        (SpecValue::Num(x), SpecValue::Num(y)) => double_eq(x, y),
        (SpecValue::Str(x), SpecValue::Str(y)) => x == y,
        (SpecValue::Bool(x), SpecValue::Bool(y)) => x == y,
        (SpecValue::Nil, SpecValue::Nil) => true,
        _ => false,
    }
}

/// How a value prints: strings unquoted, booleans as `true`/`false`,
/// nil as `nil`, numbers by the decimal rendering of their bits.
pub open spec fn spec_stringify(v: SpecValue) -> Seq<char> {
    match v {
        SpecValue::Str(s) => s,
        SpecValue::Bool(b) => if b {
            "true"@
        } else {
            "false"@
        },
        SpecValue::Nil => "nil"@,
        SpecValue::Num(bits) => double_display(bits),
    }
}

/// An explicit deep copy, so that contracts can track the value.
pub fn clone_value(v: &Value) -> (r: Value)
    ensures
        r@ == v@,
{
    match v {
        Value::String(s) => Value::String(s.clone()),
        Value::Number(b) => Value::Number(*b),
        Value::Boolean(b) => Value::Boolean(*b),
        Value::Nil => Value::Nil,
    }
}

impl Value {
    /// The truthiness rule of the conditionals and logical operators.
    pub fn truthyness(&self) -> (r: bool)
        ensures
            r == spec_truthy(self@),
    {
        match self {
            Value::Boolean(b) => *b,
            Value::Nil => false,
            _ => true,
        }
    }

    /// The overloaded `+`: numeric addition or string concatenation.
    pub fn add(self, rhs: Value) -> (r: Option<Value>)
        ensures
            opt_value_view(r) == spec_add(self@, rhs@),
    {
        match (self, rhs) {
            (Value::Number(x), Value::Number(y)) => Some(Value::Number(add_bits(x, y))),
            (Value::String(x), Value::String(y)) => Some(Value::String(x.concat(y.as_str()))),
            _ => None,
        }
    }

    pub fn sub(self, rhs: Value) -> (r: Option<Value>)
        ensures
            opt_value_view(r) == spec_sub(self@, rhs@),
    {
        match (self, rhs) {
            (Value::Number(x), Value::Number(y)) => Some(Value::Number(sub_bits(x, y))),
            _ => None,
        }
    }

    pub fn mul(self, rhs: Value) -> (r: Option<Value>)
        ensures
            opt_value_view(r) == spec_mul(self@, rhs@),
    {
        match (self, rhs) {
            (Value::Number(x), Value::Number(y)) => Some(Value::Number(mul_bits(x, y))),
            _ => None,
        }
    }

    pub fn div(self, rhs: Value) -> (r: Option<Value>)
        ensures
            opt_value_view(r) == spec_div(self@, rhs@),
    {
        match (self, rhs) {
            (Value::Number(x), Value::Number(y)) => Some(Value::Number(div_bits(x, y))),
            _ => None,
        }
    }

    /// Unary minus: numbers only.
    pub fn neg(self) -> (r: Option<Value>)
        ensures
            opt_value_view(r) == spec_neg(self@),
    {
        match self {
            Value::Number(x) => Some(Value::Number(neg_bits(x))),
            _ => None,
        }
    }

    /// Unary bang: the negation of the operand's truthiness.
    pub fn not(self) -> (r: Value)
        ensures
            r@ == SpecValue::Bool(!spec_truthy(self@)),
    {
        let t = self.truthyness();
        Value::Boolean(!t)
    }

    /// Structural equality, the meaning of `==` and `!=`.
    pub fn equals(&self, other: &Value) -> (r: bool)
        ensures
            r == spec_val_eq(self@, other@),
    {
        match (self, other) {
            (Value::Number(x), Value::Number(y)) => eq_bits(*x, *y),
            (Value::String(x), Value::String(y)) => *x == *y,
            (Value::Boolean(x), Value::Boolean(y)) => *x == *y,
            (Value::Nil, Value::Nil) => true,
            _ => false,
        }
    }

    /// The printed form of the value.
    pub fn stringify(&self) -> (r: String)
        ensures
            r@ == spec_stringify(self@),
    {
        match self {
            Value::String(s) => s.clone(),
            Value::Boolean(b) => {
                if *b {
                    String::from_str("true")
                } else {
                    String::from_str("false")
                }
            },
            Value::Nil => String::from_str("nil"),
            Value::Number(bits) => display_bits(*bits),
        }
    }
}

} // verus!

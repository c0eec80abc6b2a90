//! The expression tree and the values it evaluates to.

use vstd::prelude::*;

verus! {

#[derive(Debug, Clone, Copy, PartialEq, Eq)]
pub enum UnaryOp {
    Negate,
    Not,
}

#[derive(Debug, Clone, Copy, PartialEq, Eq)]
pub enum BinaryOp {
    Equal,
    NotEqual,
    LessThan,
    LessThanOrEqual,
    GreaterThan,
    GreaterThanOrEqual,
    Plus,
    Minus,
    Multiply,
    Divide,
}

pub open spec fn unary_name(op: UnaryOp) -> Seq<char> {
    match op {
        UnaryOp::Negate => "Negate"@,
        UnaryOp::Not => "Not"@,
    }
}

pub open spec fn binary_name(op: BinaryOp) -> Seq<char> {
    match op {
        BinaryOp::Equal => "Equal"@,
        BinaryOp::NotEqual => "NotEqual"@,
        BinaryOp::LessThan => "LessThan"@,
        BinaryOp::LessThanOrEqual => "LessThanOrEqual"@,
        BinaryOp::GreaterThan => "GreaterThan"@,
        BinaryOp::GreaterThanOrEqual => "GreaterThanOrEqual"@,
        BinaryOp::Plus => "Plus"@,
        BinaryOp::Minus => "Minus"@,
        BinaryOp::Multiply => "Multiply"@,
        BinaryOp::Divide => "Divide"@,
    }
}

impl UnaryOp {
    /// The operator's name, as diagnostics give it.
    pub fn name(&self) -> (r: &'static str)
        ensures
            r@ == unary_name(*self),
    {
        match self {
            UnaryOp::Negate => "Negate",
            UnaryOp::Not => "Not",
        }
    }
}

impl BinaryOp {
    /// The operator's name, as diagnostics give it.
    pub fn name(&self) -> (r: &'static str)
        ensures
            r@ == binary_name(*self),
    {
        match self {
            BinaryOp::Equal => "Equal",
            BinaryOp::NotEqual => "NotEqual",
            BinaryOp::LessThan => "LessThan",
            BinaryOp::LessThanOrEqual => "LessThanOrEqual",
            BinaryOp::GreaterThan => "GreaterThan",
            BinaryOp::GreaterThanOrEqual => "GreaterThanOrEqual",
            BinaryOp::Plus => "Plus",
            BinaryOp::Minus => "Minus",
            BinaryOp::Multiply => "Multiply",
            BinaryOp::Divide => "Divide",
        }
    }
}

/// A literal, and a runtime value: the language's values and its literal
/// syntax share one representation. A number is held as decimal text, as it
/// was written or as the number arithmetic produced it.
#[derive(Debug, Clone, PartialEq)]
pub enum Literal {
    Number(String),
    String(String),
    Boolean(bool),
    Nil,
}

/// A value as a mathematical object.
pub enum Value {
    Number(Seq<char>),
    Str(Seq<char>),
    Boolean(bool),
    Nil,
}

impl View for Literal {
    type V = Value;

    open spec fn view(&self) -> Value {
        match self {
            Literal::Number(n) => Value::Number(n@),
            Literal::String(s) => Value::Str(s@),
            Literal::Boolean(b) => Value::Boolean(*b),
            Literal::Nil => Value::Nil,
        }
    }
}

/// How a value is shown: a number as its decimal text, a string as its raw
/// text, a boolean as `true` or `false`, nil as `nil`.
pub open spec fn rendered(v: Value) -> Seq<char> {
    match v {
        Value::Number(n) => n,
        Value::Str(s) => s,
        Value::Boolean(b) => if b {
            "true"@
        } else {
            "false"@
        },
        Value::Nil => "nil"@,
    }
}

impl Literal {
    /// A copy of the literal.
    pub fn copy(&self) -> (r: Literal)
        ensures
            r == *self,
    {
        match self {
            Literal::Number(n) => Literal::Number(n.clone()),
            Literal::String(s) => Literal::String(s.clone()),
            Literal::Boolean(b) => Literal::Boolean(*b),
            Literal::Nil => Literal::Nil,
        }
    }

    /// The value as text.
    pub fn render(&self) -> (r: String)
        ensures
            r@ == rendered(self@),
    {
        match self {
            Literal::Number(n) => n.clone(),
            Literal::String(s) => s.clone(),
            Literal::Boolean(b) => if *b {
                String::from_str("true")
            } else {
                String::from_str("false")
            },
            Literal::Nil => String::from_str("nil"),
        }
    }
}

/// An expression tree. Each node owns its children; operator nodes keep the
/// line of their operator for the messages of evaluation.
#[derive(PartialEq, Debug)]
pub enum Expr {
    LiteralExpr(LiteralExpr),
    UnaryExpr(UnaryExpr),
    BinaryExpr(BinaryExpr),
    GroupingExpr(GroupingExpr),
}

#[derive(PartialEq, Debug)]
pub struct LiteralExpr(pub Literal);

#[derive(PartialEq, Debug)]
pub struct UnaryExpr {
    pub op: UnaryOp,
    pub line: usize,
    pub expr: Box<Expr>,
}

#[derive(PartialEq, Debug)]
pub struct BinaryExpr {
    pub left: Box<Expr>,
    pub op: BinaryOp,
    pub line: usize,
    pub right: Box<Expr>,
}

/// A parenthesized expression.
#[derive(PartialEq, Debug)]
pub struct GroupingExpr(pub Box<Expr>);

} // verus!

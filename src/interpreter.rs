//! The evaluator: reduces an expression tree to a value by structural
//! recursion, checking the types of operands at run time.
//!
//! Numbers are 32-bit floating point. The evaluator holds them as decimal
//! text and leaves their arithmetic and ordering to a function that the
//! caller supplies: `numeric(op, a, b)` is the value of `a op b` for two
//! numbers, a number for `+ - * /` and a boolean for the comparisons and
//! equalities. Negation flips the sign of the text.

use vstd::prelude::*;
use crate::error_reporter::{data_error, RuntimeError};
use crate::grammar::{binary_name, rendered, unary_name, BinaryOp, Expr, GroupingExpr, Literal, UnaryOp, Value};

verus! {

/// Number arithmetic as a mathematical function of an operator and the
/// texts of two numbers.
pub type Numeric = spec_fn(BinaryOp, Seq<char>, Seq<char>) -> Value;

/// An evaluation failure: the operator's line and the message.
pub struct Failure {
    pub line: nat,
    pub message: Seq<char>,
}

/// `numeric` computes `num`: whatever it returns is what `num` gives.
pub open spec fn computes<F: Fn(BinaryOp, String, String) -> Literal>(numeric: F, num: Numeric) -> bool {
    forall|op: BinaryOp, a: String, b: String, r: Literal|
        #[trigger] numeric.ensures((op, a, b), r) ==> r@ == num(op, a@, b@)
}

/// `numeric` can be called on any operator and numbers.
pub open spec fn total<F: Fn(BinaryOp, String, String) -> Literal>(numeric: F) -> bool {
    forall|op: BinaryOp, a: String, b: String| #[trigger] numeric.requires((op, a, b))
}

/// The text of the negation of the number written `n`.
pub open spec fn negated(n: Seq<char>) -> Seq<char> {
    if n.len() > 0 && n[0] == '-' {
        n.drop_first()
    } else {
        seq!['-'] + n
    }
}

pub open spec fn unary_failure(op: UnaryOp, line: nat, v: Value) -> Failure {
    Failure {
        line,
        message: "Cannot perform '"@ + unary_name(op) + "' on operand '"@ + rendered(v) + "'"@,
    }
}

pub open spec fn binary_failure(op: BinaryOp, line: nat, l: Value, r: Value) -> Failure {
    Failure {
        line,
        message: "Cannot perform '"@ + binary_name(op) + "' on operands '"@ + rendered(l) + "' and '"@
            + rendered(r) + "'"@,
    }
}

/// `!` on a boolean, `-` on a number; anything else is a type error.
pub open spec fn apply_unary(op: UnaryOp, line: nat, v: Value) -> Result<Value, Failure> {
    match (op, v) {
        (UnaryOp::Not, Value::Boolean(b)) => Ok(Value::Boolean(!b)),
        (UnaryOp::Negate, Value::Number(n)) => Ok(Value::Number(negated(n))),
        _ => Err(unary_failure(op, line, v)),
    }
}

/// Binary operators: any operator on two numbers is number arithmetic;
/// `+` concatenates two strings; `==` and `!=` compare two strings or two
/// booleans. Every other pairing is a type error.
pub open spec fn apply_binary(op: BinaryOp, line: nat, l: Value, r: Value, num: Numeric) -> Result<Value, Failure> {
    match (l, r) {
        (Value::Number(a), Value::Number(b)) => Ok(num(op, a, b)),
        (Value::Str(a), Value::Str(b)) => match op {
            BinaryOp::Plus => Ok(Value::Str(a + b)),
            BinaryOp::Equal => Ok(Value::Boolean(a == b)),
            BinaryOp::NotEqual => Ok(Value::Boolean(a != b)),
            _ => Err(binary_failure(op, line, l, r)),
        },
        (Value::Boolean(a), Value::Boolean(b)) => match op {
            BinaryOp::Equal => Ok(Value::Boolean(a == b)),
            BinaryOp::NotEqual => Ok(Value::Boolean(a != b)),
            _ => Err(binary_failure(op, line, l, r)),
        },
        _ => Err(binary_failure(op, line, l, r)),
    }
}

/// The value of `e`, with number arithmetic `num`: operands are evaluated
/// left to right and the first failure ends the evaluation.
pub open spec fn eval(e: Expr, num: Numeric) -> Result<Value, Failure>
    decreases e,
{
    match e {
        Expr::LiteralExpr(l) => Ok(l.0@),
        Expr::UnaryExpr(u) => match eval(*u.expr, num) {
            Ok(v) => apply_unary(u.op, u.line as nat, v),
            Err(f) => Err(f),
        },
        Expr::BinaryExpr(b) => match eval(*b.left, num) {
            Ok(l) => match eval(*b.right, num) {
                Ok(r) => apply_binary(b.op, b.line as nat, l, r, num),
                Err(f) => Err(f),
            },
            Err(f) => Err(f),
        },
        Expr::GroupingExpr(g) => eval(*g.0, num),
    }
}

/// Grouping is semantically transparent: a parenthesized expression has the
/// value, or the failure, of the expression inside it.
pub proof fn lemma_grouping_transparent(e: Expr, num: Numeric)
    ensures
        eval(Expr::GroupingExpr(GroupingExpr(Box::new(e))), num) == eval(e, num),
{
}

pub open spec fn same_type(a: Value, b: Value) -> bool {
    match (a, b) {
        (Value::Number(_), Value::Number(_)) => true,
        (Value::Str(_), Value::Str(_)) => true,
        (Value::Boolean(_), Value::Boolean(_)) => true,
        (Value::Nil, Value::Nil) => true,
        _ => false,
    }
}

/// There is no equality across types: `==` and `!=` on values of two
/// different types fail with the type-error message.
pub proof fn lemma_no_cross_type_equality(op: BinaryOp, line: nat, l: Value, r: Value, num: Numeric)
    requires
        op is Equal || op is NotEqual,
        !same_type(l, r),
    ensures
        apply_binary(op, line, l, r, num) == Result::<Value, Failure>::Err(binary_failure(op, line, l, r)),
{
}

/// The outcome of an evaluation as a mathematical value.
pub open spec fn outcome(r: Result<Literal, RuntimeError>) -> Result<Value, Failure> {
    match r {
        Ok(v) => Ok(v@),
        Err(e) => Err(Failure { line: e.line as nat, message: e.message@ }),
    }
}

/// Evaluates expression trees.
pub struct Interpreter;

fn negate(n: String) -> (r: String)
    ensures
        r@ == negated(n@),
{
    let chars = crate::text::chars_of(&n);
    if chars.len() > 0 && chars[0] == '-' {
        let r = crate::text::text_of(&chars, 1, chars.len());
        assert(r@ =~= negated(n@));
        r
    } else {
        let r = String::from_str("-");
        proof {
            reveal_strlit("-");
        }
        let r = r.concat(n.as_str());
        assert(r@ =~= negated(n@));
        r
    }
}

impl Interpreter {
    /// Evaluates `expr`, with `numeric` for the arithmetic and ordering of
    /// numbers. For a `numeric` that computes `num`, the outcome is
    /// `eval(expr, num)`; a failure carries the data-error code.
    pub fn evaluate<F: Fn(BinaryOp, String, String) -> Literal>(&self, expr: &Expr, numeric: &F) -> (r: Result<Literal, RuntimeError>)
        requires
            total(*numeric),
        ensures
            forall|num: Numeric| #[trigger] computes(*numeric, num) ==> outcome(r) == eval(*expr, num),
            r matches Err(e) ==> e.exit_code == 65,
        decreases expr,
    {
        match expr {
            Expr::LiteralExpr(l) => Ok(l.0.copy()),
            Expr::UnaryExpr(u) => {
                let v = match self.evaluate(&u.expr, numeric) {
                    Ok(v) => v,
                    Err(e) => return Err(e),
                };
                self.visit_unary_expr(u.op, u.line, v)
            },
            Expr::BinaryExpr(b) => {
                let l = match self.evaluate(&b.left, numeric) {
                    Ok(v) => v,
                    Err(e) => return Err(e),
                };
                let r = match self.evaluate(&b.right, numeric) {
                    Ok(v) => v,
                    Err(e) => return Err(e),
                };
                self.visit_binary_expr(b.op, b.line, l, r, numeric)
            },
            Expr::GroupingExpr(g) => self.evaluate(&g.0, numeric),
        }
    }

    fn visit_unary_expr(&self, op: UnaryOp, line: usize, v: Literal) -> (r: Result<Literal, RuntimeError>)
        ensures
            outcome(r) == apply_unary(op, line as nat, v@),
            r matches Err(e) ==> e.exit_code == 65,
    {
        match (op, v) {
            (UnaryOp::Not, Literal::Boolean(b)) => Ok(Literal::Boolean(!b)),
            (UnaryOp::Negate, Literal::Number(n)) => Ok(Literal::Number(negate(n))),
            (op, v) => {
                let mut message = String::from_str("Cannot perform '");
                message.append(op.name());
                message.append("' on operand '");
                message.append(v.render().as_str());
                message.append("'");
                proof {
                    assert(message@ =~= unary_failure(op, line as nat, v@).message);
                }
                Err(RuntimeError { line, message, exit_code: data_error() })
            },
        }
    }

    fn visit_binary_expr<F: Fn(BinaryOp, String, String) -> Literal>(
        &self,
        op: BinaryOp,
        line: usize,
        l: Literal,
        r: Literal,
        numeric: &F,
    ) -> (res: Result<Literal, RuntimeError>)
        requires
            total(*numeric),
        ensures
            forall|num: Numeric| #[trigger] computes(*numeric, num) ==> outcome(res) == apply_binary(op, line as nat, l@, r@, num),
            res matches Err(e) ==> e.exit_code == 65,
    {
        let ghost lv = l@;
        let ghost rv = r@;
        match (l, r) {
            (Literal::Number(a), Literal::Number(b)) => {
                let v = numeric(op, a, b);
                Ok(v)
            },
            (Literal::String(a), Literal::String(b)) => match op {
                BinaryOp::Plus => {
                    let mut s = a;
                    s.append(b.as_str());
                    Ok(Literal::String(s))
                },
                BinaryOp::Equal => Ok(Literal::Boolean(a == b)),
                BinaryOp::NotEqual => Ok(Literal::Boolean(!(a == b))),
                _ => Err(Self::type_error(op, line, &Literal::String(a), &Literal::String(b))),
            },
            (Literal::Boolean(a), Literal::Boolean(b)) => match op {
                BinaryOp::Equal => Ok(Literal::Boolean(a == b)),
                BinaryOp::NotEqual => Ok(Literal::Boolean(a != b)),
                _ => Err(Self::type_error(op, line, &Literal::Boolean(a), &Literal::Boolean(b))),
            },
            (l, r) => Err(Self::type_error(op, line, &l, &r)),
        }
    }

    fn type_error(op: BinaryOp, line: usize, l: &Literal, r: &Literal) -> (e: RuntimeError)
        ensures
            e.line == line,
            e.message@ == binary_failure(op, line as nat, l@, r@).message,
            e.exit_code == 65,
    {
        let mut message = String::from_str("Cannot perform '");
        message.append(op.name());
        message.append("' on operands '");
        message.append(l.render().as_str());
        message.append("' and '");
        message.append(r.render().as_str());
        message.append("'");
        proof {
            assert(message@ =~= binary_failure(op, line as nat, l@, r@).message);
        }
        RuntimeError { line, message, exit_code: data_error() }
    }
}

} // verus!

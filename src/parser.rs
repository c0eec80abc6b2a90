//! The parser: a recursive descent over the grammar
//!
//! ```text
//! expression → equality
//! equality   → comparison ( ( "!=" | "==" ) comparison )*
//! comparison → term ( ( ">" | ">=" | "<" | "<=" ) term )*
//! term       → factor ( ( "-" | "+" ) factor )*
//! factor     → unary ( ( "/" | "*" ) unary )*
//! unary      → ( "!" | "-" ) unary | primary
//! primary    → NUMBER | STRING | "true" | "false" | "nil" | "(" expression ")"
//! ```
//!
//! Binary operators associate to the left. The first error ends the parse.

use vstd::prelude::*;
use crate::error_reporter::{data_error, diagnostic, location_of, ErrorReporter};
use crate::grammar::{BinaryExpr, BinaryOp, Expr, GroupingExpr, Literal, LiteralExpr, UnaryExpr, UnaryOp};
use crate::token::{Token, TokenType};

verus! {

/// The binary precedence levels, loosest first.
#[derive(Clone, Copy)]
pub enum Level {
    Equality,
    Comparison,
    Term,
    Factor,
}

/// Why a parse failed.
#[derive(Clone, Copy, Debug, PartialEq, Eq)]
pub enum ParseProblem {
    /// A literal or `(` was expected.
    ExpectedPrimary,
    /// A `)` was expected.
    ExpectedRightParen,
}

pub open spec fn problem_message(x: ParseProblem) -> Seq<char> {
    match x {
        ParseProblem::ExpectedPrimary => "Expected a literal or '('."@,
        ParseProblem::ExpectedRightParen => "Expected ')'."@,
    }
}

impl ParseProblem {
    pub fn message(&self) -> (r: &'static str)
        ensures
            r@ == problem_message(*self),
    {
        match self {
            ParseProblem::ExpectedPrimary => "Expected a literal or '('.",
            ParseProblem::ExpectedRightParen => "Expected ')'.",
        }
    }
}

/// The outcome of parsing from a position: the tree and the position after
/// it, or the position of the offending token and the problem.
pub type Parsed = Result<(Expr, int), (int, ParseProblem)>;

/// A token sequence the parser accepts: it ends with the end marker.
pub open spec fn well_formed(t: Seq<Token>) -> bool {
    t.len() > 0 && t.last().typ is EOF
}

/// The operator of `typ` at binary level `level`, if it is one.
pub open spec fn binary_operator(level: Level, typ: TokenType) -> Option<BinaryOp> {
    match level {
        Level::Equality => match typ {
            TokenType::EqualEqual => Some(BinaryOp::Equal),
            TokenType::BangEqual => Some(BinaryOp::NotEqual),
            _ => None,
        },
        Level::Comparison => match typ {
            TokenType::Less => Some(BinaryOp::LessThan),
            TokenType::LessEqual => Some(BinaryOp::LessThanOrEqual),
            TokenType::Greater => Some(BinaryOp::GreaterThan),
            TokenType::GreaterEqual => Some(BinaryOp::GreaterThanOrEqual),
            _ => None,
        },
        Level::Term => match typ {
            TokenType::Plus => Some(BinaryOp::Plus),
            TokenType::Minus => Some(BinaryOp::Minus),
            _ => None,
        },
        Level::Factor => match typ {
            TokenType::Slash => Some(BinaryOp::Divide),
            TokenType::Star => Some(BinaryOp::Multiply),
            _ => None,
        },
    }
}

pub open spec fn unary_operator(typ: TokenType) -> Option<UnaryOp> {
    match typ {
        TokenType::Bang => Some(UnaryOp::Not),
        TokenType::Minus => Some(UnaryOp::Negate),
        _ => None,
    }
}

pub open spec fn level_rank(level: Level) -> nat {
    match level {
        Level::Equality => 9,
        Level::Comparison => 7,
        Level::Term => 5,
        Level::Factor => 3,
    }
}

/// expression → equality
pub open spec fn parse_expression(t: Seq<Token>, p: int) -> Parsed
    decreases t.len() - p, 10nat,
{
    parse_level(t, p, Level::Equality)
}

/// A binary level: one operand, then any number of operator and operand
/// pairs of the level, folded to the left.
pub open spec fn parse_level(t: Seq<Token>, p: int, level: Level) -> Parsed
    decreases t.len() - p, level_rank(level),
{
    match parse_operand(t, p, level) {
        Ok((left, q)) => if p < q <= t.len() {
            parse_tail(t, q, level, left)
        } else {
            Ok((left, q))
        },
        Err(x) => Err(x),
    }
}

/// An operand of a binary level: the next tighter level, or a unary.
pub open spec fn parse_operand(t: Seq<Token>, p: int, level: Level) -> Parsed
    decreases t.len() - p, (level_rank(level) - 1) as nat,
{
    match level {
        Level::Equality => parse_level(t, p, Level::Comparison),
        Level::Comparison => parse_level(t, p, Level::Term),
        Level::Term => parse_level(t, p, Level::Factor),
        Level::Factor => parse_unary(t, p),
    }
}

/// The operator and operand pairs after `left`.
pub open spec fn parse_tail(t: Seq<Token>, p: int, level: Level, left: Expr) -> Parsed
    decreases t.len() - p, 0nat,
{
    if 0 <= p < t.len() && binary_operator(level, t[p].typ) is Some {
        match parse_operand(t, p + 1, level) {
            Ok((right, q)) => {
                let e = Expr::BinaryExpr(
                    BinaryExpr {
                        left: Box::new(left),
                        op: binary_operator(level, t[p].typ)->0,
                        line: t[p].line,
                        right: Box::new(right),
                    },
                );
                if p < q <= t.len() {
                    parse_tail(t, q, level, e)
                } else {
                    Ok((e, q))
                }
            },
            Err(x) => Err(x),
        }
    } else {
        Ok((left, p))
    }
}

/// unary → ( "!" | "-" ) unary | primary
pub open spec fn parse_unary(t: Seq<Token>, p: int) -> Parsed
    decreases t.len() - p, 1nat,
{
    if 0 <= p < t.len() && unary_operator(t[p].typ) is Some {
        match parse_unary(t, p + 1) {
            Ok((e, q)) => Ok(
                (
                    Expr::UnaryExpr(
                        UnaryExpr { op: unary_operator(t[p].typ)->0, line: t[p].line, expr: Box::new(e) },
                    ),
                    q,
                ),
            ),
            Err(x) => Err(x),
        }
    } else {
        parse_primary(t, p)
    }
}

/// primary → NUMBER | STRING | "true" | "false" | "nil" | "(" expression ")"
pub open spec fn parse_primary(t: Seq<Token>, p: int) -> Parsed
    decreases t.len() - p, 0nat,
{
    if !(0 <= p < t.len()) {
        Err((p, ParseProblem::ExpectedPrimary))
    } else {
        match t[p].typ {
            TokenType::Number(n) => Ok((Expr::LiteralExpr(LiteralExpr(Literal::Number(n))), p + 1)),
            TokenType::String(s) => Ok((Expr::LiteralExpr(LiteralExpr(Literal::String(s))), p + 1)),
            TokenType::True => Ok((Expr::LiteralExpr(LiteralExpr(Literal::Boolean(true))), p + 1)),
            TokenType::False => Ok((Expr::LiteralExpr(LiteralExpr(Literal::Boolean(false))), p + 1)),
            TokenType::Nil => Ok((Expr::LiteralExpr(LiteralExpr(Literal::Nil)), p + 1)),
            TokenType::LeftParen => match parse_expression(t, p + 1) {
                Ok((e, q)) => if 0 <= q < t.len() && t[q].typ is RightParen {
                    Ok((Expr::GroupingExpr(GroupingExpr(Box::new(e))), q + 1))
                } else {
                    Err((q, ParseProblem::ExpectedRightParen))
                },
                Err(x) => Err(x),
            },
            _ => Err((p, ParseProblem::ExpectedPrimary)),
        }
    }
}

/// What a parse from `p` may return: it moves past at least one token and
/// never past the end marker, and an error stands at a token.
pub open spec fn sound(t: Seq<Token>, p: int, r: Parsed) -> bool {
    match r {
        Ok((_, q)) => p < q < t.len(),
        Err((q, _)) => 0 <= q < t.len(),
    }
}

pub proof fn lemma_expression(t: Seq<Token>, p: int)
    requires
        well_formed(t),
        0 <= p < t.len(),
    ensures
        sound(t, p, parse_expression(t, p)),
    decreases t.len() - p, 10nat,
{
    lemma_level(t, p, Level::Equality);
}

pub proof fn lemma_level(t: Seq<Token>, p: int, level: Level)
    requires
        well_formed(t),
        0 <= p < t.len(),
    ensures
        sound(t, p, parse_level(t, p, level)),
    decreases t.len() - p, level_rank(level),
{
    lemma_operand(t, p, level);
    if let Ok((left, q)) = parse_operand(t, p, level) {
        lemma_tail(t, q, level, left);
    }
}

pub proof fn lemma_operand(t: Seq<Token>, p: int, level: Level)
    requires
        well_formed(t),
        0 <= p < t.len(),
    ensures
        sound(t, p, parse_operand(t, p, level)),
    decreases t.len() - p, (level_rank(level) - 1) as nat,
{
    match level {
        Level::Equality => lemma_level(t, p, Level::Comparison),
        Level::Comparison => lemma_level(t, p, Level::Term),
        Level::Term => lemma_level(t, p, Level::Factor),
        Level::Factor => lemma_unary(t, p),
    }
}

/// The tail stays within the tokens and never moves back.
pub proof fn lemma_tail(t: Seq<Token>, p: int, level: Level, left: Expr)
    requires
        well_formed(t),
        0 <= p < t.len(),
    ensures
        match parse_tail(t, p, level, left) {
            Ok((_, q)) => p <= q < t.len(),
            Err((q, _)) => 0 <= q < t.len(),
        },
    decreases t.len() - p, 0nat,
{
    if binary_operator(level, t[p].typ) is Some {
        lemma_operand(t, p + 1, level);
        if let Ok((right, q)) = parse_operand(t, p + 1, level) {
            let e = Expr::BinaryExpr(
                BinaryExpr {
                    left: Box::new(left),
                    op: binary_operator(level, t[p].typ)->0,
                    line: t[p].line,
                    right: Box::new(right),
                },
            );
            lemma_tail(t, q, level, e);
        }
    }
}

pub proof fn lemma_unary(t: Seq<Token>, p: int)
    requires
        well_formed(t),
        0 <= p < t.len(),
    ensures
        sound(t, p, parse_unary(t, p)),
    decreases t.len() - p, 1nat,
{
    if unary_operator(t[p].typ) is Some {
        lemma_unary(t, p + 1);
    } else {
        lemma_primary(t, p);
    }
}

pub proof fn lemma_primary(t: Seq<Token>, p: int)
    requires
        well_formed(t),
        0 <= p < t.len(),
    ensures
        sound(t, p, parse_primary(t, p)),
    decreases t.len() - p, 0nat,
{
    if t[p].typ is LeftParen {
        lemma_expression(t, p + 1);
    }
}


/// An executable outcome of parsing is the outcome `s`, position for
/// position.
pub open spec fn agrees(r: Result<(Expr, usize), (usize, ParseProblem)>, s: Parsed) -> bool {
    match r {
        Ok((e, q)) => s == Parsed::Ok((e, q as int)),
        Err((q, x)) => s == Parsed::Err((q as int, x)),
    }
}

fn binary_operator_of(level: Level, typ: &TokenType) -> (r: Option<BinaryOp>)
    ensures
        r == binary_operator(level, *typ),
{
    match level {
        Level::Equality => match typ {
            TokenType::EqualEqual => Some(BinaryOp::Equal),
            TokenType::BangEqual => Some(BinaryOp::NotEqual),
            _ => None,
        },
        Level::Comparison => match typ {
            TokenType::Less => Some(BinaryOp::LessThan),
            TokenType::LessEqual => Some(BinaryOp::LessThanOrEqual),
            TokenType::Greater => Some(BinaryOp::GreaterThan),
            TokenType::GreaterEqual => Some(BinaryOp::GreaterThanOrEqual),
            _ => None,
        },
        Level::Term => match typ {
            TokenType::Plus => Some(BinaryOp::Plus),
            TokenType::Minus => Some(BinaryOp::Minus),
            _ => None,
        },
        Level::Factor => match typ {
            TokenType::Slash => Some(BinaryOp::Divide),
            TokenType::Star => Some(BinaryOp::Multiply),
            _ => None,
        },
    }
}

fn unary_operator_of(typ: &TokenType) -> (r: Option<UnaryOp>)
    ensures
        r == unary_operator(*typ),
{
    match typ {
        TokenType::Bang => Some(UnaryOp::Not),
        TokenType::Minus => Some(UnaryOp::Negate),
        _ => None,
    }
}

/// Whether a token starts a statement.
pub open spec fn starts_statement(typ: TokenType) -> bool {
    typ is Class || typ is Fun || typ is Var || typ is For || typ is If || typ is While
        || typ is Print || typ is Return
}

/// Where skipping to a statement boundary from `p` stops: at the end marker,
/// after a `;`, or before a token that starts a statement.
pub open spec fn boundary_from(t: Seq<Token>, p: int) -> int
    decreases t.len() - p,
{
    if !(1 <= p < t.len()) || t[p].typ is EOF || t[p - 1].typ is SemiColon || starts_statement(
        t[p].typ,
    ) {
        p
    } else {
        boundary_from(t, p + 1)
    }
}

/// Parses a sequence of tokens into one expression. Diagnostics go to the
/// reporter that each parse is handed.
pub struct Parser {
    tokens: Vec<Token>,
    curr: usize,
}

impl Parser {
    /// The tokens are well formed and the position is one of them.
    pub closed spec fn wf(&self) -> bool {
        &&& well_formed(self.tokens@)
        &&& self.curr < self.tokens@.len()
        &&& self.tokens@.len() <= usize::MAX
    }

    pub closed spec fn tokens(&self) -> Seq<Token> {
        self.tokens@
    }

    /// The position of the next token to be consumed.
    pub closed spec fn position(&self) -> int {
        self.curr as int
    }

    pub fn new(tokens: Vec<Token>) -> (r: Parser)
        requires
            well_formed(tokens@),
        ensures
            r.wf(),
            r.tokens() == tokens@,
            r.position() == 0,
    {
        // A vector's length is a usize: this call makes that known.
        let _ = tokens.len();
        Parser { tokens, curr: 0 }
    }

    /// Parses one expression from the current position. On success the
    /// position moves past it; on failure the diagnostic is reported at the
    /// offending token and nothing is returned.
    pub fn parse(&mut self, reporter: &mut ErrorReporter) -> (r: Option<Expr>)
        requires
            old(self).wf(),
        ensures
            final(self).wf(),
            final(self).tokens() == old(self).tokens(),
            match parse_expression(old(self).tokens(), old(self).position()) {
                Ok((e, q)) => {
                    &&& r == Some(e)
                    &&& final(self).position() == q
                    &&& *final(reporter) == *old(reporter)
                },
                Err((q, x)) => {
                    &&& r is None
                    &&& final(self).position() == old(self).position()
                    &&& ErrorReporter::reported(
                        *old(reporter),
                        *final(reporter),
                        diagnostic(
                            old(self).tokens()[q].line as nat,
                            location_of(old(self).tokens()[q]),
                            problem_message(x),
                        ),
                        65,
                    )
                },
            },
    {
        proof {
            lemma_expression(self.tokens@, self.curr as int);
        }
        match self.expression(self.curr) {
            Ok((e, q)) => {
                self.curr = q;
                Some(e)
            },
            Err((q, x)) => {
                reporter.parse_error(&self.tokens[q], x.message(), data_error());
                None
            },
        }
    }

    fn expression(&self, p: usize) -> (r: Result<(Expr, usize), (usize, ParseProblem)>)
        requires
            well_formed(self.tokens@),
            p < self.tokens@.len() <= usize::MAX,
        ensures
            agrees(r, parse_expression(self.tokens@, p as int)),
        decreases self.tokens@.len() - p, 10nat,
    {
        self.parse_binary_expr(p, Level::Equality)
    }

    /// One operand, then the operator and operand pairs of `level`, folded
    /// to the left.
    fn parse_binary_expr(&self, p: usize, level: Level) -> (r: Result<(Expr, usize), (usize, ParseProblem)>)
        requires
            well_formed(self.tokens@),
            p < self.tokens@.len() <= usize::MAX,
        ensures
            agrees(r, parse_level(self.tokens@, p as int, level)),
        decreases self.tokens@.len() - p, level_rank(level),
    {
        let ghost t = self.tokens@;
        proof {
            lemma_operand(t, p as int, level);
        }
        let (mut left, mut q) = match self.operand(p, level) {
            Ok(parsed) => parsed,
            Err(x) => return Err(x),
        };
        let ghost start = q;
        let ghost first = left;
        loop
            invariant
                well_formed(t),
                t == self.tokens@,
                t.len() <= usize::MAX,
                parse_level(t, p as int, level) == parse_tail(t, start as int, level, first),
                start as int <= q < t.len(),
                p < start,
                parse_tail(t, start as int, level, first) == parse_tail(t, q as int, level, left),
            ensures
                parse_tail(t, start as int, level, first) == Parsed::Ok((left, q as int)),
            decreases t.len() - q,
        {
            let op = match binary_operator_of(level, &self.tokens[q].typ) {
                Some(op) => op,
                None => break,
            };
            proof {
                lemma_operand(t, q + 1, level);
            }
            let (right, next) = match self.operand(q + 1, level) {
                Ok(parsed) => parsed,
                Err(x) => return Err(x),
            };
            left = Expr::BinaryExpr(
                BinaryExpr { left: Box::new(left), op, line: self.tokens[q].line, right: Box::new(right) },
            );
            q = next;
        }
        Ok((left, q))
    }

    fn operand(&self, p: usize, level: Level) -> (r: Result<(Expr, usize), (usize, ParseProblem)>)
        requires
            well_formed(self.tokens@),
            p < self.tokens@.len() <= usize::MAX,
        ensures
            agrees(r, parse_operand(self.tokens@, p as int, level)),
        decreases self.tokens@.len() - p, (level_rank(level) - 1) as nat,
    {
        match level {
            Level::Equality => self.parse_binary_expr(p, Level::Comparison),
            Level::Comparison => self.parse_binary_expr(p, Level::Term),
            Level::Term => self.parse_binary_expr(p, Level::Factor),
            Level::Factor => self.parse_unary(p),
        }
    }

    fn parse_unary(&self, p: usize) -> (r: Result<(Expr, usize), (usize, ParseProblem)>)
        requires
            well_formed(self.tokens@),
            p < self.tokens@.len() <= usize::MAX,
        ensures
            agrees(r, parse_unary(self.tokens@, p as int)),
        decreases self.tokens@.len() - p, 1nat,
    {
        match unary_operator_of(&self.tokens[p].typ) {
            Some(op) => {
                let line = self.tokens[p].line;
                match self.parse_unary(p + 1) {
                    Ok((e, q)) => Ok((Expr::UnaryExpr(UnaryExpr { op, line, expr: Box::new(e) }), q)),
                    Err(x) => Err(x),
                }
            },
            None => self.parse_primary(p),
        }
    }

    fn parse_primary(&self, p: usize) -> (r: Result<(Expr, usize), (usize, ParseProblem)>)
        requires
            well_formed(self.tokens@),
            p < self.tokens@.len() <= usize::MAX,
        ensures
            agrees(r, parse_primary(self.tokens@, p as int)),
        decreases self.tokens@.len() - p, 0nat,
    {
        match &self.tokens[p].typ {
            TokenType::Number(n) => Ok((Expr::LiteralExpr(LiteralExpr(Literal::Number(n.clone()))), p + 1)),
            TokenType::String(s) => Ok((Expr::LiteralExpr(LiteralExpr(Literal::String(s.clone()))), p + 1)),
            TokenType::True => Ok((Expr::LiteralExpr(LiteralExpr(Literal::Boolean(true))), p + 1)),
            TokenType::False => Ok((Expr::LiteralExpr(LiteralExpr(Literal::Boolean(false))), p + 1)),
            TokenType::Nil => Ok((Expr::LiteralExpr(LiteralExpr(Literal::Nil)), p + 1)),
            TokenType::LeftParen => {
                proof {
                    lemma_expression(self.tokens@, p + 1);
                }
                match self.expression(p + 1) {
                    Ok((e, q)) => if matches!(self.tokens[q].typ, TokenType::RightParen) {
                        Ok((Expr::GroupingExpr(GroupingExpr(Box::new(e))), q + 1))
                    } else {
                        Err((q, ParseProblem::ExpectedRightParen))
                    },
                    Err(x) => Err(x),
                }
            },
            _ => Err((p, ParseProblem::ExpectedPrimary)),
        }
    }

    /// Skips to the next statement boundary: past the current token, then up
    /// to the end marker, past a `;`, or to a token that starts a statement.
    pub fn synchronize(&mut self)
        requires
            old(self).wf(),
        ensures
            final(self).wf(),
            final(self).tokens() == old(self).tokens(),
            final(self).position() == if old(self).tokens()[old(self).position()].typ is EOF {
                old(self).position()
            } else {
                boundary_from(old(self).tokens(), old(self).position() + 1)
            },
    {
        if matches!(self.tokens[self.curr].typ, TokenType::EOF) {
            return;
        }
        self.curr = self.curr + 1;
        while !matches!(self.tokens[self.curr].typ, TokenType::EOF)
            invariant
                well_formed(self.tokens@),
                self.tokens@ == old(self).tokens@,
                self.tokens@.len() <= usize::MAX,
                !(old(self).tokens@[old(self).curr as int].typ is EOF),
                1 <= self.curr < self.tokens@.len(),
                boundary_from(self.tokens@, old(self).curr + 1) == boundary_from(self.tokens@, self.curr as int),
            decreases self.tokens@.len() - self.curr,
        {
            if matches!(self.tokens[self.curr - 1].typ, TokenType::SemiColon) {
                return;
            }
            match self.tokens[self.curr].typ {
                TokenType::Class | TokenType::Fun | TokenType::Var | TokenType::For | TokenType::If
                | TokenType::While | TokenType::Print | TokenType::Return => return,
                _ => {},
            }
            self.curr = self.curr + 1;
        }
    }
}


/// Where an expression is expected at the end marker, parsing fails there
/// with "Expected a literal or '('.".
pub proof fn lemma_expression_at_end(t: Seq<Token>, p: int)
    requires
        0 <= p < t.len(),
        t[p].typ is EOF,
    ensures
        parse_expression(t, p) == Parsed::Err((p, ParseProblem::ExpectedPrimary)),
        location_of(t[p]) == " at end"@,
{
    assert(parse_primary(t, p) == Parsed::Err((p, ParseProblem::ExpectedPrimary)));
    assert(parse_unary(t, p) == Parsed::Err((p, ParseProblem::ExpectedPrimary)));
    assert(parse_level(t, p, Level::Factor) == Parsed::Err((p, ParseProblem::ExpectedPrimary)));
    assert(parse_level(t, p, Level::Term) == Parsed::Err((p, ParseProblem::ExpectedPrimary)));
    assert(parse_level(t, p, Level::Comparison) == Parsed::Err((p, ParseProblem::ExpectedPrimary)));
}


/// How tightly a binary level binds: equality loosest, factor tightest.
pub open spec fn binding(level: Level) -> nat {
    match level {
        Level::Equality => 0,
        Level::Comparison => 1,
        Level::Term => 2,
        Level::Factor => 3,
    }
}

/// The level of a binary operator.
pub open spec fn level_of(op: BinaryOp) -> Level {
    match op {
        BinaryOp::Equal | BinaryOp::NotEqual => Level::Equality,
        BinaryOp::LessThan | BinaryOp::LessThanOrEqual | BinaryOp::GreaterThan
        | BinaryOp::GreaterThanOrEqual => Level::Comparison,
        BinaryOp::Plus | BinaryOp::Minus => Level::Term,
        BinaryOp::Multiply | BinaryOp::Divide => Level::Factor,
    }
}

/// How tightly the token `typ` binds as a binary operator, if it is one.
pub open spec fn operator_binding(typ: TokenType) -> Option<nat> {
    match typ {
        TokenType::EqualEqual | TokenType::BangEqual => Some(0),
        TokenType::Less | TokenType::LessEqual | TokenType::Greater | TokenType::GreaterEqual => Some(1),
        TokenType::Plus | TokenType::Minus => Some(2),
        TokenType::Slash | TokenType::Star => Some(3),
        _ => None,
    }
}

/// How tightly the root of a tree binds: a binary node by its level, then
/// unary nodes, then literals and groupings.
pub open spec fn tightness(e: Expr) -> nat {
    match e {
        Expr::BinaryExpr(b) => binding(level_of(b.op)),
        Expr::UnaryExpr(_) => 4,
        _ => 5,
    }
}

/// A tree in which every operand binds as the grammar asks: the operand of a
/// unary is a unary or a primary; the left operand of a binary binds at least
/// as tightly as its operator, the right one more tightly. Groupings reset
/// the level.
pub open spec fn respects_precedence(e: Expr) -> bool
    decreases e,
{
    match e {
        Expr::LiteralExpr(_) => true,
        Expr::UnaryExpr(u) => respects_precedence(*u.expr) && tightness(*u.expr) >= 4,
        Expr::BinaryExpr(b) => {
            &&& respects_precedence(*b.left)
            &&& respects_precedence(*b.right)
            &&& tightness(*b.left) >= binding(level_of(b.op))
            &&& tightness(*b.right) > binding(level_of(b.op))
        },
        Expr::GroupingExpr(g) => respects_precedence(*g.0),
    }
}

/// The number of tokens that spell a tree.
pub open spec fn size(e: Expr) -> nat
    decreases e,
{
    match e {
        Expr::LiteralExpr(_) => 1,
        Expr::UnaryExpr(u) => 1 + size(*u.expr),
        Expr::BinaryExpr(b) => size(*b.left) + 1 + size(*b.right),
        Expr::GroupingExpr(g) => size(*g.0) + 2,
    }
}

/// The literal that a token stands for, if any.
pub open spec fn literal_of(typ: TokenType) -> Option<Literal> {
    match typ {
        TokenType::Number(n) => Some(Literal::Number(n)),
        TokenType::String(s) => Some(Literal::String(s)),
        TokenType::True => Some(Literal::Boolean(true)),
        TokenType::False => Some(Literal::Boolean(false)),
        TokenType::Nil => Some(Literal::Nil),
        _ => None,
    }
}

/// The tokens from `p` on spell `e`: its operators, literals and
/// parentheses in order, each operator on the line its node records.
pub open spec fn spells(t: Seq<Token>, p: int, e: Expr) -> bool
    decreases e,
{
    0 <= p && p + size(e) <= t.len() && match e {
        Expr::LiteralExpr(l) => literal_of(t[p].typ) == Some(l.0),
        Expr::UnaryExpr(u) => {
            &&& unary_operator(t[p].typ) == Some(u.op)
            &&& t[p].line == u.line
            &&& spells(t, p + 1, *u.expr)
        },
        Expr::BinaryExpr(b) => {
            let m = p + size(*b.left);
            &&& spells(t, p, *b.left)
            &&& binary_operator(level_of(b.op), t[m].typ) == Some(b.op)
            &&& t[m].line == b.line
            &&& spells(t, m + 1, *b.right)
        },
        Expr::GroupingExpr(g) => {
            &&& t[p].typ is LeftParen
            &&& spells(t, p + 1, *g.0)
            &&& t[p + 1 + size(*g.0)].typ is RightParen
        },
    }
}

/// The token at `q` does not continue an expression at a level tighter than
/// `level`.
pub open spec fn ends_tighter(t: Seq<Token>, q: int, level: Level) -> bool {
    0 <= q < t.len() && (operator_binding(t[q].typ) matches Some(k) ==> k <= binding(level))
}

proof fn lemma_binding_matches(level: Level, typ: TokenType)
    ensures
        binary_operator(level, typ) is Some <==> operator_binding(typ) == Some(binding(level)),
{
}

proof fn lemma_size_positive(e: Expr)
    ensures
        size(e) >= 1,
{
}

/// A tree that binds at least as tightly as `level`, spelled from `p`:
/// parsing the level from `p` reads exactly that tree and goes on with the
/// level's operators after it.
proof fn lemma_level_spelled(t: Seq<Token>, p: int, e: Expr, level: Level)
    requires
        respects_precedence(e),
        tightness(e) >= binding(level),
        spells(t, p, e),
        ends_tighter(t, p + size(e), level),
    ensures
        parse_level(t, p, level) == parse_tail(t, p + size(e), level, e),
    decreases e, (10 - 2 * binding(level)) as nat,
{
    lemma_size_positive(e);
    if tightness(e) > binding(level) {
        lemma_operand_spelled(t, p, e, level);
    } else {
        let b = e->BinaryExpr_0;
        let m = p + size(*b.left);
        lemma_binding_matches(level, t[m].typ);
        lemma_binding_matches(level_of(b.op), t[m].typ);
        lemma_level_spelled(t, p, *b.left, level);
        lemma_operand_spelled(t, m + 1, *b.right, level);
        lemma_size_positive(*b.right);
        assert(level_of(b.op) == level);
    }
}

/// A tree that binds more tightly than `level`, spelled from `p` and
/// followed by a token that does not continue it: the level's operand is
/// exactly that tree.
proof fn lemma_operand_spelled(t: Seq<Token>, p: int, e: Expr, level: Level)
    requires
        respects_precedence(e),
        tightness(e) > binding(level),
        spells(t, p, e),
        ends_tighter(t, p + size(e), level),
    ensures
        parse_operand(t, p, level) == Parsed::Ok((e, p + size(e))),
    decreases e, (9 - 2 * binding(level)) as nat,
{
    lemma_size_positive(e);
    let q = p + size(e);
    match level {
        Level::Equality => {
            lemma_level_spelled(t, p, e, Level::Comparison);
            lemma_binding_matches(Level::Comparison, t[q].typ);
        },
        Level::Comparison => {
            lemma_level_spelled(t, p, e, Level::Term);
            lemma_binding_matches(Level::Term, t[q].typ);
        },
        Level::Term => {
            lemma_level_spelled(t, p, e, Level::Factor);
            lemma_binding_matches(Level::Factor, t[q].typ);
        },
        Level::Factor => {
            lemma_unary_spelled(t, p, e);
        },
    }
}

/// A unary or a primary, spelled from `p`, is what the unary rule reads.
proof fn lemma_unary_spelled(t: Seq<Token>, p: int, e: Expr)
    requires
        respects_precedence(e),
        tightness(e) >= 4,
        spells(t, p, e),
        p + size(e) < t.len(),
    ensures
        parse_unary(t, p) == Parsed::Ok((e, p + size(e))),
    decreases e, 1nat,
{
    lemma_size_positive(e);
    match e {
        Expr::UnaryExpr(u) => {
            lemma_unary_spelled(t, p + 1, *u.expr);
        },
        Expr::GroupingExpr(g) => {
            let inner = *g.0;
            lemma_level_spelled(t, p + 1, inner, Level::Equality);
            assert(parse_primary(t, p) == Parsed::Ok((e, p + size(e))));
        },
        Expr::LiteralExpr(l) => {
            assert(parse_primary(t, p) == Parsed::Ok((e, p + size(e))));
        },
        Expr::BinaryExpr(_) => {},
    }
}

/// Tokens that spell a tree, parenthesized wherever the precedence of its
/// operators asks, and followed by a token that is no binary operator (the
/// end marker, say), parse back to exactly that tree.
pub proof fn lemma_parse_spelled_tree(t: Seq<Token>, p: int, e: Expr)
    requires
        respects_precedence(e),
        spells(t, p, e),
        p + size(e) < t.len(),
        operator_binding(t[p + size(e)].typ) is None,
    ensures
        parse_expression(t, p) == Parsed::Ok((e, p + size(e))),
{
    lemma_level_spelled(t, p, e, Level::Equality);
    lemma_binding_matches(Level::Equality, t[p + size(e)].typ);
}

} // verus!

//! The abstract syntax tree the compiler consumes, as the parser hands it
//! over, together with the predicate saying which trees the language can
//! lower. Float literals carry the bit pattern of their IEEE-754 binary64
//! value.

use vstd::prelude::*;

verus! {

/// A statement node.
#[derive(Debug)]
pub enum Statement {
    Echo(Expression),
    Expression(Expression),
    /// Condition, then-branch, else-branch (possibly empty).
    IfElse(Expression, Vec<Statement>, Vec<Statement>),
    /// Condition and body.
    While(Expression, Vec<Statement>),
    /// Initializer, test, increment, body.
    For(Option<Expression>, Option<Expression>, Option<Expression>, Vec<Statement>),
    /// Name, parameter names, body.
    Function(String, Vec<String>, Vec<Statement>),
    Return(Option<Expression>),
    Const(String, Expression),
    Break,
}

/// An expression node.
#[derive(Debug)]
pub enum Expression {
    String(String),
    Integer(i64),
    /// The bit pattern of an IEEE-754 binary64 literal.
    Float(u64),
    True,
    False,
    Null,
    Array(Vec<Expression>),
    Infix(Box<Expression>, Op, Box<Expression>),
    Assign(Box<Expression>, Box<Expression>),
    Call(String, Vec<Expression>),
    Variable(String),
    Identifier(String),
    Index(Box<Expression>, Box<Expression>),
}

/// An infix operator.
#[derive(Debug, Clone, Copy, PartialEq, Eq, Structural)]
pub enum Op {
    Add,
    Subtract,
    Multiply,
    Divide,
    LessThan,
    GreaterThan,
    Concat,
}

/// Whether the compiler can lower this statement. `in_loop` says whether a
/// breakable scope is active; `break` is valid only then, and a function body
/// opens with it inactive.
pub open spec fn stmt_ok(s: Statement, in_loop: bool) -> bool
    decreases s,
{
    match s {
        Statement::Echo(e) => expr_ok(e),
        Statement::Expression(e) => expr_ok(e),
        Statement::IfElse(c, t, o) => expr_ok(c) && block_ok(t@, in_loop) && block_ok(o@, in_loop),
        Statement::While(c, t) => expr_ok(c) && block_ok(t@, true),
        Statement::For(_, _, _, _) => false,
        Statement::Function(_, _, body) => block_ok(body@, false),
        Statement::Return(e) => match e {
            Some(e) => expr_ok(e),
            None => true,
        },
        Statement::Const(_, _) => false,
        Statement::Break => in_loop,
    }
}

/// Whether the compiler can lower every statement of this block.
pub open spec fn block_ok(ss: Seq<Statement>, in_loop: bool) -> bool
    decreases ss,
{
    if ss.len() == 0 {
        true
    } else {
        stmt_ok(ss[0], in_loop) && block_ok(ss.skip(1), in_loop)
    }
}

/// Whether the compiler can lower this expression.
pub open spec fn expr_ok(e: Expression) -> bool
    decreases e,
{
    match e {
        Expression::String(_) => true,
        Expression::Integer(_) => true,
        Expression::Float(_) => true,
        Expression::True => true,
        Expression::False => true,
        Expression::Null => false,
        Expression::Array(_) => false,
        Expression::Infix(l, _, r) => expr_ok(*l) && expr_ok(*r),
        Expression::Assign(t, v) => (*t matches Expression::Variable(_)) && expr_ok(*v),
        Expression::Call(_, args) => exprs_ok(args@),
        Expression::Variable(_) => true,
        Expression::Identifier(_) => true,
        Expression::Index(_, _) => false,
    }
}

/// Whether the compiler can lower every expression of this list.
pub open spec fn exprs_ok(es: Seq<Expression>) -> bool
    decreases es,
{
    if es.len() == 0 {
        true
    } else {
        expr_ok(es[0]) && exprs_ok(es.skip(1))
    }
}

} // verus!

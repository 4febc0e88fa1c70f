//! The lowering rules, stated once as mathematics: what the compiler emits
//! for each statement and expression, which constants it pools, what it
//! writes into the registry, and which error it reports on the first shape it
//! cannot lower. `compile` and every phase of the compiler are proved to
//! produce exactly these results.

use vstd::prelude::*;
use crate::arith::eval_op_v;
use crate::ast::{Expression, Op, Statement};
use crate::code::CodeV;
use crate::compiler::{folds, lit_value};
use crate::error::CompileError;
use crate::globals::FunctionV;
use crate::object::ObjectV;

verus! {

/// Everything one compilation phase reads and writes: the current scope's
/// instructions, the constant pool, the function registry, the breakable
/// flag, and the pending-break positions of the innermost open loop.
pub struct LowerState {
    pub code: Seq<CodeV>,
    pub consts: Seq<ObjectV>,
    pub funs: Map<Seq<char>, FunctionV>,
    pub breakable: bool,
    pub pending: Seq<int>,
}

/// Pools one constant and emits the push for it.
pub open spec fn pool_constant(st: LowerState, v: ObjectV) -> LowerState {
    LowerState {
        code: st.code.push(CodeV::Constant(st.consts.len() as int)),
        consts: st.consts.push(v),
        ..st
    }
}

/// Emits one instruction.
pub open spec fn emit_one(st: LowerState, c: CodeV) -> LowerState {
    LowerState { code: st.code.push(c), ..st }
}

/// The runtime instruction for an infix operator.
pub open spec fn op_code(op: Op) -> CodeV {
    match op {
        Op::Add => CodeV::Add,
        Op::Subtract => CodeV::Subtract,
        Op::Multiply => CodeV::Multiply,
        Op::Divide => CodeV::Divide,
        Op::LessThan => CodeV::LessThan,
        Op::GreaterThan => CodeV::GreaterThan,
        Op::Concat => CodeV::Concat,
    }
}

/// Lowers one expression: emits code that pushes exactly one value at run
/// time. Literals pool a constant; a numeric-literal arithmetic pair folds to
/// the evaluator's result; calls stage their arguments in reverse syntactic
/// order and dispatch on what the registry knows at this point.
pub open spec fn lower_expr(st: LowerState, e: Expression) -> Result<LowerState, CompileError>
    decreases e,
{
    match e {
        Expression::True => Ok(emit_one(st, CodeV::True)),
        Expression::False => Ok(emit_one(st, CodeV::False)),
        Expression::String(s) => Ok(pool_constant(st, ObjectV::Str(s@))),
        Expression::Integer(i) => Ok(pool_constant(st, ObjectV::Int(i))),
        Expression::Float(b) => Ok(pool_constant(st, ObjectV::Float(b))),
        Expression::Variable(v) => Ok(emit_one(st, CodeV::Get(v@))),
        Expression::Identifier(i) => Ok(emit_one(st, CodeV::GetConstant(i@))),
        Expression::Null => Err(CompileError::UnsupportedExpression),
        Expression::Array(_) => Err(CompileError::UnsupportedExpression),
        Expression::Index(_, _) => Err(CompileError::UnsupportedExpression),
        Expression::Infix(l, op, r) => {
            if op == Op::LessThan || op == Op::GreaterThan {
                match lower_expr(st, *l) {
                    Ok(st1) => match lower_expr(st1, *r) {
                        Ok(st2) => Ok(emit_one(st2, op_code(op))),
                        Err(er) => Err(er),
                    },
                    Err(er) => Err(er),
                }
            } else if folds(e) {
                match (lit_value(*l), lit_value(*r)) {
                    (Some(lv), Some(rv)) => match eval_op_v(op, lv, rv) {
                        Ok(v) => Ok(pool_constant(st, v)),
                        Err(_) => Err(CompileError::UnsupportedExpression),
                    },
                    _ => Err(CompileError::UnsupportedExpression),
                }
            } else {
                match lower_expr(st, *l) {
                    Ok(st1) => match lower_expr(st1, *r) {
                        Ok(st2) => Ok(emit_one(st2, op_code(op))),
                        Err(er) => Err(er),
                    },
                    Err(er) => Err(er),
                }
            }
        },
        Expression::Assign(t, v) => {
            match lower_expr(st, *v) {
                Ok(st1) => match *t {
                    Expression::Variable(name) => Ok(emit_one(st1, CodeV::Assign(name@))),
                    _ => Err(CompileError::InvalidAssignTarget),
                },
                Err(er) => Err(er),
            }
        },
        Expression::Call(name, args) => {
            match lower_args(emit_one(st, CodeV::InitCall(name@)), args@) {
                Ok(st1) => {
                    if st1.funs.contains_key(name@) && st1.funs[name@] is User {
                        Ok(emit_one(st1, CodeV::DoUserCall))
                    } else {
                        Ok(emit_one(st1, CodeV::DoInternalCall))
                    }
                },
                Err(er) => Err(er),
            }
        },
    }
}

/// Lowers call arguments in reverse syntactic order — the last argument
/// first — each followed by a send-argument instruction, so the staging
/// frame accumulates them in an order the machine's invoke restores.
pub open spec fn lower_args(st: LowerState, args: Seq<Expression>) -> Result<
    LowerState,
    CompileError,
>
    decreases args,
{
    if args.len() == 0 {
        Ok(st)
    } else {
        match lower_expr(st, args.last()) {
            Ok(st1) => lower_args(emit_one(st1, CodeV::SendArg), args.drop_last()),
            Err(er) => Err(er),
        }
    }
}

/// The implicit parameter-bind prologue of a function body: for each
/// parameter in declared order, bind the next staged value and drop the
/// re-pushed copy.
pub open spec fn param_prologue(params: Seq<String>) -> Seq<CodeV>
    decreases params.len(),
{
    if params.len() == 0 {
        Seq::empty()
    } else {
        seq![CodeV::Assign(params[0]@), CodeV::Pop] + param_prologue(params.skip(1))
    }
}

/// Patches every position on the pending-break list, in order, to jump to
/// `target`.
pub open spec fn patch_all(code: Seq<CodeV>, pending: Seq<int>, target: int) -> Seq<CodeV>
    decreases pending.len(),
{
    if pending.len() == 0 {
        code
    } else {
        patch_all(code.update(pending[0], CodeV::Jump(target)), pending.skip(1), target)
    }
}

/// Lowers one statement, following the per-statement rules exactly: the
/// two-placeholder backpatch scheme for a branch with an else, the
/// test-at-the-bottom loop shape with the pending-break list saved and
/// restored around each loop, and function bodies compiled into a fresh
/// scope that is registered under the function's name before and after.
pub open spec fn lower_stmt(st: LowerState, s: Statement) -> Result<LowerState, CompileError>
    decreases s, 1int,
{
    match s {
        Statement::Echo(e) => match lower_expr(st, e) {
            Ok(st1) => Ok(emit_one(st1, CodeV::Echo)),
            Err(er) => Err(er),
        },
        Statement::Expression(e) => match lower_expr(st, e) {
            Ok(st1) => Ok(emit_one(st1, CodeV::Pop)),
            Err(er) => Err(er),
        },
        Statement::Return(eo) => match eo {
            Some(e) => match lower_expr(st, e) {
                Ok(st1) => Ok(emit_one(st1, CodeV::ReturnWith)),
                Err(er) => Err(er),
            },
            None => Ok(emit_one(st, CodeV::Return)),
        },
        Statement::Break => {
            if !st.breakable {
                Err(CompileError::InvalidBreakScope)
            } else {
                Ok(
                    LowerState {
                        code: st.code.push(CodeV::Jump(usize::MAX as int)),
                        pending: st.pending.push(st.code.len() as int),
                        ..st
                    },
                )
            }
        },
        Statement::For(_, _, _, _) => Err(CompileError::UnsupportedStatement),
        Statement::Const(_, _) => Err(CompileError::UnsupportedStatement),
        Statement::IfElse(c, t, o) => {
            match lower_expr(st, c) {
                Ok(st1) => {
                    let jnp = st1.code.len() as int;
                    match lower_block(emit_one(st1, CodeV::JumpIfFalse(usize::MAX as int)), t@) {
                        Ok(st2) => {
                            if o@.len() == 0 {
                                Ok(
                                    LowerState {
                                        code: st2.code.update(
                                            jnp,
                                            CodeV::JumpIfFalse(st2.code.len() as int),
                                        ),
                                        ..st2
                                    },
                                )
                            } else {
                                let jp = st2.code.len() as int;
                                let st3 = LowerState {
                                    code: st2.code.push(CodeV::Jump(usize::MAX as int)).update(
                                        jnp,
                                        CodeV::JumpIfFalse(st2.code.len() as int + 1),
                                    ),
                                    ..st2
                                };
                                match lower_block(st3, o@) {
                                    Ok(st4) => Ok(
                                        LowerState {
                                            code: st4.code.update(
                                                jp,
                                                CodeV::Jump(st4.code.len() as int),
                                            ),
                                            ..st4
                                        },
                                    ),
                                    Err(er) => Err(er),
                                }
                            }
                        },
                        Err(er) => Err(er),
                    }
                },
                Err(er) => Err(er),
            }
        },
        Statement::While(c, body) => {
            let cjp = st.code.len() as int;
            let entry = LowerState {
                code: st.code.push(CodeV::Jump(usize::MAX as int)),
                breakable: true,
                pending: Seq::empty(),
                ..st
            };
            match lower_block(entry, body@) {
                Ok(st1) => {
                    let cond_entry = LowerState { breakable: st.breakable, ..st1 };
                    match lower_expr(cond_entry, c) {
                        Ok(st2) => {
                            let looped = emit_one(st2, CodeV::JumpIfTrue(cjp + 1));
                            let headed = looped.code.update(cjp, CodeV::Jump(st1.code.len() as int));
                            Ok(
                                LowerState {
                                    code: patch_all(headed, st1.pending, headed.len() as int),
                                    pending: st.pending,
                                    ..st2
                                },
                            )
                        },
                        Err(er) => Err(er),
                    }
                },
                Err(er) => Err(er),
            }
        },
        Statement::Function(name, params, body) => {
            let opened = LowerState {
                code: param_prologue(params@),
                consts: st.consts,
                funs: st.funs.insert(name@, FunctionV::User(Seq::empty())),
                breakable: false,
                pending: Seq::empty(),
            };
            match lower_block(opened, body@) {
                Ok(st1) => {
                    let finished = emit_one(
                        pool_constant(st1, ObjectV::Null),
                        CodeV::Return,
                    );
                    Ok(
                        LowerState {
                            code: st.code,
                            consts: finished.consts,
                            funs: finished.funs.insert(name@, FunctionV::User(finished.code)),
                            breakable: st.breakable,
                            pending: st.pending,
                        },
                    )
                },
                Err(er) => Err(er),
            }
        },
    }
}

/// Lowers a block of statements in order, reporting the first statement the
/// language cannot lower.
pub open spec fn lower_block(st: LowerState, ss: Seq<Statement>) -> Result<
    LowerState,
    CompileError,
>
    decreases ss, 1int,
{
    if ss.len() == 0 {
        Ok(st)
    } else {
        match lower_stmt(st, ss[0]) {
            Ok(st1) => lower_block(st1, ss.skip(1)),
            Err(er) => Err(er),
        }
    }
}

/// The state a whole compilation starts from: empty scope, empty pool, the
/// pre-registered host functions, no breakable scope open.
pub open spec fn initial_lower_state() -> LowerState {
    LowerState {
        code: Seq::empty(),
        consts: Seq::empty(),
        funs: crate::globals::initial_globals().functions,
        breakable: false,
        pending: Seq::empty(),
    }
}

} // verus!

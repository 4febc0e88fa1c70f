//! The two fatal-error classes: malformed program shapes the compiler cannot
//! lower, and runtime invariant violations that abort execution. Neither is
//! recoverable; the language has no exception handling.

use vstd::prelude::*;

verus! {

/// A program shape the compiler cannot lower. Compilation stops at the first
/// such shape and reports it.
#[derive(Debug, Clone, Copy, PartialEq, Eq, Structural)]
pub enum CompileError {
    /// A `break` statement outside of any enclosing loop body.
    InvalidBreakScope,
    /// An assignment whose target is not a simple variable.
    InvalidAssignTarget,
    /// A statement kind the language does not lower.
    UnsupportedStatement,
    /// An expression kind the language does not lower.
    UnsupportedExpression,
}

/// A runtime invariant violation. Every one of these aborts the whole run;
/// the categories let a host embedder tell failures apart without string
/// matching.
#[derive(Debug, Clone, Copy, PartialEq, Eq, Structural)]
pub enum RuntimeError {
    /// An operand was needed but the current frame's stack was empty.
    StackUnderflow,
    /// An argument was staged or a call committed with no call being built.
    CallBufferUnderflow,
    /// A `return` executed in the outermost frame.
    FrameUnderflow,
    /// A variable was read before any assignment to it.
    UndefinedVariable,
    /// A named constant was read but never defined.
    UndefinedConstant,
    /// A call named a function the registry does not know.
    UndefinedFunction,
    /// A user-function call instruction reached a host-function frame, or the
    /// reverse.
    CallKindMismatch,
    /// An array was indexed with a key it does not hold.
    UndefinedArrayKey,
    /// A value had the wrong shape for the operation applied to it.
    TypeMismatch,
    /// A host function received more arguments than it accepts.
    ArityMismatch,
    /// A push-constant instruction named a pool index out of range.
    ConstantIndexOutOfRange,
    /// A structural dump descended past the depth budget (a self-referential
    /// array).
    DumpTooDeep,
}

} // verus!

use vstd::prelude::*;

verus! {

/// Evaluation failures. Each aborts the current evaluation.
#[derive(Debug, PartialEq)]
pub enum EvalError {
    /// A de Bruijn index beyond the environment chain.
    UnboundIndex(u32),
    /// A global name found neither in the snapshot nor in the evaluator's table.
    UndefinedName(String),
    /// Integer division or remainder by zero.
    DivisionByZero,
    /// Tensor shapes that cannot be broadcast or combined.
    ShapeMismatch,
    /// No arm of a match (or let pattern) matched.
    NonExhaustiveMatch,
    /// Tuple field index out of range.
    FieldOutOfRange(u32),
    /// Operand or argument of the wrong kind.
    TypeMismatch,
    /// Application of a value that is not callable.
    NotCallable,
    /// Integer result outside the 64-bit range.
    Overflow,
    /// Float arithmetic, which this library carries but does not compute.
    FloatUnsupported,
    /// Evaluation nested deeper than the evaluator's limit.
    DepthExceeded,
}

/// Lowering failures.
#[derive(Debug, PartialEq)]
pub enum MirError {
    UnboundVariable(u32),
    UndefinedName(String),
    /// An expression form the lowering pass does not handle.
    CannotLower(String),
    ClosureError(String),
    PatternError(String),
    TypeError(String),
    /// An invariant of the lowering algorithm itself was broken.
    Internal(String),
}

} // verus!

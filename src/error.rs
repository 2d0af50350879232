//! The failures that abort an evaluation.
use vstd::prelude::*;

verus! {

/// What went wrong.
#[derive(Clone, Copy, Debug, PartialEq, Eq, Structural)]
pub enum ErrorKind {
    /// A node's kind does not fit its place in the tree.
    UnexpectedNode,
    /// An identifier that no live frame binds.
    UnboundVariable,
    /// An assignment to a name that no live frame binds.
    UndefinedAssignment,
    /// A call whose argument count differs from the parameter count.
    ArityMismatch,
    /// An `if` condition that is not an integer.
    ConditionNotInt,
    /// Attribute access on a value that is not an object.
    NotAttributable,
    /// Attribute access with a key the object lacks.
    UnknownAttribute,
    /// A comparison whose operands have no order.
    Incomparable,
    /// A logical operator applied to a value that is not a number.
    NotLogical,
    /// An operator token the language does not define.
    UnknownOperator,
    /// A number literal that does not denote a number.
    InvalidNumber,
    /// An interface manifest that could not be read.
    ManifestUnreadable,
    /// An interface manifest that is not valid JSON.
    ManifestInvalid,
    /// A manifest entry that is missing or not a string.
    InterfaceEntry,
    /// A foreign process whose output is not valid JSON.
    ForeignOutput,
    /// A process that could not be started.
    SpawnFailed,
    /// A `return` outside of any function call.
    ReturnOutsideFunction,
    /// A `return` where a value was expected.
    ReturnInExpression,
    /// A call whose callee is not a function.
    NotCallable,
    /// Function calls nested deeper than the evaluation allows.
    CallDepthExceeded,
    /// An outside result of another sort than the one asked for.
    ReplyMismatch,
}

/// A failure, with the source range of the node where it arose.
#[derive(Clone, Copy, Debug, PartialEq, Eq, Structural)]
pub struct EvalError {
    pub kind: ErrorKind,
    pub start: usize,
    pub end: usize,
}

impl EvalError {
    pub fn new(kind: ErrorKind, start: usize, end: usize) -> (r: EvalError)
        ensures
            r == (EvalError { kind, start, end }),
    {
        EvalError { kind, start, end }
    }
}

} // verus!

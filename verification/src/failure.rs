//! The ways in which parsing or evaluation can fail.

use vstd::prelude::*;

verus! {

/// Why a program fragment could not be parsed or evaluated.
#[derive(Clone, Copy, Debug, PartialEq, Eq, Structural)]
pub enum Failure {
    /// The token sequence is empty, malformed or unbalanced.
    Syntax,
    /// The head of a compound expression names no operator.
    UnknownOperator,
    /// A symbol was evaluated that has no binding.
    UnboundSymbol,
    /// An operator was applied to the wrong number of arguments.
    Arity,
    /// An operand had the wrong kind of value.
    Kind,
    /// A division by zero, or a result outside the integer range.
    Arithmetic,
    /// A `while` ran for more rounds than the evaluation was allowed.
    LoopLimit,
}

} // verus!

use vstd::prelude::*;

verus! {

/// Every way in which compiling, tracing or checking a program can fail.
#[derive(Debug, Clone, Copy, PartialEq, Eq, Structural)]
pub enum PlonkError {
    /// The equation is not a chain `operand (operator operand)*`.
    ParseError,
    /// The equation's variables differ from the keys of the binding set.
    BindingMismatchError,
    /// An operand is neither a literal nor a bound variable.
    UnresolvedWireError,
    /// A gate output does not fit in an `i32`.
    OverflowError,
    /// The first trace row whose constraint does not evaluate to zero.
    ConstraintViolation { row: usize, value: i128 },
}

} // verus!

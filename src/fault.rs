//! The faults that stop the machine.
use vstd::prelude::*;

verus! {

/// Why a run stopped before reaching a halt instruction.
#[derive(Clone, Copy, Debug, PartialEq, Eq, Structural)]
pub enum Fault {
    /// Division with a zero divisor.
    DivideByZero,
    /// A handle that names no live segment, or handle 0 given to abandonment.
    InvalidHandle,
    /// An index at or past the end of the segment it addresses.
    IndexOutOfBounds,
    /// An output value above 255.
    InvalidOutputValue,
    /// The execution finger ran past the end of the program.
    MalformedProgram,
    /// Every handle that a 32-bit register can hold is in use.
    HandlesExhausted,
}

} // verus!

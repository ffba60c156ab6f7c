use vstd::prelude::*;

verus! {

/// The failures that the operations of this crate report to their caller.
#[derive(Clone, Copy, Debug, PartialEq, Eq, Structural)]
pub enum Error {
    /// The fractional width is not strictly less than the word width.
    InvalidFormat,
    /// A textual label names no rounding mode.
    UnknownRoundingMode,
    /// The numbers of values and of names handed to an analyzer differ.
    ArityMismatch,
    /// The divisor of a division is zero.
    DivisionByZero,
    /// A value is infinite or not a number.
    NonFiniteResult,
    /// Two operands of one operation have different formats.
    FormatMismatch,
}

} // verus!

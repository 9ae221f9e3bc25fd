//! The ways in which a source line, or a program, is rejected.

use vstd::prelude::*;

verus! {

/// Why one instruction line cannot be encoded.
#[derive(Clone, Copy, Debug, PartialEq, Eq, Structural)]
pub enum EncodeError {
    /// The mnemonic is not in the instruction table, and the policy is strict.
    UnknownMnemonic,
    /// The operand starts with neither `#` nor `$`.
    UnrecognizedMarker,
    /// What follows the marker is not a decimal numeral.
    InvalidNumeral,
    /// The numeral's value does not fit in one byte.
    OperandOutOfRange,
}

/// Why a program cannot be assembled: the first line that is rejected, counted
/// from zero, and the reason.
#[derive(Clone, Copy, Debug, PartialEq, Eq, Structural)]
pub struct AssembleError {
    pub line: usize,
    pub error: EncodeError,
}

} // verus!

//! Error types shared by the input reader and the reductions.

use vstd::prelude::*;

verus! {

/// An error of the structured input reader.
#[derive(Clone, Copy, Debug, PartialEq, Eq, Structural)]
pub enum InputError {
    /// A required line is missing from the input.
    UnexpectedEndOfInput,
    /// A line did not have the required token shape, or a token could not be
    /// decoded as its target integer type.
    ParseError,
    /// The declared element count disagrees with the number of parsed values.
    CountMismatch { expected: usize, actual: usize },
}

/// The error of a reduction that needs at least one element.
#[derive(Clone, Copy, Debug, PartialEq, Eq, Structural)]
pub struct EmptySequenceError;

} // verus!

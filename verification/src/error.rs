//! Why a rendering can fail.

use vstd::prelude::*;

verus! {

/// The ways in which an L-system fails to give a drawing.
#[derive(Clone, Copy, Debug, PartialEq, Eq)]
pub enum RenderError {
    /// A restore symbol `]` came with no saved state to go back to.
    UnbalancedBrackets,
    /// The expanded string moved the turtle nowhere: there is nothing to
    /// draw, and no bounding box.
    EmptyDrawing,
    /// A number left the range in which it can be used: a decimal operation
    /// had no representable result, or a normalised coordinate fell outside
    /// the unit interval.
    NumericRange,
}

impl RenderError {
    /// The message of the error.
    pub fn message(&self) -> (text: String)
        ensures
            text@ == match *self {
                RenderError::UnbalancedBrackets => "unbalanced brackets: `]` without a matching `[`"@,
                RenderError::EmptyDrawing => "the L-system draws nothing"@,
                RenderError::NumericRange => "a number left the range of the decimal arithmetic"@,
            },
    {
        match self {
            RenderError::UnbalancedBrackets => String::from_str(
                "unbalanced brackets: `]` without a matching `[`",
            ),
            RenderError::EmptyDrawing => String::from_str("the L-system draws nothing"),
            RenderError::NumericRange => String::from_str(
                "a number left the range of the decimal arithmetic",
            ),
        }
    }
}

} // verus!

//! The typed failures that can abort an execution run.

use vstd::prelude::*;

verus! {

/// Every failure an execution run can surface.  Each error is fatal to the
/// run: nothing is retried or masked, and the caller decides presentation.
#[derive(Debug, Clone, Copy, PartialEq, Eq, Structural)]
pub enum Error {
    /// A position argument (an initial pointer position, or the operand
    /// pair of a `g` or `p` instruction) falls outside the grid.
    Bounds { x: i64, y: i64 },
    /// A `/` or `%` instruction was attempted with a zero divisor.
    Division { dividend: i64 },
    /// A value meant for character conversion (via `,` or `p`) falls
    /// outside the accepted code range of 0 through 255.
    CharRange { value: i64 },
    /// Input-channel text for `&` could not be parsed as an integer, or
    /// for `~` was not exactly one character.
    Parse,
    /// A character met in command mode is not a recognized instruction.
    Decode { command: char },
}

} // verus!

//! The ways in which a run can fail.

use vstd::prelude::*;

verus! {

/// Every failure of the parser or the executor. Each one ends the run.
#[derive(Debug, PartialEq, Eq)]
pub enum Error {
    /// A `[` is still open when the source ends.
    UnmatchedOpen,
    /// A `]` closes a loop that was never opened.
    UnmatchedClose,
    /// The cell pointer would move past the largest index a machine word holds.
    PointerOverflow,
    /// The cell pointer would move below the first cell.
    PointerUnderflow,
    /// The cell pointer does not address an existing cell.
    MissingCell,
    /// Reading a byte of input failed; the text describes the cause.
    IOFailure(String),
}

} // verus!

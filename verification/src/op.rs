//! The instructions of the machine.

use vstd::prelude::*;

verus! {

/// One instruction. The two loop instructions carry the position, in the
/// instruction sequence, of the bracket they are paired with.
#[derive(Debug, Clone, Copy, PartialEq, Eq, Structural)]
pub enum Op {
    /// `>`: move the cell pointer one cell to the right.
    MovePtrRight,
    /// `<`: move the cell pointer one cell to the left.
    MovePtrLeft,
    /// `+`: add one to the current cell, wrapping at 255.
    IncCell,
    /// `-`: subtract one from the current cell, wrapping at 0.
    DecCell,
    /// `,`: store one byte of input in the current cell.
    Input,
    /// `.`: write the current cell to the output.
    Output,
    /// `[`: if the current cell is zero, jump to the matching `]`.
    LoopOpen(usize),
    /// `]`: jump back to the matching `[`.
    LoopClose(usize),
}

impl Op {
    /// The source character that stands for this instruction.
    pub open spec fn spec_symbol(&self) -> char {
        match *self {
            Op::MovePtrRight => '>',
            Op::MovePtrLeft => '<',
            Op::IncCell => '+',
            Op::DecCell => '-',
            Op::Input => ',',
            Op::Output => '.',
            Op::LoopOpen(_) => '[',
            Op::LoopClose(_) => ']',
        }
    }

    /// The source character that stands for this instruction.
    #[verifier::when_used_as_spec(spec_symbol)]
    pub fn symbol(&self) -> (c: char)
        ensures
            c == self.spec_symbol(),
    {
        match *self {
            Op::MovePtrRight => '>',
            Op::MovePtrLeft => '<',
            Op::IncCell => '+',
            Op::DecCell => '-',
            Op::Input => ',',
            Op::Output => '.',
            Op::LoopOpen(_) => '[',
            Op::LoopClose(_) => ']',
        }
    }
}

} // verus!

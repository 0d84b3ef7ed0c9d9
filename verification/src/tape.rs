//! The tape: a row of byte cells that grows to the right, the cell pointer,
//! and the instruction pointer that the two jump instructions redirect.
//!
//! Every operation is stated twice: as a function on `TapeState`, the
//! mathematical value of a tape, and as a method of `Tape` that is proved to
//! compute it. No operation panics; what cannot be done is reported as an
//! `Error` and leaves the tape as it was.

use vstd::prelude::*;

use crate::error::Error;

verus! {

/// What an attempt to read one byte of input came back with.
#[derive(Debug, PartialEq, Eq)]
pub enum Read {
    /// The next byte of the input.
    Byte(u8),
    /// The input has no more bytes.
    Exhausted,
    /// The read failed; the text describes the cause.
    Failed(String),
}

/// One more than `v`, wrapping from 255 to 0.
pub open spec fn wrapping_inc(v: u8) -> u8 {
    if v == 255 {
        0
    } else {
        (v + 1) as u8
    }
}

/// One less than `v`, wrapping from 0 to 255.
pub open spec fn wrapping_dec(v: u8) -> u8 {
    if v == 0 {
        255
    } else {
        (v - 1) as u8
    }
}

/// The value of a tape: its cells, the index of the current cell, and the
/// index of the instruction to execute next.
pub struct TapeState {
    pub cells: Seq<u8>,
    pub ptr: int,
    pub pc: int,
}

impl TapeState {
    /// The tape at the start of a run: one cell holding 0, both pointers at 0.
    pub open spec fn fresh() -> TapeState {
        TapeState { cells: seq![0u8], ptr: 0, pc: 0 }
    }

    /// The cell pointer addresses an existing cell. This is the invariant of
    /// the tape: a fresh tape has it, and no operation that starts with it
    /// ends without it.
    pub open spec fn has_cell(self) -> bool {
        0 <= self.ptr < self.cells.len()
    }

    /// The value of the current cell.
    pub open spec fn cell(self) -> u8
        recommends
            self.has_cell(),
    {
        self.cells[self.ptr]
    }

    /// The tape with `v` stored in the current cell.
    pub open spec fn with_cell(self, v: u8) -> TapeState
        recommends
            self.has_cell(),
    {
        TapeState { cells: self.cells.update(self.ptr, v), ..self }
    }

    /// The tape with the instruction pointer at `pc`.
    pub open spec fn with_pc(self, pc: int) -> TapeState {
        TapeState { pc, ..self }
    }

    /// Moving the cell pointer one cell to the right. A new cell holding 0 is
    /// appended exactly when the pointer steps onto the position just past
    /// the last cell.
    pub open spec fn inc_ptr(self) -> Result<TapeState, Error> {
        if self.ptr + 1 > usize::MAX {
            Err(Error::PointerOverflow)
        } else if self.ptr + 1 == self.cells.len() {
            Ok(TapeState { cells: self.cells.push(0u8), ptr: self.ptr + 1, ..self })
        } else {
            Ok(TapeState { ptr: self.ptr + 1, ..self })
        }
    }

    /// Moving the cell pointer one cell to the left.
    pub open spec fn dec_ptr(self) -> Result<TapeState, Error> {
        if self.ptr <= 0 {
            Err(Error::PointerUnderflow)
        } else {
            Ok(TapeState { ptr: self.ptr - 1, ..self })
        }
    }

    /// Adding one to the current cell.
    pub open spec fn inc_val(self) -> Result<TapeState, Error> {
        if self.has_cell() {
            Ok(self.with_cell(wrapping_inc(self.cell())))
        } else {
            Err(Error::MissingCell)
        }
    }

    /// Subtracting one from the current cell.
    pub open spec fn dec_val(self) -> Result<TapeState, Error> {
        if self.has_cell() {
            Ok(self.with_cell(wrapping_dec(self.cell())))
        } else {
            Err(Error::MissingCell)
        }
    }

    /// Taking in what a read of one input byte came back with. A byte is
    /// stored in the current cell; exhausted input leaves the cell as it
    /// is; a failed read is fatal and is reported before the cell is looked
    /// at.
    pub open spec fn input(self, read: Read) -> Result<TapeState, Error> {
        match read {
            Read::Failed(cause) => Err(Error::IOFailure(cause)),
            Read::Exhausted => if self.has_cell() {
                Ok(self)
            } else {
                Err(Error::MissingCell)
            },
            Read::Byte(b) => if self.has_cell() {
                Ok(self.with_cell(b))
            } else {
                Err(Error::MissingCell)
            },
        }
    }

    /// The byte that an output instruction writes: the current cell.
    pub open spec fn output(self) -> Result<u8, Error> {
        if self.has_cell() {
            Ok(self.cell())
        } else {
            Err(Error::MissingCell)
        }
    }

    /// The jump of `[`: the instruction pointer goes to `target` if the
    /// current cell is 0 and stays where it is otherwise.
    pub open spec fn skip_right(self, target: int) -> Result<TapeState, Error> {
        if !self.has_cell() {
            Err(Error::MissingCell)
        } else if self.cell() == 0 {
            Ok(self.with_pc(target))
        } else {
            Ok(self)
        }
    }

    /// The jump of `]`: the instruction pointer goes to `target`.
    pub open spec fn skip_left(self, target: int) -> TapeState {
        self.with_pc(target)
    }
}

/// `result` and `after` are what an operation leaves behind that, in the
/// tape value `before`, is specified to give `expected`: on success the new
/// tape, on failure the error and the tape untouched.
pub open spec fn follows(
    result: Result<(), Error>,
    before: TapeState,
    after: TapeState,
    expected: Result<TapeState, Error>,
) -> bool {
    match expected {
        Ok(next) => result is Ok && after == next,
        Err(e) => result == Err::<(), Error>(e) && after == before,
    }
}

/// The tape of one run.
#[derive(Debug, PartialEq, Eq)]
pub struct Tape {
    /// The cells, first cell first.
    pub cells: Vec<u8>,
    /// The index of the current cell.
    pub ptr: usize,
    /// The index of the instruction to execute next.
    pub pc: usize,
}

impl View for Tape {
    type V = TapeState;

    open spec fn view(&self) -> TapeState {
        TapeState { cells: self.cells@, ptr: self.ptr as int, pc: self.pc as int }
    }
}

impl Tape {
    /// A tape of one cell holding 0, with both pointers at 0.
    pub fn new() -> (tape: Tape)
        ensures
            tape@ == TapeState::fresh(),
            tape@.has_cell(),
    {
        let mut cells: Vec<u8> = Vec::new();
        cells.push(0);
        Tape { cells, ptr: 0, pc: 0 }
    }

    /// Moves the cell pointer one cell to the right, appending a cell when it
    /// steps past the last one. Fails with `PointerOverflow` when the pointer
    /// is at the largest index a machine word holds, which a pointer that
    /// addresses a cell never is.
    pub fn inc_ptr(&mut self) -> (result: Result<(), Error>)
        ensures
            follows(result, old(self)@, final(self)@, old(self)@.inc_ptr()),
            final(self)@.cells.len() <= old(self)@.cells.len() + 1,
            old(self)@.cells.is_prefix_of(final(self)@.cells),
            old(self)@.has_cell() ==> result is Ok && final(self)@.has_cell(),
    {
        match self.ptr.checked_add(1) {
            Some(v) => {
                self.ptr = v;
                if self.cells.len() == self.ptr {
                    self.cells.push(0);
                }
                Ok(())
            },
            None => {
                assert(self.cells.len() <= usize::MAX);
                Err(Error::PointerOverflow)
            },
        }
    }

    /// Moves the cell pointer one cell to the left. Fails with
    /// `PointerUnderflow` when the pointer is at the first cell.
    pub fn dec_ptr(&mut self) -> (result: Result<(), Error>)
        ensures
            follows(result, old(self)@, final(self)@, old(self)@.dec_ptr()),
            final(self)@.cells == old(self)@.cells,
            old(self)@.has_cell() ==> final(self)@.has_cell(),
    {
        match self.ptr.checked_sub(1) {
            Some(v) => {
                self.ptr = v;
                Ok(())
            },
            None => Err(Error::PointerUnderflow),
        }
    }

    /// Adds one to the current cell; 255 becomes 0. Fails with `MissingCell`
    /// when the pointer addresses no cell.
    pub fn inc_val(&mut self) -> (result: Result<(), Error>)
        ensures
            follows(result, old(self)@, final(self)@, old(self)@.inc_val()),
            final(self)@.cells.len() == old(self)@.cells.len(),
            old(self)@.has_cell() ==> result is Ok && final(self)@.has_cell(),
    {
        if self.ptr < self.cells.len() {
            let v = self.cells[self.ptr];
            self.cells.set(self.ptr, v.wrapping_add(1));
            Ok(())
        } else {
            Err(Error::MissingCell)
        }
    }

    /// Subtracts one from the current cell; 0 becomes 255. Fails with
    /// `MissingCell` when the pointer addresses no cell.
    pub fn dec_val(&mut self) -> (result: Result<(), Error>)
        ensures
            follows(result, old(self)@, final(self)@, old(self)@.dec_val()),
            final(self)@.cells.len() == old(self)@.cells.len(),
            old(self)@.has_cell() ==> result is Ok && final(self)@.has_cell(),
    {
        if self.ptr < self.cells.len() {
            let v = self.cells[self.ptr];
            self.cells.set(self.ptr, v.wrapping_sub(1));
            Ok(())
        } else {
            Err(Error::MissingCell)
        }
    }

    /// Takes in what a read of one input byte came back with: a byte
    /// overwrites the current cell, exhausted input leaves it unchanged, and
    /// a failed read fails with `IOFailure` and its cause. Fails with
    /// `MissingCell` when the read did not fail and the pointer addresses no
    /// cell.
    pub fn input(&mut self, read: Read) -> (result: Result<(), Error>)
        ensures
            follows(result, old(self)@, final(self)@, old(self)@.input(read)),
            final(self)@.cells.len() == old(self)@.cells.len(),
            old(self)@.has_cell() ==> final(self)@.has_cell(),
            old(self)@.has_cell() && !(read is Failed) ==> result is Ok,
    {
        match read {
            Read::Failed(cause) => Err(Error::IOFailure(cause)),
            Read::Exhausted => {
                if self.ptr < self.cells.len() {
                    Ok(())
                } else {
                    Err(Error::MissingCell)
                }
            },
            Read::Byte(b) => {
                if self.ptr < self.cells.len() {
                    self.cells.set(self.ptr, b);
                    Ok(())
                } else {
                    Err(Error::MissingCell)
                }
            },
        }
    }

    /// The value of the current cell, for the output. Fails with
    /// `MissingCell` when the pointer addresses no cell.
    pub fn output(&self) -> (result: Result<u8, Error>)
        ensures
            result == self@.output(),
    {
        if self.ptr < self.cells.len() {
            Ok(self.cells[self.ptr])
        } else {
            Err(Error::MissingCell)
        }
    }

    /// The jump of `[`: sets the instruction pointer to `target` if the
    /// current cell is 0, and leaves it alone otherwise. Fails with
    /// `MissingCell` when the pointer addresses no cell.
    pub fn skip_right(&mut self, target: usize) -> (result: Result<(), Error>)
        ensures
            follows(result, old(self)@, final(self)@, old(self)@.skip_right(target as int)),
            final(self)@.cells == old(self)@.cells,
            old(self)@.has_cell() ==> result is Ok && final(self)@.has_cell(),
    {
        if self.ptr < self.cells.len() {
            if self.cells[self.ptr] == 0 {
                self.pc = target;
            }
            Ok(())
        } else {
            Err(Error::MissingCell)
        }
    }

    /// The jump of `]`: sets the instruction pointer to `target`.
    pub fn skip_left(&mut self, target: usize)
        ensures
            final(self)@ == old(self)@.skip_left(target as int),
            final(self)@.cells == old(self)@.cells,
            old(self)@.has_cell() ==> final(self)@.has_cell(),
    {
        self.pc = target;
    }
}

} // verus!

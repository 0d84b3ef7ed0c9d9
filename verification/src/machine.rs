//! The executor: it walks the instruction pointer through a program, one
//! instruction per step, against one tape.
//!
//! A program may run forever, so the machine is offered in two ways. `step`
//! executes a single instruction and takes the outcome of a read of input as
//! an argument, for a caller that feeds it from a live stream as long as it
//! likes. `process` and `run` drive the machine themselves over input given
//! in advance, for at most as many steps as the caller allows.

use vstd::prelude::*;

use crate::error::Error;
use crate::op::Op;
use crate::parser::parse_src;
use crate::syntax::parse;
use crate::tape::{Read, Tape, TapeState};

verus! {

/// The instruction pointer has left the program: nothing remains to execute.
pub open spec fn halted(ops: Seq<Op>, tape: TapeState) -> bool {
    !(0 <= tape.pc < ops.len())
}

/// The next instruction to execute is an input instruction.
pub open spec fn awaits_input(ops: Seq<Op>, tape: TapeState) -> bool {
    !halted(ops, tape) && ops[tape.pc] is Input
}

/// The tape with the instruction pointer moved on to the next instruction.
/// An instruction pointer that a jump has taken out of the program stays
/// where it is.
pub open spec fn advance(ops: Seq<Op>, tape: TapeState) -> TapeState {
    if halted(ops, tape) {
        tape
    } else {
        tape.with_pc(tape.pc + 1)
    }
}

/// The tape after a tape operation that leaves the instruction pointer
/// alone, and so is followed by a move to the next instruction.
pub open spec fn then_advance(ops: Seq<Op>, moved: Result<TapeState, Error>) -> Result<
    (TapeState, Option<u8>),
    Error,
> {
    match moved {
        Ok(next) => Ok((advance(ops, next), None)),
        Err(e) => Err(e),
    }
}

/// One step of the machine: the tape after the instruction under the
/// instruction pointer has been executed, together with the byte it wrote to
/// the output, if it wrote one. `read` is what reading a byte of input came
/// back with; only an input instruction looks at it.
///
/// Every instruction but `]` moves the instruction pointer on by one when it
/// is done. A `[` over a zero cell first jumps to its `]`, so that execution
/// goes on behind the loop. A `]` jumps to its `[`, which is executed next
/// and decides anew. A halted machine stays as it is.
pub open spec fn step_spec(ops: Seq<Op>, tape: TapeState, read: Read) -> Result<
    (TapeState, Option<u8>),
    Error,
> {
    if halted(ops, tape) {
        Ok((tape, None))
    } else {
        match ops[tape.pc] {
            Op::MovePtrRight => then_advance(ops, tape.inc_ptr()),
            Op::MovePtrLeft => then_advance(ops, tape.dec_ptr()),
            Op::IncCell => then_advance(ops, tape.inc_val()),
            Op::DecCell => then_advance(ops, tape.dec_val()),
            Op::Input => then_advance(ops, tape.input(read)),
            Op::Output => match tape.output() {
                Ok(b) => Ok((advance(ops, tape), Some(b))),
                Err(e) => Err(e),
            },
            Op::LoopOpen(target) => then_advance(ops, tape.skip_right(target as int)),
            Op::LoopClose(target) => Ok((tape.skip_left(target as int), None)),
        }
    }
}

/// A run in progress over input given in advance: the tape, the input that
/// has not been read yet, and the output written so far.
pub struct Run {
    pub tape: TapeState,
    pub unread: Seq<u8>,
    pub output: Seq<u8>,
}

impl Run {
    /// The start of a run: a fresh tape, all of `input` unread, no output.
    pub open spec fn start(input: Seq<u8>) -> Run {
        Run { tape: TapeState::fresh(), unread: input, output: Seq::empty() }
    }

    /// What the next read of input comes back with: the first unread byte,
    /// or the news that there is none.
    pub open spec fn next_read(self) -> Read {
        if self.unread.len() > 0 {
            Read::Byte(self.unread[0])
        } else {
            Read::Exhausted
        }
    }

    /// The run after one step. An input instruction consumes the first
    /// unread byte if there is one; an output instruction appends its byte
    /// to the output.
    pub open spec fn step(self, ops: Seq<Op>) -> Result<Run, Error> {
        let wants = awaits_input(ops, self.tape);
        let read = if wants {
            self.next_read()
        } else {
            Read::Exhausted
        };
        match step_spec(ops, self.tape, read) {
            Err(e) => Err(e),
            Ok((tape, emitted)) => Ok(
                Run {
                    tape,
                    unread: if wants && self.unread.len() > 0 {
                        self.unread.drop_first()
                    } else {
                        self.unread
                    },
                    output: match emitted {
                        Some(b) => self.output.push(b),
                        None => self.output,
                    },
                },
            ),
        }
    }

    /// The run after it has gone on until the machine halts, fails, or has
    /// made `limit` steps, whichever comes first.
    pub open spec fn run(self, ops: Seq<Op>, limit: nat) -> Result<Run, Error>
        decreases limit,
    {
        if halted(ops, self.tape) || limit == 0 {
            Ok(self)
        } else {
            match self.step(ops) {
                Err(e) => Err(e),
                Ok(next) => next.run(ops, (limit - 1) as nat),
            }
        }
    }
}

/// What executing `ops` on `input` for at most `limit` steps comes to: the
/// error of the step that failed, the whole output if the machine halted, or
/// `None` if it was still running when the steps were used up.
pub open spec fn outcome(ops: Seq<Op>, input: Seq<u8>, limit: nat) -> Result<
    Option<Seq<u8>>,
    Error,
> {
    match Run::start(input).run(ops, limit) {
        Err(e) => Err(e),
        Ok(end) => if halted(ops, end.tape) {
            Ok(Some(end.output))
        } else {
            Ok(None)
        },
    }
}

/// What parsing `text` and then executing it on `input` for at most `limit`
/// steps comes to. A source that does not parse is never executed.
pub open spec fn run_spec(text: Seq<char>, input: Seq<u8>, limit: nat) -> Result<
    Option<Seq<u8>>,
    Error,
> {
    match parse(text) {
        Err(e) => Err(e),
        Ok(ops) => outcome(ops, input, limit),
    }
}

/// The result of an executable run is the specified one.
pub open spec fn agrees(
    result: Result<Option<Vec<u8>>, Error>,
    expected: Result<Option<Seq<u8>>, Error>,
) -> bool {
    match result {
        Ok(Some(output)) => expected == Ok::<Option<Seq<u8>>, Error>(Some(output@)),
        Ok(None) => expected == Ok::<Option<Seq<u8>>, Error>(None),
        Err(e) => expected == Err::<Option<Seq<u8>>, Error>(e),
    }
}

/// Whether the machine has halted: the instruction pointer is past the last
/// instruction.
pub fn is_halted(ops: &Vec<Op>, tape: &Tape) -> (b: bool)
    ensures
        b == halted(ops@, tape@),
{
    tape.pc >= ops.len()
}

/// Whether the next step executes an input instruction, and so needs to be
/// given what a read of input came back with.
pub fn wants_input(ops: &Vec<Op>, tape: &Tape) -> (b: bool)
    ensures
        b == awaits_input(ops@, tape@),
{
    if tape.pc < ops.len() {
        match ops[tape.pc] {
            Op::Input => true,
            _ => false,
        }
    } else {
        false
    }
}

/// Executes the instruction under the instruction pointer and returns the
/// byte it wrote to the output, if it wrote one. `read` is handed to an
/// input instruction and ignored by every other. When the step fails, the
/// tape is left as it was; when the machine has halted, nothing happens.
pub fn step(ops: &Vec<Op>, tape: &mut Tape, read: Read) -> (result: Result<Option<u8>, Error>)
    ensures
        match step_spec(ops@, old(tape)@, read) {
            Ok((next, emitted)) => result == Ok::<Option<u8>, Error>(emitted) && final(tape)@
                == next,
            Err(e) => result == Err::<Option<u8>, Error>(e) && final(tape)@ == old(tape)@,
        },
        old(tape)@.cells.len() <= final(tape)@.cells.len() <= old(tape)@.cells.len() + 1,
        old(tape)@.has_cell() ==> final(tape)@.has_cell(),
        old(tape)@.has_cell() && result is Err ==> result == Err::<Option<u8>, Error>(
            Error::PointerUnderflow,
        ) || (read is Failed && awaits_input(ops@, old(tape)@)),
{
    if tape.pc >= ops.len() {
        return Ok(None);
    }
    let mut emitted: Option<u8> = None;
    let done = match ops[tape.pc] {
        Op::MovePtrRight => tape.inc_ptr(),
        Op::MovePtrLeft => tape.dec_ptr(),
        Op::IncCell => tape.inc_val(),
        Op::DecCell => tape.dec_val(),
        Op::Input => tape.input(read),
        Op::Output => match tape.output() {
            Ok(b) => {
                emitted = Some(b);
                Ok(())
            },
            Err(e) => Err(e),
        },
        Op::LoopOpen(target) => tape.skip_right(target),
        Op::LoopClose(target) => {
            tape.skip_left(target);
            return Ok(None);
        },
    };
    match done {
        Ok(()) => {
            if tape.pc < ops.len() {
                tape.pc = tape.pc + 1;
            }
            Ok(emitted)
        },
        Err(e) => Err(e),
    }
}

/// Executes `ops` from a fresh tape, reading from `input`, for at most
/// `limit` steps.
///
/// Returns the bytes written by the output instructions, in order, if the
/// machine halts within `limit` steps; `None` if it is still running after
/// `limit` steps; and the error of the first step that fails, in which case
/// the output written until then is dropped. An input instruction that
/// finds `input` used up leaves its cell unchanged.
pub fn process(ops: Vec<Op>, input: &[u8], limit: u64) -> (result: Result<
    Option<Vec<u8>>,
    Error,
>)
    ensures
        agrees(result, outcome(ops@, input@, limit as nat)),
        result matches Err(e) ==> e == Error::PointerUnderflow,
{
    let mut tape = Tape::new();
    let mut output: Vec<u8> = Vec::new();
    let mut consumed: usize = 0;
    let mut steps: u64 = 0;
    assert(input@.skip(0) =~= input@);
    while tape.pc < ops.len() && steps < limit
        invariant
            consumed <= input@.len(),
            steps <= limit,
            tape@.has_cell(),
            Run::start(input@).run(ops@, limit as nat) == (Run {
                tape: tape@,
                unread: input@.skip(consumed as int),
                output: output@,
            }).run(ops@, (limit - steps) as nat),
        decreases limit - steps,
    {
        let ghost here = Run { tape: tape@, unread: input@.skip(consumed as int), output: output@ };
        let read = if wants_input(&ops, &tape) && consumed < input.len() {
            let b = input[consumed];
            consumed = consumed + 1;
            Read::Byte(b)
        } else {
            Read::Exhausted
        };
        proof {
            assert(here.unread.len() > 0 ==> here.unread.drop_first() =~= input@.skip(
                input@.len() - here.unread.len() + 1,
            ));
        }
        match step(&ops, &mut tape, read) {
            Ok(Some(b)) => {
                output.push(b);
            },
            Ok(None) => {},
            Err(e) => {
                return Err(e);
            },
        }
        steps = steps + 1;
    }
    if tape.pc < ops.len() {
        Ok(None)
    } else {
        Ok(Some(output))
    }
}

/// Parses `src` and executes it from a fresh tape, reading from `input`, for
/// at most `limit` steps.
///
/// A source whose brackets do not match fails with `UnmatchedClose` or
/// `UnmatchedOpen` and is not executed. Otherwise the result is that of
/// `process` on the parsed instructions.
pub fn run(src: &str, input: &[u8], limit: u64) -> (result: Result<Option<Vec<u8>>, Error>)
    ensures
        agrees(result, run_spec(src@, input@, limit as nat)),
        result matches Err(e) ==> e == Error::UnmatchedClose || e == Error::UnmatchedOpen || e
            == Error::PointerUnderflow,
{
    let ops = match parse_src(src) {
        Ok(ops) => ops,
        Err(e) => {
            return Err(e);
        },
    };
    process(ops, input, limit)
}

} // verus!

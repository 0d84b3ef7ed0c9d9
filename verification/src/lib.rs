//! A verified interpreter for the eight-instruction tape language.
//!
//! A run has two stages. The parser (`parse_src`) turns source text into a
//! flat sequence of instructions in which every loop bracket already knows
//! the position of its partner. The executor then walks that sequence against
//! a tape of byte cells that grows to the right, collecting the bytes that
//! the program writes.
//!
//! The executor never touches the outside world. `step` executes one
//! instruction and is told what a read of input came back with, so a caller
//! can feed it from any stream for as long as the program runs. `process` and
//! `run` take the whole input in advance and stop after a number of steps
//! that the caller chooses, since a program may run forever.
//!
//! What each function computes is stated in its contract over the
//! definitions in `syntax`, `tape` and `machine`; `laws` holds what follows
//! from those definitions for every source and every run.

pub mod error;
pub mod laws;
pub mod machine;
pub mod op;
pub mod parser;
pub mod syntax;
pub mod tape;

pub use error::Error;
pub use machine::{is_halted, process, run, step, wants_input};
pub use op::Op;
pub use parser::parse_src;
pub use tape::{Read, Tape};

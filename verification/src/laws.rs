//! Facts about every source text and every run, proved from the definitions
//! that the contracts of the parser and the executor are stated in.

use vstd::prelude::*;

use crate::error::Error;
use crate::machine::{halted, outcome, run_spec, step_spec, Run};
use crate::op::Op;
use crate::syntax::{
    balanced, close_of, code, depth, is_op_char, lemma_code_chars, lemma_code_of_ops,
    lemma_matched_is_chosen, lemma_open_unique, link, matched, op_at, open_of, paired, parse,
};
use crate::tape::{Read, TapeState};

verus! {

/// The code of a text is what filtering it for instruction characters gives.
pub proof fn lemma_code_is_filter(text: Seq<char>)
    ensures
        code(text) == text.filter(|c: char| is_op_char(c)),
    decreases text.len(),
{
    reveal(Seq::filter);
    if text.len() > 0 {
        lemma_code_is_filter(text.drop_last());
    }
}

/// Comments leave no trace: a text parses to exactly what it parses to once
/// every character that is not an instruction has been removed from it.
pub proof fn lemma_parse_skips_comments(text: Seq<char>)
    ensures
        parse(text) == parse(code(text)),
        parse(text) == parse(text.filter(|c: char| is_op_char(c))),
{
    lemma_code_chars(text);
    lemma_code_of_ops(code(text));
    lemma_code_is_filter(text);
}

/// A text parses exactly when its brackets are balanced.
pub proof fn lemma_parse_accepts_balanced(text: Seq<char>)
    ensures
        parse(text) is Ok <==> balanced(code(text)),
        parse(text) is Ok ==> parse(text) == Ok::<Seq<Op>, Error>(link(code(text))),
        parse(text) is Err ==> parse(text) == Err::<Seq<Op>, Error>(Error::UnmatchedClose)
            || parse(text) == Err::<Seq<Op>, Error>(Error::UnmatchedOpen),
{
}

/// Scanning to the right of a `[` for the `]` that closes it: while the
/// depth has stayed above the depth before the `[` up to position `n`, and
/// falls back to it or below by the end, a matching `]` lies ahead.
proof fn lemma_scan_for_close(code: Seq<char>, open: int, n: int)
    requires
        0 <= open < n <= code.len(),
        code[open] == '[',
        forall|k: int| open < k <= n ==> #[trigger] depth(code, k) > depth(code, open),
        depth(code, code.len() as int) <= depth(code, open),
    ensures
        exists|close: int| matched(code, open, close),
    decreases code.len() - n,
{
    assert(depth(code, n) > depth(code, open));
    assert(n < code.len());
    if depth(code, n + 1) > depth(code, open) {
        lemma_scan_for_close(code, open, n + 1);
    } else {
        assert(matched(code, open, n));
    }
}

/// Scanning to the left of a `]` for the `[` that it closes: while the depth
/// has stayed above the depth after the `]` from position `n` on, and the
/// text starts at or below it, a matching `[` lies behind.
proof fn lemma_scan_for_open(code: Seq<char>, n: int, close: int)
    requires
        0 <= n <= close < code.len(),
        code[close] == ']',
        forall|k: int| n < k <= close ==> #[trigger] depth(code, k) > depth(code, close + 1),
        depth(code, close + 1) >= 0,
    ensures
        exists|open: int| matched(code, open, close),
    decreases n,
{
    if depth(code, n) > depth(code, close + 1) {
        assert(n > 0);
        lemma_scan_for_open(code, n - 1, close);
    } else {
        assert(depth(code, n + 1) > depth(code, close + 1));
        assert(n < close);
        assert(matched(code, n, close));
    }
}

/// In balanced code every `[` has a matching `]`.
pub proof fn lemma_open_has_close(code: Seq<char>, open: int)
    requires
        balanced(code),
        0 <= open < code.len(),
        code[open] == '[',
    ensures
        matched(code, open, close_of(code, open)),
{
    assert(depth(code, open) >= 0);
    assert(depth(code, open + 1) == depth(code, open) + 1);
    lemma_scan_for_close(code, open, open + 1);
}

/// In balanced code every `]` has a matching `[`.
pub proof fn lemma_close_has_open(code: Seq<char>, close: int)
    requires
        balanced(code),
        0 <= close < code.len(),
        code[close] == ']',
    ensures
        matched(code, open_of(code, close), close),
{
    assert(depth(code, close + 1) >= 0);
    assert(depth(code, close + 1) == depth(code, close) - 1);
    lemma_scan_for_open(code, close, close);
}

/// Loops nest: a loop that opens inside another loop closes inside it too, so
/// that the `[` opened last is the first to be closed.
pub proof fn lemma_pairs_nest(
    code: Seq<char>,
    outer: int,
    outer_close: int,
    inner: int,
    inner_close: int,
)
    requires
        matched(code, outer, outer_close),
        matched(code, inner, inner_close),
        outer < inner < outer_close,
    ensures
        inner_close < outer_close,
{
    assert(depth(code, inner) > depth(code, outer));
    if inner_close > outer_close {
        assert(depth(code, outer_close + 1) > depth(code, inner));
    } else if inner_close == outer_close {
        lemma_open_unique(code, outer, inner, outer_close);
    }
}

/// Loop instructions point at their partners: in the instructions that a
/// text parses to, every instruction is the one that its character stands
/// for, the target of each `LoopOpen` is the position of the `]` that closes
/// its `[`, the target of each `LoopClose` is the position of the `[` that its
/// `]` closes, and the two instructions of a pair point at each other.
pub proof fn lemma_brackets_point_at_partners(text: Seq<char>)
    requires
        code(text).len() <= usize::MAX,
        parse(text) is Ok,
    ensures
        paired(parse(text)->Ok_0),
        ({
            let code = code(text);
            let ops = parse(text)->Ok_0;
            &&& ops.len() == code.len()
            &&& forall|i: int| 0 <= i < ops.len() ==> (#[trigger] ops[i]).spec_symbol() == code[i]
            &&& forall|i: int|
                0 <= i < ops.len() ==> (#[trigger] ops[i] matches Op::LoopOpen(target) ==> {
                    &&& matched(code, i, target as int)
                    &&& ops[target as int] == Op::LoopClose(i as usize)
                })
            &&& forall|i: int|
                0 <= i < ops.len() ==> (#[trigger] ops[i] matches Op::LoopClose(target) ==> {
                    &&& matched(code, target as int, i)
                    &&& ops[target as int] == Op::LoopOpen(i as usize)
                })
        }),
{
    let code = code(text);
    let ops = parse(text)->Ok_0;
    lemma_code_chars(text);
    assert forall|i: int| 0 <= i < ops.len() implies {
        &&& (#[trigger] ops[i]).spec_symbol() == code[i]
        &&& ops[i] matches Op::LoopOpen(target) ==> {
            &&& matched(code, i, target as int)
            &&& ops[target as int] == Op::LoopClose(i as usize)
        }
        &&& ops[i] matches Op::LoopClose(target) ==> {
            &&& matched(code, target as int, i)
            &&& ops[target as int] == Op::LoopOpen(i as usize)
        }
    } by {
        assert(is_op_char(code[i]));
        assert(ops[i] == op_at(code, i));
        if code[i] == '[' {
            lemma_open_has_close(code, i);
            let close = close_of(code, i);
            lemma_matched_is_chosen(code, i, close);
            assert(ops[close] == op_at(code, close));
        } else if code[i] == ']' {
            lemma_close_has_open(code, i);
            let open = open_of(code, i);
            lemma_matched_is_chosen(code, open, i);
            assert(ops[open] == op_at(code, open));
        }
    }
}

/// How a loop runs. At its `[`, a step goes on behind the matching `]` if the
/// current cell is 0 and into the body otherwise. At its `]`, a step goes back
/// to the `[`, which decides again. Neither step touches a cell, and neither
/// can fail while the cell pointer addresses a cell.
pub proof fn lemma_loop_steps(ops: Seq<Op>, tape: TapeState, read: Read, open: int, close: int)
    requires
        0 <= open < close < ops.len(),
        close <= usize::MAX,
        ops[open] == Op::LoopOpen(close as usize),
        ops[close] == Op::LoopClose(open as usize),
        tape.has_cell(),
    ensures
        tape.pc == open && tape.cell() == 0 ==> step_spec(ops, tape, read) == Ok::<
            (TapeState, Option<u8>),
            Error,
        >((tape.with_pc(close + 1), None)),
        tape.pc == open && tape.cell() != 0 ==> step_spec(ops, tape, read) == Ok::<
            (TapeState, Option<u8>),
            Error,
        >((tape.with_pc(open + 1), None)),
        tape.pc == close ==> step_spec(ops, tape, read) == Ok::<(TapeState, Option<u8>), Error>(
            (tape.with_pc(open), None),
        ),
{
}

/// The source of `n` moves to the right followed by one output.
pub open spec fn moves_then_output(n: nat) -> Seq<char> {
    Seq::new(n, |i: int| '>').push('.')
}

/// `n` cells that all hold 0.
pub open spec fn zeros(n: nat) -> Seq<u8> {
    Seq::new(n, |i: int| 0u8)
}

/// A program without brackets has depth 0 everywhere.
proof fn lemma_depth_without_brackets(code: Seq<char>, n: int)
    requires
        0 <= n <= code.len(),
        forall|i: int| 0 <= i < code.len() ==> code[i] != '[' && code[i] != ']',
    ensures
        depth(code, n) == 0,
    decreases n,
{
    if n > 0 {
        lemma_depth_without_brackets(code, n - 1);
    }
}

/// The run of `n` moves and an output from the point where `k` of the moves
/// are done.
proof fn lemma_finish_moves(n: nat, ops: Seq<Op>, from: Run, k: nat, limit: nat)
    requires
        n <= usize::MAX,
        ops.len() == n + 1,
        forall|i: int| 0 <= i < n ==> ops[i] == Op::MovePtrRight,
        ops[n as int] == Op::Output,
        k <= n,
        from.tape == (TapeState { cells: zeros(k + 1), ptr: k as int, pc: k as int }),
        limit > n - k,
    ensures
        from.run(ops, limit) == Ok::<Run, Error>(
            Run {
                tape: TapeState { cells: zeros(n + 1), ptr: n as int, pc: n as int + 1 },
                unread: from.unread,
                output: from.output.push(0u8),
            },
        ),
    decreases n - k,
{
    assert(!halted(ops, from.tape));
    if k < n {
        assert(ops[k as int] == Op::MovePtrRight);
        assert(zeros(k + 1).push(0u8) =~= zeros(k + 2));
        let moved = TapeState { cells: zeros(k + 2), ptr: k as int + 1, pc: k as int };
        assert(from.tape.inc_ptr() == Ok::<TapeState, Error>(moved));
        let next = Run { tape: moved.with_pc(k as int + 1), ..from };
        assert(from.step(ops) == Ok::<Run, Error>(next));
        lemma_finish_moves(n, ops, next, k + 1, (limit - 1) as nat);
    } else {
        assert(from.tape.output() == Ok::<u8, Error>(0u8));
        let next = Run {
            tape: from.tape.with_pc(n as int + 1),
            output: from.output.push(0u8),
            ..from
        };
        assert(from.step(ops) == Ok::<Run, Error>(next));
        assert(halted(ops, next.tape));
        assert(next.run(ops, (limit - 1) as nat) == Ok::<Run, Error>(next));
    }
}

/// Every move to the right onto new ground adds one cell: the program of `n`
/// moves to the right followed by one output halts after `n + 1` steps with a
/// tape of exactly `n + 1` cells, having written the single byte 0, whatever
/// the input. `n` may be any number of moves that keeps the cell pointer
/// within a machine word.
pub proof fn lemma_moves_grow_tape(n: nat, input: Seq<u8>, limit: nat)
    requires
        n <= usize::MAX,
        limit > n,
    ensures
        parse(moves_then_output(n)) is Ok,
        ({
            let ops = parse(moves_then_output(n))->Ok_0;
            let end = Run::start(input).run(ops, limit);
            &&& end is Ok
            &&& halted(ops, end->Ok_0.tape)
            &&& end->Ok_0.tape.cells.len() == n + 1
            &&& end->Ok_0.output == seq![0u8]
        }),
        run_spec(moves_then_output(n), input, limit) == Ok::<Option<Seq<u8>>, Error>(
            Some(seq![0u8]),
        ),
{
    let text = moves_then_output(n);
    lemma_code_of_ops(text);
    assert forall|k: int| 0 <= k <= text.len() implies depth(text, k) == 0 by {
        lemma_depth_without_brackets(text, k);
    }
    let ops = link(text);
    assert(parse(text) == Ok::<Seq<Op>, Error>(ops));
    assert(TapeState::fresh().cells =~= zeros(1));
    lemma_finish_moves(n, ops, Run::start(input), 0, limit);
    assert(Seq::<u8>::empty().push(0u8) =~= seq![0u8]);
}

/// Once a run has halted or failed, more steps change nothing: what is
/// reached within `limit` steps is reached within any larger number.
pub proof fn lemma_run_settles(ops: Seq<Op>, from: Run, limit: nat, more: nat)
    requires
        limit <= more,
        from.run(ops, limit) is Ok ==> halted(ops, from.run(ops, limit)->Ok_0.tape),
    ensures
        from.run(ops, more) == from.run(ops, limit),
    decreases limit,
{
    if !halted(ops, from.tape) && limit > 0 {
        if let Ok(next) = from.step(ops) {
            lemma_run_settles(ops, next, (limit - 1) as nat, (more - 1) as nat);
        }
    }
}

/// The number of steps allowed matters only as long as it is too small: an
/// execution that ends within `limit` steps, in output or in an error, ends
/// in the same way under every larger limit.
pub proof fn lemma_outcome_settles(ops: Seq<Op>, input: Seq<u8>, limit: nat, more: nat)
    requires
        limit <= more,
        outcome(ops, input, limit) != Ok::<Option<Seq<u8>>, Error>(None),
    ensures
        outcome(ops, input, more) == outcome(ops, input, limit),
{
    lemma_run_settles(ops, Run::start(input), limit, more);
}

/// A step taken while the cell pointer addresses a cell fails only by moving
/// the pointer off either end of what a machine word can address, and leaves
/// the pointer on a cell of a tape that has lost none of its cells.
pub proof fn lemma_step_keeps_cell(ops: Seq<Op>, from: Run)
    requires
        from.tape.has_cell(),
    ensures
        match from.step(ops) {
            Ok(next) => next.tape.has_cell() && next.tape.cells.len() >= from.tape.cells.len()
                && next.tape.cells.len() <= from.tape.cells.len() + 1,
            Err(e) => e == Error::PointerOverflow || e == Error::PointerUnderflow,
        },
{
}

/// The invariant of the tape holds throughout a run: from a state whose cell
/// pointer addresses a cell, a run only reaches such states, never loses a
/// cell, and can fail only with `PointerOverflow` or `PointerUnderflow`.
pub proof fn lemma_run_keeps_cell(ops: Seq<Op>, from: Run, limit: nat)
    requires
        from.tape.has_cell(),
    ensures
        match from.run(ops, limit) {
            Ok(end) => end.tape.has_cell() && end.tape.cells.len() >= from.tape.cells.len(),
            Err(e) => e == Error::PointerOverflow || e == Error::PointerUnderflow,
        },
    decreases limit,
{
    if !halted(ops, from.tape) && limit > 0 {
        lemma_step_keeps_cell(ops, from);
        if let Ok(next) = from.step(ops) {
            lemma_run_keeps_cell(ops, next, (limit - 1) as nat);
        }
    }
}

/// An execution from a fresh tape over input given in advance never fails
/// for want of a cell or of input.
pub proof fn lemma_outcome_errors(ops: Seq<Op>, input: Seq<u8>, limit: nat)
    ensures
        outcome(ops, input, limit) matches Err(e) ==> e == Error::PointerOverflow || e
            == Error::PointerUnderflow,
{
    lemma_run_keeps_cell(ops, Run::start(input), limit);
}

} // verus!

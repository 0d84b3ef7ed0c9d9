//! What a source text means, stated without reference to any algorithm:
//! which of its characters are instructions, how deeply each position is
//! nested inside loops, which brackets belong together, and the instruction
//! sequence that follows from all of that.

use vstd::prelude::*;

use crate::error::Error;
use crate::op::Op;

verus! {

/// The eight characters that stand for instructions. Every other character
/// is a comment.
pub open spec fn is_op_char(c: char) -> bool {
    c == '>' || c == '<' || c == '+' || c == '-' || c == ',' || c == '.' || c == '[' || c == ']'
}

/// The instruction characters of `text` in their order: `text` with every
/// comment character removed.
pub open spec fn code(text: Seq<char>) -> Seq<char>
    decreases text.len(),
{
    if text.len() == 0 {
        Seq::empty()
    } else if is_op_char(text.last()) {
        code(text.drop_last()).push(text.last())
    } else {
        code(text.drop_last())
    }
}

/// What a character adds to the nesting depth.
pub open spec fn bracket_delta(c: char) -> int {
    if c == '[' {
        1
    } else if c == ']' {
        -1
    } else {
        0
    }
}

/// The nesting depth after the first `n` characters of `code`: the number of
/// `[` among them minus the number of `]`.
pub open spec fn depth(code: Seq<char>, n: int) -> int
    decreases n,
{
    if n <= 0 {
        0
    } else {
        depth(code, n - 1) + bracket_delta(code[n - 1])
    }
}

/// Some `]` in `code` has no `[` before it left to close.
pub open spec fn closes_unopened(code: Seq<char>) -> bool {
    exists|n: int| 0 <= n <= code.len() && depth(code, n) < 0
}

/// Every `]` closes an earlier `[`, and no `[` is left open at the end.
pub open spec fn balanced(code: Seq<char>) -> bool {
    !closes_unopened(code) && depth(code, code.len() as int) == 0
}

/// The `[` at `open` and the `]` at `close` enclose one loop: the depth stays
/// above its value before `open` all the way to `close`, and returns to that
/// value right after `close`.
pub open spec fn matched(code: Seq<char>, open: int, close: int) -> bool {
    &&& 0 <= open < close < code.len()
    &&& code[open] == '['
    &&& code[close] == ']'
    &&& depth(code, close + 1) == depth(code, open)
    &&& forall|k: int| open < k <= close ==> #[trigger] depth(code, k) > depth(code, open)
}

/// The position of the `]` that closes the `[` at `open`.
pub open spec fn close_of(code: Seq<char>, open: int) -> int {
    choose|close: int| matched(code, open, close)
}

/// The position of the `[` that the `]` at `close` closes.
pub open spec fn open_of(code: Seq<char>, close: int) -> int {
    choose|open: int| matched(code, open, close)
}

/// The instruction at position `i` of `code`, with its jump target resolved.
pub open spec fn op_at(code: Seq<char>, i: int) -> Op {
    let c = code[i];
    if c == '>' {
        Op::MovePtrRight
    } else if c == '<' {
        Op::MovePtrLeft
    } else if c == '+' {
        Op::IncCell
    } else if c == '-' {
        Op::DecCell
    } else if c == ',' {
        Op::Input
    } else if c == '.' {
        Op::Output
    } else if c == '[' {
        Op::LoopOpen(close_of(code, i) as usize)
    } else {
        Op::LoopClose(open_of(code, i) as usize)
    }
}

/// The instruction sequence of a source made of instruction characters only.
pub open spec fn link(code: Seq<char>) -> Seq<Op> {
    Seq::new(code.len(), |i: int| op_at(code, i))
}

/// In `ops` every loop instruction and its target point at each other: the
/// target of a `LoopOpen` is a later `LoopClose` whose target is that
/// `LoopOpen`, and the target of a `LoopClose` is an earlier `LoopOpen` whose
/// target is that `LoopClose`.
pub open spec fn paired(ops: Seq<Op>) -> bool {
    &&& forall|i: int|
        0 <= i < ops.len() ==> (#[trigger] ops[i] matches Op::LoopOpen(target) ==> i < target
            < ops.len() && ops[target as int] == Op::LoopClose(i as usize))
    &&& forall|i: int|
        0 <= i < ops.len() ==> (#[trigger] ops[i] matches Op::LoopClose(target) ==> target < i
            && ops[target as int] == Op::LoopOpen(i as usize))
}

/// What parsing `text` yields. A `]` that closes nothing is reported in
/// preference to a `[` that is never closed.
pub open spec fn parse(text: Seq<char>) -> Result<Seq<Op>, Error> {
    let c = code(text);
    if closes_unopened(c) {
        Err(Error::UnmatchedClose)
    } else if depth(c, c.len() as int) != 0 {
        Err(Error::UnmatchedOpen)
    } else {
        Ok(link(c))
    }
}

/// Appending one character to a text appends it to the code exactly when it
/// is an instruction character.
pub proof fn lemma_code_push(text: Seq<char>, c: char)
    ensures
        code(text.push(c)) == if is_op_char(c) {
            code(text).push(c)
        } else {
            code(text)
        },
{
    assert(text.push(c).drop_last() =~= text);
}

/// The code of a text holds instruction characters only, and no more
/// characters than the text.
pub proof fn lemma_code_chars(text: Seq<char>)
    ensures
        code(text).len() <= text.len(),
        forall|i: int| 0 <= i < code(text).len() ==> is_op_char(#[trigger] code(text)[i]),
    decreases text.len(),
{
    if text.len() > 0 {
        lemma_code_chars(text.drop_last());
    }
}

/// A text without comment characters is its own code.
pub proof fn lemma_code_of_ops(text: Seq<char>)
    requires
        forall|i: int| 0 <= i < text.len() ==> is_op_char(#[trigger] text[i]),
    ensures
        code(text) == text,
    decreases text.len(),
{
    if text.len() > 0 {
        lemma_code_of_ops(text.drop_last());
        assert(text.drop_last().push(text.last()) =~= text);
    }
}

/// The code of a text is the code of any of its prefixes followed by the code
/// of the rest.
pub proof fn lemma_code_split(text: Seq<char>, n: int)
    requires
        0 <= n <= text.len(),
    ensures
        code(text) == code(text.take(n)) + code(text.skip(n)),
    decreases text.len() - n,
{
    let rest = text.skip(n);
    if rest.len() == 0 {
        assert(text.take(n) =~= text);
        assert(code(text.take(n)) + code(rest) =~= code(text));
    } else {
        assert(text.drop_last().take(n) =~= text.take(n));
        assert(text.drop_last().skip(n) =~= rest.drop_last());
        assert(rest.last() == text.last());
        lemma_code_split(text.drop_last(), n);
        let head = code(text.take(n));
        let tail = code(rest.drop_last());
        assert((head + tail).push(text.last()) =~= head + tail.push(text.last()));
    }
}

/// The depth after `n` characters depends on those `n` characters alone.
pub proof fn lemma_depth_prefix(a: Seq<char>, b: Seq<char>, n: int)
    requires
        0 <= n <= a.len(),
        n <= b.len(),
        forall|i: int| 0 <= i < n ==> a[i] == b[i],
    ensures
        depth(a, n) == depth(b, n),
    decreases n,
{
    if n > 0 {
        lemma_depth_prefix(a, b, n - 1);
    }
}

/// A `[` has at most one matching `]`.
pub proof fn lemma_close_unique(code: Seq<char>, open: int, c1: int, c2: int)
    requires
        matched(code, open, c1),
        matched(code, open, c2),
    ensures
        c1 == c2,
{
    if c1 < c2 {
        assert(depth(code, c1 + 1) > depth(code, open));
    } else if c2 < c1 {
        assert(depth(code, c2 + 1) > depth(code, open));
    }
}

/// A `]` has at most one matching `[`.
pub proof fn lemma_open_unique(code: Seq<char>, o1: int, o2: int, close: int)
    requires
        matched(code, o1, close),
        matched(code, o2, close),
    ensures
        o1 == o2,
{
    if o1 < o2 {
        assert(depth(code, o2) > depth(code, o1));
    } else if o2 < o1 {
        assert(depth(code, o1) > depth(code, o2));
    }
}

/// Whoever knows one matching pair knows what `close_of` and `open_of` give
/// for it.
pub proof fn lemma_matched_is_chosen(code: Seq<char>, open: int, close: int)
    requires
        matched(code, open, close),
    ensures
        close_of(code, open) == close,
        open_of(code, close) == open,
{
    lemma_close_unique(code, open, close, close_of(code, open));
    lemma_open_unique(code, open, open_of(code, close), close);
}

} // verus!

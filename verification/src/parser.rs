//! The parser: one pass over the source that emits the instructions and pairs
//! up the loop brackets with a stack of the `[` that are still open.

use vstd::prelude::*;

use crate::error::Error;
use crate::laws::lemma_brackets_point_at_partners;
use crate::op::Op;
use crate::syntax::{
    bracket_delta, closes_unopened, code, depth, is_op_char, lemma_code_push, lemma_code_split,
    lemma_depth_prefix, lemma_matched_is_chosen, link, matched, op_at, paired, parse,
};

verus! {

/// The `k`-th entry of the stack is a `[` of `code` that nothing has closed
/// yet: `k` loops were open before it, and the depth has stayed above `k`
/// ever since.
spec fn still_open(code: Seq<char>, pending: Seq<usize>, k: int) -> bool {
    let p = pending[k] as int;
    &&& 0 <= p < code.len()
    &&& code[p] == '['
    &&& depth(code, p) == k
    &&& forall|n: int| p < n <= code.len() ==> #[trigger] depth(code, n) > k
}

/// The instruction at `i` is final: it is the one that `code[i]` stands for,
/// and if it is a bracket whose partner has been seen, it points at that
/// partner. A `[` that is still on the stack may point anywhere.
spec fn settled(code: Seq<char>, ops: Seq<Op>, pending: Seq<usize>, i: int) -> bool {
    let c = code[i];
    if c == '[' {
        ops[i] is LoopOpen && (pending.contains(i as usize) || matched(
            code,
            i,
            ops[i]->LoopOpen_0 as int,
        ))
    } else if c == ']' {
        ops[i] is LoopClose && matched(code, ops[i]->LoopClose_0 as int, i)
    } else {
        is_op_char(c) && ops[i] == op_at(code, i)
    }
}

/// The state of the parser after it has read the instruction characters
/// `code`: `ops` holds one instruction for each of them, and `pending` the
/// positions of the `[` that are still open, innermost last.
spec fn in_progress(code: Seq<char>, ops: Seq<Op>, pending: Seq<usize>) -> bool {
    &&& ops.len() == code.len()
    &&& !closes_unopened(code)
    &&& pending.len() == depth(code, code.len() as int)
    &&& forall|k: int| 0 <= k < pending.len() ==> #[trigger] still_open(code, pending, k)
    &&& forall|i: int| 0 <= i < code.len() ==> #[trigger] settled(code, ops, pending, i)
}

/// Appending a character leaves every depth inside the old code, and every
/// pair matched there, as it was.
proof fn lemma_push_keeps(code: Seq<char>, c: char)
    ensures
        forall|n: int| 0 <= n <= code.len() ==> #[trigger] depth(code.push(c), n) == depth(code, n),
        depth(code.push(c), code.len() as int + 1) == depth(code, code.len() as int)
            + bracket_delta(c),
        forall|a: int, b: int| matched(code, a, b) ==> #[trigger] matched(code.push(c), a, b),
{
    let next = code.push(c);
    assert forall|n: int| 0 <= n <= code.len() implies #[trigger] depth(next, n) == depth(
        code,
        n,
    ) by {
        lemma_depth_prefix(next, code, n);
    }
    assert(next[code.len() as int] == c);
    assert(depth(next, code.len() as int + 1) == depth(next, code.len() as int) + bracket_delta(c));
    assert forall|a: int, b: int| matched(code, a, b) implies #[trigger] matched(next, a, b) by {
        assert(depth(next, b + 1) == depth(code, b + 1));
        assert(depth(next, a) == depth(code, a));
        assert forall|k: int| a < k <= b implies #[trigger] depth(next, k) > depth(next, a) by {
            assert(depth(next, k) == depth(code, k));
        }
    }
}

/// Appending a character that is not `]` cannot close a loop that is not
/// open.
proof fn lemma_push_stays_nonnegative(code: Seq<char>, c: char)
    requires
        !closes_unopened(code),
        c != ']',
    ensures
        !closes_unopened(code.push(c)),
{
    lemma_push_keeps(code, c);
    let next = code.push(c);
    assert forall|n: int| 0 <= n <= next.len() implies depth(next, n) >= 0 by {
        if n <= code.len() {
            assert(depth(next, n) == depth(code, n));
        } else {
            assert(depth(code, code.len() as int) >= 0);
        }
    }
}

/// Reading an instruction that is not a bracket.
proof fn lemma_read_plain(code: Seq<char>, ops: Seq<Op>, pending: Seq<usize>, c: char, op: Op)
    requires
        in_progress(code, ops, pending),
        is_op_char(c),
        c != '[',
        c != ']',
        op == op_at(code.push(c), code.len() as int),
    ensures
        in_progress(code.push(c), ops.push(op), pending),
{
    let next = code.push(c);
    let next_ops = ops.push(op);
    lemma_push_keeps(code, c);
    lemma_push_stays_nonnegative(code, c);
    assert forall|k: int| 0 <= k < pending.len() implies #[trigger] still_open(
        next,
        pending,
        k,
    ) by {
        assert(still_open(code, pending, k));
        let p = pending[k] as int;
        assert(depth(next, p) == depth(code, p));
        assert forall|n: int| p < n <= next.len() implies #[trigger] depth(next, n) > k by {
            if n <= code.len() {
                assert(depth(next, n) == depth(code, n));
            }
        }
    }
    assert forall|i: int| 0 <= i < next.len() implies #[trigger] settled(
        next,
        next_ops,
        pending,
        i,
    ) by {
        if i < code.len() {
            assert(settled(code, ops, pending, i));
            if code[i] != '[' && code[i] != ']' {
                lemma_settled_plain_same(code, c, i);
            }
        }
    }
}

/// For an instruction that is not a bracket, what `op_at` gives does not
/// depend on what follows it.
proof fn lemma_settled_plain_same(code: Seq<char>, c: char, i: int)
    requires
        0 <= i < code.len(),
        is_op_char(code[i]),
        code[i] != '[',
        code[i] != ']',
    ensures
        op_at(code.push(c), i) == op_at(code, i),
{
}

/// Reading a `[`: it is emitted with a target still to be filled in, and its
/// position goes on the stack.
proof fn lemma_read_open(code: Seq<char>, ops: Seq<Op>, pending: Seq<usize>, target: usize)
    requires
        in_progress(code, ops, pending),
        code.len() <= usize::MAX,
    ensures
        in_progress(
            code.push('['),
            ops.push(Op::LoopOpen(target)),
            pending.push(code.len() as usize),
        ),
{
    let next = code.push('[');
    let next_ops = ops.push(Op::LoopOpen(target));
    let next_pending = pending.push(code.len() as usize);
    lemma_push_keeps(code, '[');
    lemma_push_stays_nonnegative(code, '[');
    assert forall|k: int| 0 <= k < next_pending.len() implies #[trigger] still_open(
        next,
        next_pending,
        k,
    ) by {
        if k < pending.len() {
            assert(still_open(code, pending, k));
            let p = pending[k] as int;
            assert(depth(next, p) == depth(code, p));
            assert forall|n: int| p < n <= next.len() implies #[trigger] depth(next, n) > k by {
                if n <= code.len() {
                    assert(depth(next, n) == depth(code, n));
                }
            }
        } else {
            assert(depth(next, code.len() as int) == depth(code, code.len() as int));
        }
    }
    assert forall|i: int| 0 <= i < next.len() implies #[trigger] settled(
        next,
        next_ops,
        next_pending,
        i,
    ) by {
        if i < code.len() {
            assert(settled(code, ops, pending, i));
            if code[i] != '[' && code[i] != ']' {
                lemma_settled_plain_same(code, '[', i);
            }
            if code[i] == '[' && pending.contains(i as usize) {
                let k = choose|k: int| 0 <= k < pending.len() && pending[k] == i as usize;
                assert(next_pending[k] == i as usize);
            }
        } else {
            assert(next_pending[pending.len() as int] == i as usize);
        }
    }
}

/// Reading a `]` while a loop is open: the innermost open `[` and the new
/// `]` become a pair and point at each other.
proof fn lemma_read_close(code: Seq<char>, ops: Seq<Op>, pending: Seq<usize>)
    requires
        in_progress(code, ops, pending),
        pending.len() > 0,
        code.len() <= usize::MAX,
    ensures
        0 <= pending.last() < code.len(),
        in_progress(
            code.push(']'),
            ops.update(pending.last() as int, Op::LoopOpen(code.len() as usize)).push(
                Op::LoopClose(pending.last()),
            ),
            pending.drop_last(),
        ),
{
    let top = pending.len() - 1;
    let p = pending.last() as int;
    let m = code.len() as int;
    let next = code.push(']');
    let next_ops = ops.update(p, Op::LoopOpen(m as usize)).push(Op::LoopClose(pending.last()));
    let next_pending = pending.drop_last();
    lemma_push_keeps(code, ']');
    assert(still_open(code, pending, top));
    assert(depth(next, p) == depth(code, p));
    assert(matched(next, p, m)) by {
        assert forall|k: int| p < k <= m implies #[trigger] depth(next, k) > depth(next, p) by {
            assert(depth(next, k) == depth(code, k));
        }
    }
    assert forall|n: int| 0 <= n <= next.len() implies depth(next, n) >= 0 by {
        if n <= code.len() {
            assert(depth(next, n) == depth(code, n));
        }
    }
    assert forall|k: int| 0 <= k < next_pending.len() implies #[trigger] still_open(
        next,
        next_pending,
        k,
    ) by {
        assert(still_open(code, pending, k));
        let q = pending[k] as int;
        assert(depth(next, q) == depth(code, q));
        assert forall|n: int| q < n <= next.len() implies #[trigger] depth(next, n) > k by {
            if n <= code.len() {
                assert(depth(next, n) == depth(code, n));
            }
        }
    }
    assert forall|i: int| 0 <= i < next.len() implies #[trigger] settled(
        next,
        next_ops,
        next_pending,
        i,
    ) by {
        if i == p {
        } else if i < code.len() {
            assert(settled(code, ops, pending, i));
            if code[i] != '[' && code[i] != ']' {
                lemma_settled_plain_same(code, ']', i);
            }
            if code[i] == '[' && pending.contains(i as usize) {
                let k = choose|k: int| 0 <= k < pending.len() && pending[k] == i as usize;
                assert(k != top);
                assert(next_pending[k] == i as usize);
            }
        }
    }
}

/// Reading a `]` while no loop is open leaves the source beyond repair,
/// whatever follows.
proof fn lemma_read_stray_close(text: Seq<char>, n: int, code_before: Seq<char>)
    requires
        0 <= n < text.len(),
        text[n] == ']',
        code_before == code(text.take(n)),
        depth(code_before, code_before.len() as int) == 0,
    ensures
        closes_unopened(code(text)),
{
    let upto = text.take(n + 1);
    assert(upto =~= text.take(n).push(']'));
    lemma_code_push(text.take(n), ']');
    let seen = code(upto);
    lemma_push_keeps(code_before, ']');
    lemma_code_split(text, n + 1);
    lemma_depth_prefix(code(text), seen, seen.len() as int);
    assert(depth(code(text), seen.len() as int) < 0);
}

/// Once the whole source is read, the state of the parser decides the
/// result.
proof fn lemma_finish(code: Seq<char>, ops: Seq<Op>, pending: Seq<usize>)
    requires
        in_progress(code, ops, pending),
    ensures
        !closes_unopened(code),
        pending.len() == 0 ==> depth(code, code.len() as int) == 0 && ops == link(code),
        pending.len() > 0 ==> depth(code, code.len() as int) > 0,
{
    if pending.len() == 0 {
        assert forall|i: int| 0 <= i < code.len() implies ops[i] == op_at(code, i) by {
            assert(settled(code, ops, pending, i));
            if code[i] == '[' {
                lemma_matched_is_chosen(code, i, ops[i]->LoopOpen_0 as int);
            } else if code[i] == ']' {
                lemma_matched_is_chosen(code, ops[i]->LoopClose_0 as int, i);
            }
        }
        assert(ops =~= link(code));
    }
}

/// Parses source text into the instruction sequence, with every loop bracket
/// pointing at its partner.
///
/// Characters other than the eight instruction characters are comments and
/// leave no trace. The result is `parse` of the text: the instructions in
/// source order when the brackets are balanced, `UnmatchedClose` when some
/// `]` closes nothing, and otherwise `UnmatchedOpen` when a `[` stays open.
pub fn parse_src(src: &str) -> (result: Result<Vec<Op>, Error>)
    ensures
        match result {
            Ok(ops) => parse(src@) == Ok::<Seq<Op>, Error>(ops@),
            Err(e) => parse(src@) == Err::<Seq<Op>, Error>(e),
        },
        result matches Ok(ops) ==> paired(ops@),
        result matches Err(e) ==> e == Error::UnmatchedClose || e == Error::UnmatchedOpen,
{
    let mut ops: Vec<Op> = Vec::new();
    let mut pending: Vec<usize> = Vec::new();
    for c in it: src.chars()
        invariant
            it.seq() == src@,
            in_progress(code(src@.take(it.index() as int)), ops@, pending@),
    {
        let ghost before = src@.take(it.index() as int);
        proof {
            assert(src@.take(it.index() + 1) =~= before.push(c));
            lemma_code_push(before, c);
        }
        let count = ops.len();
        if c == '[' {
            proof {
                lemma_read_open(code(before), ops@, pending@, 0);
            }
            pending.push(count);
            ops.push(Op::LoopOpen(0));
        } else if c == ']' {
            let ghost stack = pending@;
            match pending.pop() {
                Some(open) => {
                    proof {
                        lemma_read_close(code(before), ops@, stack);
                    }
                    ops.set(open, Op::LoopOpen(count));
                    ops.push(Op::LoopClose(open));
                },
                None => {
                    proof {
                        lemma_read_stray_close(src@, it.index() as int, code(before));
                    }
                    return Err(Error::UnmatchedClose);
                },
            }
        } else {
            let op = match c {
                '>' => Some(Op::MovePtrRight),
                '<' => Some(Op::MovePtrLeft),
                '+' => Some(Op::IncCell),
                '-' => Some(Op::DecCell),
                ',' => Some(Op::Input),
                '.' => Some(Op::Output),
                _ => None,
            };
            if let Some(op) = op {
                proof {
                    lemma_read_plain(code(before), ops@, pending@, c, op);
                }
                ops.push(op);
            }
        }
    }
    proof {
        assert(src@.take(src@.len() as int) =~= src@);
        lemma_finish(code(src@), ops@, pending@);
    }
    if pending.len() > 0 {
        return Err(Error::UnmatchedOpen);
    }
    proof {
        assert(code(src@).len() == ops.len());
        lemma_brackets_point_at_partners(src@);
    }
    Ok(ops)
}

} // verus!

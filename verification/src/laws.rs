//! The protocol-wide laws of a cycle's wire trace: how often each message
//! kind appears, that the done marker is terminal and unique, the exact
//! order of the block messages, the shape of the final batch, and that
//! nothing carries over from one cycle to the next.

use vstd::prelude::*;

use crate::machine::{cycle_trace, tail_trace, FlowState, SyncMachine, TraceStep};
use crate::machine::{accepts, next_state, next_trace, Event};
use vstd::arithmetic::div_mod::{
    lemma_fundamental_div_mod, lemma_fundamental_div_mod_converse, lemma_mod_bound,
};

verus! {

/// The kind of a wire step, with a block step's index forgotten.
#[derive(Clone, Copy, PartialEq, Eq, Structural, Debug)]
pub enum StepKind {
    Headers,
    TrustedData,
    Block,
    Handshake,
    Done,
}

/// The kind of a wire step.
pub open spec fn kind_of(s: TraceStep) -> StepKind {
    match s {
        TraceStep::Headers => StepKind::Headers,
        TraceStep::TrustedData => StepKind::TrustedData,
        TraceStep::Block { .. } => StepKind::Block,
        TraceStep::Handshake => StepKind::Handshake,
        TraceStep::Done => StepKind::Done,
    }
}

/// How many steps of kind `k` the trace `t` holds.
pub open spec fn count_kind(t: Seq<TraceStep>, k: StepKind) -> int
    decreases t.len(),
{
    if t.len() == 0 {
        0
    } else {
        (if kind_of(t.first()) == k {
            1int
        } else {
            0int
        }) + count_kind(t.drop_first(), k)
    }
}

proof fn lemma_count_concat(a: Seq<TraceStep>, b: Seq<TraceStep>, k: StepKind)
    ensures
        count_kind(a + b, k) == count_kind(a, k) + count_kind(b, k),
    decreases a.len(),
{
    if a.len() == 0 {
        assert(a + b =~= b);
    } else {
        assert((a + b).drop_first() =~= a.drop_first() + b);
        assert((a + b).first() == a.first());
        lemma_count_concat(a.drop_first(), b, k);
    }
}

proof fn lemma_count_singleton(x: TraceStep, k: StepKind)
    ensures
        count_kind(seq![x], k) == if kind_of(x) == k {
            1int
        } else {
            0int
        },
{
    let s = seq![x];
    assert(s.len() == 1);
    assert(s.first() == x);
    assert(s.drop_first() =~= Seq::<TraceStep>::empty());
    assert(count_kind(s.drop_first(), k) == 0);
    assert(count_kind(s, k) == (if kind_of(s.first()) == k {
        1int
    } else {
        0int
    }) + count_kind(s.drop_first(), k));
}

/// For a nonnegative `n` and positive `b`: stepping from `n` to `n + 1` raises
/// the quotient by one exactly when `b` divides `n + 1`.
proof fn lemma_div_step(n: int, b: int)
    requires
        0 <= n,
        1 <= b,
    ensures
        (n + 1) / b == n / b + (if (n + 1) % b == 0 {
            1int
        } else {
            0int
        }),
{
    let q = n / b;
    let r = n % b;
    lemma_fundamental_div_mod(n, b);
    lemma_mod_bound(n, b);
    if r + 1 < b {
        assert(n + 1 == q * b + (r + 1)) by (nonlinear_arith)
            requires
                n == b * q + r,
        ;
        lemma_fundamental_div_mod_converse(n + 1, b, q, r + 1);
    } else {
        assert(n + 1 == (q + 1) * b + 0) by (nonlinear_arith)
            requires
                n == b * q + r,
                r + 1 == b,
        ;
        lemma_fundamental_div_mod_converse(n + 1, b, q + 1, 0);
    }
}

/// Step counts of the wire steps still owed from position `next`: one done
/// marker, the `len - next` remaining blocks, and one handshake for every
/// batch boundary crossed, `len / b - next / b` of them.
proof fn lemma_tail_counts(next: int, len: int, b: int)
    requires
        0 <= next <= len,
        1 <= b,
    ensures
        count_kind(tail_trace(next, len, b), StepKind::Done) == 1,
        count_kind(tail_trace(next, len, b), StepKind::Block) == len - next,
        count_kind(tail_trace(next, len, b), StepKind::Handshake) == len / b - next / b,
        count_kind(tail_trace(next, len, b), StepKind::Headers) == 0,
        count_kind(tail_trace(next, len, b), StepKind::TrustedData) == 0,
    decreases len - next,
{
    if next == len {
        lemma_count_singleton(TraceStep::Done, StepKind::Done);
        lemma_count_singleton(TraceStep::Done, StepKind::Block);
        lemma_count_singleton(TraceStep::Done, StepKind::Handshake);
        lemma_count_singleton(TraceStep::Done, StepKind::Headers);
        lemma_count_singleton(TraceStep::Done, StepKind::TrustedData);
    } else {
        let head = seq![TraceStep::Block { index: next as usize }];
        let hs: Seq<TraceStep> = if (next + 1) % b == 0 {
            seq![TraceStep::Handshake]
        } else {
            Seq::empty()
        };
        let rest = tail_trace(next + 1, len, b);
        assert(tail_trace(next, len, b) == head + hs + rest);
        lemma_tail_counts(next + 1, len, b);
        lemma_div_step(next, b);
        assert forall|k: StepKind|
            #[trigger] count_kind(head + hs + rest, k) == count_kind(head, k) + count_kind(hs, k)
                + count_kind(rest, k) by {
            lemma_count_concat(head + hs, rest, k);
            lemma_count_concat(head, hs, k);
        }
        assert forall|k: StepKind| #[trigger] count_kind(head, k) == (if k == StepKind::Block {
            1int
        } else {
            0int
        }) by {
            lemma_count_singleton(TraceStep::Block { index: next as usize }, k);
        }
        assert forall|k: StepKind| #[trigger] count_kind(hs, k) == (if k == StepKind::Handshake
            && (next + 1) % b == 0 {
            1int
        } else {
            0int
        }) by {
            lemma_count_singleton(TraceStep::Handshake, k);
        }
    }
}

/// How often each message kind appears in one cycle's trace: the headers and
/// trusted-data messages once each, one block message per anticone hash, the
/// done marker once, and `len / b` inter-batch handshakes. For a nonempty
/// anticone that handshake count is `(len - 1) / b`, plus one more when the
/// final batch is exactly full-sized: the sender cannot know it was the last.
pub proof fn lemma_cycle_counts(len: int, b: int)
    requires
        0 <= len,
        1 <= b,
    ensures
        count_kind(cycle_trace(len, b), StepKind::Headers) == 1,
        count_kind(cycle_trace(len, b), StepKind::TrustedData) == 1,
        count_kind(cycle_trace(len, b), StepKind::Block) == len,
        count_kind(cycle_trace(len, b), StepKind::Done) == 1,
        count_kind(cycle_trace(len, b), StepKind::Handshake) == len / b,
        len == 0 ==> len / b == 0,
        len > 0 ==> len / b == (len - 1) / b + (if len % b == 0 {
            1int
        } else {
            0int
        }),
{
    let lead = seq![TraceStep::Headers, TraceStep::TrustedData];
    let rest = tail_trace(0, len, b);
    lemma_tail_counts(0, len, b);
    assert(lead =~= seq![TraceStep::Headers] + seq![TraceStep::TrustedData]);
    assert forall|k: StepKind|
        #[trigger] count_kind(lead + rest, k) == count_kind(seq![TraceStep::Headers], k)
            + count_kind(seq![TraceStep::TrustedData], k) + count_kind(rest, k) by {
        lemma_count_concat(lead, rest, k);
        lemma_count_concat(seq![TraceStep::Headers], seq![TraceStep::TrustedData], k);
        assert(count_kind(lead, k) == count_kind(
            seq![TraceStep::Headers] + seq![TraceStep::TrustedData],
            k,
        ));
    }
    assert forall|k: StepKind| #[trigger] count_kind(seq![TraceStep::Headers], k) == (if k
        == StepKind::Headers {
        1int
    } else {
        0int
    }) by {
        lemma_count_singleton(TraceStep::Headers, k);
    }
    assert forall|k: StepKind| #[trigger] count_kind(seq![TraceStep::TrustedData], k) == (if k
        == StepKind::TrustedData {
        1int
    } else {
        0int
    }) by {
        lemma_count_singleton(TraceStep::TrustedData, k);
    }
    if len == 0 {
        assert(len / b == 0) by {
            lemma_fundamental_div_mod(0, b);
            lemma_fundamental_div_mod_converse(0, b, 0, 0);
        }
    } else {
        lemma_div_step(len - 1, b);
    }
}

proof fn lemma_tail_last(next: int, len: int, b: int)
    requires
        0 <= next <= len,
        1 <= b,
    ensures
        tail_trace(next, len, b).len() >= 1,
        tail_trace(next, len, b).last() == TraceStep::Done,
    decreases len - next,
{
    if next < len {
        lemma_tail_last(next + 1, len, b);
        let head = seq![TraceStep::Block { index: next as usize }];
        let hs: Seq<TraceStep> = if (next + 1) % b == 0 {
            seq![TraceStep::Handshake]
        } else {
            Seq::empty()
        };
        let rest = tail_trace(next + 1, len, b);
        assert(tail_trace(next, len, b) == head + hs + rest);
        assert((head + hs + rest).last() == rest.last());
    }
}

proof fn lemma_count_nonneg(t: Seq<TraceStep>, k: StepKind)
    ensures
        count_kind(t, k) >= 0,
    decreases t.len(),
{
    if t.len() > 0 {
        lemma_count_nonneg(t.drop_first(), k);
    }
}

proof fn lemma_occurrence_counts(t: Seq<TraceStep>, k: StepKind, i: int)
    requires
        0 <= i < t.len(),
        kind_of(t[i]) == k,
    ensures
        count_kind(t, k) >= 1,
    decreases t.len(),
{
    if i > 0 {
        assert(t.drop_first()[i - 1] == t[i]);
        lemma_occurrence_counts(t.drop_first(), k, i - 1);
    } else {
        lemma_count_nonneg(t.drop_first(), k);
    }
}

proof fn lemma_two_occurrences_count(t: Seq<TraceStep>, k: StepKind, i: int, j: int)
    requires
        0 <= i < j < t.len(),
        kind_of(t[i]) == k,
        kind_of(t[j]) == k,
    ensures
        count_kind(t, k) >= 2,
    decreases t.len(),
{
    if i == 0 {
        assert(t.drop_first()[j - 1] == t[j]);
        lemma_occurrence_counts(t.drop_first(), k, j - 1);
    } else {
        assert(t.drop_first()[i - 1] == t[i]);
        assert(t.drop_first()[j - 1] == t[j]);
        lemma_two_occurrences_count(t.drop_first(), k, i - 1, j - 1);
    }
}

/// The flow never sends two done markers, nor any further step after the done
/// marker, within one cycle: the done marker stands exactly once in the
/// cycle's trace, as its very last step.
pub proof fn lemma_done_terminal(len: int, b: int)
    requires
        0 <= len,
        1 <= b,
    ensures
        cycle_trace(len, b).len() >= 3,
        cycle_trace(len, b).last() == TraceStep::Done,
        forall|i: int|
            0 <= i < cycle_trace(len, b).len() - 1 ==> cycle_trace(len, b)[i] != TraceStep::Done,
{
    let t = cycle_trace(len, b);
    let lead = seq![TraceStep::Headers, TraceStep::TrustedData];
    let rest = tail_trace(0, len, b);
    lemma_tail_last(0, len, b);
    assert(t.last() == rest.last());
    lemma_cycle_counts(len, b);
    assert forall|i: int| 0 <= i < t.len() - 1 implies t[i] != TraceStep::Done by {
        if t[i] == TraceStep::Done {
            lemma_two_occurrences_count(t, StepKind::Done, i, t.len() - 1);
        }
    }
}

/// Whether a wire step is a block message.
pub open spec fn is_block(s: TraceStep) -> bool {
    s matches TraceStep::Block { .. }
}

/// The subsequence of block messages of a trace, in trace order.
pub open spec fn blocks_of(t: Seq<TraceStep>) -> Seq<TraceStep>
    decreases t.len(),
{
    if t.len() == 0 {
        Seq::empty()
    } else {
        (if is_block(t.first()) {
            seq![t.first()]
        } else {
            Seq::empty()
        }) + blocks_of(t.drop_first())
    }
}

/// The block messages for anticone positions `next` up to `len`, in order.
pub open spec fn block_run(next: int, len: int) -> Seq<TraceStep>
    decreases len - next,
{
    if next < 0 || len <= next {
        Seq::empty()
    } else {
        seq![TraceStep::Block { index: next as usize }] + block_run(next + 1, len)
    }
}

proof fn lemma_blocks_concat(a: Seq<TraceStep>, b: Seq<TraceStep>)
    ensures
        blocks_of(a + b) == blocks_of(a) + blocks_of(b),
    decreases a.len(),
{
    if a.len() == 0 {
        assert(a + b =~= b);
        assert(blocks_of(a) + blocks_of(b) =~= blocks_of(b));
    } else {
        assert((a + b).drop_first() =~= a.drop_first() + b);
        assert((a + b).first() == a.first());
        lemma_blocks_concat(a.drop_first(), b);
        assert((if is_block(a.first()) {
            seq![a.first()]
        } else {
            Seq::<TraceStep>::empty()
        }) + (blocks_of(a.drop_first()) + blocks_of(b)) =~= blocks_of(a) + blocks_of(b));
    }
}

proof fn lemma_blocks_singleton(x: TraceStep)
    ensures
        blocks_of(seq![x]) == if is_block(x) {
            seq![x]
        } else {
            Seq::<TraceStep>::empty()
        },
{
    let s = seq![x];
    let lhs: Seq<TraceStep> = if is_block(x) {
        seq![x]
    } else {
        Seq::empty()
    };
    assert(s.len() == 1);
    assert(s.first() == x);
    assert(s.drop_first() =~= Seq::<TraceStep>::empty());
    assert(blocks_of(s.drop_first()) == Seq::<TraceStep>::empty());
    assert(blocks_of(s) == lhs + blocks_of(s.drop_first()));
    assert(lhs + Seq::<TraceStep>::empty() =~= lhs);
}

proof fn lemma_tail_blocks(next: int, len: int, b: int)
    requires
        0 <= next <= len,
        1 <= b,
    ensures
        blocks_of(tail_trace(next, len, b)) == block_run(next, len),
    decreases len - next,
{
    if next == len {
        lemma_blocks_singleton(TraceStep::Done);
    } else {
        let head = seq![TraceStep::Block { index: next as usize }];
        let hs: Seq<TraceStep> = if (next + 1) % b == 0 {
            seq![TraceStep::Handshake]
        } else {
            Seq::empty()
        };
        let rest = tail_trace(next + 1, len, b);
        assert(tail_trace(next, len, b) == head + hs + rest);
        lemma_tail_blocks(next + 1, len, b);
        lemma_blocks_concat(head + hs, rest);
        lemma_blocks_concat(head, hs);
        lemma_blocks_singleton(TraceStep::Block { index: next as usize });
        if (next + 1) % b == 0 {
            lemma_blocks_singleton(TraceStep::Handshake);
        }
        assert(blocks_of(head) + blocks_of(hs) + blocks_of(rest) =~= block_run(next, len));
    }
}

proof fn lemma_block_run_index(next: int, len: int)
    requires
        0 <= next <= len,
    ensures
        block_run(next, len).len() == len - next,
        forall|i: int|
            0 <= i < len - next ==> block_run(next, len)[i] == (TraceStep::Block {
                index: (next + i) as usize,
            }),
    decreases len - next,
{
    if next < len {
        lemma_block_run_index(next + 1, len);
    }
}

/// Message ordering within one cycle: the headers message first, the
/// trusted-data message second, the done marker last, and in between exactly
/// the anticone's block messages in anticone order (with the inter-batch
/// handshakes), whatever the anticone's size - an empty anticone yields
/// headers, trusted data, done and nothing else.
pub proof fn lemma_cycle_order(len: int, b: int)
    requires
        0 <= len,
        1 <= b,
    ensures
        cycle_trace(len, b).len() >= 3,
        cycle_trace(len, b)[0] == TraceStep::Headers,
        cycle_trace(len, b)[1] == TraceStep::TrustedData,
        cycle_trace(len, b).last() == TraceStep::Done,
        blocks_of(cycle_trace(len, b)).len() == len,
        forall|i: int|
            0 <= i < len ==> blocks_of(cycle_trace(len, b))[i] == (TraceStep::Block {
                index: i as usize,
            }),
{
    let lead = seq![TraceStep::Headers, TraceStep::TrustedData];
    let rest = tail_trace(0, len, b);
    lemma_done_terminal(len, b);
    lemma_tail_blocks(0, len, b);
    lemma_blocks_concat(lead, rest);
    assert(lead =~= seq![TraceStep::Headers] + seq![TraceStep::TrustedData]);
    lemma_blocks_concat(seq![TraceStep::Headers], seq![TraceStep::TrustedData]);
    lemma_blocks_singleton(TraceStep::Headers);
    lemma_blocks_singleton(TraceStep::TrustedData);
    assert(blocks_of(lead) == blocks_of(seq![TraceStep::Headers]) + blocks_of(
        seq![TraceStep::TrustedData],
    ));
    assert(blocks_of(cycle_trace(len, b)) =~= block_run(0, len));
    lemma_block_run_index(0, len);
}

proof fn lemma_last_batch_tail(next: int, len: int, b: int, start: int)
    requires
        1 <= b,
        0 <= start <= next < len,
        start % b == 0,
        len - start <= b,
    ensures
        tail_trace(next, len, b) == block_run(next, len) + (if len % b == 0 {
            seq![TraceStep::Handshake]
        } else {
            Seq::<TraceStep>::empty()
        }) + seq![TraceStep::Done],
    decreases len - next,
{
    let hs_end: Seq<TraceStep> = if len % b == 0 {
        seq![TraceStep::Handshake]
    } else {
        Seq::empty()
    };
    if next == len - 1 {
        assert(tail_trace(len, len, b) == seq![TraceStep::Done]);
        assert(block_run(next, len) =~= seq![TraceStep::Block { index: next as usize }]);
        assert(tail_trace(next, len, b) =~= block_run(next, len) + hs_end + seq![TraceStep::Done]);
    } else {
        let q = start / b;
        let d = next + 1 - start;
        lemma_fundamental_div_mod(start, b);
        assert(next + 1 == q * b + d) by (nonlinear_arith)
            requires
                start == b * q,
                d == next + 1 - start,
        ;
        lemma_fundamental_div_mod_converse(next + 1, b, q, d);
        assert((next + 1) % b == d);
        lemma_last_batch_tail(next + 1, len, b, start);
        assert(tail_trace(next, len, b) == seq![TraceStep::Block { index: next as usize }]
            + Seq::<TraceStep>::empty() + tail_trace(next + 1, len, b));
        assert(tail_trace(next, len, b) =~= block_run(next, len) + hs_end + seq![TraceStep::Done]);
    }
}

/// The final batch of a nonempty anticone: it begins at the last batch
/// boundary below `len` and holds `len % b` blocks - or `b` of them when `b`
/// divides `len`, in which case one more handshake still follows it before
/// the done marker, since the sender cannot know that batch was the last.
pub proof fn lemma_last_batch(len: int, b: int)
    requires
        1 <= len,
        1 <= b,
    ensures
        ({
            let start = len - ((len - 1) % b + 1);
            &&& start % b == 0
            &&& 0 <= start < len
            &&& len - start == (if len % b == 0 {
                b
            } else {
                len % b
            })
            &&& tail_trace(start, len, b) == block_run(start, len) + (if len % b == 0 {
                seq![TraceStep::Handshake]
            } else {
                Seq::<TraceStep>::empty()
            }) + seq![TraceStep::Done]
        }),
{
    let r = (len - 1) % b;
    let q = (len - 1) / b;
    let start = len - (r + 1);
    lemma_fundamental_div_mod(len - 1, b);
    lemma_mod_bound(len - 1, b);
    assert(start == b * q);
    assert(start == q * b + 0) by (nonlinear_arith)
        requires
            start == b * q,
    ;
    lemma_fundamental_div_mod_converse(start, b, q, 0);
    if r + 1 < b {
        assert(len == q * b + (r + 1)) by (nonlinear_arith)
            requires
                len - 1 == b * q + r,
        ;
        lemma_fundamental_div_mod_converse(len, b, q, r + 1);
    } else {
        assert(len == (q + 1) * b + 0) by (nonlinear_arith)
            requires
                len - 1 == b * q + r,
                r + 1 == b,
        ;
        lemma_fundamental_div_mod_converse(len, b, q + 1, 0);
    }
    lemma_last_batch_tail(start, len, b, start);
}

/// The machine is stateless across cycles: at the start of a cycle two
/// machines with the same batch size react identically to every event,
/// whatever their histories - the cycle that follows is a function of the
/// batch size and the anticone length alone, so two consecutive cycles over
/// an unchanged snapshot emit identical traces.
pub proof fn lemma_stateless_across_cycles(m1: SyncMachine, m2: SyncMachine, e: Event)
    requires
        m1.batch == m2.batch,
        m1.state == FlowState::Idle,
        m2.state == FlowState::Idle,
    ensures
        accepts(m1.state, e) == accepts(m2.state, e),
        next_state(m1.state, e, m1.batch as int) == next_state(m2.state, e, m2.batch as int),
        next_trace(m1.trace@, m1.state, e) == next_trace(m2.trace@, m2.state, e),
{
}

} // verus!

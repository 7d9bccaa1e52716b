//! The per-peer protocol state machine. The unverified shell owns the
//! channel and session I/O: it asks the machine what to do next, performs
//! that one operation, and reports the outcome. The machine decides message
//! order, batch boundaries and termination, and carries the cycle's wire
//! trace as ghost state, so that what a completed cycle put on the wire is
//! provably `cycle_trace(len, batch)`.

use vstd::prelude::*;

use crate::errors::SyncError;

verus! {

/// Number of anticone blocks sent per burst before the peer must explicitly
/// ask for the next batch; shared with the wider initial-block-download
/// subsystem.
pub const IBD_BATCH_SIZE: usize = 99;

/// The kind of an inbound protocol message, as far as this flow tells kinds
/// apart. Everything that is neither of the two requests it serves is `Other`.
#[derive(Clone, Copy, PartialEq, Eq, Structural, Debug)]
pub enum InboundKind {
    /// `RequestPruningPointAndItsAnticone`: starts one full cycle.
    AnticoneRequest,
    /// `RequestNextPruningPointAndItsAnticoneBlocks`: permission for the next batch.
    NextBatchRequest,
    /// Any other message kind; always a protocol violation here.
    Other,
}

/// One step of a cycle as it is observable on the wire: an outbound message,
/// or the inter-batch wait for the peer's next-batch request.
#[derive(Clone, Copy, PartialEq, Eq, Structural, Debug)]
pub enum TraceStep {
    /// The `PruningPoints` message: the pruning point's header sequence.
    Headers,
    /// The `TrustedData` message: the DAA-window and ghostdag entry sequences.
    TrustedData,
    /// One `BlockWithTrustedDataV4` message, for the anticone hash at `index`.
    Block { index: usize },
    /// The inter-batch handshake: session released, next-batch request awaited.
    Handshake,
    /// The terminal `DoneBlocksWithTrustedData` message.
    Done,
}

/// The states of one flow instance. A cycle runs
/// `Idle -> SendHeaders -> SendTrustedData -> SendBlocks/AwaitBatchRequest -> Idle`
/// and carries nothing across cycles.
#[derive(Clone, Copy, PartialEq, Eq, Structural, Debug)]
pub enum FlowState {
    /// Waiting for the initiating request; nothing of a previous cycle is kept.
    Idle,
    /// The initiating request arrived; the header message is owed.
    SendHeaders,
    /// Headers are sent; the trusted-data message is owed.
    SendTrustedData,
    /// Trusted data is sent; `next` of the `len` anticone blocks are already
    /// sent, the rest are owed, then the done message.
    SendBlocks { next: usize, len: usize },
    /// A full-size batch just ended after `next` blocks; the peer's next-batch
    /// request is awaited before any further block may be sent.
    AwaitBatchRequest { next: usize, len: usize },
}

/// What the flow's driver must do next, as dictated by the current state.
#[derive(Clone, Copy, PartialEq, Eq, Structural, Debug)]
pub enum Command {
    /// Block on the inbound channel for the initiating request.
    AwaitInitialRequest,
    /// Fetch the pruning point headers through the session and send them.
    SendHeaders,
    /// Fetch the trusted-data bundle through the session and send its two
    /// entry sequences.
    SendTrustedData,
    /// Query, translate and send the block for the anticone hash at `index`.
    SendBlock { index: usize },
    /// Release the session, then block for the peer's next-batch request.
    AwaitNextBatchRequest,
    /// Send the terminal done message.
    SendDone,
}

/// What happened while the driver carried out the current command: an inbound
/// message arrived (`None` meaning the channel closed), or the commanded fetch
/// and send completed. `TrustedDataSent` reports the anticone length, which
/// fixes the rest of the cycle.
#[derive(Clone, Copy, PartialEq, Eq, Structural, Debug)]
pub enum Event {
    /// An inbound message of the given kind arrived; `None`: channel closed.
    Inbound(Option<InboundKind>),
    /// The header message was sent.
    HeadersSent,
    /// The trusted-data message was sent; the anticone holds `anticone_len` hashes.
    TrustedDataSent { anticone_len: usize },
    /// The commanded block message was sent.
    BlockSent,
    /// The done message was sent.
    DoneSent,
}

/// The wire steps still owed from anticone position `next` of `len`, with
/// batch size `b`: the remaining blocks in order, a handshake after every
/// position that closes a full batch (also a final full batch: the sender
/// cannot know it was the last), then the done marker.
pub open spec fn tail_trace(next: int, len: int, b: int) -> Seq<TraceStep>
    decreases len - next,
{
    if next < 0 || len < next || b < 1 {
        Seq::empty()
    } else if next == len {
        seq![TraceStep::Done]
    } else {
        seq![TraceStep::Block { index: next as usize }] + (if (next + 1) % b == 0 {
            seq![TraceStep::Handshake]
        } else {
            Seq::empty()
        }) + tail_trace(next + 1, len, b)
    }
}

/// The wire steps of one whole cycle over an anticone of `len` hashes with
/// batch size `b`: headers, trusted data, then the batched blocks and the
/// done marker.
pub open spec fn cycle_trace(len: int, b: int) -> Seq<TraceStep> {
    seq![TraceStep::Headers, TraceStep::TrustedData] + tail_trace(0, len, b)
}

/// Whether the state's position bounds are coherent.
pub open spec fn state_wf(s: FlowState) -> bool {
    match s {
        FlowState::SendBlocks { next, len } => next <= len,
        FlowState::AwaitBatchRequest { next, len } => 0 < next <= len,
        _ => true,
    }
}

/// The command that each state dictates.
pub open spec fn spec_command(s: FlowState) -> Command {
    match s {
        FlowState::Idle => Command::AwaitInitialRequest,
        FlowState::SendHeaders => Command::SendHeaders,
        FlowState::SendTrustedData => Command::SendTrustedData,
        FlowState::SendBlocks { next, len } => if next < len {
            Command::SendBlock { index: next }
        } else {
            Command::SendDone
        },
        FlowState::AwaitBatchRequest { .. } => Command::AwaitNextBatchRequest,
    }
}

/// Whether state `s` accepts event `e`: the event must be the outcome of the
/// state's own command, and at the two waiting states the inbound message must
/// be of the one expected kind.
pub open spec fn accepts(s: FlowState, e: Event) -> bool {
    match (s, e) {
        (FlowState::Idle, Event::Inbound(k)) => k == Some(InboundKind::AnticoneRequest),
        (FlowState::SendHeaders, Event::HeadersSent) => true,
        (FlowState::SendTrustedData, Event::TrustedDataSent { .. }) => true,
        (FlowState::SendBlocks { next, len }, Event::BlockSent) => next < len,
        (FlowState::SendBlocks { next, len }, Event::DoneSent) => next == len,
        (FlowState::AwaitBatchRequest { .. }, Event::Inbound(k)) => k == Some(
            InboundKind::NextBatchRequest,
        ),
        _ => false,
    }
}

/// The state after `s` accepts `e`, with batch size `b`.
pub open spec fn next_state(s: FlowState, e: Event, b: int) -> FlowState {
    match (s, e) {
        (FlowState::Idle, _) => FlowState::SendHeaders,
        (FlowState::SendHeaders, _) => FlowState::SendTrustedData,
        (FlowState::SendTrustedData, Event::TrustedDataSent { anticone_len }) => {
            FlowState::SendBlocks { next: 0, len: anticone_len }
        },
        (FlowState::SendBlocks { next, len }, Event::BlockSent) => {
            if (next + 1) % b == 0 {
                FlowState::AwaitBatchRequest { next: (next + 1) as usize, len }
            } else {
                FlowState::SendBlocks { next: (next + 1) as usize, len }
            }
        },
        (FlowState::SendBlocks { .. }, Event::DoneSent) => FlowState::Idle,
        (FlowState::AwaitBatchRequest { next, len }, _) => FlowState::SendBlocks { next, len },
        _ => s,
    }
}

/// The wire steps that the transition out of `s` on `e` makes observable.
pub open spec fn emitted(s: FlowState, e: Event) -> Seq<TraceStep> {
    match (s, e) {
        (FlowState::Idle, _) => Seq::empty(),
        (FlowState::SendHeaders, _) => seq![TraceStep::Headers],
        (FlowState::SendTrustedData, _) => seq![TraceStep::TrustedData],
        (FlowState::SendBlocks { next, .. }, Event::BlockSent) => {
            seq![TraceStep::Block { index: next }]
        },
        (FlowState::SendBlocks { .. }, Event::DoneSent) => seq![TraceStep::Done],
        (FlowState::AwaitBatchRequest { .. }, _) => seq![TraceStep::Handshake],
        _ => Seq::empty(),
    }
}

/// The cycle trace after the transition out of `s` on `e`: a fresh cycle
/// starts empty when the initiating request arrives, every other accepted
/// transition appends what it emitted.
pub open spec fn next_trace(t: Seq<TraceStep>, s: FlowState, e: Event) -> Seq<TraceStep> {
    if s is Idle {
        Seq::empty()
    } else {
        t + emitted(s, e)
    }
}

/// One per-peer instance of the flow's protocol state machine. The unverified
/// shell performs the commanded channel and session operations and reports
/// each outcome; the machine decides ordering, batching and termination, and
/// carries the cycle's wire trace as ghost state.
pub struct SyncMachine {
    /// The shared batch-size constant this instance was built with.
    pub batch: usize,
    /// The current protocol state.
    pub state: FlowState,
    /// The wire steps of the cycle in progress.
    pub trace: Ghost<Seq<TraceStep>>,
}

impl SyncMachine {
    /// Whether the machine is coherent: a positive batch size, coherent state
    /// bounds, and a trace that extends to the full cycle trace.
    pub open spec fn wf(self) -> bool {
        &&& self.batch >= 1
        &&& state_wf(self.state)
        &&& match self.state {
            FlowState::Idle => true,
            FlowState::SendHeaders => self.trace@ == Seq::<TraceStep>::empty(),
            FlowState::SendTrustedData => self.trace@ == seq![TraceStep::Headers],
            FlowState::SendBlocks { next, len } => self.trace@ + tail_trace(
                next as int,
                len as int,
                self.batch as int,
            ) == cycle_trace(len as int, self.batch as int),
            FlowState::AwaitBatchRequest { next, len } => self.trace@ + seq![TraceStep::Handshake]
                + tail_trace(next as int, len as int, self.batch as int) == cycle_trace(
                len as int,
                self.batch as int,
            ),
        }
    }

    /// A fresh machine, waiting for an initiating request.
    pub fn new(batch: usize) -> (m: SyncMachine)
        requires
            batch >= 1,
        ensures
            m.wf(),
            m.batch == batch,
            m.state == FlowState::Idle,
            m.trace@ == Seq::<TraceStep>::empty(),
    {
        SyncMachine { batch, state: FlowState::Idle, trace: Ghost(Seq::empty()) }
    }

    /// The next operation the driver must perform.
    pub fn command(&self) -> (c: Command)
        ensures
            c == spec_command(self.state),
    {
        match self.state {
            FlowState::Idle => Command::AwaitInitialRequest,
            FlowState::SendHeaders => Command::SendHeaders,
            FlowState::SendTrustedData => Command::SendTrustedData,
            FlowState::SendBlocks { next, len } => if next < len {
                Command::SendBlock { index: next }
            } else {
                Command::SendDone
            },
            FlowState::AwaitBatchRequest { .. } => Command::AwaitNextBatchRequest,
        }
    }

    /// Feeds the outcome of the current command into the machine. An accepted
    /// event moves the state and trace exactly as `next_state` and
    /// `next_trace` say; anything else - in particular a wrong inbound message
    /// kind or a closed channel at either waiting state - is a protocol
    /// violation and leaves the machine unchanged. When the done message of a
    /// cycle over `len` anticone blocks is reported sent, the completed trace
    /// is exactly `cycle_trace(len, batch)` and the machine is `Idle` again.
    pub fn advance(&mut self, event: Event) -> (r: Result<(), SyncError>)
        requires
            old(self).wf(),
        ensures
            final(self).wf(),
            final(self).batch == old(self).batch,
            match r {
                Ok(_) => accepts(old(self).state, event) && final(self).state == next_state(
                    old(self).state,
                    event,
                    old(self).batch as int,
                ) && final(self).trace@ == next_trace(old(self).trace@, old(self).state, event),
                Err(e) => e == SyncError::ProtocolViolation && !accepts(old(self).state, event)
                    && final(self).state == old(self).state && final(self).trace@
                    == old(self).trace@,
            },
            old(self).state matches FlowState::SendBlocks { next, len } ==> ((next == len && event
                is DoneSent) ==> (r is Ok && final(self).state == FlowState::Idle
                && final(self).trace@ == cycle_trace(len as int, old(self).batch as int))),
    {
        let ghost pre = *self;
        match (self.state, event) {
            (FlowState::Idle, Event::Inbound(Some(InboundKind::AnticoneRequest))) => {
                self.state = FlowState::SendHeaders;
                self.trace = Ghost(Seq::empty());
                Ok(())
            },
            (FlowState::SendHeaders, Event::HeadersSent) => {
                self.state = FlowState::SendTrustedData;
                self.trace = Ghost(pre.trace@ + seq![TraceStep::Headers]);
                Ok(())
            },
            (FlowState::SendTrustedData, Event::TrustedDataSent { anticone_len }) => {
                self.state = FlowState::SendBlocks { next: 0, len: anticone_len };
                self.trace = Ghost(pre.trace@ + seq![TraceStep::TrustedData]);
                proof {
                    assert(pre.trace@ + seq![TraceStep::TrustedData] =~= seq![
                        TraceStep::Headers,
                        TraceStep::TrustedData,
                    ]);
                    assert(self.trace@ + tail_trace(
                        0,
                        anticone_len as int,
                        pre.batch as int,
                    ) =~= cycle_trace(anticone_len as int, pre.batch as int));
                }
                Ok(())
            },
            (FlowState::SendBlocks { next, len }, Event::BlockSent) if next < len => {
                self.trace = Ghost(pre.trace@ + seq![TraceStep::Block { index: next }]);
                proof {
                    let b = pre.batch as int;
                    let hs: Seq<TraceStep> = if (next + 1) % b == 0 {
                        seq![TraceStep::Handshake]
                    } else {
                        Seq::empty()
                    };
                    assert(tail_trace(next as int, len as int, b) == seq![
                        TraceStep::Block { index: next },
                    ] + hs + tail_trace(next as int + 1, len as int, b));
                    assert(self.trace@ + hs + tail_trace(next as int + 1, len as int, b)
                        =~= pre.trace@ + tail_trace(next as int, len as int, b));
                    if (next + 1) % b != 0 {
                        assert(self.trace@ + tail_trace(next as int + 1, len as int, b)
                            =~= pre.trace@ + tail_trace(next as int, len as int, b));
                    }
                }
                if (next + 1) % self.batch == 0 {
                    self.state = FlowState::AwaitBatchRequest { next: next + 1, len };
                } else {
                    self.state = FlowState::SendBlocks { next: next + 1, len };
                }
                Ok(())
            },
            (FlowState::SendBlocks { next, len }, Event::DoneSent) if next == len => {
                self.state = FlowState::Idle;
                self.trace = Ghost(pre.trace@ + seq![TraceStep::Done]);
                proof {
                    assert(tail_trace(next as int, len as int, pre.batch as int) == seq![
                        TraceStep::Done,
                    ]);
                    assert(self.trace@ =~= pre.trace@ + tail_trace(
                        next as int,
                        len as int,
                        pre.batch as int,
                    ));
                }
                Ok(())
            },
            (
                FlowState::AwaitBatchRequest { next, len },
                Event::Inbound(Some(InboundKind::NextBatchRequest)),
            ) => {
                self.state = FlowState::SendBlocks { next, len };
                self.trace = Ghost(pre.trace@ + seq![TraceStep::Handshake]);
                proof {
                    assert(self.trace@ + tail_trace(next as int, len as int, pre.batch as int)
                        =~= pre.trace@ + seq![TraceStep::Handshake] + tail_trace(
                        next as int,
                        len as int,
                        pre.batch as int,
                    ));
                }
                Ok(())
            },
            _ => Err(SyncError::ProtocolViolation),
        }
    }
}

} // verus!

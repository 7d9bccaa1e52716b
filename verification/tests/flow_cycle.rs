use anticone_sync::errors::SyncError;
use anticone_sync::machine::{
    Command, Event, FlowState, InboundKind, SyncMachine, TraceStep, IBD_BATCH_SIZE,
};

/// Drives one full cycle against a machine whose anticone holds `len` hashes,
/// recording every wire step: messages as they are reported sent, handshakes
/// as the peer's next-batch requests are received.
fn run_cycle(m: &mut SyncMachine, len: usize) -> Vec<TraceStep> {
    let mut out: Vec<TraceStep> = Vec::new();
    assert!(matches!(m.command(), Command::AwaitInitialRequest));
    m.advance(Event::Inbound(Some(InboundKind::AnticoneRequest))).unwrap();
    loop {
        match m.command() {
            Command::SendHeaders => {
                out.push(TraceStep::Headers);
                m.advance(Event::HeadersSent).unwrap();
            }
            Command::SendTrustedData => {
                out.push(TraceStep::TrustedData);
                m.advance(Event::TrustedDataSent { anticone_len: len }).unwrap();
            }
            Command::SendBlock { index } => {
                out.push(TraceStep::Block { index });
                m.advance(Event::BlockSent).unwrap();
            }
            Command::AwaitNextBatchRequest => {
                out.push(TraceStep::Handshake);
                m.advance(Event::Inbound(Some(InboundKind::NextBatchRequest))).unwrap();
            }
            Command::SendDone => {
                out.push(TraceStep::Done);
                m.advance(Event::DoneSent).unwrap();
                return out;
            }
            Command::AwaitInitialRequest => {
                unreachable!();
            }
        }
    }
}

fn handshakes(trace: &[TraceStep]) -> usize {
    trace.iter().filter(|s| matches!(s, TraceStep::Handshake)).count()
}

#[test]
fn five_blocks_batch_two() {
    let mut m = SyncMachine::new(2);
    let trace = run_cycle(&mut m, 5);
    assert_eq!(
        trace,
        vec![
            TraceStep::Headers,
            TraceStep::TrustedData,
            TraceStep::Block { index: 0 },
            TraceStep::Block { index: 1 },
            TraceStep::Handshake,
            TraceStep::Block { index: 2 },
            TraceStep::Block { index: 3 },
            TraceStep::Handshake,
            TraceStep::Block { index: 4 },
            TraceStep::Done,
        ]
    );
}

#[test]
fn empty_anticone() {
    let mut m = SyncMachine::new(2);
    let trace = run_cycle(&mut m, 0);
    assert_eq!(trace, vec![TraceStep::Headers, TraceStep::TrustedData, TraceStep::Done]);
    assert_eq!(handshakes(&trace), 0);
}

#[test]
fn exact_multiple_still_handshakes() {
    let mut m = SyncMachine::new(2);
    let trace = run_cycle(&mut m, 4);
    assert_eq!(
        trace,
        vec![
            TraceStep::Headers,
            TraceStep::TrustedData,
            TraceStep::Block { index: 0 },
            TraceStep::Block { index: 1 },
            TraceStep::Handshake,
            TraceStep::Block { index: 2 },
            TraceStep::Block { index: 3 },
            TraceStep::Handshake,
            TraceStep::Done,
        ]
    );
}

#[test]
fn single_full_batch_waits_once() {
    let mut m = SyncMachine::new(2);
    let trace = run_cycle(&mut m, 2);
    assert_eq!(
        trace,
        vec![
            TraceStep::Headers,
            TraceStep::TrustedData,
            TraceStep::Block { index: 0 },
            TraceStep::Block { index: 1 },
            TraceStep::Handshake,
            TraceStep::Done,
        ]
    );
}

#[test]
fn handshake_count_formula() {
    for (len, b) in [(0usize, 3usize), (1, 3), (3, 3), (4, 3), (7, 3), (9, 3), (5, 1), (10, 4)] {
        let mut m = SyncMachine::new(b);
        let trace = run_cycle(&mut m, len);
        assert_eq!(handshakes(&trace), len / b);
        let inter_batch = if len == 0 { 0 } else { (len - 1) / b };
        let trailing = if len > 0 && len % b == 0 { 1 } else { 0 };
        assert_eq!(handshakes(&trace), inter_batch + trailing);
        let blocks = trace.iter().filter(|s| matches!(s, TraceStep::Block { .. })).count();
        assert_eq!(blocks, len);
        assert_eq!(trace.last(), Some(&TraceStep::Done));
    }
}

#[test]
fn two_cycles_identical() {
    let mut m = SyncMachine::new(2);
    let first = run_cycle(&mut m, 5);
    assert_eq!(m.state, FlowState::Idle);
    let second = run_cycle(&mut m, 5);
    assert_eq!(first, second);
}

#[test]
fn wrong_initial_message_is_violation() {
    let mut m = SyncMachine::new(2);
    let r = m.advance(Event::Inbound(Some(InboundKind::Other)));
    assert_eq!(r, Err(SyncError::ProtocolViolation));
    assert_eq!(m.state, FlowState::Idle);
    let r = m.advance(Event::Inbound(Some(InboundKind::NextBatchRequest)));
    assert_eq!(r, Err(SyncError::ProtocolViolation));
}

#[test]
fn closed_channel_is_violation() {
    let mut m = SyncMachine::new(2);
    assert_eq!(m.advance(Event::Inbound(None)), Err(SyncError::ProtocolViolation));
}

#[test]
fn wrong_batch_request_is_violation() {
    let mut m = SyncMachine::new(2);
    m.advance(Event::Inbound(Some(InboundKind::AnticoneRequest))).unwrap();
    m.advance(Event::HeadersSent).unwrap();
    m.advance(Event::TrustedDataSent { anticone_len: 2 }).unwrap();
    m.advance(Event::BlockSent).unwrap();
    m.advance(Event::BlockSent).unwrap();
    assert!(matches!(m.command(), Command::AwaitNextBatchRequest));
    let r = m.advance(Event::Inbound(Some(InboundKind::AnticoneRequest)));
    assert_eq!(r, Err(SyncError::ProtocolViolation));
    let r = m.advance(Event::Inbound(None));
    assert_eq!(r, Err(SyncError::ProtocolViolation));
    // the right request then still goes through
    m.advance(Event::Inbound(Some(InboundKind::NextBatchRequest))).unwrap();
    assert!(matches!(m.command(), Command::SendDone));
}

#[test]
fn default_batch_size_cycle() {
    let mut m = SyncMachine::new(IBD_BATCH_SIZE);
    let trace = run_cycle(&mut m, IBD_BATCH_SIZE);
    // one exactly-full batch: all blocks in order, one trailing handshake, done
    assert_eq!(trace.len(), 2 + IBD_BATCH_SIZE + 2);
    for (i, step) in trace[2..2 + IBD_BATCH_SIZE].iter().enumerate() {
        assert_eq!(*step, TraceStep::Block { index: i });
    }
    assert_eq!(trace[2 + IBD_BATCH_SIZE], TraceStep::Handshake);
    assert_eq!(trace[3 + IBD_BATCH_SIZE], TraceStep::Done);
}

#[test]
fn no_block_after_done() {
    let mut m = SyncMachine::new(3);
    let trace = run_cycle(&mut m, 7);
    let done_positions: Vec<usize> = trace
        .iter()
        .enumerate()
        .filter(|(_, s)| matches!(s, TraceStep::Done))
        .map(|(i, _)| i)
        .collect();
    assert_eq!(done_positions, vec![trace.len() - 1]);
}

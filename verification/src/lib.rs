//! The sending side of the pruning-point-and-anticone sync protocol: the
//! per-peer state machine that answers one request with headers, trusted
//! data, batched anticone blocks under peer backpressure, and a terminal
//! done marker, together with the index translation that turns referenced
//! trusted hashes into compact positions.

pub mod errors;
pub mod hash;
pub mod index;
pub mod laws;
pub mod machine;

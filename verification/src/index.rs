//! The hash-to-position translation of one cycle. The trusted-data entry
//! sequences fetched at the start of a cycle are canonical: an entry's
//! position is its index for the whole response. A block's referenced hashes
//! are translated into those positions before transmission; a referenced hash
//! that the sequences do not cover is an internal-consistency fault and is
//! reported, never encoded as a wrong index.

use vstd::prelude::*;

use crate::errors::SyncError;
use crate::hash::BlockHash;

verus! {

/// Whether the hash `h` occurs somewhere in the sequence `s`.
pub open spec fn seq_contains(s: Seq<BlockHash>, h: BlockHash) -> bool {
    exists|i: int| 0 <= i < s.len() && s[i] == h
}

/// Whether `k` is the position of the first occurrence of `h` in `s`.
pub open spec fn is_first_index(s: Seq<BlockHash>, h: BlockHash, k: int) -> bool {
    &&& 0 <= k < s.len()
    &&& s[k] == h
    &&& forall|j: int| 0 <= j < k ==> s[j] != h
}

/// Whether every hash of `refs` occurs in `window`.
pub open spec fn all_present(refs: Seq<BlockHash>, window: Seq<BlockHash>) -> bool {
    forall|i: int| 0 <= i < refs.len() ==> seq_contains(window, #[trigger] refs[i])
}

/// Whether `v` is the translation of the hash list `refs` through the canonical
/// index sequence `window`: one index per referenced hash, each pointing at the
/// first entry of `window` that carries that hash.
pub open spec fn translated(v: Seq<u64>, refs: Seq<BlockHash>, window: Seq<BlockHash>) -> bool {
    &&& v.len() == refs.len()
    &&& forall|i: int| 0 <= i < refs.len() ==> is_first_index(window, #[trigger] refs[i], #[trigger] v[i] as int)
}

/// Looks a hash up in a canonical index sequence: the position-keyed mapping
/// that one cycle builds once from the fetched trusted-data entries.
pub fn find_index(window: &Vec<BlockHash>, h: BlockHash) -> (r: Option<usize>)
    ensures
        match r {
            Some(k) => is_first_index(window@, h, k as int),
            None => !seq_contains(window@, h),
        },
{
    let mut i: usize = 0;
    while i < window.len()
        invariant
            i <= window@.len(),
            forall|j: int| 0 <= j < i ==> window@[j] != h,
        decreases window@.len() - i,
    {
        if window[i] == h {
            return Some(i);
        }
        i += 1;
    }
    None
}

/// Translates a block's referenced trusted-hash list into compact indices into
/// `window`. Succeeds exactly when every referenced hash is present; a missing
/// hash is the internal-consistency fault, reported rather than encoded wrongly.
pub fn translate_hashes(refs: &Vec<BlockHash>, window: &Vec<BlockHash>) -> (r: Result<
    Vec<u64>,
    SyncError,
>)
    ensures
        r is Ok <==> all_present(refs@, window@),
        match r {
            Ok(v) => translated(v@, refs@, window@),
            Err(e) => e == SyncError::IndexInvariantViolation,
        },
{
    let mut v: Vec<u64> = Vec::new();
    let mut i: usize = 0;
    while i < refs.len()
        invariant
            i <= refs@.len(),
            v@.len() == i,
            forall|j: int| 0 <= j < i ==> is_first_index(window@, #[trigger] refs@[j], #[trigger] v@[j] as int),
        decreases refs@.len() - i,
    {
        match find_index(window, refs[i]) {
            Some(k) => {
                v.push(k as u64);
            },
            None => {
                assert(!all_present(refs@, window@)) by {
                    assert(!seq_contains(window@, refs@[i as int]));
                }
                return Err(SyncError::IndexInvariantViolation);
            },
        }
        i += 1;
    }
    assert forall|i: int| 0 <= i < refs@.len() implies seq_contains(
        window@,
        #[trigger] refs@[i],
    ) by {
        assert(is_first_index(window@, refs@[i], v@[i] as int));
    }
    Ok(v)
}

/// The two index sequences that accompany one anticone block on the wire.
#[derive(Debug, PartialEq, Eq)]
pub struct BlockIndices {
    /// Positions into the cycle's DAA-window entry sequence.
    pub daa_window_indices: Vec<u64>,
    /// Positions into the cycle's ghostdag entry sequence.
    pub ghostdag_data_indices: Vec<u64>,
}

/// Builds the per-block payload of index sequences from the block's two
/// referenced hash lists and the cycle's two canonical index sequences.
/// Succeeds exactly when both lists are covered by their index sequences.
pub fn build_block_indices(
    daa_refs: &Vec<BlockHash>,
    ghostdag_refs: &Vec<BlockHash>,
    daa_window: &Vec<BlockHash>,
    ghostdag_window: &Vec<BlockHash>,
) -> (r: Result<BlockIndices, SyncError>)
    ensures
        r is Ok <==> all_present(daa_refs@, daa_window@) && all_present(
            ghostdag_refs@,
            ghostdag_window@,
        ),
        match r {
            Ok(b) => translated(b.daa_window_indices@, daa_refs@, daa_window@) && translated(
                b.ghostdag_data_indices@,
                ghostdag_refs@,
                ghostdag_window@,
            ),
            Err(e) => e == SyncError::IndexInvariantViolation,
        },
{
    let daa_window_indices = match translate_hashes(daa_refs, daa_window) {
        Ok(v) => v,
        Err(e) => {
            return Err(e);
        },
    };
    let ghostdag_data_indices = match translate_hashes(ghostdag_refs, ghostdag_window) {
        Ok(v) => v,
        Err(e) => {
            return Err(e);
        },
    };
    Ok(BlockIndices { daa_window_indices, ghostdag_data_indices })
}

} // verus!

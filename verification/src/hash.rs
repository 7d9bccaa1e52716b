use vstd::prelude::*;

verus! {

/// A 256-bit block hash, held as four 64-bit words so that the library can
/// compare hashes and key its index sequences on plain values. The unverified
/// shell converts the node's hash type into this form and back at the boundary.
#[derive(Clone, Copy, PartialEq, Eq, Structural, Debug, Hash)]
pub struct BlockHash {
    pub w0: u64,
    pub w1: u64,
    pub w2: u64,
    pub w3: u64,
}

impl BlockHash {
    /// Builds a hash value from its four 64-bit words.
    pub fn from_words(w0: u64, w1: u64, w2: u64, w3: u64) -> (h: BlockHash)
        ensures
            h == (BlockHash { w0, w1, w2, w3 }),
    {
        BlockHash { w0, w1, w2, w3 }
    }
}

} // verus!

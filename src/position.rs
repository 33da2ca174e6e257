//! Where a transaction sits in consensus output, and the rule that decides
//! when such a position has left the retention window.

use vstd::prelude::*;

verus! {

/// Number of rounds a rejected position is retained behind the last
/// committed round.
pub const ROUND_EXPIRATION: u64 = 100;

/// Reference to a consensus block: its round, its proposer and its digest.
#[derive(Clone, Copy, Debug, PartialEq, Eq, Hash)]
pub struct BlockRef {
    pub round: u64,
    pub author: u32,
    pub digest: [u8; 32],
}

/// A transaction's location within a consensus block.
#[derive(Clone, Copy, Debug, PartialEq, Eq, Hash)]
pub struct TransactionPosition {
    pub block_ref: BlockRef,
    pub transaction_index: u32,
}

/// A round is expired once it lies more than the window behind the last
/// committed round; nothing is expired before the first commit.
pub open spec fn round_expired(round: u64, last_committed_round: Option<u64>) -> bool {
    match last_committed_round {
        Some(last) => round + ROUND_EXPIRATION < last,
        None => false,
    }
}

impl BlockRef {
    pub fn new(round: u64, author: u32, digest: [u8; 32]) -> (r: BlockRef)
        ensures
            r.round == round,
            r.author == author,
            r.digest == digest,
    {
        BlockRef { round, author, digest }
    }
}

impl TransactionPosition {
    pub fn new(block_ref: BlockRef, transaction_index: u32) -> (r: TransactionPosition)
        ensures
            r.block_ref == block_ref,
            r.transaction_index == transaction_index,
    {
        TransactionPosition { block_ref, transaction_index }
    }

    pub open spec fn round(self) -> u64 {
        self.block_ref.round
    }
}

/// Decides `round_expired` without overflow.
pub fn is_round_expired(round: u64, last_committed_round: Option<u64>) -> (r: bool)
    ensures
        r == round_expired(round, last_committed_round),
{
    match last_committed_round {
        Some(last) => last > ROUND_EXPIRATION && round < last - ROUND_EXPIRATION,
        None => false,
    }
}

/// Compares two 32-byte digests.
pub fn same_digest(a: &[u8; 32], b: &[u8; 32]) -> (r: bool)
    ensures
        r == (*a == *b),
{
    let mut i: usize = 0;
    while i < 32
        invariant
            i <= 32,
            forall|j: int| 0 <= j < i ==> a[j] == b[j],
        decreases 32 - i,
    {
        if a[i] != b[i] {
            return false;
        }
        i = i + 1;
    }
    proof {
        broadcast use vstd::array::group_array_axioms;
        assert(*a =~= *b);
    }
    true
}

/// Compares two positions field by field.
pub fn same_position(a: &TransactionPosition, b: &TransactionPosition) -> (r: bool)
    ensures
        r == (*a == *b),
{
    a.transaction_index == b.transaction_index && a.block_ref.round == b.block_ref.round
        && a.block_ref.author == b.block_ref.author
        && same_digest(&a.block_ref.digest, &b.block_ref.digest)
}

} // verus!

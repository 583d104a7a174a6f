//! Verifiable information dispersal.
//!
//! The leader splits a payload into one share per storage node, bound to the
//! payload's commitment; any large-enough subset of shares recovers the
//! payload.  The scheme here is replication (every share carries the whole
//! payload), the simplest code with that recovery property; the surrounding
//! protocol only depends on the interface and on the round-trip law below.

use vstd::prelude::*;
use crate::commitment::{commitment_of, copy_bytes, Commitment};
use crate::crypto::Signature;

verus! {

/// Number of storage nodes a payload is dispersed to.
pub const NUM_STORAGE_NODES: usize = 8;

/// One storage node's share of a dispersed payload.
pub struct VidShare {
    /// Index of the storage node this share is addressed to.
    pub index: usize,
    /// The share data.
    pub data: Vec<u8>,
}

/// A dispersed payload: the view it is proposed for, the commitment binding
/// the shares to the payload, and the per-storage-node shares.
pub struct VidDisperse {
    /// The view this dispersal is proposed for.
    pub view_number: u64,
    /// Commitment of the dispersed payload.
    pub payload_commitment: Commitment,
    /// One share per storage node.
    pub shares: Vec<VidShare>,
}

/// A dispersal as sent on the wire: the data plus the leader's signature over
/// the payload commitment.
pub struct Proposal {
    /// The dispersal data.
    pub data: VidDisperse,
    /// The leader's signature over `data.payload_commitment`.
    pub signature: Signature,
}

/// What one share of `payload` holds: the whole payload, whatever the share's
/// index.
pub open spec fn share_of(payload: Seq<u8>, index: int) -> Seq<u8> {
    payload
}

/// Split a payload into `num_shares` shares.
pub fn disperse(payload: &Vec<u8>, num_shares: usize) -> (shares: Vec<VidShare>)
    ensures
        shares@.len() == num_shares,
        forall|i: int|
            0 <= i < num_shares ==> #[trigger] shares@[i].data@ == share_of(payload@, i)
                && shares@[i].index == i,
{
    let mut shares: Vec<VidShare> = Vec::new();
    let mut i: usize = 0;
    while i < num_shares
        invariant
            i <= num_shares,
            shares@.len() == i,
            forall|j: int|
                0 <= j < i ==> #[trigger] shares@[j].data@ == share_of(payload@, j)
                    && shares@[j].index == j,
        decreases num_shares - i,
    {
        shares.push(VidShare { index: i, data: copy_bytes(payload) });
        i = i + 1;
    }
    shares
}

/// Reconstruct a payload from a non-empty collection of shares.
pub fn reconstruct(shares: &Vec<VidShare>) -> (r: Option<Vec<u8>>)
    ensures
        shares@.len() == 0 ==> r is None,
        shares@.len() > 0 ==> (r matches Some(p) && p@ == shares@[0].data@),
{
    if shares.len() == 0 {
        None
    } else {
        Some(copy_bytes(&shares[0].data))
    }
}

/// Round trip: any subset of at least `threshold >= 1` of the shares produced
/// by dispersing `payload` reconstructs a collection whose recovered bytes
/// are `payload` itself.
///
/// `subset` names, by share data, any shares taken from a dispersal of
/// `payload`; the law says recovery from them yields the original bytes.
pub proof fn lemma_disperse_reconstruct(payload: Seq<u8>, subset: Seq<Seq<u8>>, threshold: u64)
    requires
        threshold >= 1,
        subset.len() >= threshold,
        forall|i: int|
            0 <= i < subset.len() ==> exists|j: int|
                0 <= j < NUM_STORAGE_NODES && #[trigger] subset[i] == share_of(payload, j),
    ensures
        subset[0] == payload,
        forall|i: int| 0 <= i < subset.len() ==> #[trigger] subset[i] == payload,
{
    assert forall|i: int| 0 <= i < subset.len() implies #[trigger] subset[i] == payload by {
        let j = choose|j: int|
            0 <= j < NUM_STORAGE_NODES && #[trigger] subset[i] == share_of(payload, j);
        assert(subset[i] == share_of(payload, j));
    }
}

} // verus!

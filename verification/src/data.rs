//! Ledger data: transactions, block payloads, and leaves.

use vstd::prelude::*;
use crate::commitment::{commitment_of, copy_bytes, Commitment};

verus! {

/// An opaque transaction payload.  Its identity is the commitment of its
/// bytes.
pub struct Transaction {
    /// The raw payload bytes.
    pub payload: Vec<u8>,
}

impl Transaction {
    /// The commitment identifying this transaction.
    pub open spec fn commit_spec(self) -> Commitment {
        commitment_of(self.payload@)
    }

    /// Compute the content-derived commitment of this transaction.
    pub fn commit(&self) -> (c: Commitment)
        ensures
            c == self.commit_spec(),
    {
        Commitment::from_bytes(&self.payload)
    }

    /// Copy this transaction.
    pub fn duplicate(&self) -> (t: Transaction)
        ensures
            t.payload@ == self.payload@,
    {
        Transaction { payload: copy_bytes(&self.payload) }
    }
}

/// A batch of transactions together with the commitment of the dispersed
/// payload built from them.
pub struct VidBlockPayload {
    /// The transactions included in the block.
    pub transactions: Vec<Transaction>,
    /// Commitment of the erasure-coded payload.
    pub payload_commitment: Commitment,
}

impl VidBlockPayload {
    /// The commitment identifying this block: the commitment of its payload.
    pub open spec fn commit_spec(self) -> Commitment {
        self.payload_commitment
    }

    /// The commitment of this block.
    pub fn commit(&self) -> (c: Commitment)
        ensures
            c == self.commit_spec(),
    {
        self.payload_commitment
    }

    /// The commitments of the transactions in this block, in block order.
    pub open spec fn transaction_commitments_spec(self) -> Seq<Commitment> {
        Seq::new(self.transactions@.len(), |i: int| self.transactions@[i].commit_spec())
    }

    /// Collect the commitments of the transactions in this block.
    pub fn transaction_commitments(&self) -> (cs: Vec<Commitment>)
        ensures
            cs@ == self.transaction_commitments_spec(),
    {
        let mut cs: Vec<Commitment> = Vec::new();
        let mut i: usize = 0;
        while i < self.transactions.len()
            invariant
                i <= self.transactions@.len(),
                cs@ == self.transaction_commitments_spec().subrange(0, i as int),
            decreases self.transactions@.len() - i,
        {
            cs.push(self.transactions[i].commit());
            proof {
                assert(cs@ =~= self.transaction_commitments_spec().subrange(0, i + 1));
            }
            i = i + 1;
        }
        proof {
            assert(self.transaction_commitments_spec().subrange(
                0,
                self.transactions@.len() as int,
            ) =~= self.transaction_commitments_spec());
        }
        cs
    }
}

/// A unit of the ledger's append-only structure: a decided or extending
/// proposal, with the payload it carries (if the node holds it).
pub struct Leaf {
    /// The view in which this leaf was proposed.
    pub view_number: u64,
    /// The commitment identifying this leaf.
    pub leaf_commitment: Commitment,
    /// The commitment of this leaf's parent.
    pub parent_commitment: Commitment,
    /// The block payload, if the node holds the full block.
    pub block_payload: Option<VidBlockPayload>,
}

} // verus!

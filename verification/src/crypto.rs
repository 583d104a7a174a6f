//! Model of the injected threshold-crypto / leader oracle.
//!
//! The consensus core treats election, eligibility and signing as an injected
//! collaborator.  This module gives that collaborator a concrete, fully
//! specified form over plain values: keys are integer identities, a signature
//! binds a signer key to the committed data, and the leader of a view is
//! chosen round-robin over the member list.

use vstd::prelude::*;
use crate::commitment::{copy_vec, Commitment};

verus! {

/// A signature: a signer's endorsement of one commitment.  A signature
/// verifies under exactly the key that produced it, over exactly the data it
/// was produced for.
#[derive(Clone, Copy, PartialEq, Eq, Hash, Debug, Structural)]
pub struct Signature {
    /// Public key identity of the signer.
    pub signer_key: u64,
    /// The commitment that was signed.
    pub data: Commitment,
}

/// A per-voter eligibility token for one view.
#[derive(Clone, Copy, PartialEq, Eq, Hash, Debug, Structural)]
pub struct VoteToken {
    /// Validator index of the token's holder.
    pub signer_index: usize,
    /// The view the token is valid for.
    pub view: u64,
}

/// The membership / election oracle: the validator set, this node's place in
/// it, the certificate threshold, and per-validator vote eligibility.
pub struct Membership {
    /// Public key identity of each validator; the position is the validator
    /// index.
    pub nodes: Vec<u64>,
    /// This node's validator index.
    pub own_index: usize,
    /// Number of signatures needed to form a certificate.
    pub success_threshold: u64,
    /// Whether each validator is selected to vote (per validator index).
    pub vote_eligible: Vec<bool>,
}

impl Membership {
    /// A membership is well formed when this node is a member, the threshold
    /// is positive and reachable, eligibility covers every member, and no two
    /// members share a public key.
    pub open spec fn wf(self) -> bool {
        &&& self.nodes@.len() > 0
        &&& self.own_index < self.nodes@.len()
        &&& 1 <= self.success_threshold <= self.nodes@.len()
        &&& self.vote_eligible@.len() == self.nodes@.len()
        &&& forall|i: int, j: int|
            0 <= i < self.nodes@.len() && 0 <= j < self.nodes@.len() && i != j
                ==> self.nodes@[i] != self.nodes@[j]
    }

    /// The validator index of the leader for a view: round-robin over the
    /// member list.
    pub open spec fn leader_index_spec(self, view: u64) -> int {
        view as int % self.nodes@.len() as int
    }

    /// The public key of the leader for a view.
    pub open spec fn leader_of(self, view: u64) -> u64 {
        self.nodes@[self.leader_index_spec(view)]
    }

    /// This node's own public key.
    pub open spec fn own_key_spec(self) -> u64 {
        self.nodes@[self.own_index as int]
    }

    /// Whether `sig` is a valid signature by `key` over `data`.
    pub open spec fn sig_valid(key: u64, sig: Signature, data: Commitment) -> bool {
        sig.signer_key == key && sig.data == data
    }

    /// Total number of validators.
    pub fn total_nodes(&self) -> (n: usize)
        ensures
            n == self.nodes@.len(),
    {
        self.nodes.len()
    }

    /// The success threshold for certificate formation.
    pub fn get_success_threshold(&self) -> (t: u64)
        ensures
            t == self.success_threshold,
    {
        self.success_threshold
    }

    /// This node's own public key.
    pub fn public_key(&self) -> (k: u64)
        requires
            self.wf(),
        ensures
            k == self.own_key_spec(),
    {
        self.nodes[self.own_index]
    }

    /// The public key of the leader for `view`.
    pub fn get_leader(&self, view: u64) -> (k: u64)
        requires
            self.wf(),
        ensures
            k == self.leader_of(view),
    {
        let n = self.nodes.len() as u64;
        let idx = (view % n) as usize;
        self.nodes[idx]
    }

    /// Whether this node is the leader for `view`.
    pub fn is_leader(&self, view: u64) -> (r: bool)
        requires
            self.wf(),
        ensures
            r == (self.leader_index_spec(view) == self.own_index),
    {
        let n = self.nodes.len() as u64;
        let idx = (view % n) as usize;
        idx == self.own_index
    }

    /// Ask the eligibility oracle for a vote token for `view`: `Some` exactly
    /// when this node is selected to vote.
    pub fn make_vote_token(&self, view: u64) -> (t: Option<VoteToken>)
        requires
            self.wf(),
        ensures
            self.vote_eligible@[self.own_index as int] ==> t == Some(VoteToken {
                signer_index: self.own_index,
                view,
            }),
            !self.vote_eligible@[self.own_index as int] ==> t is None,
    {
        if self.vote_eligible[self.own_index] {
            Some(VoteToken { signer_index: self.own_index, view })
        } else {
            None
        }
    }

    /// Sign a payload commitment with this node's key.
    pub fn sign_payload_commitment(&self, data: Commitment) -> (s: Signature)
        requires
            self.wf(),
        ensures
            s == (Signature { signer_key: self.own_key_spec(), data }),
    {
        Signature { signer_key: self.public_key(), data }
    }

    /// Copy this membership, for a task that needs its own handle on the
    /// oracle.
    pub fn duplicate(&self) -> (r: Membership)
        ensures
            r.nodes@ == self.nodes@,
            r.own_index == self.own_index,
            r.success_threshold == self.success_threshold,
            r.vote_eligible@ == self.vote_eligible@,
            self.wf() ==> r.wf(),
    {
        Membership {
            nodes: copy_vec(&self.nodes),
            own_index: self.own_index,
            success_threshold: self.success_threshold,
            vote_eligible: copy_vec(&self.vote_eligible),
        }
    }

    /// Verify a signature by `key` over `data`.
    pub fn validate(key: u64, sig: &Signature, data: Commitment) -> (r: bool)
        ensures
            r == Self::sig_valid(key, *sig, data),
    {
        sig.signer_key == key && sig.data == data
    }
}

} // verus!

//! Threshold certificates: an aggregated attestation that enough validators
//! endorsed a (view, data) pair.  One certificate shape serves every
//! certificate-producing phase.

use vstd::prelude::*;
use crate::commitment::{copy_vec, Commitment};
use crate::crypto::{Membership, Signature};

verus! {

/// A certificate created by aggregating enough votes on one commitment.
pub struct SimpleCertificate {
    /// The data this certificate is for: the commitment that was voted on.
    pub data: Commitment,
    /// The commitment the collected signatures are over.
    pub vote_commitment: Commitment,
    /// The view this certificate relates to.
    pub view_number: u64,
    /// The collected signatures, absent only on the genesis certificate.
    pub signatures: Option<Vec<Signature>>,
    /// Whether this is the a-priori-valid genesis certificate.
    pub is_genesis: bool,
}

/// Whether `sigs` is a valid signature quorum over `vote_commitment` under
/// `m`: at least the success threshold of signatures, each over
/// `vote_commitment`, each by a member, no signer twice.
pub open spec fn sig_quorum(m: Membership, vote_commitment: Commitment, sigs: Seq<Signature>) -> bool {
    &&& sigs.len() >= m.success_threshold
    &&& forall|i: int| 0 <= i < sigs.len() ==> (#[trigger] sigs[i]).data == vote_commitment
    &&& forall|i: int| 0 <= i < sigs.len() ==> m.nodes@.contains((#[trigger] sigs[i]).signer_key)
    &&& forall|i: int, j: int|
        0 <= i < sigs.len() && 0 <= j < sigs.len() && i != j ==> (#[trigger] sigs[i]).signer_key
            != (#[trigger] sigs[j]).signer_key
}

/// What a certificate claims: either it is the genesis certificate for view
/// zero, or it carries a signature quorum.
pub open spec fn cert_valid(m: Membership, c: SimpleCertificate) -> bool {
    ||| (c.is_genesis && c.view_number == 0)
    ||| (c.signatures matches Some(sigs) && sig_quorum(m, c.vote_commitment, sigs@))
}

/// Whether two certificates say the same thing: equal fields, with the
/// signature lists compared by contents.
pub open spec fn cert_eq(a: SimpleCertificate, b: SimpleCertificate) -> bool {
    &&& a.data == b.data
    &&& a.vote_commitment == b.vote_commitment
    &&& a.view_number == b.view_number
    &&& a.is_genesis == b.is_genesis
    &&& (a.signatures is None <==> b.signatures is None)
    &&& (a.signatures is Some && b.signatures is Some ==> (a.signatures->0)@ == (b.signatures->0)@)
}

impl Membership {
    /// Whether `key` is a member's public key.
    pub fn contains_node(&self, key: u64) -> (r: bool)
        ensures
            r == self.nodes@.contains(key),
    {
        let mut i: usize = 0;
        while i < self.nodes.len()
            invariant
                i <= self.nodes@.len(),
                forall|j: int| 0 <= j < i ==> self.nodes@[j] != key,
            decreases self.nodes@.len() - i,
        {
            if self.nodes[i] == key {
                return true;
            }
            i = i + 1;
        }
        false
    }
}

impl SimpleCertificate {
    /// Assemble a certificate from a formed signature quorum.
    pub fn create_signed_certificate(
        vote_commitment: Commitment,
        data: Commitment,
        sigs: Vec<Signature>,
        view: u64,
    ) -> (c: SimpleCertificate)
        ensures
            c.data == data,
            c.vote_commitment == vote_commitment,
            c.view_number == view,
            c.signatures matches Some(s) && s@ == sigs@,
            !c.is_genesis,
    {
        SimpleCertificate {
            data,
            vote_commitment,
            view_number: view,
            signatures: Some(sigs),
            is_genesis: false,
        }
    }

    /// Check this certificate under `membership`: the genesis certificate is
    /// valid a priori for view zero only; any other certificate is valid
    /// exactly when it carries a signature quorum.
    #[verifier::loop_isolation(false)]
    pub fn is_valid_cert(&self, membership: &Membership) -> (r: bool)
        ensures
            r == cert_valid(*membership, *self),
    {
        if self.is_genesis && self.view_number == 0 {
            return true;
        }
        if self.signatures.is_none() {
            return false;
        }
        let sigs: &Vec<Signature> = self.signatures.as_ref().unwrap();
        let threshold = membership.get_success_threshold();
        if (sigs.len() as u64) < threshold {
            return false;
        }
        let mut i: usize = 0;
        while i < sigs.len()
            invariant
                i <= sigs@.len(),
                forall|k: int| 0 <= k < i ==> (#[trigger] sigs@[k]).data == self.vote_commitment,
                forall|k: int|
                    0 <= k < i ==> membership.nodes@.contains((#[trigger] sigs@[k]).signer_key),
                forall|k: int, l: int|
                    0 <= k < i && 0 <= l < i && k != l ==> (#[trigger] sigs@[k]).signer_key
                        != (#[trigger] sigs@[l]).signer_key,
            decreases sigs@.len() - i,
        {
            if sigs[i].data != self.vote_commitment {
                proof {
                    assert(!sig_quorum(*membership, self.vote_commitment, sigs@));
                }
                return false;
            }
            if !membership.contains_node(sigs[i].signer_key) {
                proof {
                    assert(!sig_quorum(*membership, self.vote_commitment, sigs@));
                }
                return false;
            }
            let mut j: usize = 0;
            while j < i
                invariant
                    j <= i,
                    i < sigs@.len(),
                    forall|l: int|
                        0 <= l < j ==> (#[trigger] sigs@[l]).signer_key != sigs@[i as int].signer_key,
                decreases i - j,
            {
                if sigs[j].signer_key == sigs[i].signer_key {
                    proof {
                        assert(!sig_quorum(*membership, self.vote_commitment, sigs@));
                    }
                    return false;
                }
                j = j + 1;
            }
            i = i + 1;
        }
        true
    }

    /// The signature threshold `membership` demands of a certificate.
    pub fn threshold(membership: &Membership) -> (t: u64)
        ensures
            t == membership.success_threshold,
    {
        membership.get_success_threshold()
    }

    /// The data this certificate is for.
    pub fn get_data(&self) -> (d: Commitment)
        ensures
            d == self.data,
    {
        self.data
    }

    /// The commitment the signatures are over.
    pub fn get_data_commitment(&self) -> (c: Commitment)
        ensures
            c == self.vote_commitment,
    {
        self.vote_commitment
    }

    /// The view this certificate relates to.
    pub fn get_view_number(&self) -> (v: u64)
        ensures
            v == self.view_number,
    {
        self.view_number
    }

    /// The genesis certificate: view zero, no signatures, no preimage behind
    /// its data commitment.
    pub fn genesis() -> (c: SimpleCertificate)
        ensures
            c.view_number == 0,
            c.is_genesis,
            c.signatures is None,
            c.data == (Commitment { val: 0 }),
            c.vote_commitment == (Commitment { val: 0 }),
    {
        let data = Commitment { val: 0 };
        SimpleCertificate {
            data,
            vote_commitment: data,
            view_number: 0,
            signatures: None,
            is_genesis: true,
        }
    }

    /// Copy this certificate.
    pub fn duplicate(&self) -> (c: SimpleCertificate)
        ensures
            cert_eq(c, *self),
    {
        let signatures = match &self.signatures {
            None => None,
            Some(s) => Some(copy_vec(s)),
        };
        SimpleCertificate {
            data: self.data,
            vote_commitment: self.vote_commitment,
            view_number: self.view_number,
            signatures,
            is_genesis: self.is_genesis,
        }
    }
}

/// A quorum certificate: the same certificate shape, formed over a leaf
/// commitment by the quorum phase.
pub type QuorumCertificate2 = SimpleCertificate;

} // verus!

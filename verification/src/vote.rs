//! Votes and the vote accumulator: the pure state-transition engine that
//! turns a stream of votes into a threshold certificate.

use vstd::prelude::*;
use crate::certificate::{sig_quorum, SimpleCertificate};
use crate::commitment::Commitment;
use crate::crypto::{Membership, Signature, VoteToken};

verus! {

/// A signed statement by one validator that it endorses a (view, payload
/// commitment) pair, together with the voter's eligibility token.
#[derive(Clone, Copy, PartialEq, Eq, Debug, Structural)]
pub struct VidVote {
    /// The voter's signature over the payload commitment.
    pub signature: Signature,
    /// The view this vote belongs to.
    pub current_view: u64,
    /// The payload commitment being endorsed.
    pub payload_commitment: Commitment,
    /// The voter's eligibility token.
    pub vote_token: VoteToken,
}

/// Whether a vote is internally consistent under `m`: the token names a real
/// validator and the vote's own view, and the signature is that validator's
/// signature over the endorsed commitment.
pub open spec fn vote_valid(m: Membership, v: VidVote) -> bool {
    &&& v.vote_token.signer_index < m.nodes@.len()
    &&& v.vote_token.view == v.current_view
    &&& v.signature.signer_key == m.nodes@[v.vote_token.signer_index as int]
    &&& v.signature.data == v.payload_commitment
}

impl Membership {
    /// Build this node's vote for a payload commitment in a view, under the
    /// given eligibility token.
    pub fn create_vid_message(
        &self,
        payload_commitment: Commitment,
        view: u64,
        vote_token: VoteToken,
    ) -> (v: VidVote)
        requires
            self.wf(),
        ensures
            v.signature == (Signature {
                signer_key: self.own_key_spec(),
                data: payload_commitment,
            }),
            v.current_view == view,
            v.payload_commitment == payload_commitment,
            v.vote_token == vote_token,
            vote_token.signer_index == self.own_index && vote_token.view == view ==> vote_valid(
                *self,
                v,
            ),
    {
        VidVote {
            signature: self.sign_payload_commitment(payload_commitment),
            current_view: view,
            payload_commitment,
            vote_token,
        }
    }
}

/// The partial signatures collected so far for one data commitment.
pub struct CommitmentVotes {
    /// The commitment these votes endorse.
    pub commitment: Commitment,
    /// Which validator indices have signed.
    pub signers: Vec<bool>,
    /// The collected partial signatures, in arrival order.
    pub sigs: Vec<Signature>,
}

impl CommitmentVotes {
    /// Internal consistency under `m`: the bitmap covers the validator set
    /// and agrees with the signature list, signatures are over this entry's
    /// commitment, come from members, no signer twice, and the running count
    /// is still below the threshold (reaching it forms a certificate at
    /// once).
    pub open spec fn wf(self, m: Membership) -> bool {
        &&& self.signers@.len() == m.nodes@.len()
        &&& self.sigs@.len() < m.success_threshold
        &&& forall|j: int| 0 <= j < self.sigs@.len() ==> (#[trigger] self.sigs@[j]).data
            == self.commitment
        &&& forall|j: int|
            0 <= j < self.sigs@.len() ==> m.nodes@.contains((#[trigger] self.sigs@[j]).signer_key)
        &&& forall|j: int, k: int|
            0 <= j < self.sigs@.len() && 0 <= k < self.sigs@.len() && j != k
                ==> (#[trigger] self.sigs@[j]).signer_key != (#[trigger] self.sigs@[k]).signer_key
        &&& forall|idx: int|
            0 <= idx < m.nodes@.len() ==> ((#[trigger] self.signers@[idx]) <==> exists|j: int|
                0 <= j < self.sigs@.len() && (#[trigger] self.sigs@[j]).signer_key == m.nodes@[idx])
    }
}

/// Mutable vote-aggregation state: per-commitment partial signatures, the
/// threshold demanded, and the size of the validator set.
pub struct VoteAccumulator {
    /// Per-commitment collected votes; at most one entry per commitment.
    pub vote_outcomes: Vec<CommitmentVotes>,
    /// Number of signatures needed to form a certificate.
    pub success_threshold: u64,
    /// Total number of validators.
    pub total_nodes: usize,
}

/// The outcome of feeding one vote to an accumulator: either the updated,
/// still-accumulating state, or the formed certificate that replaces it.
pub enum AccumulateResult {
    /// Still below threshold.
    Accumulating(VoteAccumulator),
    /// Threshold reached: the accumulator is consumed by the certificate.
    Certified(SimpleCertificate),
}

/// Where votes for `c` are kept, if anywhere.
pub open spec fn entry_index_for(entries: Seq<CommitmentVotes>, c: Commitment) -> Option<int> {
    if exists|i: int| 0 <= i < entries.len() && (#[trigger] entries[i]).commitment == c {
        Some(choose|i: int| 0 <= i < entries.len() && (#[trigger] entries[i]).commitment == c)
    } else {
        None
    }
}

/// The signatures an accumulator has collected for `c`.
pub open spec fn sigs_for(acc: VoteAccumulator, c: Commitment) -> Seq<Signature> {
    match entry_index_for(acc.vote_outcomes@, c) {
        Some(i) => acc.vote_outcomes@[i].sigs@,
        None => Seq::empty(),
    }
}

/// Whether `key` has already signed for `c` in this accumulator.
pub open spec fn has_signed(acc: VoteAccumulator, c: Commitment, key: u64) -> bool {
    exists|j: int| 0 <= j < sigs_for(acc, c).len() && (#[trigger] sigs_for(acc, c)[j]).signer_key == key
}

/// The position holding votes for `c`, if one exists.
#[verifier::loop_isolation(false)]
fn find_entry_index(entries: &Vec<CommitmentVotes>, c: Commitment) -> (r: Option<usize>)
    ensures
        r matches Some(i) ==> i < entries@.len() && entries@[i as int].commitment == c,
        r is None ==> forall|j: int|
            0 <= j < entries@.len() ==> (#[trigger] entries@[j]).commitment != c,
{
    let mut i: usize = 0;
    while i < entries.len()
        invariant
            i <= entries@.len(),
            forall|j: int| 0 <= j < i ==> (#[trigger] entries@[j]).commitment != c,
        decreases entries@.len() - i,
    {
        if entries[i].commitment == c {
            return Some(i);
        }
        i = i + 1;
    }
    None
}

/// A bitmap of `n` unset bits.
#[verifier::loop_isolation(false)]
fn make_signers(n: usize) -> (v: Vec<bool>)
    ensures
        v@.len() == n,
        forall|i: int| 0 <= i < n ==> !(#[trigger] v@[i]),
{
    let mut v: Vec<bool> = Vec::new();
    let mut i: usize = 0;
    while i < n
        invariant
            i <= n,
            v@.len() == i,
            forall|j: int| 0 <= j < i ==> !(#[trigger] v@[j]),
        decreases n - i,
    {
        v.push(false);
        i = i + 1;
    }
    v
}

impl VoteAccumulator {
    /// Consistency with the membership it was built from: matching threshold
    /// and validator count, at most one entry per commitment, every entry
    /// well formed.
    pub open spec fn wf(self, m: Membership) -> bool {
        &&& self.success_threshold == m.success_threshold
        &&& self.total_nodes == m.nodes@.len()
        &&& forall|i: int, j: int|
            0 <= i < self.vote_outcomes@.len() && 0 <= j < self.vote_outcomes@.len() && i != j
                ==> (#[trigger] self.vote_outcomes@[i]).commitment
                != (#[trigger] self.vote_outcomes@[j]).commitment
        &&& forall|i: int|
            0 <= i < self.vote_outcomes@.len() ==> (#[trigger] self.vote_outcomes@[i]).wf(m)
    }

    /// A fresh accumulator: an empty signer bitmap sized to the validator
    /// count and the success threshold from the oracle.
    pub fn new(m: &Membership) -> (acc: VoteAccumulator)
        requires
            m.wf(),
        ensures
            acc.wf(*m),
            acc.vote_outcomes@.len() == 0,
    {
        VoteAccumulator {
            vote_outcomes: Vec::new(),
            success_threshold: m.get_success_threshold(),
            total_nodes: m.total_nodes(),
        }
    }

    /// Same aggregation state: equal contents, threshold and validator
    /// count.
    pub open spec fn same_state(self, b: VoteAccumulator) -> bool {
        &&& self.vote_outcomes@ == b.vote_outcomes@
        &&& self.success_threshold == b.success_threshold
        &&& self.total_nodes == b.total_nodes
    }

    /// Feed one vote for `commitment` into the accumulator.
    ///
    /// An inconsistent vote, or one whose signer has already signed for this
    /// commitment, changes nothing.  A fresh valid signature is recorded;
    /// when it brings the count for `commitment` to the success threshold,
    /// the accumulator is consumed and the formed certificate is returned,
    /// carrying exactly the signatures collected.
    pub fn accumulate(self, m: &Membership, vote: &VidVote, commitment: Commitment) -> (r:
        AccumulateResult)
        requires
            m.wf(),
            self.wf(*m),
            commitment == vote.payload_commitment,
        ensures
            !vote_valid(*m, *vote) ==> (r matches AccumulateResult::Accumulating(a)
                && a.same_state(self) && a.wf(*m)),
            vote_valid(*m, *vote) && has_signed(self, commitment, vote.signature.signer_key) ==> (
            r matches AccumulateResult::Accumulating(a) && a.same_state(self) && a.wf(*m)),
            vote_valid(*m, *vote) && !has_signed(self, commitment, vote.signature.signer_key)
                && sigs_for(self, commitment).len() + 1 < m.success_threshold ==> (
            r matches AccumulateResult::Accumulating(a) && a.wf(*m) && a.success_threshold
                == self.success_threshold && a.total_nodes == self.total_nodes && sigs_for(
                a,
                commitment,
            ) == sigs_for(self, commitment).push(vote.signature) && (forall|c2: Commitment|
                c2 != commitment ==> sigs_for(a, c2) == sigs_for(self, c2))),
            vote_valid(*m, *vote) && !has_signed(self, commitment, vote.signature.signer_key)
                && sigs_for(self, commitment).len() + 1 >= m.success_threshold ==> (
            r matches AccumulateResult::Certified(cert) && cert.view_number == vote.current_view
                && cert.data == commitment && cert.vote_commitment == commitment && !cert.is_genesis
                && (cert.signatures matches Some(s) && s@ == sigs_for(self, commitment).push(
                vote.signature,
            )) && sig_quorum(*m, commitment, sigs_for(self, commitment).push(vote.signature))),
    {
        let mut acc = self;
        // Reject a vote that is not internally consistent.
        if !(vote.vote_token.signer_index < acc.total_nodes && vote.vote_token.view
            == vote.current_view && vote.signature.signer_key
            == m.nodes[vote.vote_token.signer_index] && vote.signature.data
            == vote.payload_commitment) {
            return AccumulateResult::Accumulating(acc);
        }
        let signer_index = vote.vote_token.signer_index;
        // Find the entry for this commitment, creating it on first sight.
        let ghost entries0 = acc.vote_outcomes@;
        let pos = find_entry_index(&acc.vote_outcomes, commitment);
        let ghost found = pos is Some;
        proof {
            if pos is None {
                assert(entry_index_for(entries0, commitment) is None);
            }
        }
        let idx = match pos {
            Some(i) => i,
            None => {
                let fresh = CommitmentVotes {
                    commitment,
                    signers: make_signers(acc.total_nodes),
                    sigs: Vec::new(),
                };
                let at = acc.vote_outcomes.len();
                acc.vote_outcomes.push(fresh);
                at
            },
        };
        let ghost entries1 = acc.vote_outcomes@;
        proof {
            assert(entries1[idx as int].commitment == commitment);
            assert forall|j: int|
                0 <= j < entries1.len() && j != idx implies (#[trigger] entries1[j]).commitment
                != commitment by {
                if !found && j < entries0.len() {
                    assert(entries0[j].commitment != commitment);
                }
            }
            assert forall|a: int, b: int|
                0 <= a < entries1.len() && 0 <= b < entries1.len() && a != b implies (
            #[trigger] entries1[a]).commitment != (#[trigger] entries1[b]).commitment by {
                if a < entries0.len() && b < entries0.len() {
                    assert(entries0[a].commitment != entries0[b].commitment);
                }
            }
            assert(entry_index_for(entries1, commitment) == Some(idx as int));
            if found {
                assert(entries0[idx as int].wf(*m));
                assert(sigs_for(self, commitment) == entries0[idx as int].sigs@);
            } else {
                assert(sigs_for(self, commitment) =~= Seq::<Signature>::empty());
            }
        }
        let mut entry = acc.vote_outcomes.remove(idx);
        proof {
            assert(entry.signers@.len() == m.nodes@.len());
            assert(sigs_for(self, commitment) == entry.sigs@);
        }
        // A signer votes once per commitment: drop a repeat.
        if entry.signers[signer_index] {
            proof {
                let key = m.nodes@[signer_index as int];
                assert(exists|j: int|
                    0 <= j < entry.sigs@.len() && (#[trigger] entry.sigs@[j]).signer_key == key);
                let j = choose|j: int|
                    0 <= j < entry.sigs@.len() && (#[trigger] entry.sigs@[j]).signer_key == key;
                assert(sigs_for(self, commitment)[j].signer_key == vote.signature.signer_key);
                assert(has_signed(self, commitment, vote.signature.signer_key));
                assert(found);
            }
            acc.vote_outcomes.insert(idx, entry);
            proof {
                assert(acc.vote_outcomes@ =~= entries0);
            }
            return AccumulateResult::Accumulating(acc);
        }
        proof {
            // The signer's bit is clear, so this key has not signed here yet.
            if has_signed(self, commitment, vote.signature.signer_key) {
                let j = choose|j: int|
                    0 <= j < sigs_for(self, commitment).len() && (#[trigger] sigs_for(
                        self,
                        commitment,
                    )[j]).signer_key == vote.signature.signer_key;
                assert(entry.sigs@[j].signer_key == m.nodes@[signer_index as int]);
                assert(entry.signers@[signer_index as int]);
            }
            assert(m.nodes@.contains(vote.signature.signer_key)) by {
                assert(m.nodes@[signer_index as int] == vote.signature.signer_key);
            }
        }
        // Record the fresh signature.
        let ghost sigs0 = entry.sigs@;
        entry.signers.set(signer_index, true);
        entry.sigs.push(vote.signature);
        proof {
            assert(forall|j: int| 0 <= j < sigs0.len() ==> (#[trigger] sigs0[j]).signer_key
                != vote.signature.signer_key);
            assert forall|j: int, k: int|
                0 <= j < entry.sigs@.len() && 0 <= k < entry.sigs@.len() && j != k implies (
            #[trigger] entry.sigs@[j]).signer_key != (#[trigger] entry.sigs@[k]).signer_key by {
                if j < sigs0.len() && k < sigs0.len() {
                    assert(entry.sigs@[j] == sigs0[j] && entry.sigs@[k] == sigs0[k]);
                } else if j < sigs0.len() {
                    assert(entry.sigs@[j] == sigs0[j]);
                } else if k < sigs0.len() {
                    assert(entry.sigs@[k] == sigs0[k]);
                }
            }
            assert forall|j: int|
                0 <= j < entry.sigs@.len() implies (#[trigger] entry.sigs@[j]).data == commitment
                && m.nodes@.contains(entry.sigs@[j].signer_key) by {
                if j < sigs0.len() {
                    assert(entry.sigs@[j] == sigs0[j]);
                }
            }
        }
        if entry.sigs.len() as u64 >= acc.success_threshold {
            // Threshold reached: the accumulator is replaced by the formed
            // certificate.
            proof {
                assert(sig_quorum(*m, commitment, entry.sigs@));
            }
            let cert = SimpleCertificate::create_signed_certificate(
                commitment,
                commitment,
                entry.sigs,
                vote.current_view,
            );
            return AccumulateResult::Certified(cert);
        }
        proof {
            assert forall|idx2: int|
                0 <= idx2 < m.nodes@.len() implies ((#[trigger] entry.signers@[idx2])
                <==> exists|j: int|
                0 <= j < entry.sigs@.len() && (#[trigger] entry.sigs@[j]).signer_key
                    == m.nodes@[idx2]) by {
                if idx2 == signer_index {
                    assert(entry.sigs@[entry.sigs@.len() - 1].signer_key == m.nodes@[idx2]);
                } else {
                    if entry.signers@[idx2] {
                        let j = choose|j: int|
                            0 <= j < sigs0.len() && (#[trigger] sigs0[j]).signer_key
                                == m.nodes@[idx2];
                        assert(entry.sigs@[j].signer_key == m.nodes@[idx2]);
                    } else {
                        assert forall|j: int|
                            0 <= j < entry.sigs@.len() implies (#[trigger] entry.sigs@[j]).signer_key
                            != m.nodes@[idx2] by {
                            if j < sigs0.len() {
                                assert(sigs0[j] == entry.sigs@[j]);
                            } else {
                                assert(m.nodes@[idx2] != m.nodes@[signer_index as int]);
                            }
                        }
                    }
                }
            }
            assert(entry.wf(*m));
        }
        acc.vote_outcomes.insert(idx, entry);
        proof {
            assert(acc.vote_outcomes@ =~= entries1.update(idx as int, entry));
            assert(acc.vote_outcomes@[idx as int] == entry);
            assert(entry.commitment == commitment);
            assert forall|j: int|
                0 <= j < acc.vote_outcomes@.len() && j != idx implies (
            #[trigger] acc.vote_outcomes@[j]).commitment != commitment by {
                assert(acc.vote_outcomes@[j] == entries1[j]);
            }
            assert(entry_index_for(acc.vote_outcomes@, commitment) == Some(idx as int));
            assert(sigs_for(acc, commitment) == sigs_for(self, commitment).push(vote.signature));
            assert forall|c2: Commitment| c2 != commitment implies sigs_for(acc, c2) == sigs_for(
                self,
                c2,
            ) by {
                lemma_sigs_for_other(self, acc, entries0, commitment, c2, idx as int);
            }
            assert forall|i: int|
                0 <= i < acc.vote_outcomes@.len() implies (#[trigger] acc.vote_outcomes@[i]).wf(*m) by {
                if i != idx {
                    assert(acc.vote_outcomes@[i] == entries1[i]);
                    if found || i < entries0.len() {
                        assert(entries1[i] == entries0[i]);
                    }
                }
            }
            assert(acc.wf(*m));
        }
        AccumulateResult::Accumulating(acc)
    }
}

/// Signatures for any other commitment are untouched by an update at the
/// position that holds `commitment`.
proof fn lemma_sigs_for_other(
    pre: VoteAccumulator,
    post: VoteAccumulator,
    entries0: Seq<CommitmentVotes>,
    commitment: Commitment,
    c2: Commitment,
    idx: int,
)
    requires
        c2 != commitment,
        pre.vote_outcomes@ == entries0,
        forall|a: int, b: int|
            0 <= a < entries0.len() && 0 <= b < entries0.len() && a != b
                ==> (#[trigger] entries0[a]).commitment != (#[trigger] entries0[b]).commitment,
        0 <= idx < post.vote_outcomes@.len(),
        post.vote_outcomes@[idx].commitment == commitment,
        entries0.len() <= post.vote_outcomes@.len() <= entries0.len() + 1,
        idx < entries0.len() ==> post.vote_outcomes@.len() == entries0.len()
            && entries0[idx].commitment == commitment,
        forall|j: int|
            0 <= j < post.vote_outcomes@.len() && j != idx ==> #[trigger] post.vote_outcomes@[j]
                == entries0[j],
    ensures
        sigs_for(post, c2) == sigs_for(pre, c2),
{
    let es1 = post.vote_outcomes@;
    if exists|i: int| 0 <= i < entries0.len() && (#[trigger] entries0[i]).commitment == c2 {
        let i = entry_index_for(entries0, c2)->0;
        assert(0 <= i < entries0.len() && entries0[i].commitment == c2);
        assert(i != idx);
        assert(es1[i] == entries0[i]);
        assert(entry_index_for(es1, c2) is Some);
        let k = entry_index_for(es1, c2)->0;
        assert(0 <= k < es1.len() && es1[k].commitment == c2);
        assert(k != idx);
        assert(entries0[k].commitment == c2);
        assert(k == i);
        assert(sigs_for(post, c2) == es1[i].sigs@);
        assert(sigs_for(pre, c2) == entries0[i].sigs@);
    } else {
        assert(entry_index_for(entries0, c2) is None);
        assert forall|j: int| 0 <= j < es1.len() implies (#[trigger] es1[j]).commitment != c2 by {
            if j != idx {
                assert(es1[j] == entries0[j]);
            }
        }
        assert(entry_index_for(es1, c2) is None);
    }
}

} // verus!

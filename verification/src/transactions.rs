//! The transaction phase task: it keeps the pool of undecided transactions
//! and the seen-but-absent set in step with arriving transactions and
//! decided leaves, tracks the current view, and as leader builds the next
//! block and its dispersal.

use vstd::prelude::*;
use crate::commitment::{commitment_of, Commitment};
use crate::consensus::{find_leaf, Consensus};
use crate::crypto::{Membership, Signature};
use crate::data::{Leaf, Transaction, VidBlockPayload};
use crate::dispersal::{disperse, Proposal, VidDisperse, NUM_STORAGE_NODES};
use crate::events::HotShotEvent;
use crate::phase::view_step;
use crate::pool::{
    insert_commitment_if_absent, keep_not_included, pool_has, remove_commitment, take_included,
    TransactionPool,
};

verus! {

/// Error type for consensus tasks.
#[derive(Clone, Copy, PartialEq, Eq, Debug, Structural)]
pub struct ConsensusTaskError {}

/// The size of one transaction on the wire: its bytes behind an 8-byte
/// length.
pub open spec fn tx_encoded_size(t: Transaction) -> int {
    t.payload@.len() as int + 8
}

/// The total encoded size of a batch.
pub open spec fn total_encoded_size(s: Seq<Transaction>) -> int
    decreases s.len(),
{
    if s.len() == 0 {
        0
    } else {
        total_encoded_size(s.drop_last()) + tx_encoded_size(s.last())
    }
}

/// Relies on bincode::serialized_size: under bincode's default (fixint)
/// configuration a byte vector encodes as an 8-byte length followed by its
/// bytes, so the size is the byte count plus eight.
#[verifier::external_body]
fn encoded_size(payload: &Vec<u8>) -> (r: u64)
    requires
        payload@.len() + 8 <= u64::MAX,
    ensures
        r == payload@.len() + 8,
{
    bincode::serialized_size(payload).unwrap_or(0)
}

/// A total size is never negative.
pub proof fn lemma_total_nonneg(s: Seq<Transaction>)
    ensures
        total_encoded_size(s) >= 0,
    decreases s.len(),
{
    if s.len() > 0 {
        lemma_total_nonneg(s.drop_last());
    }
}

/// A prefix weighs no more than the whole.
pub proof fn lemma_total_take_le(s: Seq<Transaction>, j: int)
    requires
        0 <= j <= s.len(),
    ensures
        total_encoded_size(s.take(j)) <= total_encoded_size(s),
    decreases s.len() - j,
{
    if j < s.len() {
        lemma_total_take_le(s, j + 1);
        assert(s.take(j + 1).drop_last() =~= s.take(j));
        assert(s.take(j + 1).last() == s[j]);
    } else {
        assert(s.take(j) =~= s);
    }
}

/// Taking off the head takes off its size.
pub proof fn lemma_total_head(s: Seq<Transaction>)
    requires
        s.len() > 0,
    ensures
        total_encoded_size(s) == tx_encoded_size(s[0]) + total_encoded_size(s.drop_first()),
    decreases s.len(),
{
    if s.len() == 1 {
        assert(s.drop_last() =~= Seq::<Transaction>::empty());
        assert(s.drop_first() =~= Seq::<Transaction>::empty());
    } else {
        lemma_total_head(s.drop_last());
        assert(s.drop_last()[0] == s[0]);
        assert(s.drop_first().drop_last() =~= s.drop_last().drop_first());
        assert(s.drop_first().last() == s.last());
        assert(total_encoded_size(s.drop_first()) == total_encoded_size(
            s.drop_first().drop_last(),
        ) + tx_encoded_size(s.drop_first().last()));
    }
}

/// Splitting contents by a commitment set splits their total size.
pub proof fn lemma_total_split(s: Seq<Transaction>, cs: Seq<Commitment>)
    ensures
        total_encoded_size(s) == total_encoded_size(keep_not_included(s, cs))
            + total_encoded_size(take_included(s, cs)),
    decreases s.len(),
{
    if s.len() > 0 {
        lemma_total_split(s.drop_last(), cs);
        let rest_k = keep_not_included(s.drop_last(), cs);
        let rest_t = take_included(s.drop_last(), cs);
        if cs.contains(s.last().commit_spec()) {
            assert(rest_t.push(s.last()).drop_last() =~= rest_t);
            assert(total_encoded_size(rest_t.push(s.last())) == total_encoded_size(rest_t)
                + tx_encoded_size(s.last()));
        } else {
            assert(rest_k.push(s.last()).drop_last() =~= rest_k);
            assert(total_encoded_size(rest_k.push(s.last())) == total_encoded_size(rest_k)
                + tx_encoded_size(s.last()));
        }
    }
}

/// The seen-but-absent set and the pool never share a commitment.
pub open spec fn exclusive(pool_s: Seq<Transaction>, seen: Seq<Commitment>) -> bool {
    forall|k: int| 0 <= k < seen.len() ==> !pool_has(pool_s, #[trigger] seen[k])
}

/// A commitment set holds each commitment at most once.
pub open spec fn distinct_commitments(seen: Seq<Commitment>) -> bool {
    forall|i: int, j: int|
        0 <= i < seen.len() && 0 <= j < seen.len() && i != j ==> seen[i] != seen[j]
}

/// The observability metrics agree with the pool: the count and total
/// encoded size of what is outstanding.
pub open spec fn metrics_ok(c: Consensus, pool_s: Seq<Transaction>) -> bool {
    &&& c.outstanding_transactions == pool_s.len()
    &&& c.outstanding_transactions_memory_size == total_encoded_size(pool_s)
}

/// Everything the transaction task keeps true across events: a well-formed
/// pool, a duplicate-free seen set excluding everything pooled, and honest
/// metrics.
pub open spec fn task_inv(pool: TransactionPool, seen: Seq<Commitment>, c: Consensus) -> bool {
    &&& pool.wf()
    &&& distinct_commitments(seen)
    &&& exclusive(pool.entries@, seen)
    &&& metrics_ok(c, pool.entries@)
}

/// The first occurrence of `c` removed from `s`.
pub open spec fn remove_first(s: Seq<Commitment>, c: Commitment) -> Seq<Commitment>
    decreases s.len(),
{
    if s.len() == 0 {
        Seq::empty()
    } else if s[0] == c {
        s.drop_first()
    } else {
        seq![s[0]] + remove_first(s.drop_first(), c)
    }
}

/// What one arriving transaction does to the pool and the seen set: one
/// already seen as decided is struck from the seen set instead of pooled;
/// otherwise it is pooled unless its commitment is already there.
pub open spec fn recv_one(
    pool_s: Seq<Transaction>,
    seen: Seq<Commitment>,
    t: Transaction,
) -> (Seq<Transaction>, Seq<Commitment>) {
    if seen.contains(t.commit_spec()) {
        (pool_s, remove_first(seen, t.commit_spec()))
    } else if pool_has(pool_s, t.commit_spec()) {
        (pool_s, seen)
    } else {
        (pool_s.push(t), seen)
    }
}

/// A batch of arriving transactions, processed in order.
pub open spec fn recv_fold(
    pool_s: Seq<Transaction>,
    seen: Seq<Commitment>,
    txs: Seq<Transaction>,
) -> (Seq<Transaction>, Seq<Commitment>)
    decreases txs.len(),
{
    if txs.len() == 0 {
        (pool_s, seen)
    } else {
        let step = recv_one(pool_s, seen, txs[0]);
        recv_fold(step.0, step.1, txs.drop_first())
    }
}

/// State of the transaction phase task.
pub struct TransactionTaskState {
    /// View number the task is executing in.
    pub cur_view: u64,
    /// Commitments seen decided without the transaction itself arriving.
    pub seen_transactions: Vec<Commitment>,
    /// The task's handle on the membership oracle.
    pub membership: Membership,
    /// Minimum batch size the leader waits for.
    pub min_transactions: usize,
    /// The round-time budget, in milliseconds.
    pub propose_max_round_time_ms: u64,
    /// Identifier of the task.
    pub id: u64,
}

impl TransactionTaskState {
    /// Absorb a batch of arriving transactions: strike the ones already
    /// accounted as decided from the seen set, pool the rest if new, and
    /// keep the outstanding-transaction metrics honest.
    #[verifier::loop_isolation(false)]
    pub fn handle_transactions_recv(
        &mut self,
        consensus: &mut Consensus,
        pool: &mut TransactionPool,
        transactions: Vec<Transaction>,
    )
        requires
            old(consensus).wf(),
            task_inv(*old(pool), old(self).seen_transactions@, *old(consensus)),
            total_encoded_size(old(pool).entries@) + total_encoded_size(transactions@)
                <= u64::MAX,
            old(pool).entries@.len() + transactions@.len() <= u64::MAX,
            forall|i: int|
                0 <= i < transactions@.len() ==> (#[trigger] transactions@[i]).payload@.len() + 8
                    <= u64::MAX,
        ensures
            final(consensus).wf(),
            task_inv(*final(pool), final(self).seen_transactions@, *final(consensus)),
            (final(pool).entries@, final(self).seen_transactions@) == recv_fold(
                old(pool).entries@,
                old(self).seen_transactions@,
                transactions@,
            ),
            final(self).cur_view == old(self).cur_view,
            final(self).membership == old(self).membership,
            final(self).min_transactions == old(self).min_transactions,
            final(self).propose_max_round_time_ms == old(self).propose_max_round_time_ms,
            final(self).id == old(self).id,
            final(consensus).state_map@ == old(consensus).state_map@,
            final(consensus).saved_leaves@ == old(consensus).saved_leaves@,
            final(consensus).high_qc == old(consensus).high_qc,
    {
        let ghost p0 = pool.entries@;
        let ghost s0 = self.seen_transactions@;
        let ghost txs0 = transactions@;
        let mut transactions = transactions;
        let ghost mut k: int = 0;
        proof {
            lemma_total_nonneg(txs0.skip(0));
            assert(txs0.skip(0) =~= txs0);
        }
        while transactions.len() > 0
            invariant
                0 <= k <= txs0.len(),
                transactions@ == txs0.skip(k),
                (pool.entries@, self.seen_transactions@) == recv_fold(p0, s0, txs0.take(k)),
                task_inv(*pool, self.seen_transactions@, *consensus),
                consensus.wf(),
                total_encoded_size(pool.entries@) + total_encoded_size(txs0.skip(k)) <= u64::MAX,
                pool.entries@.len() + txs0.skip(k).len() <= u64::MAX,
                self.cur_view == old(self).cur_view,
                self.membership == old(self).membership,
                self.min_transactions == old(self).min_transactions,
                self.propose_max_round_time_ms == old(self).propose_max_round_time_ms,
                self.id == old(self).id,
                consensus.state_map@ == old(consensus).state_map@,
                consensus.saved_leaves@ == old(consensus).saved_leaves@,
                consensus.high_qc == old(consensus).high_qc,
            decreases txs0.len() - k,
        {
            let ghost pool_k = pool.entries@;
            let ghost seen_k = self.seen_transactions@;
            let t = transactions.remove(0);
            proof {
                assert(t == txs0[k]);
                assert(txs0.skip(k).remove(0) =~= txs0.skip(k + 1));
                assert(txs0.take(k + 1) =~= txs0.take(k).push(txs0[k]));
                lemma_recv_fold_snoc(p0, s0, txs0.take(k), txs0[k]);
                lemma_total_head(txs0.skip(k));
                lemma_total_nonneg(txs0.skip(k + 1));
                assert(txs0.skip(k)[0] == txs0[k]);
            }
            let c = t.commit();
            if remove_commitment(&mut self.seen_transactions, c) {
                // Already accounted as decided: the transaction is dropped
                // and its record struck.
                proof {
                    let i = choose|i: int|
                        0 <= i < seen_k.len() && seen_k[i] == c && (forall|j: int|
                            0 <= j < i ==> seen_k[j] != c) && self.seen_transactions@
                            == seen_k.remove(i);
                    lemma_remove_first_at(seen_k, c, i);
                    lemma_remove_first_keeps(seen_k, c);
                    assert(self.seen_transactions@ == remove_first(seen_k, c));
                    assert(seen_k.contains(c)) by {
                        assert(seen_k[i] == c);
                    }
                    assert forall|kk: int|
                        0 <= kk < self.seen_transactions@.len() implies !pool_has(
                        pool.entries@,
                        #[trigger] self.seen_transactions@[kk],
                    ) by {
                        let x = self.seen_transactions@[kk];
                        assert(remove_first(seen_k, c).contains(x)) by {
                            assert(remove_first(seen_k, c)[kk] == x);
                        }
                        assert(seen_k.contains(x));
                        let ii = choose|ii: int| 0 <= ii < seen_k.len() && seen_k[ii] == x;
                        assert(!pool_has(pool_k, seen_k[ii]));
                    }
                }
            } else {
                let size = encoded_size(&t.payload);
                if pool.insert_if_absent(t) {
                    consensus.outstanding_transactions = consensus.outstanding_transactions + 1;
                    consensus.outstanding_transactions_memory_size =
                        consensus.outstanding_transactions_memory_size + size;
                    proof {
                        assert(pool.entries@.drop_last() =~= pool_k);
                        assert forall|kk: int|
                            0 <= kk < self.seen_transactions@.len() implies !pool_has(
                            pool.entries@,
                            #[trigger] self.seen_transactions@[kk],
                        ) by {
                            assert(!seen_k.contains(txs0[k].commit_spec()));
                            assert(!pool_has(pool_k, seen_k[kk]));
                            assert forall|e: int|
                                0 <= e < pool.entries@.len() implies (
                            #[trigger] pool.entries@[e]).commit_spec() != seen_k[kk] by {
                                if e < pool_k.len() {
                                    assert(pool.entries@[e] == pool_k[e]);
                                }
                            }
                        }
                    }
                }
            }
            proof {
                k = k + 1;
            }
        }
        proof {
            assert(txs0.take(txs0.len() as int) =~= txs0);
        }
    }
}

/// Processing one more transaction continues the fold.
pub proof fn lemma_recv_fold_snoc(
    pool_s: Seq<Transaction>,
    seen: Seq<Commitment>,
    txs: Seq<Transaction>,
    t: Transaction,
)
    ensures
        recv_fold(pool_s, seen, txs.push(t)) == recv_one(
            recv_fold(pool_s, seen, txs).0,
            recv_fold(pool_s, seen, txs).1,
            t,
        ),
    decreases txs.len(),
{
    if txs.len() == 0 {
        assert(txs.push(t)[0] == t);
        assert(txs.push(t).drop_first() =~= Seq::<Transaction>::empty());
        let step = recv_one(pool_s, seen, t);
        assert(recv_fold(step.0, step.1, Seq::<Transaction>::empty()) == step);
    } else {
        let step = recv_one(pool_s, seen, txs[0]);
        lemma_recv_fold_snoc(step.0, step.1, txs.drop_first(), t);
        assert(txs.push(t)[0] == txs[0]);
        assert(txs.push(t).drop_first() =~= txs.drop_first().push(t));
    }
}

/// Removing the first occurrence is removing at the first index that holds
/// the commitment.
pub proof fn lemma_remove_first_at(s: Seq<Commitment>, c: Commitment, i: int)
    requires
        0 <= i < s.len(),
        s[i] == c,
        forall|j: int| 0 <= j < i ==> s[j] != c,
    ensures
        remove_first(s, c) == s.remove(i),
    decreases i,
{
    if i == 0 {
        assert(remove_first(s, c) == s.drop_first());
        assert(s.drop_first() =~= s.remove(0));
    } else {
        assert(s[0] != c);
        lemma_remove_first_at(s.drop_first(), c, i - 1);
        assert(s.drop_first()[i - 1] == c);
        assert(remove_first(s, c) == seq![s[0]] + s.drop_first().remove(i - 1));
        assert(seq![s[0]] + s.drop_first().remove(i - 1) =~= s.remove(i));
    }
}

/// Striking one commitment keeps the set duplicate-free, keeps every other
/// member, and removes the struck one.
pub proof fn lemma_remove_first_keeps(s: Seq<Commitment>, c: Commitment)
    requires
        distinct_commitments(s),
    ensures
        distinct_commitments(remove_first(s, c)),
        forall|x: Commitment| #[trigger]
            remove_first(s, c).contains(x) <==> (s.contains(x) && x != c),
    decreases s.len(),
{
    if s.len() > 0 {
        if s[0] == c {
            assert(remove_first(s, c) =~= s.drop_first());
            assert forall|x: Commitment| #[trigger]
                s.drop_first().contains(x) <==> (s.contains(x) && x != c) by {
                if s.drop_first().contains(x) {
                    let i = choose|i: int|
                        0 <= i < s.drop_first().len() && s.drop_first()[i] == x;
                    assert(s[i + 1] == x);
                    assert(s[i + 1] != s[0]);
                }
                if s.contains(x) && x != c {
                    let i = choose|i: int| 0 <= i < s.len() && s[i] == x;
                    assert(i != 0);
                    assert(s.drop_first()[i - 1] == x);
                }
            }
            assert forall|i: int, j: int|
                0 <= i < s.drop_first().len() && 0 <= j < s.drop_first().len() && i != j implies
                s.drop_first()[i] != s.drop_first()[j] by {
                assert(s[i + 1] != s[j + 1]);
            }
        } else {
            assert forall|i: int, j: int|
                0 <= i < s.drop_first().len() && 0 <= j < s.drop_first().len() && i != j implies
                s.drop_first()[i] != s.drop_first()[j] by {
                assert(s[i + 1] != s[j + 1]);
            }
            lemma_remove_first_keeps(s.drop_first(), c);
            let r = remove_first(s, c);
            let rr = remove_first(s.drop_first(), c);
            assert(r == seq![s[0]] + rr);
            assert(r[0] == s[0]);
            assert forall|i: int| 0 <= i < rr.len() implies r[i + 1] == rr[i] by {}
            assert forall|x: Commitment| #[trigger] r.contains(x) <==> (s.contains(x) && x != c)
                by {
                if r.contains(x) {
                    let i = choose|i: int| 0 <= i < r.len() && r[i] == x;
                    if i == 0 {
                        assert(s[0] == x);
                        assert(s.contains(x));
                        assert(x != c);
                    } else {
                        assert(rr[i - 1] == x);
                        assert(rr.contains(x));
                        assert(s.drop_first().contains(x));
                        let jj = choose|jj: int|
                            0 <= jj < s.drop_first().len() && s.drop_first()[jj] == x;
                        assert(s[jj + 1] == x);
                    }
                }
                if s.contains(x) && x != c {
                    let i = choose|i: int| 0 <= i < s.len() && s[i] == x;
                    if i == 0 {
                        assert(r[0] == x);
                    } else {
                        assert(s.drop_first()[i - 1] == x);
                        assert(s.drop_first().contains(x));
                        assert(rr.contains(x));
                        let jj = choose|jj: int| 0 <= jj < rr.len() && rr[jj] == x;
                        assert(r[jj + 1] == x);
                    }
                }
            }
            assert forall|i: int, j: int|
                0 <= i < r.len() && 0 <= j < r.len() && i != j implies r[i] != r[j] by {
                if i == 0 && j > 0 {
                    assert(r[j] == rr[j - 1]);
                    assert(rr.contains(rr[j - 1]));
                    assert(s.drop_first().contains(r[j]));
                    let jj = choose|jj: int|
                        0 <= jj < s.drop_first().len() && s.drop_first()[jj] == r[j];
                    assert(s[jj + 1] == r[j]);
                    assert(s[0] != s[jj + 1]);
                } else if j == 0 && i > 0 {
                    assert(r[i] == rr[i - 1]);
                    assert(rr.contains(rr[i - 1]));
                    assert(s.drop_first().contains(r[i]));
                    let jj = choose|jj: int|
                        0 <= jj < s.drop_first().len() && s.drop_first()[jj] == r[i];
                    assert(s[jj + 1] == r[i]);
                    assert(s[0] != s[jj + 1]);
                } else if i > 0 && j > 0 {
                    assert(r[i] == rr[i - 1] && r[j] == rr[j - 1]);
                }
            }
        }
    }
}


/// Whether `c` is the commitment of a transaction in some decided leaf's
/// payload.
pub open spec fn is_decided(leaves: Seq<Leaf>, c: Commitment) -> bool {
    exists|i: int, j: int|
        0 <= i < leaves.len() && leaves[i].block_payload is Some && 0 <= j
            < leaves[i].block_payload->0.transactions@.len()
            && (#[trigger] leaves[i].block_payload->0.transactions@[j]).commit_spec() == c
}

/// The pool contents with every decided transaction taken out; order kept.
pub open spec fn keep_not_decided(s: Seq<Transaction>, leaves: Seq<Leaf>) -> Seq<Transaction>
    decreases s.len(),
{
    if s.len() == 0 {
        Seq::empty()
    } else {
        let rest = keep_not_decided(s.drop_last(), leaves);
        if is_decided(leaves, s.last().commit_spec()) {
            rest
        } else {
            rest.push(s.last())
        }
    }
}

/// Filtering by a commitment set that names exactly the decided commitments
/// is filtering by decidedness.
pub proof fn lemma_keep_congruent(s: Seq<Transaction>, cs: Seq<Commitment>, leaves: Seq<Leaf>)
    requires
        forall|c: Commitment| #![trigger cs.contains(c)] #![trigger is_decided(leaves, c)]
            cs.contains(c) <==> is_decided(leaves, c),
    ensures
        keep_not_included(s, cs) == keep_not_decided(s, leaves),
    decreases s.len(),
{
    if s.len() > 0 {
        lemma_keep_congruent(s.drop_last(), cs, leaves);
    }
}

/// What a view change decided for the transaction phase.
#[derive(Clone, Copy, PartialEq, Eq, Debug, Structural)]
pub enum TxViewChangeAction {
    /// The named view is not past the current one: ignored.
    Stale,
    /// Advanced, but this node does not lead the next view.
    NotLeader,
    /// This node leads the next view, but the parent leaf behind the high
    /// certificate cannot be found: leader duties for this view are
    /// abandoned.
    MissingParent,
    /// This node leads the next view and the parent leaf is at hand: build
    /// and publish a proposal.
    Lead,
}

/// What the waiting loop should do next.
#[derive(Clone, Copy, PartialEq, Eq, Debug, Structural)]
pub enum WaitDecision {
    /// Enough transactions, or no time left: take the batch as it stands.
    Proceed,
    /// Too few transactions and time remains: block on the pool's change
    /// subscription for at most the carried remaining budget, in
    /// milliseconds.
    Wait(u64),
}

/// What `handle_event` decided for the transaction phase.
pub enum TxTaskAction {
    /// Nothing to do for this event.
    Ignored,
    /// The task terminates.
    ShutDown,
    /// The outcome of a view change; on `Lead` the caller gathers a batch
    /// and builds the proposal.
    ViewOutcome(TxViewChangeAction),
}

/// The payloads of a batch, flattened in order into one byte string.
pub open spec fn flatten_payloads(s: Seq<Transaction>) -> Seq<u8>
    decreases s.len(),
{
    if s.len() == 0 {
        Seq::empty()
    } else {
        flatten_payloads(s.drop_last()) + s.last().payload@
    }
}

/// Whether the ledger can produce the leaf behind the high certificate: the
/// certificate's view has a leaf entry whose leaf is retained.
pub open spec fn parent_leaf_found(c: Consensus) -> bool {
    &&& c.view_map().dom().contains(c.high_qc.view_number)
    &&& c.view_map()[c.high_qc.view_number] is LeafKnown
    &&& find_leaf(c.saved_leaves@, c.view_map()[c.high_qc.view_number]->LeafKnown_leaf) is Some
}

impl TransactionTaskState {
    /// Account a chain of decided leaves: every pooled transaction that a
    /// decided payload includes leaves the pool, decided commitments the
    /// pool never held are recorded as seen-but-absent, and the metrics
    /// follow.
    #[verifier::loop_isolation(false)]
    pub fn handle_leaf_decided(
        &mut self,
        consensus: &mut Consensus,
        pool: &mut TransactionPool,
        leaf_chain: &Vec<Leaf>,
    )
        requires
            old(consensus).wf(),
            task_inv(*old(pool), old(self).seen_transactions@, *old(consensus)),
            old(consensus).outstanding_transactions_memory_size <= u64::MAX,
        ensures
            final(consensus).wf(),
            task_inv(*final(pool), final(self).seen_transactions@, *final(consensus)),
            final(pool).entries@ == keep_not_decided(old(pool).entries@, leaf_chain@),
            forall|c: Commitment| #![trigger final(self).seen_transactions@.contains(c)]
                final(self).seen_transactions@.contains(c) <==> (
                old(self).seen_transactions@.contains(c) || (is_decided(leaf_chain@, c)
                    && !pool_has(old(pool).entries@, c))),
            final(self).cur_view == old(self).cur_view,
            final(self).membership == old(self).membership,
            final(self).min_transactions == old(self).min_transactions,
            final(self).propose_max_round_time_ms == old(self).propose_max_round_time_ms,
            final(self).id == old(self).id,
            final(consensus).state_map@ == old(consensus).state_map@,
            final(consensus).saved_leaves@ == old(consensus).saved_leaves@,
            final(consensus).high_qc == old(consensus).high_qc,
    {
        let ghost p0 = pool.entries@;
        let ghost s0 = self.seen_transactions@;
        let ghost chain = leaf_chain@;
        // Gather the union of transaction commitments across the decided
        // payloads.
        let mut included: Vec<Commitment> = Vec::new();
        let mut l: usize = 0;
        while l < leaf_chain.len()
            invariant
                l <= chain.len(),
                distinct_commitments(included@),
                forall|c: Commitment| #![trigger included@.contains(c)]
                    included@.contains(c) <==> is_decided(chain.take(l as int), c),
            decreases chain.len() - l,
        {
            let ghost lc = l as int;
            match &leaf_chain[l].block_payload {
                Some(payload) => {
                    let cs = payload.transaction_commitments();
                    let ghost csv = cs@;
                    let mut j: usize = 0;
                    while j < cs.len()
                        invariant
                            j <= csv.len(),
                            cs@ == csv,
                            csv == chain[lc].block_payload->0.transaction_commitments_spec(),
                            distinct_commitments(included@),
                            forall|c: Commitment| #![trigger included@.contains(c)]
                                included@.contains(c) <==> (is_decided(chain.take(lc), c)
                                    || csv.take(j as int).contains(c)),
                        decreases csv.len() - j,
                    {
                        let ghost inc_before = included@;
                        insert_commitment_if_absent(&mut included, cs[j]);
                        proof {
                            assert(csv.take(j + 1) =~= csv.take(j as int).push(csv[j as int]));
                            assert forall|c: Commitment| #![trigger included@.contains(c)]
                                included@.contains(c) <==> (is_decided(chain.take(lc), c)
                                    || csv.take(j + 1).contains(c)) by {
                                if included@.contains(c) {
                                    if inc_before.contains(c) {
                                    } else {
                                        assert(included@ == inc_before.push(csv[j as int]));
                                        let ii = choose|ii: int|
                                            0 <= ii < included@.len() && included@[ii] == c;
                                        if ii < inc_before.len() {
                                            assert(inc_before[ii] == c);
                                            assert(inc_before.contains(c));
                                        } else {
                                            assert(c == csv[j as int]);
                                            assert(csv.take(j + 1).last() == c);
                                            assert(csv.take(j + 1).contains(c));
                                        }
                                    }
                                }
                                if is_decided(chain.take(lc), c) {
                                    assert(inc_before.contains(c));
                                    let ii = choose|ii: int|
                                        0 <= ii < inc_before.len() && inc_before[ii] == c;
                                    assert(included@.contains(c)) by {
                                        if included@ == inc_before {
                                        } else {
                                            assert(included@[ii] == c);
                                        }
                                    }
                                }
                                if csv.take(j + 1).contains(c) {
                                    let jj = choose|jj: int|
                                        0 <= jj < csv.take(j + 1).len() && #[trigger] csv.take(
                                            j + 1,
                                        )[jj] == c;
                                    if jj < j {
                                        assert(csv.take(j as int)[jj] == c);
                                        assert(csv.take(j as int).contains(c));
                                        assert(inc_before.contains(c));
                                        let ii = choose|ii: int|
                                            0 <= ii < inc_before.len() && inc_before[ii] == c;
                                        assert(included@.contains(c)) by {
                                            if included@ == inc_before {
                                            } else {
                                                assert(included@[ii] == c);
                                            }
                                        }
                                    } else {
                                        assert(c == csv[j as int]);
                                        if inc_before.contains(c) {
                                            let ii = choose|ii: int|
                                                0 <= ii < inc_before.len() && inc_before[ii]
                                                    == c;
                                            assert(included@.contains(c)) by {
                                                if included@ == inc_before {
                                                } else {
                                                    assert(included@[ii] == c);
                                                }
                                            }
                                        } else {
                                            assert(included@ == inc_before.push(c));
                                            assert(included@.last() == c);
                                        }
                                    }
                                }
                            }
                        }
                        j = j + 1;
                    }
                    proof {
                        assert(csv.take(csv.len() as int) =~= csv);
                        lemma_decided_snoc(chain, lc, csv);
                    }
                },
                None => {
                    proof {
                        lemma_decided_snoc_none(chain, lc);
                    }
                },
            }
            l = l + 1;
        }
        proof {
            assert(chain.take(chain.len() as int) =~= chain);
        }
        // Record decided commitments the pool never held as seen-but-absent.
        let mut idx: usize = 0;
        while idx < included.len()
            invariant
                idx <= included@.len(),
                pool.entries@ == p0,
                pool.wf(),
                self.cur_view == old(self).cur_view,
                self.membership == old(self).membership,
                self.min_transactions == old(self).min_transactions,
                self.propose_max_round_time_ms == old(self).propose_max_round_time_ms,
                self.id == old(self).id,
                distinct_commitments(self.seen_transactions@),
                exclusive(p0, self.seen_transactions@),
                forall|c: Commitment| #![trigger self.seen_transactions@.contains(c)]
                    self.seen_transactions@.contains(c) <==> (s0.contains(c) || (
                    included@.take(idx as int).contains(c) && !pool_has(p0, c))),
            decreases included@.len() - idx,
        {
            let c = included[idx];
            let ghost seen_before = self.seen_transactions@;
            if !pool.contains(c) {
                insert_commitment_if_absent(&mut self.seen_transactions, c);
            }
            proof {
                assert(included@.take(idx + 1) =~= included@.take(idx as int).push(
                    included@[idx as int],
                ));
                assert forall|c2: Commitment| #![trigger self.seen_transactions@.contains(c2)]
                    self.seen_transactions@.contains(c2) <==> (s0.contains(c2) || (
                    included@.take(idx + 1).contains(c2) && !pool_has(p0, c2))) by {
                    if self.seen_transactions@.contains(c2) {
                        if seen_before.contains(c2) {
                        } else {
                            assert(self.seen_transactions@ == seen_before.push(c));
                            let ii = choose|ii: int|
                                0 <= ii < self.seen_transactions@.len()
                                    && self.seen_transactions@[ii] == c2;
                            if ii < seen_before.len() {
                                assert(seen_before[ii] == c2);
                                assert(seen_before.contains(c2));
                            } else {
                                assert(c2 == c);
                                assert(included@.take(idx + 1).last() == c);
                            }
                        }
                    }
                    if seen_before.contains(c2) {
                        let ii = choose|ii: int|
                            0 <= ii < seen_before.len() && seen_before[ii] == c2;
                        assert(self.seen_transactions@.contains(c2)) by {
                            if self.seen_transactions@ == seen_before {
                            } else {
                                assert(self.seen_transactions@[ii] == c2);
                            }
                        }
                    }
                    if included@.take(idx + 1).contains(c2) && !pool_has(p0, c2) {
                        let jj = choose|jj: int|
                            0 <= jj < included@.take(idx + 1).len() && #[trigger] included@.take(
                                idx + 1,
                            )[jj] == c2;
                        if jj < idx {
                            assert(included@.take(idx as int)[jj] == c2);
                            assert(included@.take(idx as int).contains(c2));
                            assert(seen_before.contains(c2));
                        } else {
                            assert(c2 == c);
                            if seen_before.contains(c2) {
                            } else {
                                assert(self.seen_transactions@ == seen_before.push(c));
                                assert(self.seen_transactions@.last() == c);
                            }
                        }
                    }
                }
            }
            idx = idx + 1;
        }
        proof {
            assert(included@.take(included@.len() as int) =~= included@);
        }
        // Strike the decided transactions from the pool and release their
        // share of the metrics.
        let removed = pool.retain_not_included(&included);
        let ghost removed_s = removed@;
        let mut freed: u64 = 0;
        let mut r: usize = 0;
        proof {
            lemma_total_split(p0, included@);
            lemma_total_nonneg(keep_not_included(p0, included@));
            lemma_total_nonneg(removed_s);
        }
        while r < removed.len()
            invariant
                r <= removed_s.len(),
                removed@ == removed_s,
                freed == total_encoded_size(removed_s.take(r as int)),
            decreases removed_s.len() - r,
        {
            proof {
                assert(removed_s.take(r + 1).drop_last() =~= removed_s.take(r as int));
                assert(removed_s.take(r + 1).last() == removed_s[r as int]);
                lemma_total_take_le(removed_s, r + 1);
                lemma_total_nonneg(removed_s.take(r as int));
            }
            let size = encoded_size(&removed[r].payload);
            freed = freed + size;
            r = r + 1;
        }
        proof {
            assert(removed_s.take(removed_s.len() as int) =~= removed_s);
        }
        consensus.outstanding_transactions = pool.len() as u64;
        consensus.outstanding_transactions_memory_size =
            consensus.outstanding_transactions_memory_size - freed;
        proof {
            assert forall|c: Commitment| #![trigger included@.contains(c)]
                included@.contains(c) <==> is_decided(chain, c) by {}
            lemma_keep_congruent(p0, included@, chain);
            // The shrunken pool still excludes everything seen.
            assert forall|kk: int|
                0 <= kk < self.seen_transactions@.len() implies !pool_has(
                pool.entries@,
                #[trigger] self.seen_transactions@[kk],
            ) by {
                let x = self.seen_transactions@[kk];
                assert(self.seen_transactions@.contains(x));
                if pool_has(pool.entries@, x) {
                    let e = choose|e: int|
                        0 <= e < pool.entries@.len() && (#[trigger] pool.entries@[e]).commit_spec()
                            == x;
                    crate::pool::lemma_keep_membership(p0, included@, e);
                    let orig = choose|orig: int|
                        0 <= orig < p0.len() && pool.entries@[e] == p0[orig];
                    assert(pool_has(p0, x)) by {
                        assert(p0[orig].commit_spec() == x);
                    }
                }
            }
        }
    }

    /// Track a view change; on a fresh view, say whether this node must act
    /// as leader for the next view and whether the parent leaf behind the
    /// high certificate is available for it.
    pub fn handle_view_change(&mut self, consensus: &Consensus, view: u64) -> (r:
        TxViewChangeAction)
        requires
            old(self).membership.wf(),
            consensus.wf(),
            view < u64::MAX,
        ensures
            final(self).cur_view == view_step(old(self).cur_view, view),
            final(self).seen_transactions@ == old(self).seen_transactions@,
            final(self).membership == old(self).membership,
            final(self).min_transactions == old(self).min_transactions,
            final(self).propose_max_round_time_ms == old(self).propose_max_round_time_ms,
            final(self).id == old(self).id,
            old(self).cur_view >= view ==> (r is Stale && *final(self) == *old(self)),
            (old(self).cur_view < view && old(self).membership.leader_index_spec((view + 1) as u64)
                != old(self).membership.own_index) ==> r is NotLeader,
            (old(self).cur_view < view && old(self).membership.leader_index_spec((view + 1) as u64)
                == old(self).membership.own_index && !parent_leaf_found(*consensus)) ==> r
                is MissingParent,
            (old(self).cur_view < view && old(self).membership.leader_index_spec((view + 1) as u64)
                == old(self).membership.own_index && parent_leaf_found(*consensus)) ==> r is Lead,
    {
        if self.cur_view >= view {
            return TxViewChangeAction::Stale;
        }
        self.cur_view = view;
        if !self.membership.is_leader(view + 1) {
            return TxViewChangeAction::NotLeader;
        }
        // Locate the parent leaf: the entry at the high certificate's view
        // must name a leaf that is still retained.
        let parent_view_number = consensus.high_certificate().get_view_number();
        let entry = match consensus.get_entry(parent_view_number) {
            None => {
                return TxViewChangeAction::MissingParent;
            },
            Some(entry) => entry,
        };
        let leaf_commitment = match entry.get_leaf_commitment() {
            None => {
                return TxViewChangeAction::MissingParent;
            },
            Some(c) => c,
        };
        match consensus.get_leaf(leaf_commitment) {
            None => TxViewChangeAction::MissingParent,
            Some(_) => TxViewChangeAction::Lead,
        }
    }

    /// One decision of the wait-for-transactions loop: proceed once the pool
    /// holds the minimum batch or the round-time budget is spent; otherwise
    /// wait on the pool's change subscription for the remaining budget.
    pub fn wait_for_transactions_step(&self, pool_len: usize, elapsed_ms: u64) -> (d: WaitDecision)
        ensures
            (pool_len >= self.min_transactions || elapsed_ms >= self.propose_max_round_time_ms)
                ==> d == WaitDecision::Proceed,
            (pool_len < self.min_transactions && elapsed_ms < self.propose_max_round_time_ms)
                ==> d == WaitDecision::Wait((self.propose_max_round_time_ms - elapsed_ms) as u64),
    {
        if pool_len < self.min_transactions && elapsed_ms < self.propose_max_round_time_ms {
            WaitDecision::Wait(self.propose_max_round_time_ms - elapsed_ms)
        } else {
            WaitDecision::Proceed
        }
    }

    /// Build the block and its dispersal for the next view from a batch: the
    /// payloads are flattened, committed to, split into one share per
    /// storage node, and signed over by this leader.
    #[verifier::loop_isolation(false)]
    pub fn build_proposal(&self, next_view: u64, txns: Vec<Transaction>) -> (r: (
        VidBlockPayload,
        Proposal,
    ))
        requires
            self.membership.wf(),
        ensures
            r.0.transactions@ == txns@,
            r.0.payload_commitment == commitment_of(flatten_payloads(txns@)),
            r.1.data.view_number == next_view,
            r.1.data.payload_commitment == r.0.payload_commitment,
            r.1.data.shares@.len() == NUM_STORAGE_NODES,
            forall|i: int|
                0 <= i < r.1.data.shares@.len() ==> (#[trigger] r.1.data.shares@[i]).data@
                    == flatten_payloads(txns@),
            r.1.signature == (Signature {
                signer_key: self.membership.own_key_spec(),
                data: r.0.payload_commitment,
            }),
    {
        let mut txns_flatten: Vec<u8> = Vec::new();
        let mut i: usize = 0;
        while i < txns.len()
            invariant
                i <= txns@.len(),
                txns_flatten@ == flatten_payloads(txns@.take(i as int)),
            decreases txns@.len() - i,
        {
            let payload = &txns[i].payload;
            let mut j: usize = 0;
            while j < payload.len()
                invariant
                    j <= payload@.len(),
                    i < txns@.len(),
                    payload == &txns@[i as int].payload,
                    txns_flatten@ == flatten_payloads(txns@.take(i as int)) + payload@.take(
                        j as int,
                    ),
                decreases payload@.len() - j,
            {
                txns_flatten.push(payload[j]);
                proof {
                    assert(payload@.take(j + 1) =~= payload@.take(j as int).push(
                        payload@[j as int],
                    ));
                    assert(txns_flatten@ =~= flatten_payloads(txns@.take(i as int)) + payload@.take(
                        j + 1,
                    ));
                }
                j = j + 1;
            }
            proof {
                assert(payload@.take(payload@.len() as int) =~= payload@);
                assert(txns@.take(i + 1).drop_last() =~= txns@.take(i as int));
                assert(txns@.take(i + 1).last() == txns@[i as int]);
            }
            i = i + 1;
        }
        proof {
            assert(txns@.take(txns@.len() as int) =~= txns@);
        }
        let payload_commitment = Commitment::from_bytes(&txns_flatten);
        let shares = disperse(&txns_flatten, NUM_STORAGE_NODES);
        let block = VidBlockPayload { transactions: txns, payload_commitment };
        let block_commitment = block.commit();
        let signature = self.membership.sign_payload_commitment(block_commitment);
        let proposal = Proposal {
            data: VidDisperse {
                view_number: next_view,
                payload_commitment: block_commitment,
                shares,
            },
            signature,
        };
        (block, proposal)
    }

    /// The main event handler: keep the pool, the seen set and the current
    /// view in step with the event, and say what is left for the caller —
    /// terminating on shutdown, or gathering a batch and proposing when a
    /// fresh view makes this node the next leader.
    pub fn handle_event(
        &mut self,
        consensus: &mut Consensus,
        pool: &mut TransactionPool,
        event: HotShotEvent,
    ) -> (r: TxTaskAction)
        requires
            old(self).membership.wf(),
            old(consensus).wf(),
            task_inv(*old(pool), old(self).seen_transactions@, *old(consensus)),
            event matches HotShotEvent::TransactionsRecv(txs) ==> (total_encoded_size(
                old(pool).entries@,
            ) + total_encoded_size(txs@) <= u64::MAX && old(pool).entries@.len() + txs@.len()
                <= u64::MAX && (forall|i: int|
                0 <= i < txs@.len() ==> (#[trigger] txs@[i]).payload@.len() + 8 <= u64::MAX)),
            event matches HotShotEvent::ViewChange(v) ==> v < u64::MAX,
        ensures
            final(consensus).wf(),
            task_inv(*final(pool), final(self).seen_transactions@, *final(consensus)),
            event is TransactionsRecv ==> (r is Ignored && (
            final(pool).entries@,
            final(self).seen_transactions@,
            ) == recv_fold(
                old(pool).entries@,
                old(self).seen_transactions@,
                event->TransactionsRecv_0@,
            )),
            event is LeafDecided ==> (r is Ignored && final(pool).entries@ == keep_not_decided(
                old(pool).entries@,
                event->LeafDecided_0@,
            )),
            event is ViewChange ==> (r matches TxTaskAction::ViewOutcome(a) && final(self).cur_view
                == view_step(old(self).cur_view, event->ViewChange_0) && (old(self).cur_view
                >= event->ViewChange_0 ==> a is Stale) && ((old(self).cur_view
                < event->ViewChange_0 && old(self).membership.leader_index_spec(
                ((event->ViewChange_0 + 1)) as u64,
            ) == old(self).membership.own_index && parent_leaf_found(*old(consensus))) ==> a
                is Lead) && *final(pool) == *old(pool) && *final(consensus) == *old(consensus)),
            event is Shutdown ==> (r is ShutDown && *final(self) == *old(self) && *final(pool)
                == *old(pool) && *final(consensus) == *old(consensus)),
            !(event is TransactionsRecv || event is LeafDecided || event is ViewChange || event
                is Shutdown) ==> (r is Ignored && *final(self) == *old(self) && *final(pool)
                == *old(pool) && *final(consensus) == *old(consensus)),
    {
        match event {
            HotShotEvent::TransactionsRecv(transactions) => {
                self.handle_transactions_recv(consensus, pool, transactions);
                TxTaskAction::Ignored
            },
            HotShotEvent::LeafDecided(leaf_chain) => {
                self.handle_leaf_decided(consensus, pool, &leaf_chain);
                TxTaskAction::Ignored
            },
            HotShotEvent::ViewChange(view) => {
                let a = self.handle_view_change(consensus, view);
                TxTaskAction::ViewOutcome(a)
            },
            HotShotEvent::Shutdown => TxTaskAction::ShutDown,
            _ => TxTaskAction::Ignored,
        }
    }

    /// Observability: the view the task is executing in.
    pub fn current_view(&self) -> (v: u64)
        ensures
            v == self.cur_view,
    {
        self.cur_view
    }

    /// Which events the transaction task consumes.
    pub fn filter(event: &HotShotEvent) -> (r: bool)
        ensures
            r == (event matches HotShotEvent::TransactionsRecv(_) || event matches
            HotShotEvent::LeafDecided(_) || event matches HotShotEvent::Shutdown
                || event matches HotShotEvent::ViewChange(_)),
    {
        match event {
            HotShotEvent::TransactionsRecv(_) => true,
            HotShotEvent::LeafDecided(_) => true,
            HotShotEvent::Shutdown => true,
            HotShotEvent::ViewChange(_) => true,
            _ => false,
        }
    }
}

/// Appending one leaf with a payload to the chain makes decided exactly what
/// was decided before or is committed in that payload.
proof fn lemma_decided_snoc(chain: Seq<Leaf>, l: int, csv: Seq<Commitment>)
    requires
        0 <= l < chain.len(),
        chain[l].block_payload is Some,
        csv == chain[l].block_payload->0.transaction_commitments_spec(),
    ensures
        forall|c: Commitment| #![trigger is_decided(chain.take(l + 1), c)]
            is_decided(chain.take(l + 1), c) <==> (is_decided(chain.take(l), c) || csv.contains(
                c,
            )),
{
    assert forall|c: Commitment| #![trigger is_decided(chain.take(l + 1), c)]
        is_decided(chain.take(l + 1), c) <==> (is_decided(chain.take(l), c) || csv.contains(
            c,
        )) by {
        if is_decided(chain.take(l + 1), c) {
            let (i, j) = choose|i: int, j: int|
                0 <= i < chain.take(l + 1).len() && chain.take(l + 1)[i].block_payload is Some && 0
                    <= j < chain.take(l + 1)[i].block_payload->0.transactions@.len() && (
                #[trigger] chain.take(l + 1)[i].block_payload->0.transactions@[j]).commit_spec()
                    == c;
            if i < l {
                assert(chain.take(l)[i] == chain[i]);
                assert(is_decided(chain.take(l), c)) by {
                    assert((chain.take(l)[i].block_payload->0.transactions@[j]).commit_spec()
                        == c);
                }
            } else {
                assert(chain.take(l + 1)[i] == chain[l]);
                assert(csv[j] == c);
                assert(csv.contains(c));
            }
        }
        if is_decided(chain.take(l), c) {
            let (i, j) = choose|i: int, j: int|
                0 <= i < chain.take(l).len() && chain.take(l)[i].block_payload is Some && 0 <= j
                    < chain.take(l)[i].block_payload->0.transactions@.len() && (
                #[trigger] chain.take(l)[i].block_payload->0.transactions@[j]).commit_spec() == c;
            assert(chain.take(l + 1)[i] == chain[i]);
            assert((chain.take(l + 1)[i].block_payload->0.transactions@[j]).commit_spec() == c);
        }
        if csv.contains(c) {
            let j = choose|j: int| 0 <= j < csv.len() && csv[j] == c;
            assert(chain.take(l + 1)[l] == chain[l]);
            assert((chain.take(l + 1)[l].block_payload->0.transactions@[j]).commit_spec() == c);
        }
    }
}

/// Appending one leaf without a payload decides nothing new.
proof fn lemma_decided_snoc_none(chain: Seq<Leaf>, l: int)
    requires
        0 <= l < chain.len(),
        chain[l].block_payload is None,
    ensures
        forall|c: Commitment| #![trigger is_decided(chain.take(l + 1), c)]
            is_decided(chain.take(l + 1), c) <==> is_decided(chain.take(l), c),
{
    assert forall|c: Commitment| #![trigger is_decided(chain.take(l + 1), c)]
        is_decided(chain.take(l + 1), c) <==> is_decided(chain.take(l), c) by {
        if is_decided(chain.take(l + 1), c) {
            let (i, j) = choose|i: int, j: int|
                0 <= i < chain.take(l + 1).len() && chain.take(l + 1)[i].block_payload is Some && 0
                    <= j < chain.take(l + 1)[i].block_payload->0.transactions@.len() && (
                #[trigger] chain.take(l + 1)[i].block_payload->0.transactions@[j]).commit_spec()
                    == c;
            assert(i != l);
            assert(chain.take(l)[i] == chain[i]);
            assert((chain.take(l)[i].block_payload->0.transactions@[j]).commit_spec() == c);
        }
        if is_decided(chain.take(l), c) {
            let (i, j) = choose|i: int, j: int|
                0 <= i < chain.take(l).len() && chain.take(l)[i].block_payload is Some && 0 <= j
                    < chain.take(l)[i].block_payload->0.transactions@.len() && (
                #[trigger] chain.take(l)[i].block_payload->0.transactions@[j]).commit_spec() == c;
            assert(chain.take(l + 1)[i] == chain[i]);
            assert((chain.take(l + 1)[i].block_payload->0.transactions@[j]).commit_spec() == c);
        }
    }
}

/// Processing one arriving transaction keeps the pool and the seen set
/// mutually exclusive: no commitment is ever in both.
pub proof fn lemma_recv_one_exclusive(
    pool_s: Seq<Transaction>,
    seen: Seq<Commitment>,
    t: Transaction,
)
    requires
        distinct_commitments(seen),
        exclusive(pool_s, seen),
    ensures
        distinct_commitments(recv_one(pool_s, seen, t).1),
        exclusive(recv_one(pool_s, seen, t).0, recv_one(pool_s, seen, t).1),
{
    let c = t.commit_spec();
    if seen.contains(c) {
        lemma_remove_first_keeps(seen, c);
        let seen2 = remove_first(seen, c);
        assert forall|k: int| 0 <= k < seen2.len() implies !pool_has(
            pool_s,
            #[trigger] seen2[k],
        ) by {
            assert(seen2.contains(seen2[k]));
            assert(seen.contains(seen2[k]));
            let i = choose|i: int| 0 <= i < seen.len() && seen[i] == seen2[k];
            assert(!pool_has(pool_s, seen[i]));
        }
    } else if pool_has(pool_s, c) {
    } else {
        assert forall|k: int| 0 <= k < seen.len() implies !pool_has(
            pool_s.push(t),
            #[trigger] seen[k],
        ) by {
            assert(!pool_has(pool_s, seen[k]));
            assert forall|e: int|
                0 <= e < pool_s.push(t).len() implies (#[trigger] pool_s.push(t)[e]).commit_spec()
                != seen[k] by {
                if e < pool_s.len() {
                    assert(pool_s.push(t)[e] == pool_s[e]);
                } else {
                    assert(pool_s.push(t)[e] == t);
                    assert(seen[k] != c) by {
                        if seen[k] == c {
                            assert(seen.contains(c));
                        }
                    }
                }
            }
        }
    }
}

/// Processing any batch of arriving transactions keeps the pool and the
/// seen set mutually exclusive.
pub proof fn lemma_recv_fold_exclusive(
    pool_s: Seq<Transaction>,
    seen: Seq<Commitment>,
    txs: Seq<Transaction>,
)
    requires
        distinct_commitments(seen),
        exclusive(pool_s, seen),
    ensures
        distinct_commitments(recv_fold(pool_s, seen, txs).1),
        exclusive(recv_fold(pool_s, seen, txs).0, recv_fold(pool_s, seen, txs).1),
    decreases txs.len(),
{
    if txs.len() > 0 {
        lemma_recv_one_exclusive(pool_s, seen, txs[0]);
        let step = recv_one(pool_s, seen, txs[0]);
        lemma_recv_fold_exclusive(step.0, step.1, txs.drop_first());
    }
}

/// Accounting decided leaves keeps the pool and the seen set mutually
/// exclusive: what moves to the seen set is exactly what was decided and
/// never pooled, and everything decided leaves the pool.
pub proof fn lemma_leaf_decided_exclusive(
    pool_s: Seq<Transaction>,
    seen: Seq<Commitment>,
    leaves: Seq<Leaf>,
    seen2: Seq<Commitment>,
)
    requires
        exclusive(pool_s, seen),
        forall|c: Commitment| #![trigger seen2.contains(c)]
            seen2.contains(c) <==> (seen.contains(c) || (is_decided(leaves, c) && !pool_has(
                pool_s,
                c,
            ))),
    ensures
        exclusive(keep_not_decided(pool_s, leaves), seen2),
{
    let kept = keep_not_decided(pool_s, leaves);
    assert forall|k: int| 0 <= k < seen2.len() implies !pool_has(kept, #[trigger] seen2[k]) by {
        let x = seen2[k];
        assert(seen2.contains(x));
        if pool_has(kept, x) {
            let e = choose|e: int| 0 <= e < kept.len() && (#[trigger] kept[e]).commit_spec() == x;
            lemma_keep_not_decided_membership(pool_s, leaves, e);
            let orig = choose|orig: int| 0 <= orig < pool_s.len() && kept[e] == pool_s[orig];
            assert(pool_has(pool_s, x)) by {
                assert(pool_s[orig].commit_spec() == x);
            }
            if seen.contains(x) {
                let i = choose|i: int| 0 <= i < seen.len() && seen[i] == x;
                assert(!pool_has(pool_s, seen[i]));
            } else {
                assert(is_decided(leaves, x));
                lemma_keep_not_decided_excludes(pool_s, leaves, e);
            }
        }
    }
}

/// Every element the decided-filter keeps comes from the original contents.
proof fn lemma_keep_not_decided_membership(s: Seq<Transaction>, leaves: Seq<Leaf>, j: int)
    requires
        0 <= j < keep_not_decided(s, leaves).len(),
    ensures
        exists|i: int| 0 <= i < s.len() && keep_not_decided(s, leaves)[j] == s[i],
    decreases s.len(),
{
    if s.len() > 0 {
        let rest = keep_not_decided(s.drop_last(), leaves);
        if is_decided(leaves, s.last().commit_spec()) {
            lemma_keep_not_decided_membership(s.drop_last(), leaves, j);
            let i = choose|i: int|
                0 <= i < s.drop_last().len() && keep_not_decided(s.drop_last(), leaves)[j]
                    == s.drop_last()[i];
            assert(keep_not_decided(s, leaves)[j] == s[i]);
        } else {
            if j < rest.len() {
                lemma_keep_not_decided_membership(s.drop_last(), leaves, j);
                let i = choose|i: int|
                    0 <= i < s.drop_last().len() && keep_not_decided(s.drop_last(), leaves)[j]
                        == s.drop_last()[i];
                assert(keep_not_decided(s, leaves)[j] == s[i]);
            } else {
                assert(keep_not_decided(s, leaves)[j] == s[s.len() - 1]);
            }
        }
    }
}

/// Nothing the decided-filter keeps is decided.
proof fn lemma_keep_not_decided_excludes(s: Seq<Transaction>, leaves: Seq<Leaf>, j: int)
    requires
        0 <= j < keep_not_decided(s, leaves).len(),
    ensures
        !is_decided(leaves, keep_not_decided(s, leaves)[j].commit_spec()),
    decreases s.len(),
{
    if s.len() > 0 {
        let rest = keep_not_decided(s.drop_last(), leaves);
        if is_decided(leaves, s.last().commit_spec()) {
            lemma_keep_not_decided_excludes(s.drop_last(), leaves, j);
        } else {
            if j < rest.len() {
                lemma_keep_not_decided_excludes(s.drop_last(), leaves, j);
            }
        }
    }
}

} // verus!


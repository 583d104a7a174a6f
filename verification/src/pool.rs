//! The transaction pool: not-yet-included transactions keyed by commitment,
//! in insertion order, together with helpers for commitment sets.
//!
//! Callers share the pool across tasks under a single-writer discipline with
//! a change subscription; the structure here is the plain data under that
//! lock.

use vstd::prelude::*;
use crate::commitment::Commitment;
use crate::data::Transaction;

verus! {

/// Whether a transaction with commitment `c` is in the pool contents `s`.
pub open spec fn pool_has(s: Seq<Transaction>, c: Commitment) -> bool {
    exists|i: int| 0 <= i < s.len() && (#[trigger] s[i]).commit_spec() == c
}

/// The pool contents with every transaction whose commitment is in `cs`
/// taken out; order is kept.
pub open spec fn keep_not_included(s: Seq<Transaction>, cs: Seq<Commitment>) -> Seq<Transaction>
    decreases s.len(),
{
    if s.len() == 0 {
        Seq::empty()
    } else {
        let rest = keep_not_included(s.drop_last(), cs);
        if cs.contains(s.last().commit_spec()) {
            rest
        } else {
            rest.push(s.last())
        }
    }
}

/// The transactions of `s` whose commitment is in `cs`, in pool order.
pub open spec fn take_included(s: Seq<Transaction>, cs: Seq<Commitment>) -> Seq<Transaction>
    decreases s.len(),
{
    if s.len() == 0 {
        Seq::empty()
    } else {
        let rest = take_included(s.drop_last(), cs);
        if cs.contains(s.last().commit_spec()) {
            rest.push(s.last())
        } else {
            rest
        }
    }
}

/// The payload bytes of each transaction, in order.
pub open spec fn payloads_of(s: Seq<Transaction>) -> Seq<Seq<u8>> {
    Seq::new(s.len(), |i: int| s[i].payload@)
}

/// A commitment-keyed mapping of undecided transactions, in insertion order.
pub struct TransactionPool {
    /// The pooled transactions; each commitment appears at most once.
    pub entries: Vec<Transaction>,
}

impl TransactionPool {
    /// Each commitment appears at most once.
    pub open spec fn wf(self) -> bool {
        forall|i: int, j: int|
            0 <= i < self.entries@.len() && 0 <= j < self.entries@.len() && i != j
                ==> (#[trigger] self.entries@[i]).commit_spec()
                != (#[trigger] self.entries@[j]).commit_spec()
    }

    /// An empty pool.
    pub fn new() -> (p: TransactionPool)
        ensures
            p.wf(),
            p.entries@.len() == 0,
    {
        TransactionPool { entries: Vec::new() }
    }

    /// Number of pooled transactions.
    pub fn len(&self) -> (n: usize)
        ensures
            n == self.entries@.len(),
    {
        self.entries.len()
    }

    /// Whether a transaction with commitment `c` is pooled.
    #[verifier::loop_isolation(false)]
    pub fn contains(&self, c: Commitment) -> (r: bool)
        ensures
            r == pool_has(self.entries@, c),
    {
        let mut i: usize = 0;
        while i < self.entries.len()
            invariant
                i <= self.entries@.len(),
                forall|j: int| 0 <= j < i ==> (#[trigger] self.entries@[j]).commit_spec() != c,
            decreases self.entries@.len() - i,
        {
            if self.entries[i].commit() == c {
                return true;
            }
            i = i + 1;
        }
        false
    }

    /// Insert a transaction unless one with the same commitment is already
    /// pooled; say whether it went in.
    pub fn insert_if_absent(&mut self, tx: Transaction) -> (inserted: bool)
        requires
            old(self).wf(),
        ensures
            final(self).wf(),
            inserted == !pool_has(old(self).entries@, tx.commit_spec()),
            inserted ==> final(self).entries@ == old(self).entries@.push(tx),
            !inserted ==> final(self).entries@ == old(self).entries@,
    {
        let c = tx.commit();
        if self.contains(c) {
            return false;
        }
        self.entries.push(tx);
        true
    }

    /// A snapshot of the pooled transactions, in insertion order: the same
    /// pool contents always yield the same batch.
    #[verifier::loop_isolation(false)]
    pub fn values(&self) -> (r: Vec<Transaction>)
        ensures
            payloads_of(r@) == payloads_of(self.entries@),
    {
        let mut r: Vec<Transaction> = Vec::new();
        let mut i: usize = 0;
        while i < self.entries.len()
            invariant
                i <= self.entries@.len(),
                r@.len() == i,
                forall|j: int| 0 <= j < i ==> (#[trigger] r@[j]).payload@
                    == self.entries@[j].payload@,
            decreases self.entries@.len() - i,
        {
            r.push(self.entries[i].duplicate());
            i = i + 1;
        }
        proof {
            assert(payloads_of(r@) =~= payloads_of(self.entries@));
        }
        r
    }

    /// Remove every transaction whose commitment is in `included`, keeping
    /// the order of the rest; return the removed transactions in pool order.
    #[verifier::loop_isolation(false)]
    pub fn retain_not_included(&mut self, included: &Vec<Commitment>) -> (removed: Vec<Transaction>)
        requires
            old(self).wf(),
        ensures
            final(self).wf(),
            final(self).entries@ == keep_not_included(old(self).entries@, included@),
            removed@ == take_included(old(self).entries@, included@),
    {
        let ghost s0 = self.entries@;
        let mut kept: Vec<Transaction> = Vec::new();
        let mut removed: Vec<Transaction> = Vec::new();
        let ghost mut k: int = 0;
        while self.entries.len() > 0
            invariant
                0 <= k <= s0.len(),
                self.entries@ == s0.skip(k),
                kept@ == keep_not_included(s0.take(k), included@),
                removed@ == take_included(s0.take(k), included@),
            decreases s0.len() - k,
        {
            let tx = self.entries.remove(0);
            proof {
                assert(tx == s0[k]);
                assert(s0.skip(k).remove(0) =~= s0.skip(k + 1));
                assert(s0.take(k + 1).drop_last() =~= s0.take(k));
                assert(s0.take(k + 1).last() == s0[k]);
            }
            let c = tx.commit();
            if commitments_contain(included, c) {
                removed.push(tx);
            } else {
                kept.push(tx);
            }
            proof {
                k = k + 1;
            }
        }
        proof {
            assert(s0.take(s0.len() as int) =~= s0);
            lemma_keep_not_included_wf(s0, included@);
        }
        self.entries = kept;
        removed
    }
}

/// Every element the filter keeps comes from the original contents.
pub proof fn lemma_keep_membership(s: Seq<Transaction>, cs: Seq<Commitment>, j: int)
    requires
        0 <= j < keep_not_included(s, cs).len(),
    ensures
        exists|i: int| 0 <= i < s.len() && keep_not_included(s, cs)[j] == s[i],
    decreases s.len(),
{
    if s.len() > 0 {
        let rest = keep_not_included(s.drop_last(), cs);
        if cs.contains(s.last().commit_spec()) {
            lemma_keep_membership(s.drop_last(), cs, j);
            let i = choose|i: int|
                0 <= i < s.drop_last().len() && keep_not_included(s.drop_last(), cs)[j]
                    == s.drop_last()[i];
            assert(keep_not_included(s, cs)[j] == s[i]);
        } else {
            if j < rest.len() {
                lemma_keep_membership(s.drop_last(), cs, j);
                let i = choose|i: int|
                    0 <= i < s.drop_last().len() && keep_not_included(s.drop_last(), cs)[j]
                        == s.drop_last()[i];
                assert(keep_not_included(s, cs)[j] == s[i]);
            } else {
                assert(keep_not_included(s, cs)[j] == s[s.len() - 1]);
            }
        }
    }
}

/// Filtering contents with distinct commitments leaves distinct commitments.
pub proof fn lemma_keep_not_included_wf(s: Seq<Transaction>, cs: Seq<Commitment>)
    requires
        forall|i: int, j: int|
            0 <= i < s.len() && 0 <= j < s.len() && i != j ==> (#[trigger] s[i]).commit_spec()
                != (#[trigger] s[j]).commit_spec(),
    ensures
        forall|i: int, j: int|
            0 <= i < keep_not_included(s, cs).len() && 0 <= j < keep_not_included(s, cs).len() && i
                != j ==> (#[trigger] keep_not_included(s, cs)[i]).commit_spec()
                != (#[trigger] keep_not_included(s, cs)[j]).commit_spec(),
    decreases s.len(),
{
    if s.len() > 0 {
        lemma_keep_not_included_wf(s.drop_last(), cs);
        let rest = keep_not_included(s.drop_last(), cs);
        if !cs.contains(s.last().commit_spec()) {
            assert forall|i: int, j: int|
                0 <= i < keep_not_included(s, cs).len() && 0 <= j < keep_not_included(
                    s,
                    cs,
                ).len() && i != j implies (#[trigger] keep_not_included(s, cs)[i]).commit_spec()
                != (#[trigger] keep_not_included(s, cs)[j]).commit_spec() by {
                if i < rest.len() && j < rest.len() {
                    assert(keep_not_included(s, cs)[i] == rest[i]);
                    assert(keep_not_included(s, cs)[j] == rest[j]);
                } else if i < rest.len() {
                    lemma_keep_membership(s.drop_last(), cs, i);
                    let a = choose|a: int|
                        0 <= a < s.drop_last().len() && rest[i] == s.drop_last()[a];
                    assert(s[a].commit_spec() != s[s.len() - 1].commit_spec());
                } else {
                    lemma_keep_membership(s.drop_last(), cs, j);
                    let a = choose|a: int|
                        0 <= a < s.drop_last().len() && rest[j] == s.drop_last()[a];
                    assert(s[a].commit_spec() != s[s.len() - 1].commit_spec());
                }
            }
        }
    }
}

/// Whether `cs` holds `c`.
#[verifier::loop_isolation(false)]
pub fn commitments_contain(cs: &Vec<Commitment>, c: Commitment) -> (r: bool)
    ensures
        r == cs@.contains(c),
{
    let mut i: usize = 0;
    while i < cs.len()
        invariant
            i <= cs@.len(),
            forall|j: int| 0 <= j < i ==> cs@[j] != c,
        decreases cs@.len() - i,
    {
        if cs[i] == c {
            return true;
        }
        i = i + 1;
    }
    false
}

/// Add `c` to the set `cs` unless it is already there; say whether it went
/// in.
pub fn insert_commitment_if_absent(cs: &mut Vec<Commitment>, c: Commitment) -> (inserted: bool)
    ensures
        inserted == !old(cs)@.contains(c),
        inserted ==> final(cs)@ == old(cs)@.push(c),
        !inserted ==> final(cs)@ == old(cs)@,
{
    if commitments_contain(cs, c) {
        return false;
    }
    cs.push(c);
    true
}

/// Remove the first occurrence of `c` from `cs`; say whether it was there.
#[verifier::loop_isolation(false)]
pub fn remove_commitment(cs: &mut Vec<Commitment>, c: Commitment) -> (removed: bool)
    ensures
        removed == old(cs)@.contains(c),
        !removed ==> final(cs)@ == old(cs)@,
        removed ==> exists|i: int|
            0 <= i < old(cs)@.len() && old(cs)@[i] == c && (forall|j: int|
                0 <= j < i ==> old(cs)@[j] != c) && final(cs)@ == old(cs)@.remove(i),
{
    let ghost s0 = cs@;
    let mut i: usize = 0;
    while i < cs.len()
        invariant
            cs@ == s0,
            i <= s0.len(),
            forall|j: int| 0 <= j < i ==> s0[j] != c,
        decreases s0.len() - i,
    {
        if cs[i] == c {
            cs.remove(i);
            return true;
        }
        i = i + 1;
    }
    false
}

} // verus!

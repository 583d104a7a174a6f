//! The shared consensus ledger state: per-view progress entries, retained
//! leaves for parent lookups, the highest certificate seen, and the
//! outstanding-transaction metrics.
//!
//! Callers guard a value of this type with an exclusive-writer /
//! shared-reader lock; every operation here is a short, non-blocking
//! critical section over plain data.

use vstd::prelude::*;
use crate::certificate::SimpleCertificate;
use crate::commitment::Commitment;
use crate::data::Leaf;

verus! {

/// Per-view progress: either only a data commitment is known (dispersal
/// bookkeeping), or the full decided/extending leaf is known.
#[derive(Clone, Copy, PartialEq, Eq, Debug, Structural)]
pub enum Entry {
    /// Only the payload commitment for this view is known.
    DataOnly {
        /// The payload commitment.
        block: Commitment,
    },
    /// The full leaf for this view is known, by its commitment.
    LeafKnown {
        /// The leaf commitment.
        leaf: Commitment,
    },
}

impl Entry {
    /// How much an entry knows: a leaf entry is strictly richer than a
    /// data-only entry.
    pub open spec fn rank(self) -> int {
        match self {
            Entry::DataOnly { .. } => 0,
            Entry::LeafKnown { .. } => 1,
        }
    }

    /// The leaf commitment behind this entry, if it holds one.
    pub fn get_leaf_commitment(&self) -> (r: Option<Commitment>)
        ensures
            r == (match *self {
                Entry::DataOnly { .. } => None::<Commitment>,
                Entry::LeafKnown { leaf } => Some(leaf),
            }),
    {
        match self {
            Entry::DataOnly { .. } => None,
            Entry::LeafKnown { leaf } => Some(*leaf),
        }
    }
}

/// The view map as a mathematical map.
pub open spec fn entries_map(s: Seq<(u64, Entry)>) -> Map<u64, Entry>
    decreases s.len(),
{
    if s.len() == 0 {
        Map::empty()
    } else {
        entries_map(s.drop_last()).insert(s.last().0, s.last().1)
    }
}

/// What `insert_if_absent_or_richer` does to the view map: insert when the
/// view is absent or the new entry is strictly richer; otherwise keep what is
/// there.  A leaf entry is never downgraded.
pub open spec fn upsert_spec(m: Map<u64, Entry>, view: u64, e: Entry) -> Map<u64, Entry> {
    if !m.dom().contains(view) {
        m.insert(view, e)
    } else if e.rank() > m[view].rank() {
        m.insert(view, e)
    } else {
        m
    }
}

/// Where `c` appears among the saved leaves.
pub open spec fn find_leaf(s: Seq<Leaf>, c: Commitment) -> Option<int> {
    if exists|i: int| 0 <= i < s.len() && (#[trigger] s[i]).leaf_commitment == c {
        Some(choose|i: int| 0 <= i < s.len() && (#[trigger] s[i]).leaf_commitment == c)
    } else {
        None
    }
}

/// The consensus ledger state.
pub struct Consensus {
    /// Per-view progress entries.
    pub state_map: Vec<(u64, Entry)>,
    /// Every leaf retained for parent lookups, keyed by leaf commitment.
    pub saved_leaves: Vec<Leaf>,
    /// The certificate for the highest view observed so far.
    pub high_qc: SimpleCertificate,
    /// Number of transactions waiting in the pool.
    pub outstanding_transactions: u64,
    /// Total encoded size of the transactions waiting in the pool.
    pub outstanding_transactions_memory_size: u64,
}

impl Consensus {
    /// Well-formedness: each view and each leaf commitment appears at most
    /// once.
    pub open spec fn wf(self) -> bool {
        &&& forall|i: int, j: int|
            0 <= i < self.state_map@.len() && 0 <= j < self.state_map@.len() && i != j
                ==> (#[trigger] self.state_map@[i]).0 != (#[trigger] self.state_map@[j]).0
        &&& forall|i: int, j: int|
            0 <= i < self.saved_leaves@.len() && 0 <= j < self.saved_leaves@.len() && i != j
                ==> (#[trigger] self.saved_leaves@[i]).leaf_commitment
                != (#[trigger] self.saved_leaves@[j]).leaf_commitment
    }

    /// The view map this ledger denotes.
    pub open spec fn view_map(self) -> Map<u64, Entry> {
        entries_map(self.state_map@)
    }

    /// Look up the progress entry for a view.
    #[verifier::loop_isolation(false)]
    pub fn get_entry(&self, view: u64) -> (r: Option<Entry>)
        requires
            self.wf(),
        ensures
            self.view_map().dom().contains(view) ==> r == Some(self.view_map()[view]),
            !self.view_map().dom().contains(view) ==> r is None,
    {
        let mut i: usize = 0;
        while i < self.state_map.len()
            invariant
                i <= self.state_map@.len(),
                forall|j: int| 0 <= j < i ==> (#[trigger] self.state_map@[j]).0 != view,
            decreases self.state_map@.len() - i,
        {
            if self.state_map[i].0 == view {
                proof {
                    lemma_entries_map_index(self.state_map@, i as int);
                }
                return Some(self.state_map[i].1);
            }
            i = i + 1;
        }
        proof {
            lemma_entries_map_absent(self.state_map@, view);
        }
        None
    }

    /// Record progress for a view: insert when the view is absent or the new
    /// entry is strictly richer than the recorded one; never downgrade a leaf
    /// entry to a data-only entry.
    #[verifier::loop_isolation(false)]
    pub fn insert_if_absent_or_richer(&mut self, view: u64, entry: Entry)
        requires
            old(self).wf(),
        ensures
            final(self).wf(),
            final(self).view_map() == upsert_spec(old(self).view_map(), view, entry),
            final(self).saved_leaves@ == old(self).saved_leaves@,
            final(self).high_qc == old(self).high_qc,
            final(self).outstanding_transactions == old(self).outstanding_transactions,
            final(self).outstanding_transactions_memory_size == old(
                self,
            ).outstanding_transactions_memory_size,
    {
        let ghost s0 = self.state_map@;
        let mut i: usize = 0;
        while i < self.state_map.len()
            invariant
                self.state_map@ == s0,
                self.saved_leaves@ == old(self).saved_leaves@,
                self.high_qc == old(self).high_qc,
                self.outstanding_transactions == old(self).outstanding_transactions,
                self.outstanding_transactions_memory_size == old(
                    self,
                ).outstanding_transactions_memory_size,
                i <= s0.len(),
                forall|j: int| 0 <= j < i ==> (#[trigger] s0[j]).0 != view,
            decreases s0.len() - i,
        {
            if self.state_map[i].0 == view {
                proof {
                    lemma_entries_map_index(s0, i as int);
                }
                let richer = match (&entry, &self.state_map[i].1) {
                    (Entry::LeafKnown { .. }, Entry::DataOnly { .. }) => true,
                    _ => false,
                };
                if richer {
                    self.state_map.set(i, (view, entry));
                    proof {
                        lemma_entries_map_update(s0, i as int, (view, entry));
                    }
                }
                return ;
            }
            i = i + 1;
        }
        proof {
            lemma_entries_map_absent(s0, view);
            assert(s0.push((view, entry)).drop_last() =~= s0);
            assert(s0.push((view, entry)).last() == (view, entry));
        }
        self.state_map.push((view, entry));
        proof {
            let s1 = self.state_map@;
            assert forall|k: int, l: int|
                0 <= k < s1.len() && 0 <= l < s1.len() && k != l implies (#[trigger] s1[k]).0
                != (#[trigger] s1[l]).0 by {
                if k < s0.len() && l < s0.len() {
                    assert(s0[k].0 != s0[l].0);
                }
            }
        }
    }

    /// Look up a retained leaf by its commitment.
    #[verifier::loop_isolation(false)]
    pub fn get_leaf(&self, c: Commitment) -> (r: Option<&Leaf>)
        requires
            self.wf(),
        ensures
            (r matches Some(l) && find_leaf(self.saved_leaves@, c) matches Some(i) && *l
                == self.saved_leaves@[i]) || (r is None && find_leaf(self.saved_leaves@, c) is None),
    {
        let mut i: usize = 0;
        while i < self.saved_leaves.len()
            invariant
                i <= self.saved_leaves@.len(),
                forall|j: int| 0 <= j < i ==> (#[trigger] self.saved_leaves@[j]).leaf_commitment != c,
            decreases self.saved_leaves@.len() - i,
        {
            if self.saved_leaves[i].leaf_commitment == c {
                return Some(&self.saved_leaves[i]);
            }
            i = i + 1;
        }
        None
    }

    /// The certificate for the highest view seen so far.
    pub fn high_certificate(&self) -> (r: &SimpleCertificate)
        ensures
            r == &self.high_qc,
    {
        &self.high_qc
    }

    /// Observability: how many transactions are waiting in the pool.
    pub fn get_outstanding_transactions(&self) -> (n: u64)
        ensures
            n == self.outstanding_transactions,
    {
        self.outstanding_transactions
    }

    /// Observability: the total encoded size of the waiting transactions.
    pub fn get_outstanding_transactions_memory_size(&self) -> (n: u64)
        ensures
            n == self.outstanding_transactions_memory_size,
    {
        self.outstanding_transactions_memory_size
    }
}

/// With distinct views, the map agrees with any list position.
pub proof fn lemma_entries_map_index(s: Seq<(u64, Entry)>, i: int)
    requires
        0 <= i < s.len(),
        forall|k: int, l: int|
            0 <= k < s.len() && 0 <= l < s.len() && k != l ==> (#[trigger] s[k]).0
                != (#[trigger] s[l]).0,
    ensures
        entries_map(s).dom().contains(s[i].0),
        entries_map(s)[s[i].0] == s[i].1,
    decreases s.len(),
{
    if i == s.len() - 1 {
    } else {
        lemma_entries_map_index(s.drop_last(), i);
    }
}

/// A view on no list position is not in the map.
pub proof fn lemma_entries_map_absent(s: Seq<(u64, Entry)>, view: u64)
    requires
        forall|k: int| 0 <= k < s.len() ==> (#[trigger] s[k]).0 != view,
    ensures
        !entries_map(s).dom().contains(view),
    decreases s.len(),
{
    if s.len() > 0 {
        lemma_entries_map_absent(s.drop_last(), view);
    }
}

/// Overwriting position `i` with a pair for the same view updates the map at
/// that view alone.
pub proof fn lemma_entries_map_update(s: Seq<(u64, Entry)>, i: int, p: (u64, Entry))
    requires
        0 <= i < s.len(),
        s[i].0 == p.0,
        forall|k: int, l: int|
            0 <= k < s.len() && 0 <= l < s.len() && k != l ==> (#[trigger] s[k]).0
                != (#[trigger] s[l]).0,
    ensures
        entries_map(s.update(i, p)) == entries_map(s).insert(p.0, p.1),
    decreases s.len(),
{
    let t = s.update(i, p);
    if i == s.len() - 1 {
        assert(t.drop_last() =~= s.drop_last());
        assert(entries_map(t) =~= entries_map(s).insert(p.0, p.1));
    } else {
        lemma_entries_map_update(s.drop_last(), i, p);
        assert(t.drop_last() =~= s.drop_last().update(i, p));
        assert(t.last() == s.last());
        assert(entries_map(t) =~= entries_map(s).insert(p.0, p.1));
    }
}

/// Recording the same data-only entry twice, or any entry twice, is the same
/// as recording it once; and a recorded leaf entry survives a later data-only
/// entry for the same view.
pub proof fn lemma_upsert_idempotent(m: Map<u64, Entry>, view: u64, e: Entry)
    ensures
        upsert_spec(upsert_spec(m, view, e), view, e) == upsert_spec(m, view, e),
{
    let m1 = upsert_spec(m, view, e);
    assert(m1.dom().contains(view));
    assert(upsert_spec(m1, view, e) =~= m1);
}

/// A leaf entry dominates: after a leaf entry is recorded for a view, a
/// data-only entry for the same view leaves the ledger unchanged.
pub proof fn lemma_leaf_entry_dominates(m: Map<u64, Entry>, view: u64, leaf: Entry, data: Entry)
    requires
        leaf is LeafKnown,
        data is DataOnly,
    ensures
        upsert_spec(upsert_spec(m, view, leaf), view, data) == upsert_spec(m, view, leaf),
{
    let m1 = upsert_spec(m, view, leaf);
    if m.dom().contains(view) && m[view].rank() >= leaf.rank() {
        assert(m1 == m);
        assert(m[view] is LeafKnown);
        assert(upsert_spec(m1, view, data) =~= m1);
    } else {
        assert(m1 == m.insert(view, leaf));
        assert(m1[view] == leaf);
        assert(upsert_spec(m1, view, data) =~= m1);
    }
}

} // verus!

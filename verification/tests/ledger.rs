use viewsync::certificate::SimpleCertificate;
use viewsync::commitment::Commitment;
use viewsync::consensus::{Consensus, Entry};
use viewsync::data::Leaf;

fn empty_consensus() -> Consensus {
    Consensus {
        state_map: Vec::new(),
        saved_leaves: Vec::new(),
        high_qc: SimpleCertificate::genesis(),
        outstanding_transactions: 0,
        outstanding_transactions_memory_size: 0,
    }
}

#[test]
fn get_entry_on_empty_ledger_is_none() {
    let c = empty_consensus();
    assert!(c.get_entry(3).is_none());
}

#[test]
fn insert_then_get_entry() {
    let mut c = empty_consensus();
    c.insert_if_absent_or_richer(4, Entry::DataOnly { block: Commitment { val: 9 } });
    match c.get_entry(4) {
        Some(Entry::DataOnly { block }) => assert_eq!(block, Commitment { val: 9 }),
        _ => panic!("expected the data-only entry"),
    }
    assert!(c.get_entry(5).is_none());
}

#[test]
fn insert_data_only_twice_is_idempotent() {
    let mut c = empty_consensus();
    let e = Entry::DataOnly { block: Commitment { val: 7 } };
    c.insert_if_absent_or_richer(2, e);
    c.insert_if_absent_or_richer(2, e);
    assert_eq!(c.state_map.len(), 1);
    match c.get_entry(2) {
        Some(Entry::DataOnly { block }) => assert_eq!(block, Commitment { val: 7 }),
        _ => panic!("expected the data-only entry"),
    }
}

#[test]
fn leaf_entry_is_never_downgraded() {
    let mut c = empty_consensus();
    c.insert_if_absent_or_richer(2, Entry::LeafKnown { leaf: Commitment { val: 1 } });
    c.insert_if_absent_or_richer(2, Entry::DataOnly { block: Commitment { val: 99 } });
    match c.get_entry(2) {
        Some(Entry::LeafKnown { leaf }) => assert_eq!(leaf, Commitment { val: 1 }),
        _ => panic!("the leaf entry must survive a data-only insert"),
    }
}

#[test]
fn data_only_entry_is_upgraded_to_leaf() {
    let mut c = empty_consensus();
    c.insert_if_absent_or_richer(2, Entry::DataOnly { block: Commitment { val: 99 } });
    c.insert_if_absent_or_richer(2, Entry::LeafKnown { leaf: Commitment { val: 1 } });
    match c.get_entry(2) {
        Some(Entry::LeafKnown { leaf }) => assert_eq!(leaf, Commitment { val: 1 }),
        _ => panic!("the data-only entry must be upgraded"),
    }
}

#[test]
fn get_leaf_finds_a_saved_leaf() {
    let mut c = empty_consensus();
    c.saved_leaves.push(Leaf {
        view_number: 1,
        leaf_commitment: Commitment { val: 11 },
        parent_commitment: Commitment { val: 0 },
        block_payload: None,
    });
    assert!(c.get_leaf(Commitment { val: 11 }).is_some());
    assert!(c.get_leaf(Commitment { val: 12 }).is_none());
}

#[test]
fn high_certificate_is_the_stored_one() {
    let c = empty_consensus();
    assert_eq!(c.high_certificate().get_view_number(), 0);
    assert!(c.high_certificate().is_genesis);
}

#[test]
fn entry_leaf_commitment_accessor() {
    let data = Entry::DataOnly { block: Commitment { val: 5 } };
    let leaf = Entry::LeafKnown { leaf: Commitment { val: 6 } };
    assert!(data.get_leaf_commitment().is_none());
    assert_eq!(leaf.get_leaf_commitment(), Some(Commitment { val: 6 }));
}

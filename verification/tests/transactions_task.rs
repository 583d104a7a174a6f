use viewsync::certificate::SimpleCertificate;
use viewsync::commitment::Commitment;
use viewsync::consensus::{Consensus, Entry};
use viewsync::crypto::Membership;
use viewsync::data::{Leaf, Transaction, VidBlockPayload};
use viewsync::pool::TransactionPool;
use viewsync::events::HotShotEvent;
use viewsync::transactions::{
    TransactionTaskState, TxTaskAction, TxViewChangeAction, WaitDecision,
};

fn membership_leader_everywhere() -> Membership {
    Membership {
        nodes: vec![100],
        own_index: 0,
        success_threshold: 1,
        vote_eligible: vec![true],
    }
}

fn empty_consensus() -> Consensus {
    Consensus {
        state_map: Vec::new(),
        saved_leaves: Vec::new(),
        high_qc: SimpleCertificate::genesis(),
        outstanding_transactions: 0,
        outstanding_transactions_memory_size: 0,
    }
}

fn tx_task(min_transactions: usize, max_round_ms: u64) -> TransactionTaskState {
    TransactionTaskState {
        cur_view: 0,
        seen_transactions: Vec::new(),
        membership: membership_leader_everywhere(),
        min_transactions,
        propose_max_round_time_ms: max_round_ms,
        id: 3,
    }
}

fn tx(bytes: &[u8]) -> Transaction {
    Transaction { payload: bytes.to_vec() }
}

#[test]
fn arriving_transactions_are_pooled_once_and_metered() {
    let mut task = tx_task(1, 100);
    let mut pool = TransactionPool::new();
    let mut consensus = empty_consensus();
    task.handle_transactions_recv(
        &mut consensus,
        &mut pool,
        vec![tx(&[1, 2]), tx(&[3]), tx(&[1, 2])],
    );
    // The repeated transaction is pooled once.
    assert_eq!(pool.len(), 2);
    assert_eq!(consensus.outstanding_transactions, 2);
    // Sizes: (2 bytes + 8) + (1 byte + 8).
    assert_eq!(consensus.outstanding_transactions_memory_size, 19);
}

#[test]
fn seen_transaction_is_struck_instead_of_pooled() {
    let mut task = tx_task(1, 100);
    let mut pool = TransactionPool::new();
    let mut consensus = empty_consensus();
    let t = tx(&[9, 9, 9]);
    task.seen_transactions.push(t.commit());
    task.handle_transactions_recv(&mut consensus, &mut pool, vec![t]);
    // The arrival cancels the seen record; nothing is pooled.
    assert_eq!(pool.len(), 0);
    assert!(task.seen_transactions.is_empty());
    assert_eq!(consensus.outstanding_transactions, 0);
}

fn leaf_with(payload_txs: Vec<Transaction>) -> Leaf {
    let payload = VidBlockPayload {
        transactions: payload_txs,
        payload_commitment: Commitment { val: 1 },
    };
    Leaf {
        view_number: 1,
        leaf_commitment: Commitment { val: 2 },
        parent_commitment: Commitment { val: 0 },
        block_payload: Some(payload),
    }
}

#[test]
fn decided_transactions_leave_the_pool_and_absent_ones_are_recorded() {
    let mut task = tx_task(1, 100);
    let mut pool = TransactionPool::new();
    let mut consensus = empty_consensus();
    let pooled = tx(&[1]);
    let absent = tx(&[2, 2]);
    let unrelated = tx(&[3, 3, 3]);
    task.handle_transactions_recv(
        &mut consensus,
        &mut pool,
        vec![pooled.duplicate(), unrelated.duplicate()],
    );
    let chain = vec![leaf_with(vec![pooled.duplicate(), absent.duplicate()])];
    task.handle_leaf_decided(&mut consensus, &mut pool, &chain);
    // The pooled decided transaction left; the unrelated one stays.
    assert_eq!(pool.len(), 1);
    assert!(pool.contains(unrelated.commit()));
    assert!(!pool.contains(pooled.commit()));
    // The decided transaction this node never held is seen-but-absent.
    assert!(task.seen_transactions.contains(&absent.commit()));
    assert!(!task.seen_transactions.contains(&pooled.commit()));
    // Metrics follow: only the 3-byte transaction is left (3 + 8).
    assert_eq!(consensus.outstanding_transactions, 1);
    assert_eq!(consensus.outstanding_transactions_memory_size, 11);
}

#[test]
fn pool_and_seen_set_never_share_a_commitment() {
    let mut task = tx_task(1, 100);
    let mut pool = TransactionPool::new();
    let mut consensus = empty_consensus();
    let a = tx(&[1]);
    let b = tx(&[2, 2]);
    // b is decided while absent, then arrives, then a arrives and is decided.
    let chain = vec![leaf_with(vec![b.duplicate()])];
    task.handle_leaf_decided(&mut consensus, &mut pool, &chain);
    for step in 0..3 {
        match step {
            0 => task.handle_transactions_recv(
                &mut consensus,
                &mut pool,
                vec![b.duplicate()],
            ),
            1 => task.handle_transactions_recv(
                &mut consensus,
                &mut pool,
                vec![a.duplicate()],
            ),
            _ => {
                let chain2 = vec![leaf_with(vec![a.duplicate()])];
                task.handle_leaf_decided(&mut consensus, &mut pool, &chain2);
            }
        }
        for seen in task.seen_transactions.iter() {
            assert!(!pool.contains(*seen), "a commitment must never be in both");
        }
    }
}

#[test]
fn leader_happy_path_builds_block_and_signed_dispersal() {
    // Single-node membership: this node leads every view, view 5 included.
    let mut task = tx_task(2, 100);
    let mut pool = TransactionPool::new();
    let mut consensus = empty_consensus();
    // The parent leaf behind the (genesis) high certificate must be at hand.
    let genesis_leaf_commitment = Commitment { val: 0 };
    consensus.insert_if_absent_or_richer(
        0,
        Entry::LeafKnown { leaf: genesis_leaf_commitment },
    );
    consensus.saved_leaves.push(Leaf {
        view_number: 0,
        leaf_commitment: genesis_leaf_commitment,
        parent_commitment: genesis_leaf_commitment,
        block_payload: None,
    });
    // Two transactions arrive, then the view changes to 5.
    task.handle_transactions_recv(&mut consensus, &mut pool, vec![tx(&[1]), tx(&[2, 3])]);
    let outcome = task.handle_view_change(&consensus, 5);
    assert_eq!(outcome, TxViewChangeAction::Lead);
    // The pool holds the minimum of two: no waiting needed.
    assert_eq!(task.wait_for_transactions_step(pool.len(), 0), WaitDecision::Proceed);
    let batch = pool.values();
    assert_eq!(batch.len(), 2);
    let (block, proposal) = task.build_proposal(6, batch);
    // One payload-ready block carrying both transactions...
    assert_eq!(block.transactions.len(), 2);
    assert_eq!(block.transactions[0].payload, vec![1]);
    assert_eq!(block.transactions[1].payload, vec![2, 3]);
    // ...and one dispersal signed over that block's commitment.
    assert_eq!(proposal.data.view_number, 6);
    assert_eq!(proposal.data.payload_commitment, block.commit());
    assert_eq!(proposal.signature.signer_key, 100);
    assert_eq!(proposal.signature.data, block.commit());
    assert_eq!(proposal.data.shares.len(), 8);
}

#[test]
fn timeout_fallback_returns_what_is_available() {
    // Minimum is 10, only 3 are pooled, and the round-time budget expired.
    let mut task = tx_task(10, 50);
    let mut pool = TransactionPool::new();
    let mut consensus = empty_consensus();
    task.handle_transactions_recv(
        &mut consensus,
        &mut pool,
        vec![tx(&[1]), tx(&[2]), tx(&[3])],
    );
    assert_eq!(
        task.wait_for_transactions_step(pool.len(), 10),
        WaitDecision::Wait(40),
    );
    assert_eq!(task.wait_for_transactions_step(pool.len(), 50), WaitDecision::Proceed);
    let batch = pool.values();
    assert_eq!(batch.len(), 3);
}

#[test]
fn stale_view_change_never_triggers_leader_logic() {
    let mut task = tx_task(1, 100);
    let consensus = empty_consensus();
    task.cur_view = 7;
    assert_eq!(task.handle_view_change(&consensus, 7), TxViewChangeAction::Stale);
    assert_eq!(task.handle_view_change(&consensus, 3), TxViewChangeAction::Stale);
    assert_eq!(task.cur_view, 7);
}

#[test]
fn missing_parent_aborts_leader_duties() {
    let mut task = tx_task(1, 100);
    let consensus = empty_consensus();
    // Leader for the next view, but the ledger has no entry for the high
    // certificate's view.
    assert_eq!(task.handle_view_change(&consensus, 5), TxViewChangeAction::MissingParent);
    assert_eq!(task.cur_view, 5);
}

#[test]
fn transaction_filter_selects_the_consumed_events() {
    assert!(TransactionTaskState::filter(&HotShotEvent::TransactionsRecv(Vec::new())));
    assert!(TransactionTaskState::filter(&HotShotEvent::LeafDecided(Vec::new())));
    assert!(TransactionTaskState::filter(&HotShotEvent::Shutdown));
    assert!(TransactionTaskState::filter(&HotShotEvent::ViewChange(1)));
    assert!(!TransactionTaskState::filter(&HotShotEvent::VidVoteSend(
        viewsync::vote::VidVote {
            signature: viewsync::crypto::Signature {
                signer_key: 1,
                data: Commitment { val: 1 },
            },
            current_view: 1,
            payload_commitment: Commitment { val: 1 },
            vote_token: viewsync::crypto::VoteToken { signer_index: 0, view: 1 },
        }
    )));
}

#[test]
fn tx_handle_event_routes_each_event_kind() {
    let mut task = tx_task(1, 100);
    let mut pool = TransactionPool::new();
    let mut consensus = empty_consensus();
    match task.handle_event(
        &mut consensus,
        &mut pool,
        HotShotEvent::TransactionsRecv(vec![tx(&[5])]),
    ) {
        TxTaskAction::Ignored => {}
        _ => panic!("arriving transactions are absorbed without further action"),
    }
    assert_eq!(pool.len(), 1);
    match task.handle_event(&mut consensus, &mut pool, HotShotEvent::ViewChange(2)) {
        TxTaskAction::ViewOutcome(TxViewChangeAction::MissingParent) => {}
        other => panic!("expected leader duties to abort on a missing parent, got a different outcome: {:?}", matches!(other, TxTaskAction::ShutDown)),
    }
    match task.handle_event(&mut consensus, &mut pool, HotShotEvent::Shutdown) {
        TxTaskAction::ShutDown => {}
        _ => panic!("shutdown must terminate the task"),
    }
}

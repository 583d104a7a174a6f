use viewsync::certificate::SimpleCertificate;
use viewsync::commitment::Commitment;
use viewsync::consensus::{Consensus, Entry};
use viewsync::crypto::{Membership, Signature, VoteToken};
use viewsync::dispersal::{Proposal, VidDisperse};
use viewsync::events::{ConsensusIntentEvent, HotShotEvent};
use viewsync::vid::{DisperseAction, VIDTaskState, VidTaskAction, VidVoteAction};
use viewsync::vote::VidVote;

fn membership_leader_everywhere() -> Membership {
    // One node: it leads every view and is always eligible.
    Membership {
        nodes: vec![100],
        own_index: 0,
        success_threshold: 1,
        vote_eligible: vec![true],
    }
}

fn membership_of_three(own_index: usize) -> Membership {
    Membership {
        nodes: vec![100, 200, 300],
        own_index,
        success_threshold: 2,
        vote_eligible: vec![true, true, true],
    }
}

fn empty_consensus() -> Consensus {
    Consensus {
        state_map: Vec::new(),
        saved_leaves: Vec::new(),
        high_qc: SimpleCertificate::genesis(),
        outstanding_transactions: 0,
        outstanding_transactions_memory_size: 0,
    }
}

fn vid_task(m: Membership, cur_view: u64) -> VIDTaskState {
    VIDTaskState { cur_view, membership: m, vote_collector: None, id: 7 }
}

fn vote_by(m: &Membership, index: usize, view: u64, c: Commitment) -> VidVote {
    VidVote {
        signature: Signature { signer_key: m.nodes[index], data: c },
        current_view: view,
        payload_commitment: c,
        vote_token: VoteToken { signer_index: index, view },
    }
}

fn proposal_for(view: u64, c: Commitment, signer_key: u64) -> Proposal {
    Proposal {
        data: VidDisperse { view_number: view, payload_commitment: c, shares: Vec::new() },
        signature: Signature { signer_key, data: c },
    }
}

#[test]
fn vote_for_a_view_this_node_does_not_lead_is_discarded() {
    let m = membership_of_three(0);
    // Views are led round-robin; view 1 is led by index 1, not this node.
    let mut task = vid_task(m, 0);
    let vote = vote_by(&task.membership.duplicate(), 1, 1, Commitment { val: 4 });
    match task.handle_vote_recv(vote, 10, 11) {
        VidVoteAction::NotLeader => {}
        _ => panic!("a vote for a view this node does not lead must be discarded"),
    }
    assert!(task.vote_collector.is_none());
}

#[test]
fn first_vote_spawns_a_collector() {
    let m = membership_leader_everywhere();
    let mut task = vid_task(m, 0);
    let mcopy = task.membership.duplicate();
    let vote = vote_by(&mcopy, 0, 5, Commitment { val: 4 });
    match task.handle_vote_recv(vote, 10, 11) {
        VidVoteAction::Spawn { cancel_task, step } => {
            assert!(cancel_task.is_none());
            assert_eq!(step.state.cur_view, 5);
            // Threshold one: the first vote already certifies.
            assert!(step.publish.is_some());
        }
        _ => panic!("the first vote must spawn a collector"),
    }
    assert_eq!(task.vote_collector, Some((5, 10, 11)));
}

#[test]
fn newer_vote_supersedes_the_collector() {
    let m = membership_leader_everywhere();
    let mut task = vid_task(m, 0);
    let mcopy = task.membership.duplicate();
    let _ = task.handle_vote_recv(vote_by(&mcopy, 0, 5, Commitment { val: 4 }), 10, 11);
    match task.handle_vote_recv(vote_by(&mcopy, 0, 6, Commitment { val: 5 }), 12, 13) {
        VidVoteAction::Spawn { cancel_task, .. } => assert_eq!(cancel_task, Some(10)),
        _ => panic!("a newer vote must supersede the collector"),
    }
    assert_eq!(task.vote_collector, Some((6, 12, 13)));
}

#[test]
fn vote_for_the_collector_view_is_forwarded_and_older_dropped() {
    let m = membership_leader_everywhere();
    let mut task = vid_task(m, 0);
    let mcopy = task.membership.duplicate();
    let _ = task.handle_vote_recv(vote_by(&mcopy, 0, 5, Commitment { val: 4 }), 10, 11);
    match task.handle_vote_recv(vote_by(&mcopy, 0, 5, Commitment { val: 4 }), 12, 13) {
        VidVoteAction::Forward(stream) => assert_eq!(stream, 11),
        _ => panic!("a vote for the live collector's view must be forwarded"),
    }
    match task.handle_vote_recv(vote_by(&mcopy, 0, 4, Commitment { val: 4 }), 14, 15) {
        VidVoteAction::Stale => {}
        _ => panic!("a vote older than the live collector must be dropped"),
    }
    assert_eq!(task.vote_collector, Some((5, 10, 11)));
}

#[test]
fn stale_disperse_is_dropped_without_a_trace() {
    // DisperseReceived for view 3 arrives while the current view is 6.
    let m = membership_leader_everywhere();
    let task = vid_task(m, 6);
    let mut consensus = empty_consensus();
    let p = proposal_for(3, Commitment { val: 4 }, 100);
    match task.handle_disperse_recv(&mut consensus, &p, 100) {
        DisperseAction::StaleDrop => {}
        _ => panic!("a disperse more than one view old must be dropped"),
    }
    assert!(consensus.state_map.is_empty());
}

#[test]
fn disperse_from_the_wrong_sender_is_dropped() {
    let m = membership_of_three(0);
    let task = vid_task(m, 0);
    let mut consensus = empty_consensus();
    // View 1 is led by key 200; the sender claims otherwise.
    let p = proposal_for(1, Commitment { val: 4 }, 200);
    match task.handle_disperse_recv(&mut consensus, &p, 300) {
        DisperseAction::WrongLeader => {}
        _ => panic!("a disperse not from its view's leader must be dropped"),
    }
    assert!(consensus.state_map.is_empty());
}

#[test]
fn disperse_with_a_bad_signature_is_dropped() {
    let m = membership_of_three(0);
    let task = vid_task(m, 0);
    let mut consensus = empty_consensus();
    let mut p = proposal_for(1, Commitment { val: 4 }, 200);
    p.signature = Signature { signer_key: 200, data: Commitment { val: 5 } };
    match task.handle_disperse_recv(&mut consensus, &p, 200) {
        DisperseAction::InvalidSignature => {}
        _ => panic!("a disperse whose signature fails must be dropped"),
    }
    assert!(consensus.state_map.is_empty());
}

#[test]
fn valid_disperse_votes_and_records_the_view() {
    let m = membership_of_three(0);
    let task = vid_task(m, 0);
    let mut consensus = empty_consensus();
    let c = Commitment { val: 4 };
    let p = proposal_for(1, c, 200);
    match task.handle_disperse_recv(&mut consensus, &p, 200) {
        DisperseAction::Vote(vote) => {
            assert_eq!(vote.current_view, 1);
            assert_eq!(vote.payload_commitment, c);
            assert_eq!(vote.signature.signer_key, 100);
            assert_eq!(vote.vote_token.signer_index, 0);
        }
        _ => panic!("a valid disperse must produce a vote"),
    }
    match consensus.get_entry(1) {
        Some(Entry::DataOnly { block }) => assert_eq!(block, c),
        _ => panic!("the disperse must be recorded as a data-only entry"),
    }
}

#[test]
fn valid_disperse_without_eligibility_still_records_the_view() {
    let mut m = membership_of_three(0);
    m.vote_eligible[0] = false;
    let task = vid_task(m, 0);
    let mut consensus = empty_consensus();
    let c = Commitment { val: 4 };
    let p = proposal_for(1, c, 200);
    match task.handle_disperse_recv(&mut consensus, &p, 200) {
        DisperseAction::NotChosen => {}
        _ => panic!("an ineligible node must not vote"),
    }
    match consensus.get_entry(1) {
        Some(Entry::DataOnly { block }) => assert_eq!(block, c),
        _ => panic!("the ledger must be updated regardless of voting"),
    }
}

#[test]
fn disperse_never_overwrites_a_leaf_entry() {
    let m = membership_of_three(0);
    let task = vid_task(m, 0);
    let mut consensus = empty_consensus();
    consensus.insert_if_absent_or_richer(1, Entry::LeafKnown { leaf: Commitment { val: 9 } });
    let p = proposal_for(1, Commitment { val: 4 }, 200);
    let _ = task.handle_disperse_recv(&mut consensus, &p, 200);
    match consensus.get_entry(1) {
        Some(Entry::LeafKnown { leaf }) => assert_eq!(leaf, Commitment { val: 9 }),
        _ => panic!("the leaf entry must survive"),
    }
}

#[test]
fn stale_view_change_is_ignored() {
    let m = membership_leader_everywhere();
    let mut task = vid_task(m, 6);
    let intents = task.handle_view_change(6);
    assert!(intents.is_empty());
    assert_eq!(task.cur_view, 6);
    let intents = task.handle_view_change(2);
    assert!(intents.is_empty());
    assert_eq!(task.cur_view, 6);
}

#[test]
fn fresh_view_change_polls_for_the_next_view() {
    let m = membership_leader_everywhere();
    let mut task = vid_task(m, 4);
    let intents = task.handle_view_change(5);
    assert_eq!(task.cur_view, 5);
    assert_eq!(
        intents,
        vec![
            ConsensusIntentEvent::PollForVIDDisperse(6),
            ConsensusIntentEvent::PollForVIDCertificate(6),
            ConsensusIntentEvent::PollForVIDVotes(6),
        ]
    );
}

#[test]
fn non_leader_view_change_skips_vote_polling() {
    let m = membership_of_three(0);
    // View 5 is next after 4; view 5's leader is index 5 % 3 == 2.
    let mut task = vid_task(m, 3);
    let intents = task.handle_view_change(4);
    assert_eq!(
        intents,
        vec![
            ConsensusIntentEvent::PollForVIDDisperse(5),
            ConsensusIntentEvent::PollForVIDCertificate(5),
        ]
    );
}

#[test]
fn accepted_views_increase_monotonically() {
    let m = membership_leader_everywhere();
    let mut task = vid_task(m, 0);
    let mut last = task.cur_view;
    for v in [3u64, 1, 5, 5, 2, 8] {
        let _ = task.handle_view_change(v);
        assert!(task.cur_view >= last);
        last = task.cur_view;
    }
    assert_eq!(task.cur_view, 8);
}

#[test]
fn vid_filter_selects_the_consumed_events() {
    assert!(VIDTaskState::filter(&HotShotEvent::Shutdown));
    assert!(VIDTaskState::filter(&HotShotEvent::ViewChange(1)));
    assert!(VIDTaskState::filter(&HotShotEvent::VidCertRecv(SimpleCertificate::genesis())));
    assert!(!VIDTaskState::filter(&HotShotEvent::TransactionsRecv(Vec::new())));
    assert!(!VIDTaskState::filter(&HotShotEvent::LeafDecided(Vec::new())));
}

#[test]
fn cert_recv_is_a_no_op() {
    let m = membership_leader_everywhere();
    let task = vid_task(m, 3);
    task.handle_cert_recv(&SimpleCertificate::genesis());
    assert_eq!(task.cur_view, 3);
}

#[test]
fn vid_handle_event_routes_each_event_kind() {
    let m = membership_leader_everywhere();
    let mut task = vid_task(m, 4);
    let mut consensus = empty_consensus();
    match task.handle_event(&mut consensus, HotShotEvent::ViewChange(5), 1, 2) {
        VidTaskAction::Intents(intents) => assert_eq!(intents.len(), 3),
        _ => panic!("a view change must yield polling intents"),
    }
    match task.handle_event(&mut consensus, HotShotEvent::Shutdown, 1, 2) {
        VidTaskAction::ShutDown => {}
        _ => panic!("shutdown must terminate the task"),
    }
    match task.handle_event(
        &mut consensus,
        HotShotEvent::VidCertRecv(SimpleCertificate::genesis()),
        1,
        2,
    ) {
        VidTaskAction::Ignored => {}
        _ => panic!("a received certificate is deliberately ignored"),
    }
}

use viewsync::commitment::Commitment;
use viewsync::crypto::{Membership, Signature, VoteToken};
use viewsync::events::{ConsensusIntentEvent, HotShotEvent, HotShotTaskCompleted};
use viewsync::vid::{vote_handle, VIDVoteCollectionTaskState};
use viewsync::vote::{AccumulateResult, VidVote, VoteAccumulator};

fn membership_of_three() -> Membership {
    Membership {
        nodes: vec![100, 200, 300],
        own_index: 0,
        success_threshold: 2,
        vote_eligible: vec![true, true, true],
    }
}

fn vote_by(m: &Membership, index: usize, view: u64, c: Commitment) -> VidVote {
    VidVote {
        signature: Signature { signer_key: m.nodes[index], data: c },
        current_view: view,
        payload_commitment: c,
        vote_token: VoteToken { signer_index: index, view },
    }
}

fn fresh_collector(view: u64) -> VIDVoteCollectionTaskState {
    let m = membership_of_three();
    let acc = VoteAccumulator::new(&m);
    VIDVoteCollectionTaskState {
        membership: m,
        accumulator: AccumulateResult::Accumulating(acc),
        cur_view: view,
        id: 1,
    }
}

#[test]
fn collector_reaches_threshold_and_publishes_once() {
    let m = membership_of_three();
    let c = Commitment { val: 77 };
    let state = fresh_collector(9);
    let step1 = vote_handle(state, HotShotEvent::VidVoteRecv(vote_by(&m, 0, 9, c)));
    assert!(step1.publish.is_none());
    assert!(step1.completed.is_none());
    let step2 = vote_handle(step1.state, HotShotEvent::VidVoteRecv(vote_by(&m, 1, 9, c)));
    match &step2.publish {
        Some(HotShotEvent::VidCertSend(cert, key)) => {
            assert_eq!(*key, 100);
            assert_eq!(cert.view_number, 9);
            let sigs = cert.signatures.as_ref().unwrap();
            assert_eq!(sigs.len(), 2);
        }
        _ => panic!("reaching the threshold must publish the certificate"),
    }
    assert_eq!(step2.cancel_poll, Some(ConsensusIntentEvent::CancelPollForVIDVotes(9)));
    assert_eq!(step2.completed, Some(HotShotTaskCompleted::ShutDown));
}

#[test]
fn late_vote_after_certification_changes_nothing() {
    let m = membership_of_three();
    let c = Commitment { val: 77 };
    let state = fresh_collector(9);
    let step1 = vote_handle(state, HotShotEvent::VidVoteRecv(vote_by(&m, 0, 9, c)));
    let step2 = vote_handle(step1.state, HotShotEvent::VidVoteRecv(vote_by(&m, 1, 9, c)));
    assert!(step2.publish.is_some());
    let signers_before: Vec<u64> = match &step2.state.accumulator {
        AccumulateResult::Certified(cert) => cert
            .signatures
            .as_ref()
            .unwrap()
            .iter()
            .map(|s| s.signer_key)
            .collect(),
        _ => panic!("the collector must hold its certificate"),
    };
    // A tenth-man vote arrives after the certificate formed.
    let step3 = vote_handle(step2.state, HotShotEvent::VidVoteRecv(vote_by(&m, 2, 9, c)));
    assert!(step3.publish.is_none());
    assert!(step3.completed.is_none());
    assert!(step3.cancel_poll.is_none());
    match &step3.state.accumulator {
        AccumulateResult::Certified(cert) => {
            let signers_after: Vec<u64> = cert
                .signatures
                .as_ref()
                .unwrap()
                .iter()
                .map(|s| s.signer_key)
                .collect();
            assert_eq!(signers_before, signers_after);
        }
        _ => panic!("the collector must stay certified"),
    }
}

#[test]
fn non_vote_event_is_ignored_by_the_collector() {
    let state = fresh_collector(4);
    let step = vote_handle(state, HotShotEvent::ViewChange(5));
    assert!(step.publish.is_none());
    assert!(step.completed.is_none());
    assert_eq!(step.state.cur_view, 4);
}

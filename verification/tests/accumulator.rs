use viewsync::commitment::Commitment;
use viewsync::crypto::{Membership, Signature, VoteToken};
use viewsync::vote::{AccumulateResult, VidVote, VoteAccumulator};

fn membership_of_three() -> Membership {
    Membership {
        nodes: vec![100, 200, 300],
        own_index: 0,
        success_threshold: 2,
        vote_eligible: vec![true, true, true],
    }
}

fn vote_by(m: &Membership, index: usize, view: u64, c: Commitment) -> VidVote {
    VidVote {
        signature: Signature { signer_key: m.nodes[index], data: c },
        current_view: view,
        payload_commitment: c,
        vote_token: VoteToken { signer_index: index, view },
    }
}

#[test]
fn one_vote_is_below_a_threshold_of_two() {
    let m = membership_of_three();
    let c = Commitment { val: 42 };
    let acc = VoteAccumulator::new(&m);
    match acc.accumulate(&m, &vote_by(&m, 0, 9, c), c) {
        AccumulateResult::Accumulating(_) => {}
        AccumulateResult::Certified(_) => panic!("one vote must not certify at threshold two"),
    }
}

#[test]
fn threshold_votes_form_a_certificate_with_both_signers() {
    let m = membership_of_three();
    let c = Commitment { val: 42 };
    let acc = VoteAccumulator::new(&m);
    let acc = match acc.accumulate(&m, &vote_by(&m, 0, 9, c), c) {
        AccumulateResult::Accumulating(a) => a,
        AccumulateResult::Certified(_) => panic!("early certificate"),
    };
    match acc.accumulate(&m, &vote_by(&m, 1, 9, c), c) {
        AccumulateResult::Accumulating(_) => panic!("two votes must certify at threshold two"),
        AccumulateResult::Certified(cert) => {
            assert_eq!(cert.view_number, 9);
            assert_eq!(cert.data, c);
            assert!(!cert.is_genesis);
            let sigs = cert.signatures.as_ref().expect("a formed certificate carries signatures");
            assert_eq!(sigs.len(), 2);
            assert_eq!(sigs[0].signer_key, 100);
            assert_eq!(sigs[1].signer_key, 200);
            assert!(cert.is_valid_cert(&m));
        }
    }
}

#[test]
fn duplicate_signer_is_ignored() {
    let m = membership_of_three();
    let c = Commitment { val: 42 };
    let acc = VoteAccumulator::new(&m);
    let acc = match acc.accumulate(&m, &vote_by(&m, 0, 9, c), c) {
        AccumulateResult::Accumulating(a) => a,
        AccumulateResult::Certified(_) => panic!("early certificate"),
    };
    match acc.accumulate(&m, &vote_by(&m, 0, 9, c), c) {
        AccumulateResult::Accumulating(a) => {
            assert_eq!(a.vote_outcomes[0].sigs.len(), 1);
        }
        AccumulateResult::Certified(_) => panic!("a repeated signer must not count twice"),
    }
}

#[test]
fn inconsistent_vote_changes_nothing() {
    let m = membership_of_three();
    let c = Commitment { val: 42 };
    let acc = VoteAccumulator::new(&m);
    // The signature names a key that does not match the token's index.
    let bad = VidVote {
        signature: Signature { signer_key: 300, data: c },
        current_view: 9,
        payload_commitment: c,
        vote_token: VoteToken { signer_index: 0, view: 9 },
    };
    match acc.accumulate(&m, &bad, c) {
        AccumulateResult::Accumulating(a) => assert_eq!(a.vote_outcomes.len(), 0),
        AccumulateResult::Certified(_) => panic!("an invalid vote must not certify"),
    }
}

#[test]
fn threshold_of_one_certifies_at_once() {
    let m = Membership {
        nodes: vec![100],
        own_index: 0,
        success_threshold: 1,
        vote_eligible: vec![true],
    };
    let c = Commitment { val: 5 };
    let acc = VoteAccumulator::new(&m);
    match acc.accumulate(&m, &vote_by(&m, 0, 3, c), c) {
        AccumulateResult::Certified(cert) => {
            assert_eq!(cert.view_number, 3);
            assert!(cert.is_valid_cert(&m));
        }
        AccumulateResult::Accumulating(_) => panic!("threshold one must certify on one vote"),
    }
}

#[test]
fn genesis_certificate_is_valid_only_a_priori() {
    let m = membership_of_three();
    let genesis = viewsync::certificate::SimpleCertificate::genesis();
    assert!(genesis.is_valid_cert(&m));
    assert!(genesis.signatures.is_none());
    assert_eq!(genesis.get_view_number(), 0);
}

#[test]
fn unsigned_non_genesis_certificate_is_invalid() {
    let m = membership_of_three();
    let mut cert = viewsync::certificate::SimpleCertificate::genesis();
    cert.is_genesis = false;
    assert!(!cert.is_valid_cert(&m));
}

#[test]
fn certificate_below_threshold_is_invalid() {
    let m = membership_of_three();
    let c = Commitment { val: 1 };
    let cert = viewsync::certificate::SimpleCertificate::create_signed_certificate(
        c,
        c,
        vec![Signature { signer_key: 100, data: c }],
        4,
    );
    assert!(!cert.is_valid_cert(&m));
}

#[test]
fn certificate_with_foreign_signer_is_invalid() {
    let m = membership_of_three();
    let c = Commitment { val: 1 };
    let cert = viewsync::certificate::SimpleCertificate::create_signed_certificate(
        c,
        c,
        vec![
            Signature { signer_key: 100, data: c },
            Signature { signer_key: 999, data: c },
        ],
        4,
    );
    assert!(!cert.is_valid_cert(&m));
}

#[test]
fn certificate_accessors() {
    let c = Commitment { val: 8 };
    let v = Commitment { val: 9 };
    let cert = viewsync::certificate::SimpleCertificate::create_signed_certificate(
        v,
        c,
        Vec::new(),
        6,
    );
    assert_eq!(cert.get_data(), c);
    assert_eq!(cert.get_data_commitment(), v);
    assert_eq!(cert.get_view_number(), 6);
    let m = membership_of_three();
    assert_eq!(viewsync::certificate::SimpleCertificate::threshold(&m), 2);
    let copy = cert.duplicate();
    assert_eq!(copy.get_data(), c);
    assert_eq!(copy.get_view_number(), 6);
}

#[test]
fn votes_for_different_commitments_accumulate_independently() {
    let m = membership_of_three();
    let c1 = Commitment { val: 1 };
    let c2 = Commitment { val: 2 };
    let acc = VoteAccumulator::new(&m);
    let acc = match acc.accumulate(&m, &vote_by(&m, 0, 9, c1), c1) {
        AccumulateResult::Accumulating(a) => a,
        AccumulateResult::Certified(_) => panic!("early certificate"),
    };
    // A vote for a different commitment must not certify the first one.
    match acc.accumulate(&m, &vote_by(&m, 1, 9, c2), c2) {
        AccumulateResult::Accumulating(a) => {
            assert_eq!(a.vote_outcomes.len(), 2);
            assert_eq!(a.vote_outcomes[0].sigs.len(), 1);
            assert_eq!(a.vote_outcomes[1].sigs.len(), 1);
        }
        AccumulateResult::Certified(_) => {
            panic!("votes on different commitments must not combine")
        }
    }
}

use std::str::FromStr;
use viewsync::commitment::Commitment;
use viewsync::network_config::{MeshParams, NetworkNodeType};
use viewsync::state::{ConsensusTime, DummyState, State, TestableBlock, TestableState, ViewNumber};

#[test]
fn node_type_parses_its_three_names() {
    assert_eq!(NetworkNodeType::from_str("Conductor"), Ok(NetworkNodeType::Conductor));
    assert_eq!(NetworkNodeType::from_str("Regular"), Ok(NetworkNodeType::Regular));
    assert_eq!(NetworkNodeType::from_str("Bootstrap"), Ok(NetworkNodeType::Bootstrap));
    assert!(NetworkNodeType::from_str("other").is_err());
}

#[test]
fn node_type_defaults_to_bootstrap() {
    assert_eq!(NetworkNodeType::default(), NetworkNodeType::Bootstrap);
}

#[test]
fn mesh_params_default_shape() {
    let p = MeshParams::default();
    assert_eq!(p.mesh_n_high, 15);
    assert_eq!(p.mesh_n_low, 8);
    assert_eq!(p.mesh_outbound_min, 4);
    assert_eq!(p.mesh_n, 12);
    assert!(p.mesh_outbound_min <= p.mesh_n_low);
    assert!(p.mesh_n_low <= p.mesh_n && p.mesh_n <= p.mesh_n_high);
    assert!(p.mesh_outbound_min <= p.mesh_n / 2);
}

#[test]
fn view_number_counts_time() {
    let t = ViewNumber::new(9);
    assert_eq!(t.get_u64(), 9);
    assert_eq!(ViewNumber::genesis().get_u64(), 0);
    assert!(ViewNumber::new(1) < ViewNumber::new(2));
}

#[test]
fn dummy_state_lifecycle() {
    let s = DummyState::initialize();
    let header = viewsync::state::VidBlockHeader {
        block_number: 1,
        payload_commitment: Commitment { val: 1 },
    };
    assert!(!s.validate_block(&header, &ViewNumber::new(1)));
    let s2 = s.append(&header, &ViewNumber::new(1)).expect("append succeeds");
    assert_ne!(s.commit(), s2.commit());
    s2.on_commit();
    assert_eq!(DummyState::tag(), "DUMMY_STATE");
    assert_eq!(DummyState::default().commit(), Commitment { val: 0 });
}

#[test]
fn dummy_state_random_uses_the_drawn_nonce() {
    let a = DummyState::random(17);
    let b = DummyState::random(17);
    assert_eq!(a, b);
    assert_eq!(a.commit(), Commitment { val: 17 });
}

#[test]
fn dummy_transaction_is_one_zero_byte() {
    let t = DummyState::create_random_transaction(None, 64);
    assert_eq!(t.payload, vec![0u8]);
}

#[test]
fn dummy_error_says_what_happened() {
    let e = viewsync::state::DummyError;
    assert_eq!(e.message(), "A bad thing happened");
}

#[test]
fn genesis_block_is_empty() {
    let b = <viewsync::data::VidBlockPayload as TestableBlock>::genesis();
    assert_eq!(b.txn_count(), 0);
}

#[test]
fn commitment_is_content_derived_and_deterministic() {
    let a = Commitment::from_bytes(&vec![1, 2, 3]);
    let b = Commitment::from_bytes(&vec![1, 2, 3]);
    let c = Commitment::from_bytes(&vec![1, 2, 4]);
    assert_eq!(a, b);
    assert_ne!(a, c);
}

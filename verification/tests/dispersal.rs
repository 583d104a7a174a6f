use viewsync::dispersal::{disperse, reconstruct, VidShare};

#[test]
fn disperse_yields_one_share_per_storage_node() {
    let payload = vec![1u8, 2, 3, 4];
    let shares = disperse(&payload, 8);
    assert_eq!(shares.len(), 8);
    for (i, share) in shares.iter().enumerate() {
        assert_eq!(share.index, i);
    }
}

#[test]
fn round_trip_from_a_threshold_subset_recovers_the_payload() {
    let payload = vec![7u8, 0, 255, 13, 42];
    let shares = disperse(&payload, 8);
    // Any threshold-sized subset: take shares 2, 5 and 7.
    let subset: Vec<VidShare> = shares
        .into_iter()
        .enumerate()
        .filter(|(i, _)| *i == 2 || *i == 5 || *i == 7)
        .map(|(_, s)| s)
        .collect();
    assert_eq!(subset.len(), 3);
    let recovered = reconstruct(&subset).expect("a non-empty subset reconstructs");
    assert_eq!(recovered, payload);
}

#[test]
fn round_trip_of_an_empty_payload() {
    let payload: Vec<u8> = Vec::new();
    let shares = disperse(&payload, 8);
    let recovered = reconstruct(&shares).expect("shares exist");
    assert!(recovered.is_empty());
}

#[test]
fn reconstruct_from_no_shares_fails() {
    let shares: Vec<VidShare> = Vec::new();
    assert!(reconstruct(&shares).is_none());
}

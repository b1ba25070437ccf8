use umbra_exchange::psi::{
    blind_query, blind_set, finish_query, hash_indicator, respond_to_query, unblind, BlindedSet, CompressedPoint,
    HolderKey, PsiError,
};

#[test]
fn item_in_set_is_found() {
    let holder_key = HolderKey::generate();
    let set = vec!["evil.example".to_string(), "also-evil.example".to_string()];
    let blinded_set = BlindedSet::new(&blind_set(&holder_key, &set));

    let (querier_key, blinded_query) = blind_query("evil.example");
    let response = respond_to_query(&holder_key, blinded_query).unwrap();
    let found = finish_query(querier_key, response, &blinded_set).unwrap();

    assert!(found, "an item actually in the Holder's set must be found");
}

#[test]
fn item_not_in_set_is_not_found() {
    let holder_key = HolderKey::generate();
    let set = vec!["evil.example".to_string()];
    let blinded_set = BlindedSet::new(&blind_set(&holder_key, &set));

    let (querier_key, blinded_query) = blind_query("benign.example");
    let response = respond_to_query(&holder_key, blinded_query).unwrap();
    let found = finish_query(querier_key, response, &blinded_set).unwrap();

    assert!(!found, "an item not in the Holder's set must not be found");
}

#[test]
fn empty_set_never_matches_and_does_not_panic() {
    let holder_key = HolderKey::generate();
    let blinded_set = BlindedSet::new(&blind_set(&holder_key, &[]));
    assert!(blinded_set.is_empty());

    let (querier_key, blinded_query) = blind_query("anything.example");
    let response = respond_to_query(&holder_key, blinded_query).unwrap();
    let found = finish_query(querier_key, response, &blinded_set).unwrap();

    assert!(!found);
}

#[test]
fn same_item_hashes_to_the_same_point_deterministically() {
    assert_eq!(hash_indicator("evil.example"), hash_indicator("evil.example"));
}

#[test]
fn repeated_queries_for_the_same_item_are_unlinkable_on_the_wire() {
    let (_, q1) = blind_query("evil.example");
    let (_, q2) = blind_query("evil.example");
    assert_ne!(q1, q2, "two blindings of the same item must not be linkable on the wire");
}

#[test]
fn corrupted_wire_bytes_are_rejected_not_panicking() {
    let holder_key = HolderKey::generate();
    let garbage = CompressedPoint([0xFFu8; 32]);
    let result = respond_to_query(&holder_key, garbage);
    assert!(matches!(result, Err(PsiError::InvalidPoint)));
}

#[test]
fn colluding_queriers_can_detect_matching_queries_under_a_reused_holder_key() {
    let holder_key = HolderKey::generate();

    let (q1_key, q1_blinded) = blind_query("shared-item.example");
    let q1_response = respond_to_query(&holder_key, q1_blinded).unwrap();
    let q1_unblinded = unblind(&q1_key, q1_response).unwrap();

    let (q2_key, q2_blinded) = blind_query("shared-item.example");
    let q2_response = respond_to_query(&holder_key, q2_blinded).unwrap();
    let q2_unblinded = unblind(&q2_key, q2_response).unwrap();

    assert_eq!(q1_unblinded, q2_unblinded);
}

#[test]
fn blind_set_output_length_matches_input() {
    let holder_key = HolderKey::generate();
    let set = vec!["a".to_string(), "b".to_string(), "c".to_string()];
    let blinded = blind_set(&holder_key, &set);
    assert_eq!(blinded.len(), set.len());
}

// ---------------------------------------------------------------------------

#[test]
fn normalization_applies_to_queries() {
    let holder_key = HolderKey::generate();
    let set = vec!["Evil.Example".to_string()];
    let blinded_set = BlindedSet::new(&blind_set(&holder_key, &set));
    let (querier_key, blinded_query) = blind_query("  evil.example ");
    let response = respond_to_query(&holder_key, blinded_query).unwrap();
    assert!(finish_query(querier_key, response, &blinded_set).unwrap());
    assert_eq!(hash_indicator("EVIL.example"), hash_indicator("evil.example"));
    assert_ne!(hash_indicator("evil.example"), hash_indicator("evil2.example"));
}

#[test]
fn blinded_set_counts_distinct_points() {
    let holder_key = HolderKey::generate();
    let set = vec!["a".to_string(), "b".to_string(), "a".to_string()];
    let blinded = blind_set(&holder_key, &set);
    assert_eq!(blinded.len(), 3);
    let s = BlindedSet::new(&blinded);
    assert_eq!(s.len(), 2);
    assert!(!s.is_empty());
    for p in &blinded {
        assert!(s.contains(p));
    }
}

#[test]
fn garbage_answer_is_rejected_by_the_querier() {
    let holder_key = HolderKey::generate();
    let blinded_set = BlindedSet::new(&blind_set(&holder_key, &["x".to_string()]));
    let (querier_key, _) = blind_query("x");
    let r = finish_query(querier_key, CompressedPoint([0xFFu8; 32]), &blinded_set);
    assert_eq!(r, Err(PsiError::InvalidPoint));
    assert_eq!(PsiError::InvalidPoint.to_string(), "received bytes do not decode to a valid point");
}

#[test]
fn holder_keys_are_fresh_canonical_scalars() {
    let a = umbra_exchange::psi::HolderKey::generate();
    let b = umbra_exchange::psi::HolderKey::generate();
    let set_a = umbra_exchange::psi::blind_set(&a, &["x.example".to_string()]);
    let set_b = umbra_exchange::psi::blind_set(&b, &["x.example".to_string()]);
    assert_ne!(set_a, set_b);
}

use ark_bn254::Fr;
use ark_ff::{BigInteger, PrimeField};
use umbra_exchange::encoding::fr_from_hex;
use umbra_exchange::field::{fr_from_u64, FieldElement};
use umbra_exchange::merkle::build_tree;
use umbra_exchange::observation::{sample_observation, statement_satisfied, ProofOfObservationCircuit};

fn fe(x: u64) -> FieldElement {
    fr_from_u64(x)
}

fn plus_one(f: &FieldElement) -> FieldElement {
    let x = Fr::from_le_bytes_mod_order(&f.to_bytes()) + Fr::from(1u64);
    fr_from_hex(&hex::encode(x.into_bigint().to_bytes_le())).unwrap()
}

fn sample_circuit_with_tier(credential_tier: u64, min_tier: u64) -> ProofOfObservationCircuit {
    sample_observation(fe(4242), fe(20260822), fe(777), fe(999), fe(credential_tier), fe(min_tier)).circuit
}

fn sample_circuit() -> ProofOfObservationCircuit {
    sample_circuit_with_tier(2, 1)
}

#[test]
fn happy_path_satisfies_all_constraints() {
    assert_eq!(sample_circuit().is_satisfied(), Some(true));
}

#[test]
fn tampered_root_fails_to_satisfy() {
    let mut c = sample_circuit();
    c.public.root = plus_one(&c.public.root);
    assert_eq!(c.is_satisfied(), Some(false));
}

#[test]
fn tampered_nullifier_fails_to_satisfy() {
    let mut c = sample_circuit();
    c.public.nullifier = plus_one(&c.public.nullifier);
    assert_eq!(c.is_satisfied(), Some(false));
}

#[test]
fn wrong_leaf_indicator_fails_to_satisfy() {
    let mut c = sample_circuit();
    c.public.indicator_hash = plus_one(&c.public.indicator_hash);
    assert_eq!(c.is_satisfied(), Some(false));
}

#[test]
fn credential_tier_exactly_equal_to_min_tier_satisfies() {
    assert_eq!(sample_circuit_with_tier(2, 2).is_satisfied(), Some(true));
}

#[test]
fn credential_tier_above_min_tier_satisfies() {
    assert_eq!(sample_circuit_with_tier(3, 0).is_satisfied(), Some(true));
}

#[test]
fn credential_tier_below_min_tier_fails_to_satisfy() {
    assert_eq!(sample_circuit_with_tier(0, 3).is_satisfied(), Some(false));
}

#[test]
fn out_of_range_credential_tier_fails_to_satisfy() {
    assert_eq!(sample_circuit_with_tier(4, 1).is_satisfied(), Some(false));
}

#[test]
fn out_of_range_min_tier_fails_to_satisfy() {
    assert_eq!(sample_circuit_with_tier(3, 9).is_satisfied(), Some(false));
}

#[test]
fn tampered_credential_root_fails_to_satisfy() {
    let mut c = sample_circuit();
    c.public.credential_root = plus_one(&c.public.credential_root);
    assert_eq!(c.is_satisfied(), Some(false));
}

#[test]
fn credential_secret_not_in_credential_tree_fails_to_satisfy() {
    let mut c = sample_circuit();
    if let Some(w) = c.witness.as_mut() {
        w.credential_tier = plus_one(&w.credential_tier);
    }
    assert_eq!(c.is_satisfied(), Some(false));
}

// ---------------------------------------------------------------------------

#[test]
fn missing_witness_cannot_be_checked() {
    let mut c = sample_circuit();
    c.witness = None;
    assert_eq!(c.is_satisfied(), None);
}

#[test]
fn sample_public_inputs_are_in_circuit_order() {
    let s = sample_observation(fe(1), fe(2), fe(3), fe(4), fe(1), fe(0));
    assert_eq!(s.public_inputs_vec.len(), 6);
    assert_eq!(s.public_inputs_vec[0], s.public.indicator_hash);
    assert_eq!(s.public_inputs_vec[1], s.public.epoch);
    assert_eq!(s.public_inputs_vec[2], s.public.root);
    assert_eq!(s.public_inputs_vec[3], s.public.nullifier);
    assert_eq!(s.public_inputs_vec[4], s.public.min_tier);
    assert_eq!(s.public_inputs_vec[5], s.public.credential_root);
    let w = s.circuit.witness.as_ref().unwrap();
    assert_eq!(w.merkle_path.len(), 2);
    assert_eq!(w.path_directions, vec![true, false]);
    assert!(statement_satisfied(&s.public, w));
}

#[test]
fn flipped_direction_bit_fails_to_satisfy() {
    let mut c = sample_circuit();
    if let Some(w) = c.witness.as_mut() {
        w.path_directions[0] = !w.path_directions[0];
    }
    assert_eq!(c.is_satisfied(), Some(false));
}

#[test]
fn sample_trees_use_the_fixed_fillers_with_the_target_at_index_one() {
    let s = sample_observation(fe(4242), fe(20260822), fe(777), fe(999), fe(2), fe(1));
    let w = s.circuit.witness.as_ref().unwrap();
    // The sibling of index 1 is leaf 0; above it sits the node over leaves 2 and 3.
    let (_, _, _, upper) = build_tree(&[fe(2), fe(3)], 0);
    assert_eq!(w.merkle_path, vec![fe(1), upper]);
    assert_eq!(w.path_directions, vec![true, false]);
    let (_, _, _, credential_upper) = build_tree(&[fe(12), fe(13)], 0);
    assert_eq!(w.credential_merkle_path, vec![fe(11), credential_upper]);
    assert_eq!(w.credential_path_directions, vec![true, false]);
    assert_eq!(statement_satisfied(&s.circuit.public, w), true);
}

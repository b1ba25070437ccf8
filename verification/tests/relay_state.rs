use ark_bn254::{Bn254, Fr};
use ark_groth16::{Groth16, Proof};
use ark_relations::r1cs::{ConstraintSynthesizer, ConstraintSystemRef, LinearCombination, SynthesisError};
use ark_serialize::CanonicalSerialize;
use ark_snark::SNARK;
use rand::rngs::OsRng;
use umbra_exchange::accumulator::TierWeights;
use umbra_exchange::encoding::{fr_to_hex, proof_from_bytes, vk_from_bytes, Groth16Proof};
use umbra_exchange::field::{fr_from_u64, FieldElement};
use umbra_exchange::indicator::indicator_hash_from_raw;
use umbra_exchange::relay::{ParsedSubmission, RelayState, SubmitObservationRequest};

/// A one-constraint circuit with six public inputs, only used to get a
/// well-formed verifying key for the relay.
struct Tiny;

impl ConstraintSynthesizer<Fr> for Tiny {
    fn generate_constraints(self, cs: ConstraintSystemRef<Fr>) -> Result<(), SynthesisError> {
        let mut last = None;
        for _ in 0..6 {
            last = Some(cs.new_input_variable(|| Ok(Fr::from(1u64)))?);
        }
        let v = last.unwrap();
        cs.enforce_constraint(
            LinearCombination::zero() + v,
            LinearCombination::zero() + v,
            LinearCombination::zero() + v,
        )?;
        Ok(())
    }
}

fn relay_with(weights: TierWeights) -> RelayState {
    let (_, vk) = Groth16::<Bn254>::circuit_specific_setup(Tiny, &mut OsRng).unwrap();
    let mut bytes = Vec::new();
    vk.serialize_compressed(&mut bytes).unwrap();
    RelayState::new(vk_from_bytes(&bytes).unwrap(), weights)
}

fn relay() -> RelayState {
    relay_with(TierWeights::default_weights())
}

fn some_proof() -> Groth16Proof {
    let mut bytes = Vec::new();
    Proof::<Bn254>::default().serialize_compressed(&mut bytes).unwrap();
    proof_from_bytes(bytes).unwrap()
}

fn parsed(indicator_hash: FieldElement, nullifier: u64, min_tier: u8, credential_root: u64, indicator: Option<&str>) -> ParsedSubmission {
    ParsedSubmission {
        indicator_hash,
        epoch: 20260822,
        root: fr_from_u64(7),
        nullifier: fr_from_u64(nullifier),
        min_tier,
        credential_root: fr_from_u64(credential_root),
        proof: some_proof(),
        indicator: indicator.map(|s| s.to_string()),
    }
}

#[test]
fn verified_submission_is_scored_at_tier_zero() {
    let mut r = relay();
    let resp = r.record_verified(&parsed(fr_from_u64(111), 1, 0, 5, None), Some(true));
    assert!(resp.accepted);
    assert_eq!(resp.score, Some(1));
    assert_eq!(resp.reason, None);
}

#[test]
fn claimed_tier_counts_only_for_an_allowlisted_credential_root() {
    let mut r = relay();
    let resp = r.record_verified(&parsed(fr_from_u64(222), 1, 3, 5, None), Some(true));
    assert_eq!(resp.score, Some(1), "an untrusted credential root scores as tier 0");

    let mut trusted = relay().with_trusted_credential_roots(vec![fr_to_hex(&fr_from_u64(5))]);
    let resp = trusted.record_verified(&parsed(fr_from_u64(223), 2, 3, 5, None), Some(true));
    assert_eq!(resp.score, Some(8), "an allowlisted credential root honors the tier claim");
}

#[test]
fn replayed_nullifier_is_refused_and_does_not_inflate_the_score() {
    let mut r = relay();
    let p = parsed(fr_from_u64(333), 9, 0, 5, None);
    assert!(r.record_verified(&p, Some(true)).accepted);
    let second = r.record_verified(&p, Some(true));
    assert!(!second.accepted);
    assert!(second.reason.unwrap().contains("already seen"));
    let key = fr_to_hex(&fr_from_u64(333));
    let s = r.get_score(&key, 20260822);
    assert_eq!(s.score, 1);
    assert_eq!(s.proof_count, 1);
}

#[test]
fn failed_or_erroring_verification_is_refused() {
    let mut r = relay();
    let p = parsed(fr_from_u64(444), 1, 0, 5, None);
    let resp = r.record_verified(&p, Some(false));
    assert!(!resp.accepted);
    assert_eq!(resp.reason.as_deref(), Some("proof does not verify against this relay's verifying key"));
    let resp = r.record_verified(&p, None);
    assert_eq!(resp.reason.as_deref(), Some("proof verification errored (malformed proof)"));
    assert_eq!(r.get_score(&fr_to_hex(&fr_from_u64(444)), 20260822).score, 0);
    // the nullifier was not consumed
    assert!(r.record_verified(&p, Some(true)).accepted);
}

#[test]
fn distinct_contributors_sum_for_the_same_indicator() {
    let mut r = relay();
    assert_eq!(r.record_verified(&parsed(fr_from_u64(555), 1, 0, 5, None), Some(true)).score, Some(1));
    assert_eq!(r.record_verified(&parsed(fr_from_u64(555), 2, 0, 5, None), Some(true)).score, Some(2));
    assert_eq!(r.get_score(&fr_to_hex(&fr_from_u64(555)), 20260822).proof_count, 2);
}

#[test]
fn unknown_indicator_scores_zero() {
    let r = relay();
    let s = r.get_score(&fr_to_hex(&fr_from_u64(999999)), 1);
    assert_eq!(s.score, 0);
    assert_eq!(s.proof_count, 0);
    assert_eq!(s.epoch, 1);
}

#[test]
fn disclosed_indicator_is_exported_and_undisclosed_is_not() {
    let mut r = relay();
    let h = indicator_hash_from_raw("evil.example");
    assert!(r.record_verified(&parsed(h, 1, 0, 5, Some("evil.example")), Some(true)).accepted);
    let q = indicator_hash_from_raw("quiet.example");
    assert!(r.record_verified(&parsed(q, 2, 0, 5, None), Some(true)).accepted);

    let bundle = r.export_stix(1);
    assert_eq!(bundle.objects.len(), 1);
    assert_eq!(bundle.objects[0].pattern, "[domain-name:value = 'evil.example']");
    assert_eq!(bundle.objects[0].x_umbra_proof_count, 1);
    assert_eq!(bundle.objects[0].x_umbra_relay_id, "umbra-relay");

    let event = r.export_misp(1, 50);
    assert_eq!(event.objects.len(), 1);
    assert_eq!(event.objects[0].attributes[0].attr_type, "domain");
    assert_eq!(event.objects[0].attributes[0].value, "evil.example");
    assert_eq!(event.info, "Umbra Exchange relay export");
}

#[test]
fn export_respects_the_threshold() {
    let mut r = relay();
    let h = indicator_hash_from_raw("belowthreshold.example");
    assert_eq!(r.record_verified(&parsed(h, 1, 0, 5, Some("belowthreshold.example")), Some(true)).score, Some(1));
    assert!(r.export_stix(5).objects.is_empty());
    assert_eq!(r.export_stix(1).objects.len(), 1);
    assert_eq!(r.export_inputs(0).len(), 1);
}

#[test]
fn mismatched_disclosure_refuses_the_whole_submission() {
    let mut r = relay();
    let h = indicator_hash_from_raw("real.example");
    let resp = r.record_verified(&parsed(h, 1, 0, 5, Some("fake.example")), Some(true));
    assert!(!resp.accepted);
    assert!(resp.reason.unwrap().contains("does not hash to"));
    assert_eq!(r.get_score(&fr_to_hex(&h), 20260822).score, 0);
    assert!(r.export_stix(0).objects.is_empty());
}

#[test]
fn disclosure_is_never_retracted() {
    let mut r = relay();
    let h = indicator_hash_from_raw("evil.example");
    assert!(r.record_verified(&parsed(h, 1, 0, 5, Some("Evil.Example")), Some(true)).accepted);
    assert!(r.record_verified(&parsed(h, 2, 0, 5, None), Some(true)).accepted);
    assert!(r.record_verified(&parsed(h, 3, 0, 5, Some("evil.example")), Some(true)).accepted);
    let inputs = r.export_inputs(0);
    assert_eq!(inputs.len(), 1);
    assert_eq!(inputs[0].raw_indicator, "Evil.Example", "the first disclosure stays");
    assert_eq!(inputs[0].score, 3);
    assert_eq!(inputs[0].proof_count, 3);
}

#[test]
fn malformed_wire_values_are_refused_before_verification() {
    let mut r = relay();
    let good = fr_to_hex(&fr_from_u64(1));
    let req = |ih: &str, proof: &str| SubmitObservationRequest {
        indicator_hash: ih.to_string(),
        epoch: 20260822,
        root: good.clone(),
        nullifier: good.clone(),
        min_tier: 0,
        credential_root: good.clone(),
        proof: proof.to_string(),
        indicator: None,
    };
    let resp = r.submit_observation(&req("zz", "00"));
    assert_eq!(resp.reason.as_deref(), Some("encoding error: field element is not valid hex"));
    let resp = r.submit_observation(&req(&"ff".repeat(32), "00"));
    assert_eq!(resp.reason.as_deref(), Some("encoding error: bytes are not a valid BN254 field element"));
    let resp = r.submit_observation(&req(&good, "0"));
    assert_eq!(resp.reason.as_deref(), Some("encoding error: proof is not valid hex"));
    let resp = r.submit_observation(&req(&good, "00"));
    assert_eq!(resp.reason.as_deref(), Some("encoding error: bytes are not a valid Groth16 proof"));
    assert!(r.has_room_for(&req(&good, "00")));
}

#[test]
fn room_is_needed_only_for_the_key_a_request_raises() {
    let mut r = relay_with(TierWeights::new([u32::MAX, 1, 2, 4]));
    let h = fr_from_u64(111);
    assert!(r.record_verified(&parsed(h, 1, 0, 5, None), Some(true)).accepted);
    let mut bytes = Vec::new();
    Proof::<Bn254>::default().serialize_compressed(&mut bytes).unwrap();
    let proof = hex::encode(&bytes);
    let req = |ih: &str| SubmitObservationRequest {
        indicator_hash: ih.to_string(),
        epoch: 20260822,
        root: fr_to_hex(&fr_from_u64(7)),
        nullifier: fr_to_hex(&fr_from_u64(2)),
        min_tier: 0,
        credential_root: fr_to_hex(&fr_from_u64(5)),
        proof: proof.clone(),
        indicator: None,
    };
    // The score under (111, epoch) is u32::MAX: a tier-0 submission there would overflow.
    assert!(!r.has_room_for(&req(&fr_to_hex(&h))));
    assert!(r.has_room_for(&req(&fr_to_hex(&fr_from_u64(112)))));
    // A request that does not decode raises nothing.
    assert!(r.has_room_for(&req("zz")));
}

#[test]
fn a_proof_for_other_inputs_does_not_verify() {
    let mut r = relay();
    let mut bytes = Vec::new();
    Proof::<Bn254>::default().serialize_compressed(&mut bytes).unwrap();
    let good = fr_to_hex(&fr_from_u64(1));
    let req = SubmitObservationRequest {
        indicator_hash: good.clone(),
        epoch: 20260822,
        root: good.clone(),
        nullifier: good.clone(),
        min_tier: 0,
        credential_root: good.clone(),
        proof: hex::encode(&bytes),
        indicator: None,
    };
    let resp = r.submit_observation(&req);
    assert!(!resp.accepted);
    assert_eq!(r.get_score(&good, 20260822).score, 0);
}

#[test]
fn builders_set_the_relay_id_and_full_confidence_score() {
    let r = relay().with_relay_id("relay-b").with_score_for_full_confidence(40);
    assert_eq!(r.relay_id(), "relay-b");
    assert_eq!(r.score_for_full_confidence(), 40);
    let default = relay();
    assert_eq!(default.relay_id(), "umbra-relay");
    assert_ne!(r.export_stix(0).id, default.export_stix(0).id);
}

use ark_bn254::{Bn254, Fr, G1Affine, G1Projective, G2Affine, G2Projective};
use ark_ec::{AffineRepr, CurveGroup, Group};
use ark_ff::{BigInteger, Field, PrimeField, UniformRand};
use ark_groth16::{Groth16, ProvingKey, VerifyingKey};
use ark_relations::r1cs::{
    ConstraintSynthesizer, ConstraintSystem, ConstraintSystemRef, LinearCombination, OptimizationGoal, SynthesisError,
};
use ark_serialize::{CanonicalDeserialize, CanonicalSerialize};
use ark_snark::SNARK;
use rand::rngs::OsRng;
use sha2::Digest;
use umbra_exchange::bridge::{self, Entry, Matrices};
use umbra_exchange::ceremony::{hash_cs_pubkeys, read_parameters, required_domain_size, BridgeError};
use umbra_exchange::phase1::{self, Accumulator};
use umbra_exchange::phase2::{Keypair, MPCParameters, ProvingKeyParts};
use umbra_exchange::setup::{check_same_ratio, hash_to_g2, merge_pairs, same_ratio};

// ---------------------------------------------------------------------------
// Conversions between arkworks values and the library's compressed points.

fn g1_bytes(p: &G1Affine) -> [u8; 32] {
    let mut out = [0u8; 32];
    p.serialize_compressed(&mut out[..]).unwrap();
    out
}

fn g2_bytes(p: &G2Affine) -> [u8; 64] {
    let mut out = [0u8; 64];
    p.serialize_compressed(&mut out[..]).unwrap();
    out
}

fn g1_point(b: &[u8; 32]) -> G1Affine {
    G1Affine::deserialize_compressed(&b[..]).unwrap()
}

fn g2_point(b: &[u8; 64]) -> G2Affine {
    G2Affine::deserialize_compressed(&b[..]).unwrap()
}

fn scalar(b: &[u8; 32]) -> Fr {
    Fr::from_le_bytes_mod_order(b)
}

fn key_to_parts(pk: &ProvingKey<Bn254>) -> ProvingKeyParts {
    ProvingKeyParts {
        alpha_g1: g1_bytes(&pk.vk.alpha_g1),
        beta_g2: g2_bytes(&pk.vk.beta_g2),
        gamma_g2: g2_bytes(&pk.vk.gamma_g2),
        delta_g2: g2_bytes(&pk.vk.delta_g2),
        gamma_abc_g1: pk.vk.gamma_abc_g1.iter().map(g1_bytes).collect(),
        beta_g1: g1_bytes(&pk.beta_g1),
        delta_g1: g1_bytes(&pk.delta_g1),
        a_query: pk.a_query.iter().map(g1_bytes).collect(),
        b_g1_query: pk.b_g1_query.iter().map(g1_bytes).collect(),
        b_g2_query: pk.b_g2_query.iter().map(g2_bytes).collect(),
        h_query: pk.h_query.iter().map(g1_bytes).collect(),
        l_query: pk.l_query.iter().map(g1_bytes).collect(),
    }
}

fn parts_to_key(p: &ProvingKeyParts) -> ProvingKey<Bn254> {
    ProvingKey {
        vk: VerifyingKey {
            alpha_g1: g1_point(&p.alpha_g1),
            beta_g2: g2_point(&p.beta_g2),
            gamma_g2: g2_point(&p.gamma_g2),
            delta_g2: g2_point(&p.delta_g2),
            gamma_abc_g1: p.gamma_abc_g1.iter().map(g1_point).collect(),
        },
        beta_g1: g1_point(&p.beta_g1),
        delta_g1: g1_point(&p.delta_g1),
        a_query: p.a_query.iter().map(g1_point).collect(),
        b_g1_query: p.b_g1_query.iter().map(g1_point).collect(),
        b_g2_query: p.b_g2_query.iter().map(g2_point).collect(),
        h_query: p.h_query.iter().map(g1_point).collect(),
        l_query: p.l_query.iter().map(g1_point).collect(),
    }
}

/// Knowledge of `w` with `w * w = x` and `(w + 1) * (w + 1) = x + 2w + 1`,
/// for public `x`.
#[derive(Clone)]
struct Square {
    w: Fr,
}

impl ConstraintSynthesizer<Fr> for Square {
    fn generate_constraints(self, cs: ConstraintSystemRef<Fr>) -> Result<(), SynthesisError> {
        let x = cs.new_input_variable(|| Ok(self.w * self.w))?;
        let w = cs.new_witness_variable(|| Ok(self.w))?;
        let one = ConstraintSystem::<Fr>::one();
        cs.enforce_constraint(LinearCombination::zero() + w, LinearCombination::zero() + w, LinearCombination::zero() + x)?;
        cs.enforce_constraint(
            LinearCombination::zero() + w + one,
            LinearCombination::zero() + w + one,
            LinearCombination::zero() + x + (Fr::from(2u64), w) + one,
        )?;
        Ok(())
    }
}

fn matrices(circuit: Square) -> Matrices {
    let cs = ConstraintSystem::<Fr>::new_ref();
    cs.set_optimization_goal(OptimizationGoal::Constraints);
    circuit.generate_constraints(cs.clone()).unwrap();
    cs.finalize();
    let m = cs.to_matrices().unwrap();
    let rows = |matrix: &Vec<Vec<(Fr, usize)>>| -> Vec<Vec<Entry>> {
        matrix
            .iter()
            .map(|row| row.iter().map(|(c, v)| (c.into_bigint().to_bytes_le().try_into().unwrap(), *v)).collect())
            .collect()
    };
    Matrices {
        num_constraints: m.num_constraints,
        num_instance_variables: m.num_instance_variables,
        num_witness_variables: m.num_witness_variables,
        a: rows(&m.a),
        b: rows(&m.b),
        c: rows(&m.c),
    }
}

fn placeholder(rng: &mut OsRng) -> MPCParameters {
    let params = Groth16::<Bn254>::generate_parameters_with_qap(
        Square { w: Fr::from(0u64) },
        Fr::rand(rng),
        Fr::rand(rng),
        Fr::rand(rng),
        Fr::ONE,
        G1Projective::generator(),
        G2Projective::generator(),
        rng,
    )
    .expect("building placeholder parameters for a well-formed circuit must succeed");
    MPCParameters::new_placeholder(key_to_parts(&params))
}

fn clone_params(p: &MPCParameters) -> MPCParameters {
    MPCParameters { params: p.params.clone(), cs_hash: p.cs_hash, contributions: p.contributions.clone() }
}

fn proof_round_trip(pk: &ProvingKey<Bn254>) -> bool {
    let w = Fr::from(999u64);
    let proof = Groth16::<Bn254>::prove(pk, Square { w }, &mut OsRng).expect("proving must succeed");
    Groth16::<Bn254>::verify(&pk.vk, &[w * w], &proof).expect("verification must not error")
}

// ---------------------------------------------------------------------------
// Hashing to G2, ratios and merged pairs.

#[test]
fn hash_to_g2_is_deterministic() {
    let d = [7u8; 40];
    assert_eq!(hash_to_g2(&d), hash_to_g2(&d));
    assert!(hash_to_g2(&d).is_some());
}

#[test]
fn hash_to_g2_differs_for_different_digests() {
    let mut d1 = [7u8; 40];
    let d2 = [7u8; 40];
    d1[0] = 8;
    assert_ne!(hash_to_g2(&d1), hash_to_g2(&d2));
}

#[test]
fn hash_to_g2_ignores_bytes_beyond_the_first_32() {
    let mut d1 = [7u8; 40];
    let d2 = [7u8; 40];
    d1[39] = 8;
    assert_eq!(hash_to_g2(&d1), hash_to_g2(&d2));
}

#[test]
fn hash_to_g2_gives_a_valid_point_of_the_subgroup() {
    let p = hash_to_g2(&[3u8; 64]).unwrap();
    let q = G2Affine::deserialize_compressed(&p[..]).expect("a valid, subgroup-checked point");
    assert!(!q.is_zero());
}

#[test]
fn same_ratio_accepts_consistent_scaling() {
    let s = Fr::rand(&mut OsRng);
    let g1 = G1Affine::generator();
    let g2 = G2Affine::generator();
    let g1_s = (g1 * s).into_affine();
    let g2_s = (g2 * s).into_affine();
    assert!(same_ratio(&(g1_bytes(&g1), g1_bytes(&g1_s)), &(g2_bytes(&g2), g2_bytes(&g2_s))));
}

#[test]
fn same_ratio_rejects_mismatched_scaling() {
    let s = Fr::rand(&mut OsRng);
    let wrong_s = Fr::rand(&mut OsRng);
    let g1 = G1Affine::generator();
    let g2 = G2Affine::generator();
    let g1_s = (g1 * s).into_affine();
    let g2_wrong = (g2 * wrong_s).into_affine();
    assert!(!same_ratio(&(g1_bytes(&g1), g1_bytes(&g1_s)), &(g2_bytes(&g2), g2_bytes(&g2_wrong))));
}

#[test]
fn check_same_ratio_refuses_the_identity() {
    let g1 = g1_bytes(&G1Affine::generator());
    let zero = g1_bytes(&G1Affine::zero());
    let g2 = g2_bytes(&G2Affine::generator());
    let r = check_same_ratio(&(zero, zero), &(g2, g2), "identity");
    assert_eq!(r.unwrap_err().0, "identity");
    assert!(check_same_ratio(&(g1, g1), &(g2, g2), "equal").is_ok());
}

#[test]
fn merge_pairs_catches_a_single_tampered_element() {
    let mut rng = OsRng;
    let s = Fr::rand(&mut rng);
    let g1 = G1Affine::generator();
    let g2 = G2Affine::generator();
    let v1: Vec<G1Affine> = (0..5).map(|_| (g1 * Fr::rand(&mut rng)).into_affine()).collect();
    let v2: Vec<G1Affine> = v1.iter().map(|p| (*p * s).into_affine()).collect();
    let b1: Vec<[u8; 32]> = v1.iter().map(g1_bytes).collect();
    let b2: Vec<[u8; 32]> = v2.iter().map(g1_bytes).collect();
    let g2s = (g2_bytes(&g2), g2_bytes(&(g2 * s).into_affine()));

    let pair = merge_pairs(&b1, &b2);
    assert!(check_same_ratio(&pair, &g2s, "should pass").is_ok());

    let mut b2_bad = b2.clone();
    b2_bad[2] = g1_bytes(&(v2[2] * Fr::rand(&mut rng)).into_affine());
    let pair2 = merge_pairs(&b1, &b2_bad);
    assert!(check_same_ratio(&pair2, &g2s, "should fail").is_err());
}

// ---------------------------------------------------------------------------
// Phase 2 keypairs.

#[test]
fn keypair_generation_is_internally_consistent() {
    let delta_g1 = G1Affine::generator();
    let kp = Keypair::new(&g1_bytes(&delta_g1), &[0u8; 64], &[]).unwrap();
    let delta = scalar(&kp.private_key.delta);
    assert_eq!(g1_point(&kp.public_key.delta_after), (delta_g1 * delta).into_affine());
    assert_eq!(g1_point(&kp.public_key.s_delta), (g1_point(&kp.public_key.s) * delta).into_affine());
    assert_eq!(kp.public_key.to_bytes().len(), 224);
    assert_eq!(kp.public_key.hash().len(), 64);
}

#[test]
fn two_contributions_get_different_secrets() {
    let delta_g1 = g1_bytes(&G1Affine::generator());
    let kp1 = Keypair::new(&delta_g1, &[0u8; 64], &[]).unwrap();
    let kp2 = Keypair::new(&delta_g1, &[0u8; 64], &[]).unwrap();
    assert_ne!(kp1.private_key.delta, kp2.private_key.delta);
}

#[test]
fn hash_cs_pubkeys_changes_with_prior_contributions() {
    let delta_g1 = g1_bytes(&G1Affine::generator());
    let kp1 = Keypair::new(&delta_g1, &[0u8; 64], &[]).unwrap();
    let s = kp1.public_key.s;
    let s_delta = kp1.public_key.s_delta;
    let empty_hash = hash_cs_pubkeys(&[0u8; 64], &[], &s, &s_delta);
    let with_prior = hash_cs_pubkeys(&[0u8; 64], &[kp1.public_key], &s, &s_delta);
    assert_ne!(
        empty_hash, with_prior,
        "the transcript must depend on prior contributions, to prevent chain reordering"
    );
}

// ---------------------------------------------------------------------------
// Phase 1.

#[test]
fn single_contribution_verifies() {
    let before = Accumulator::new(4);
    let (after, pubkey) = phase1::contribute(&before).unwrap();
    phase1::verify(&before, &after, &pubkey).expect("an honest contribution must verify");
}

#[test]
fn three_contributions_chain_verifies() {
    let mut states = vec![Accumulator::new(4)];
    let mut pubkeys: Vec<phase1::PublicKey> = vec![];
    for _ in 0..3 {
        let (after, pubkey) = phase1::contribute(states.last().unwrap()).unwrap();
        states.push(after);
        pubkeys.push(pubkey);
    }
    phase1::verify_chain(&states, &pubkeys).expect("a valid 3-contribution chain must verify");
}

#[test]
fn tampered_element_is_rejected() {
    let before = Accumulator::new(4);
    let (mut after, pubkey) = phase1::contribute(&before).unwrap();
    let p = g1_point(&after.tau_powers_g1[3]);
    after.tau_powers_g1[3] = g1_bytes(&(p * Fr::from(2u64)).into_affine());
    let result = phase1::verify(&before, &after, &pubkey);
    assert!(result.is_err(), "tampering with a later element must be caught by the sequence check");
}

#[test]
fn wrong_public_key_is_rejected() {
    let before = Accumulator::new(4);
    let (after, _pubkey) = phase1::contribute(&before).unwrap();
    let (_, wrong_pubkey) = phase1::contribute(&before).unwrap();
    let result = phase1::verify(&before, &after, &wrong_pubkey);
    assert!(result.is_err());
}

#[test]
fn accumulator_check_accepts_honest_states() {
    let before = Accumulator::new(4);
    assert!(before.check());
    let (after, pubkey) = phase1::contribute(&before).unwrap();
    assert!(after.check());
    assert!(pubkey.check());
    assert!(pubkey.tau.check());
}

#[test]
fn accumulator_check_refuses_an_invalid_point() {
    let before = Accumulator::new(4);
    let (mut after, _) = phase1::contribute(&before).unwrap();
    after.alpha_tau_powers_g1[2] = [0xff; 32];
    assert!(!after.check());
    let mut other = Accumulator::new(4);
    other.beta_g2 = [0xff; 64];
    assert!(!other.check());
}

#[test]
fn accumulator_check_refuses_too_few_powers() {
    // One power of tau in G2 is too few for the ratio checks.
    let small = Accumulator::new(1);
    assert!(!small.check());
    assert!(Accumulator::new(2).check());
}

#[test]
fn public_key_check_refuses_an_invalid_point() {
    let before = Accumulator::new(2);
    let (_, mut pubkey) = phase1::contribute(&before).unwrap();
    pubkey.beta.g2_s_x = [0xff; 64];
    assert!(!pubkey.check());
    assert!(pubkey.tau.check());
    assert!(!pubkey.beta.check());
}

#[test]
fn new_accumulator_has_generators_and_sizes() {
    let acc = Accumulator::new(3);
    assert_eq!(acc.tau_powers_g1.len(), 5);
    assert_eq!(acc.tau_powers_g2.len(), 3);
    assert_eq!(acc.alpha_tau_powers_g1.len(), 3);
    assert_eq!(acc.beta_tau_powers_g1.len(), 3);
    assert!(acc.tau_powers_g1.iter().all(|p| *p == g1_bytes(&G1Affine::generator())));
    assert_eq!(acc.beta_g2, g2_bytes(&G2Affine::generator()));
    assert_ne!(acc.hash(), Accumulator::new(4).hash());
}

#[test]
fn contribution_scales_by_powers_of_tau() {
    let before = Accumulator::new(3);
    let (after, pubkey) = phase1::contribute(&before).unwrap();
    let g1 = G1Affine::generator();
    // tau^0 leaves the first element at the generator; the ratio of the
    // first two G2 powers is the signature's tau.
    assert_eq!(g1_point(&after.tau_powers_g1[0]), g1);
    let t1 = g1_point(&after.tau_powers_g1[1]);
    let t2 = g1_point(&after.tau_powers_g1[2]);
    assert!(same_ratio(&(g1_bytes(&g1), g1_bytes(&t1)), &(after.tau_powers_g2[0], after.tau_powers_g2[1])));
    assert!(same_ratio(&(g1_bytes(&t1), g1_bytes(&t2)), &(after.tau_powers_g2[0], after.tau_powers_g2[1])));
    assert_eq!(pubkey.to_bytes().len(), 384);
}

// ---------------------------------------------------------------------------
// Phase 2 over a whole chain.

#[test]
fn full_ceremony_chain_produces_a_working_keypair() {
    let mut params = placeholder(&mut OsRng);
    let mut history = vec![clone_params(&params)];
    for _ in 0..3 {
        let mut next = clone_params(&params);
        next.contribute().expect("contribution must succeed");
        params.verify(&next).expect("a correctly-produced contribution must verify");
        params = next;
        history.push(clone_params(&params));
    }
    for window in history.windows(2) {
        window[0].verify(&window[1]).expect("every hop in the contribution chain must independently verify");
    }
    let hashes = umbra_exchange::phase2::verify_transcript(&params.cs_hash, &params.contributions).unwrap();
    assert_eq!(hashes.len(), 3);
    assert_eq!(hashes[2], params.contributions[2].hash());
    assert!(
        proof_round_trip(&parts_to_key(&params.params)),
        "a real proof built with the ceremony's final proving key must verify against its final verifying key"
    );
}

#[test]
fn tampered_contribution_is_rejected() {
    let params = placeholder(&mut OsRng);
    let mut tampered = clone_params(&params);
    tampered.contribute().unwrap();
    let bad = (g1_point(&tampered.contributions[0].delta_after) * Fr::from(2u64)).into_affine();
    tampered.contributions[0].delta_after = g1_bytes(&bad);
    let result = params.verify(&tampered);
    assert!(result.is_err(), "a tampered contribution must be rejected, not silently accepted");
}

#[test]
fn contribution_from_wrong_cs_hash_is_rejected() {
    let params_a = placeholder(&mut OsRng);
    let mut params_b = placeholder(&mut OsRng);
    assert_ne!(
        params_a.cs_hash, params_b.cs_hash,
        "two independent placeholder setups should not coincidentally share a cs_hash"
    );
    params_b.contribute().unwrap();
    let result = params_a.verify(&params_b);
    assert!(result.is_err(), "a contribution against a different cs_hash must be rejected");
}

#[test]
fn write_read_round_trip_preserves_everything_verify_needs() {
    let mut params = placeholder(&mut OsRng);
    params.contribute().unwrap();
    let bytes = params.write();
    let read_back = MPCParameters::read(&bytes).unwrap();
    assert_eq!(params.cs_hash, read_back.cs_hash);
    assert_eq!(params.contributions.len(), read_back.contributions.len());
    assert_eq!(params.params.delta_g2, read_back.params.delta_g2);
    assert_eq!(params.params.delta_g1, read_back.params.delta_g1);
}

#[test]
fn proving_key_encoding_is_arkworks_compressed_form() {
    let params = placeholder(&mut OsRng);
    let mut expected = Vec::new();
    parts_to_key(&params.params).serialize_compressed(&mut expected).unwrap();
    assert_eq!(params.params.to_bytes(), expected);
    let back = ProvingKeyParts::from_bytes(&expected).unwrap();
    assert_eq!(back.to_bytes(), expected);
    let mut longer = expected.clone();
    longer.push(0);
    assert!(ProvingKeyParts::from_bytes(&longer).is_err());
    assert!(ProvingKeyParts::from_bytes(&expected[..expected.len() - 1]).is_err());
    let stored = read_parameters(&params.write()).unwrap();
    assert_eq!(stored.proving_key, expected);
}

#[test]
fn verify_reports_the_first_broken_invariant() {
    let params = placeholder(&mut OsRng);
    let mut after = clone_params(&params);
    assert!(matches!(params.verify(&after), Err(umbra_exchange::ceremony::CeremonyError::NoContributions)));
    after.contribute().unwrap();
    let mut changed = clone_params(&after);
    changed.params.alpha_g1 = g1_bytes(&(G1Affine::generator() * Fr::from(5u64)).into_affine());
    match params.verify(&changed) {
        Err(umbra_exchange::ceremony::CeremonyError::BrokenInvariant(w)) => assert_eq!(w, "alpha_g1"),
        other => panic!("unexpected {:?}", other.map(|v| v.len())),
    }
    let mut shorter = clone_params(&after);
    shorter.params.h_query.pop();
    assert!(matches!(params.verify(&shorter), Err(umbra_exchange::ceremony::CeremonyError::InvalidLength)));
}

// ---------------------------------------------------------------------------
// From Phase 1 to Phase 2.

#[test]
fn from_phase1_with_trivial_accumulator_produces_a_working_keypair() {
    let m = matrices(Square { w: Fr::from(0u64) });
    let domain_size = required_domain_size(m.num_constraints, m.num_instance_variables);
    let accumulator = Accumulator::new(domain_size);
    let parts = bridge::from_phase1(&accumulator, &m).expect("bridging a trivial accumulator must succeed");
    assert!(proof_round_trip(&parts_to_key(&parts)));
}

#[test]
fn from_phase1_with_one_real_contribution_produces_a_working_keypair() {
    let m = matrices(Square { w: Fr::from(0u64) });
    let domain_size = required_domain_size(m.num_constraints, m.num_instance_variables);
    let before = Accumulator::new(domain_size);
    let (after, pubkey) = phase1::contribute(&before).unwrap();
    phase1::verify(&before, &after, &pubkey).expect("the single contribution must verify");
    let parts = bridge::from_phase1(&after, &m).expect("bridging a once-contributed accumulator must succeed");
    assert!(
        proof_round_trip(&parts_to_key(&parts)),
        "a once-contributed accumulator bridged to a proving key must still work"
    );
}

#[test]
fn phase1_bridged_into_phase2_produces_a_working_keypair() {
    assert_eq!(required_domain_size(1767, 7), 2048, "sanity check on the expected domain size for this circuit");
    let m = matrices(Square { w: Fr::from(0u64) });
    let domain_size = required_domain_size(m.num_constraints, m.num_instance_variables);
    let mut states = vec![Accumulator::new(domain_size)];
    let mut pubkeys: Vec<phase1::PublicKey> = vec![];
    for _ in 0..2 {
        let (after, pubkey) = phase1::contribute(states.last().unwrap()).unwrap();
        phase1::verify(states.last().unwrap(), &after, &pubkey).expect("phase 1 contribution must verify");
        states.push(after);
        pubkeys.push(pubkey);
    }
    phase1::verify_chain(&states, &pubkeys).expect("the whole phase 1 chain must verify");
    let parts = bridge::from_phase1(states.last().unwrap(), &m)
        .expect("bridging phase 1 output for a real circuit must succeed");
    let mut params = MPCParameters::new_placeholder(parts);
    let before = clone_params(&params);
    params.contribute().expect("phase 2 contribution on bridged parameters must succeed");
    before.verify(&params).unwrap();
    assert!(proof_round_trip(&parts_to_key(&params.params)));
}

#[test]
fn from_phase1_refuses_a_small_accumulator() {
    let m = matrices(Square { w: Fr::from(0u64) });
    let domain_size = required_domain_size(m.num_constraints, m.num_instance_variables);
    let acc = Accumulator::new(domain_size - 1);
    match bridge::from_phase1(&acc, &m) {
        Err(BridgeError::AccumulatorTooSmall { needed, have }) => {
            assert_eq!(needed, domain_size);
            assert_eq!(have, domain_size - 1);
        }
        _ => panic!("a small accumulator must be refused"),
    }
}

#[test]
fn lagrange_tables_match_the_key() {
    let m = matrices(Square { w: Fr::from(0u64) });
    let domain_size = required_domain_size(m.num_constraints, m.num_instance_variables);
    let acc = Accumulator::new(domain_size);
    let (a, _c, _beta_a, _alpha_b, nc, ni) = bridge::debug_lagrange_tables(&acc, &m).unwrap();
    let parts = bridge::from_phase1(&acc, &m).unwrap();
    assert_eq!(nc, m.num_constraints);
    assert_eq!(ni, m.num_instance_variables);
    assert_eq!(a, parts.a_query);
}

#[test]
fn bridge_error_messages() {
    assert_eq!(
        BridgeError::DomainTooSmall.to_string(),
        "could not construct an evaluation domain of the required size"
    );
    assert_eq!(
        BridgeError::AccumulatorTooSmall { needed: 2048, have: 1024 }.to_string(),
        "Phase 1 accumulator is too small for this circuit: need degree 2048, have 1024"
    );
    let s = BridgeError::Synthesis(SynthesisError::AssignmentMissing).to_string();
    assert!(s.starts_with("constraint synthesis error: "));
}

#[test]
fn accepted_transcript_is_chained_to_earlier_contributions() {
    let mut params = placeholder(&mut OsRng);
    params.contribute().unwrap();
    params.contribute().unwrap();
    let k = params.contributions[1];
    assert_eq!(k.transcript, hash_cs_pubkeys(&params.cs_hash, &params.contributions[..1], &k.s, &k.s_delta));
    // Reordering the chain breaks it.
    let swapped = vec![params.contributions[1], params.contributions[0]];
    assert!(umbra_exchange::phase2::verify_transcript(&params.cs_hash, &swapped).is_err());
}

#[test]
fn circuit_fingerprint_is_sha512_of_the_matrices() {
    let m = matrices(Square { w: Fr::from(0u64) });
    let mut hasher = sha2::Sha512::new();
    for matrix in [&m.a, &m.b, &m.c] {
        hasher.update((matrix.len() as u64).to_le_bytes());
        for row in matrix {
            hasher.update((row.len() as u64).to_le_bytes());
            for (coeff, index) in row {
                hasher.update((*index as u64).to_le_bytes());
                hasher.update(coeff);
            }
        }
    }
    let expected: [u8; 64] = hasher.finalize().into();
    assert_eq!(bridge::circuit_fingerprint(&m), expected);
    let other = matrices(Square { w: Fr::from(3u64) });
    assert_eq!(bridge::circuit_fingerprint(&other), expected, "the witness does not change the shape");
}

#[test]
fn verify_refuses_other_than_one_more_contribution() {
    let a = placeholder(&mut OsRng);
    let mut b1 = clone_params(&a);
    b1.contribute().unwrap();
    let mut b2 = clone_params(&b1);
    b2.contribute().unwrap();
    match a.verify(&b2) {
        Err(umbra_exchange::ceremony::CeremonyError::BrokenInvariant(w)) => assert_eq!(w, "prior contributions"),
        other => panic!("two added contributions must be refused, got {:?}", other.map(|v| v.len())),
    }
    match b2.verify(&b1) {
        Err(umbra_exchange::ceremony::CeremonyError::BrokenInvariant(w)) => assert_eq!(w, "prior contributions"),
        other => panic!("an earlier state must be refused, got {:?}", other.map(|v| v.len())),
    }
    assert!(b1.verify(&b2).is_ok());
}

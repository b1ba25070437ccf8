use ark_bn254::{Bn254, Fr, G1Affine, G2Affine};
use ark_groth16::Groth16;
use ark_relations::r1cs::{ConstraintSynthesizer, ConstraintSystemRef, LinearCombination, SynthesisError};
use ark_snark::SNARK;
use blake2::{Blake2b512, Digest};
use ark_ec::AffineRepr;
use ark_serialize::CanonicalSerialize;
use umbra_exchange::ceremony::{
    check_accumulator_size, decode_public_key, ensure_same_length, ensure_unchanged, hash_cs_pubkeys, leak,
    read_parameters, required_domain_size, write_parameters, BridgeError, CeremonyError, PublicKey, RatioMismatch,
};

/// A one-constraint circuit, used to get a real proving key.
struct One;

impl ConstraintSynthesizer<Fr> for One {
    fn generate_constraints(self, cs: ConstraintSystemRef<Fr>) -> Result<(), SynthesisError> {
        let v = cs.new_input_variable(|| Ok(Fr::from(1u64)))?;
        cs.enforce_constraint(
            LinearCombination::zero() + v,
            LinearCombination::zero() + v,
            LinearCombination::zero() + v,
        )?;
        Ok(())
    }
}

fn g1() -> [u8; 32] {
    let mut b = Vec::new();
    G1Affine::generator().serialize_compressed(&mut b).unwrap();
    b.try_into().unwrap()
}

fn g2() -> [u8; 64] {
    let mut b = Vec::new();
    G2Affine::generator().serialize_compressed(&mut b).unwrap();
    b.try_into().unwrap()
}

fn key(t: u8) -> PublicKey {
    PublicKey { delta_after: g1(), s: g1(), s_delta: g1(), r_delta: g2(), transcript: [t; 64] }
}

#[test]
fn invariant_checks() {
    assert!(ensure_unchanged(1u32, 1u32, "x").is_ok());
    match ensure_unchanged(1u32, 2u32, "delta_g1") {
        Err(CeremonyError::BrokenInvariant(w)) => assert_eq!(w, "delta_g1"),
        other => panic!("unexpected {other:?}"),
    }
    assert!(ensure_same_length(&[1, 2], &["a", "b"]).is_ok());
    assert!(matches!(ensure_same_length(&[1], &[1u8, 2]), Err(CeremonyError::InvalidLength)));
    assert_eq!(leak("H_query ratio"), "H_query ratio");
}

#[test]
fn error_messages() {
    assert_eq!(CeremonyError::NoContributions.to_string(), "no contributions found");
    assert_eq!(CeremonyError::InvalidLength.to_string(), "query length mismatch between before/after");
    assert_eq!(
        CeremonyError::BrokenInvariant("cs_hash").to_string(),
        "broken invariant: cs_hash must not change between contributions"
    );
    assert_eq!(CeremonyError::Ratio("L_query ratio").to_string(), "ratio check failed: L_query ratio");
    assert_eq!(CeremonyError::Serialization("x".to_string()).to_string(), "serialization error: x");
}

#[test]
fn domain_sizes_are_powers_of_two() {
    assert_eq!(required_domain_size(5, 3), 8);
    assert_eq!(required_domain_size(8, 0), 8);
    assert_eq!(required_domain_size(0, 0), 1);
    assert_eq!(required_domain_size(1 << 28, 0), 1 << 28);
    assert_eq!(required_domain_size((1 << 28) + 1, 0), 0);
}

#[test]
fn accumulator_size_check() {
    assert!(check_accumulator_size(15, 8, 8).is_ok());
    match check_accumulator_size(14, 8, 8) {
        Err(BridgeError::AccumulatorTooSmall { needed, have }) => {
            assert_eq!(needed, 8);
            assert_eq!(have, 8);
        }
        other => panic!("unexpected {other:?}"),
    }
    assert!(check_accumulator_size(100, 7, 8).is_err());
}

#[test]
fn public_keys_round_trip() {
    let k = key(9);
    let b = k.to_bytes();
    assert_eq!(b.len(), 224);
    assert_eq!(decode_public_key(&b).unwrap(), k);
    assert!(matches!(decode_public_key(&b[..223]), Err(CeremonyError::Serialization(_))));
    let mut longer = b.clone();
    longer.push(0);
    match decode_public_key(&longer) {
        Err(CeremonyError::Serialization(m)) => assert_eq!(m, "malformed PublicKey transcript length"),
        other => panic!("unexpected {other:?}"),
    }
    let mut bad = b.clone();
    for x in bad.iter_mut().take(32) {
        *x = 0xff;
    }
    assert!(decode_public_key(&bad).is_err());
    // A buffer cut inside a point gets the point reader's own error.
    match decode_public_key(&b[..100]) {
        Err(CeremonyError::Serialization(m)) => {
            assert_ne!(m, "malformed PublicKey transcript length");
            assert!(m.starts_with("I/O error"));
        }
        other => panic!("unexpected {other:?}"),
    }
}

#[test]
fn transcript_hash_depends_on_prior_contributions() {
    let cs = [0u8; 64];
    let s = g1();
    let empty = hash_cs_pubkeys(&cs, &[], &s, &s);
    let with_prior = hash_cs_pubkeys(&cs, &[key(1)], &s, &s);
    assert_ne!(empty, with_prior);
    assert_eq!(empty, hash_cs_pubkeys(&cs, &[], &s, &s));
    assert_ne!(key(1).hash(), key(2).hash());
    let direct: Vec<u8> = Blake2b512::digest(key(1).to_bytes()).to_vec();
    assert_eq!(key(1).hash().to_vec(), direct);
    let mut chained = Blake2b512::new();
    chained.update(cs);
    chained.update(key(1).to_bytes());
    chained.update(s);
    chained.update(s);
    assert_eq!(with_prior.to_vec(), chained.finalize().to_vec());
    assert_eq!(RatioMismatch("H_query ratio").to_string(), "ratio check failed: H_query ratio");
}

#[test]
fn stored_parameters_round_trip() {
    let (pk, _) = Groth16::<Bn254>::circuit_specific_setup(One, &mut rand::rngs::OsRng).unwrap();
    let mut pk_bytes = Vec::new();
    pk.serialize_compressed(&mut pk_bytes).unwrap();

    let cs_hash = [7u8; 64];
    let keys = vec![key(1), key(2)];
    let stored = write_parameters(&pk_bytes, &cs_hash, &keys);
    assert_eq!(stored.len(), pk_bytes.len() + 64 + 4 + 2 * (4 + 224));
    let back = read_parameters(&stored).unwrap();
    assert_eq!(back.proving_key, pk_bytes);
    assert_eq!(back.cs_hash, cs_hash);
    assert_eq!(back.contributions, keys);

    let truncated = &stored[..stored.len() - 1];
    assert!(matches!(read_parameters(truncated), Err(CeremonyError::Serialization(_))));
    assert!(read_parameters(&[1, 2, 3]).is_err());
}

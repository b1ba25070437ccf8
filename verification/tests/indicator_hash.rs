use ark_bn254::Fr;
use ark_crypto_primitives::crh::poseidon::TwoToOneCRH;
use ark_crypto_primitives::crh::TwoToOneCRHScheme;
use ark_crypto_primitives::sponge::poseidon::PoseidonConfig;
use ark_ff::{BigInteger, PrimeField};
use light_poseidon::parameters::bn254_x5::get_poseidon_parameters;
use umbra_exchange::indicator::{indicator_hash_from_raw, normalize_indicator};
use umbra_exchange::poseidon::{merkle_node_config, three_input_config};

#[test]
fn same_string_hashes_the_same() {
    assert_eq!(indicator_hash_from_raw("evil.example"), indicator_hash_from_raw("evil.example"));
}

#[test]
fn normalization_makes_case_and_whitespace_irrelevant() {
    assert_eq!(indicator_hash_from_raw("Evil.Example"), indicator_hash_from_raw("  evil.example  "));
}

#[test]
fn different_strings_hash_differently() {
    assert_ne!(indicator_hash_from_raw("evil.example"), indicator_hash_from_raw("evil2.example"));
}

#[test]
fn prefix_strings_do_not_collide() {
    assert_ne!(indicator_hash_from_raw("ab"), indicator_hash_from_raw("a"));
    assert_ne!(indicator_hash_from_raw("ab"), indicator_hash_from_raw("abc"));
}

#[test]
fn long_strings_spanning_multiple_chunks_do_not_panic_and_differ() {
    let a = "a".repeat(100);
    let b = format!("{a}b");
    assert_ne!(indicator_hash_from_raw(&a), indicator_hash_from_raw(&b));
}

#[test]
fn empty_string_does_not_panic() {
    let _ = indicator_hash_from_raw("");
}

#[test]
fn configs_build_without_panicking_and_have_expected_shape() {
    let node_cfg = merkle_node_config();
    assert_eq!(node_cfg.rate, 2);
    assert_eq!(node_cfg.capacity, 1);
    assert_eq!(node_cfg.ark.len(), node_cfg.full_rounds + node_cfg.partial_rounds);
    assert!(node_cfg.ark.iter().all(|row| row.len() == 3));
    assert_eq!(node_cfg.mds.len(), 3);

    let three_cfg = three_input_config();
    assert_eq!(three_cfg.rate, 3);
    assert_eq!(three_cfg.capacity, 1);
    assert_eq!(three_cfg.ark.len(), three_cfg.full_rounds + three_cfg.partial_rounds);
    assert!(three_cfg.ark.iter().all(|row| row.len() == 4));
    assert_eq!(three_cfg.mds.len(), 4);
}

// ---------------------------------------------------------------------------

#[test]
fn normalization_trims_and_lowercases() {
    assert_eq!(normalize_indicator("  EVIL.Example\t\n"), "evil.example");
    assert_eq!(normalize_indicator(""), "");
}

#[test]
fn round_counts_are_the_standard_ones() {
    let node_cfg = merkle_node_config();
    assert_eq!(node_cfg.full_rounds, 8);
    assert_eq!(node_cfg.partial_rounds, 57);
    assert_eq!(node_cfg.alpha, 5);
    let three_cfg = three_input_config();
    assert_eq!(three_cfg.full_rounds, 8);
    assert_eq!(three_cfg.partial_rounds, 56);
}

#[test]
fn hash_matches_the_chunked_poseidon_construction() {
    let p = get_poseidon_parameters::<Fr>(3).unwrap();
    let ark: Vec<Vec<Fr>> = p.ark.chunks(3).map(|c| c.to_vec()).collect();
    let cfg = PoseidonConfig {
        full_rounds: p.full_rounds,
        partial_rounds: p.partial_rounds,
        alpha: p.alpha,
        ark,
        mds: p.mds,
        rate: 2,
        capacity: 1,
    };
    let raw = "x".repeat(40);
    let bytes = raw.as_bytes();
    let mut acc = Fr::from(0u64);
    for chunk in bytes.chunks(31) {
        let c = Fr::from_le_bytes_mod_order(chunk);
        acc = TwoToOneCRH::<Fr>::compress(&cfg, acc, c).unwrap();
    }
    let expected = TwoToOneCRH::<Fr>::compress(&cfg, acc, Fr::from(bytes.len() as u64)).unwrap();
    let got = indicator_hash_from_raw(&format!(" {} ", raw.to_uppercase()));
    assert_eq!(got.to_bytes().to_vec(), expected.into_bigint().to_bytes_le());
}

#[test]
fn trimming_matches_std_white_space() {
    for code in 0u32..0x3100 {
        if let Some(c) = char::from_u32(code) {
            let s = format!("{c}a{c}");
            assert_eq!(umbra_exchange::text::trim_str(&s), s.trim(), "U+{code:04X}");
        }
    }
}

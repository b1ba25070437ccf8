use ark_serialize::CanonicalSerialize;
use umbra_exchange::encoding::{fr_from_hex, fr_to_hex, proof_from_bytes, proof_from_hex, proof_to_hex, vk_from_bytes, EncodingError};
use umbra_exchange::field::fr_from_u64;

#[test]
fn field_elements_round_trip_through_hex() {
    let x = fr_from_u64(0x0102);
    let h = fr_to_hex(&x);
    assert_eq!(h, format!("0201{}", "00".repeat(30)));
    assert_eq!(fr_from_hex(&h).unwrap(), x);
    assert_eq!(fr_from_hex(&format!("  {}\n", h.to_uppercase())).unwrap(), x);
}

#[test]
fn field_element_errors() {
    assert_eq!(fr_from_hex("xyz").unwrap_err().0, "field element is not valid hex");
    assert_eq!(fr_from_hex("abc").unwrap_err().0, "field element is not valid hex");
    assert_eq!(fr_from_hex("00").unwrap_err().0, "bytes are not a valid BN254 field element");
    assert_eq!(fr_from_hex(&"ff".repeat(32)).unwrap_err().0, "bytes are not a valid BN254 field element");
    // bytes after the first 32 are not read
    let x = fr_from_u64(5);
    assert_eq!(fr_from_hex(&format!("{}abcd", fr_to_hex(&x))).unwrap(), x);
    assert_eq!(EncodingError("x").to_string(), "encoding error: x");
}

#[test]
fn proofs_and_keys_must_decode() {
    assert_eq!(proof_from_hex("zz").unwrap_err().0, "proof is not valid hex");
    assert_eq!(proof_from_hex("00").unwrap_err().0, "bytes are not a valid Groth16 proof");
    assert_eq!(proof_from_bytes(vec![1, 2, 3]).unwrap_err().0, "bytes are not a valid Groth16 proof");
    assert_eq!(vk_from_bytes(&[0u8; 3]).unwrap_err().0, "bytes are not a valid Groth16 verifying key");

    let mut bytes = Vec::new();
    ark_groth16::Proof::<ark_bn254::Bn254>::default().serialize_compressed(&mut bytes).unwrap();
    let p = proof_from_bytes(bytes.clone()).unwrap();
    assert_eq!(proof_to_hex(&p), hex::encode(&bytes));
    let q = proof_from_hex(&hex::encode(&bytes)).unwrap();
    assert_eq!(proof_to_hex(&q), proof_to_hex(&p));
    assert_eq!(umbra_exchange::encoding::proof_to_bytes(&p), bytes);
}

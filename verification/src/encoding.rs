//! Wire encoding for the relay's JSON API.
//!
//! Field elements, Groth16 proofs and verifying keys travel as the hex of
//! their canonical compressed `ark-serialize` encoding. Proofs and keys are
//! held here as those bytes, checked once to decode.

use vstd::prelude::*;
use ark_bn254::{Bn254, Fr};
use ark_groth16::{Groth16, Proof, VerifyingKey};
use ark_serialize::CanonicalDeserialize;
use ark_snark::SNARK;
use ark_ff::PrimeField;
use crate::field::{FieldElement, fr_deserialize, le_value, fr_modulus};
use crate::indicator_kind::is_hex_digit;
use crate::poseidon::{values, all_wf};
use crate::text::{digits, hex_digit, hexadecimal, trim_str, trimmed, make_string, push_str};

verus! {

/// Lowercase hex of `b`, two digits per byte, high nibble first.
pub open spec fn hex_of_bytes(b: Seq<u8>) -> Seq<char>
    decreases b.len(),
{
    if b.len() == 0 {
        Seq::empty()
    } else {
        hex_of_bytes(b.drop_last()) + hexadecimal(b.last() as nat, 2)
    }
}

/// The value of a hex digit (either case).
pub open spec fn nibble(c: char) -> nat {
    if '0' <= c && c <= '9' {
        (c as nat - '0' as nat) as nat
    } else if 'a' <= c && c <= 'f' {
        (c as nat - 'a' as nat + 10) as nat
    } else {
        (c as nat - 'A' as nat + 10) as nat
    }
}

/// Every character is a hex digit.
pub open spec fn all_hex(s: Seq<char>) -> bool {
    forall|i: int| 0 <= i < s.len() ==> is_hex_digit(#[trigger] s[i])
}

/// The bytes a hex text stands for: defined for an even number of hex
/// digits of either case, each pair one byte, high nibble first.
pub open spec fn hex_decoded(s: Seq<char>) -> Option<Seq<u8>> {
    if s.len() % 2 == 0 && all_hex(s) {
        Some(Seq::new(s.len() / 2, |i: int| (nibble(s[2 * i]) * 16 + nibble(s[2 * i + 1])) as u8))
    } else {
        None
    }
}

/// Calls `hex::encode`: each byte becomes two lowercase hex digits, high
/// nibble first.
#[verifier::external_body]
fn hex_encode(bytes: &[u8]) -> (s: String)
    ensures
        s@ == hex_of_bytes(bytes@),
{
    hex::encode(bytes)
}

/// Calls `hex::decode`: it accepts exactly an even number of hex digits of
/// either case (any other byte, so any non-ASCII character, is refused)
/// and gives one byte per pair.
#[verifier::external_body]
fn hex_decode(s: &str) -> (r: Option<Vec<u8>>)
    ensures
        match r {
            Some(v) => hex_decoded(s@) == Some(v@),
            None => hex_decoded(s@) is None,
        },
{
    match hex::decode(s) {
        Ok(v) => Some(v),
        Err(_) => None,
    }
}

/// A malformed wire value, with what was wrong with it.
#[derive(Debug, Clone, Copy)]
pub struct EncodingError(pub &'static str);

impl EncodingError {
    /// The message shown for this error.
    pub fn to_string(&self) -> (s: String)
        ensures
            s@ == "encoding error: "@ + self.0@,
    {
        let mut s = make_string("encoding error: ");
        push_str(&mut s, self.0);
        s
    }
}

/// Hex of the canonical encoding of a field element.
pub fn fr_to_hex(value: &FieldElement) -> (s: String)
    ensures
        s@ == hex_of_bytes(value@),
{
    let b = value.to_bytes();
    hex_encode(&b)
}

/// What `fr_from_hex` gives for a text: the trimmed text must be hex, and its
/// bytes must hold at least 32 bytes whose first 32 are a canonical element.
pub open spec fn fr_from_hex_spec(s: Seq<char>) -> Result<Seq<u8>, Seq<char>> {
    match hex_decoded(trimmed(s)) {
        None => Err("field element is not valid hex"@),
        Some(b) => if b.len() >= 32 && le_value(b.take(32)) < fr_modulus() {
            Ok(b.take(32))
        } else {
            Err("bytes are not a valid BN254 field element"@)
        },
    }
}

/// Parses a hex field element (surrounding whitespace is ignored).
pub fn fr_from_hex(s: &str) -> (r: Result<FieldElement, EncodingError>)
    ensures
        match r {
            Ok(f) => f.wf() && fr_from_hex_spec(s@) == Ok::<Seq<u8>, Seq<char>>(f@),
            Err(e) => fr_from_hex_spec(s@) == Err::<Seq<u8>, Seq<char>>(e.0@),
        },
{
    let t = trim_str(s);
    match hex_decode(t) {
        None => {
            proof { reveal_strlit("field element is not valid hex"); }
            Err(EncodingError("field element is not valid hex"))
        },
        Some(bytes) => match fr_deserialize(bytes.as_slice()) {
            Some(f) => Ok(f),
            None => {
                proof { reveal_strlit("bytes are not a valid BN254 field element"); }
                Err(EncodingError("bytes are not a valid BN254 field element"))
            },
        },
    }
}

/// Whether `bytes` start with the compressed encoding of a BN254 Groth16 proof.
pub uninterp spec fn proof_decodes(bytes: Seq<u8>) -> bool;

/// Whether `bytes` start with the compressed encoding of a BN254 Groth16
/// verifying key.
pub uninterp spec fn vk_decodes(bytes: Seq<u8>) -> bool;

/// What `Groth16::<Bn254>::verify` answers for a key, public inputs and a
/// proof: `None` where it errors.
pub uninterp spec fn groth16_verdict(vk: Seq<u8>, inputs: Seq<nat>, proof: Seq<u8>) -> Option<bool>;

/// Calls `Proof::<Bn254>::deserialize_compressed` and reports whether it
/// succeeded.
#[verifier::external_body]
fn decodes_as_proof(bytes: &[u8]) -> (b: bool)
    ensures
        b == proof_decodes(bytes@),
{
    Proof::<Bn254>::deserialize_compressed(bytes).is_ok()
}

/// Calls `VerifyingKey::<Bn254>::deserialize_compressed` and reports
/// whether it succeeded.
#[verifier::external_body]
fn decodes_as_vk(bytes: &[u8]) -> (b: bool)
    ensures
        b == vk_decodes(bytes@),
{
    VerifyingKey::<Bn254>::deserialize_compressed(bytes).is_ok()
}

/// A Groth16 proof over BN254, held as bytes that decode as one.
#[derive(Debug, Clone)]
pub struct Groth16Proof {
    bytes: Vec<u8>,
}

impl View for Groth16Proof {
    type V = Seq<u8>;

    closed spec fn view(&self) -> Seq<u8> {
        self.bytes@
    }
}

impl Groth16Proof {
    /// The bytes decode as a proof.
    pub open spec fn wf(&self) -> bool {
        proof_decodes(self@)
    }
}

/// A Groth16 verifying key over BN254, held as bytes that decode as one.
#[derive(Debug, Clone)]
pub struct Groth16VerifyingKey {
    bytes: Vec<u8>,
}

impl View for Groth16VerifyingKey {
    type V = Seq<u8>;

    closed spec fn view(&self) -> Seq<u8> {
        self.bytes@
    }
}

impl Groth16VerifyingKey {
    /// The bytes decode as a verifying key.
    pub open spec fn wf(&self) -> bool {
        vk_decodes(self@)
    }
}

/// The proof encoded by `bytes`, if they decode as one.
pub fn proof_from_bytes(bytes: Vec<u8>) -> (r: Result<Groth16Proof, EncodingError>)
    ensures
        match r {
            Ok(p) => p.wf() && p@ == bytes@,
            Err(e) => !proof_decodes(bytes@) && e.0@ == "bytes are not a valid Groth16 proof"@,
        },
{
    if decodes_as_proof(bytes.as_slice()) {
        Ok(Groth16Proof { bytes })
    } else {
        Err(EncodingError("bytes are not a valid Groth16 proof"))
    }
}

/// The bytes of a proof.
pub fn proof_to_bytes(proof: &Groth16Proof) -> (b: Vec<u8>)
    ensures
        b@ == proof@,
{
    proof.bytes.clone()
}

/// Hex of a proof's encoding.
pub fn proof_to_hex(proof: &Groth16Proof) -> (s: String)
    ensures
        s@ == hex_of_bytes(proof@),
{
    hex_encode(proof.bytes.as_slice())
}

/// What `proof_from_hex` gives for a text.
pub open spec fn proof_from_hex_spec(s: Seq<char>) -> Result<Seq<u8>, Seq<char>> {
    match hex_decoded(trimmed(s)) {
        None => Err("proof is not valid hex"@),
        Some(b) => if proof_decodes(b) { Ok(b) } else { Err("bytes are not a valid Groth16 proof"@) },
    }
}

/// Parses a hex proof (surrounding whitespace is ignored).
pub fn proof_from_hex(s: &str) -> (r: Result<Groth16Proof, EncodingError>)
    ensures
        match r {
            Ok(p) => p.wf() && proof_from_hex_spec(s@) == Ok::<Seq<u8>, Seq<char>>(p@),
            Err(e) => proof_from_hex_spec(s@) == Err::<Seq<u8>, Seq<char>>(e.0@),
        },
{
    let t = trim_str(s);
    match hex_decode(t) {
        None => {
            proof { reveal_strlit("proof is not valid hex"); }
            Err(EncodingError("proof is not valid hex"))
        },
        Some(bytes) => {
            proof { reveal_strlit("bytes are not a valid Groth16 proof"); }
            proof_from_bytes(bytes)
        },
    }
}

/// The bytes of a verifying key.
pub fn vk_to_bytes(vk: &Groth16VerifyingKey) -> (b: Vec<u8>)
    ensures
        b@ == vk@,
{
    vk.bytes.clone()
}

/// The verifying key encoded by `bytes`, if they decode as one.
pub fn vk_from_bytes(bytes: &[u8]) -> (r: Result<Groth16VerifyingKey, EncodingError>)
    ensures
        match r {
            Ok(vk) => vk.wf() && vk@ == bytes@,
            Err(e) => !vk_decodes(bytes@) && e.0@ == "bytes are not a valid Groth16 verifying key"@,
        },
{
    if decodes_as_vk(bytes) {
        Ok(Groth16VerifyingKey { bytes: vstd::slice::slice_to_vec(bytes) })
    } else {
        proof { reveal_strlit("bytes are not a valid Groth16 verifying key"); }
        Err(EncodingError("bytes are not a valid Groth16 verifying key"))
    }
}

/// Calls `Groth16::<Bn254>::verify` on the decoded key and proof and the
/// public inputs; `None` where it errors.
#[verifier::external_body]
pub(crate) fn groth16_verify(vk: &Groth16VerifyingKey, inputs: &Vec<FieldElement>, proof: &Groth16Proof) -> (r: Option<bool>)
    requires
        vk.wf(),
        proof.wf(),
        all_wf(inputs@),
    ensures
        r == groth16_verdict(vk@, values(inputs@), proof@),
{
    let key = VerifyingKey::<Bn254>::deserialize_compressed(&vk.bytes[..]).ok()?;
    let p = Proof::<Bn254>::deserialize_compressed(&proof.bytes[..]).ok()?;
    let xs: Vec<Fr> = inputs.iter().map(|f| Fr::from_le_bytes_mod_order(&f.bytes)).collect();
    Groth16::<Bn254>::verify(&key, &xs, &p).ok()
}


// ---------------------------------------------------------------------------
// Laws

proof fn lemma_hex_byte(n: nat)
    requires
        n < 256,
    ensures
        hexadecimal(n, 2) == seq![hex_digit(n / 16), hex_digit(n % 16)],
        is_hex_digit(hex_digit(n / 16)),
        is_hex_digit(hex_digit(n % 16)),
        nibble(hex_digit(n / 16)) * 16 + nibble(hex_digit(n % 16)) == n,
{
    reveal_with_fuel(digits, 3);
    assert(hexadecimal(n, 2) =~= seq![hex_digit(n / 16), hex_digit(n % 16)]);
    lemma_digit(n / 16);
    lemma_digit(n % 16);
}

proof fn lemma_digit(d: nat)
    requires
        d < 16,
    ensures
        is_hex_digit(hex_digit(d)),
        nibble(hex_digit(d)) == d,
{
    if d < 10 {
        assert(('0' as nat + d) as char as nat == '0' as nat + d);
    } else {
        assert(('a' as nat + d - 10) as char as nat == 'a' as nat + d - 10);
    }
}

proof fn lemma_hex_of_bytes(b: Seq<u8>)
    ensures
        hex_of_bytes(b).len() == 2 * b.len(),
        all_hex(hex_of_bytes(b)),
        forall|k: int| 0 <= k < b.len() ==>
            nibble(#[trigger] hex_of_bytes(b)[2 * k]) * 16 + nibble(hex_of_bytes(b)[2 * k + 1]) == b[k],
    decreases b.len(),
{
    if b.len() > 0 {
        let p = b.drop_last();
        lemma_hex_of_bytes(p);
        lemma_hex_byte(b.last() as nat);
        let h = hex_of_bytes(b);
        let hp = hex_of_bytes(p);
        assert(h == hp + hexadecimal(b.last() as nat, 2));
        assert forall|k: int| 0 <= k < b.len() implies
            nibble(#[trigger] h[2 * k]) * 16 + nibble(h[2 * k + 1]) == b[k] by {
            if k < p.len() {
                assert(h[2 * k] == hp[2 * k]);
                assert(h[2 * k + 1] == hp[2 * k + 1]);
                assert(p[k] == b[k]);
            } else {
                assert(h[2 * k] == hex_digit(b.last() as nat / 16));
                assert(h[2 * k + 1] == hex_digit(b.last() as nat % 16));
            }
        }
        assert forall|i: int| 0 <= i < h.len() implies is_hex_digit(#[trigger] h[i]) by {
            if i < hp.len() {
                assert(h[i] == hp[i]);
            }
        }
    }
}

/// Decoding the hex that `hex::encode` writes for some bytes gives those
/// bytes back: the wire encoding of every value round-trips.
pub proof fn law_hex_round_trip(b: Seq<u8>)
    ensures
        hex_decoded(hex_of_bytes(b)) == Some(b),
{
    lemma_hex_of_bytes(b);
    let h = hex_of_bytes(b);
    assert(h.len() % 2 == 0);
    let d = Seq::new(h.len() / 2, |i: int| (nibble(h[2 * i]) * 16 + nibble(h[2 * i + 1])) as u8);
    assert forall|k: int| 0 <= k < b.len() implies d[k] == b[k] by {
        assert(nibble(h[2 * k]) * 16 + nibble(h[2 * k + 1]) == b[k]);
    }
    assert(d =~= b);
}

/// A canonical field element's hex decodes to the element itself.
pub proof fn law_field_element_hex_round_trip(f: FieldElement)
    requires
        f.wf(),
    ensures
        hex_decoded(hex_of_bytes(f@)) == Some(f@),
        f@.take(32) == f@,
        le_value(f@.take(32)) < fr_modulus(),
{
    law_hex_round_trip(f@);
    assert(f@.take(32) =~= f@);
}

} // verus!

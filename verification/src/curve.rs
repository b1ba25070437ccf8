//! BN254 points and scalars as their canonical compressed encodings (32
//! bytes for a G1 point, 64 for a G2 point, 32 little-endian bytes for a
//! scalar), and the arkworks operations the setup ceremony performs on them.

use vstd::prelude::*;
use ark_bn254::{Bn254, Fr, G1Affine, G1Projective, G2Affine};
use ark_ec::pairing::Pairing;
use ark_ec::{AffineRepr, CurveGroup};
use ark_ff::{BigInteger, Field, PrimeField, UniformRand};
use ark_serialize::{CanonicalDeserialize, CanonicalSerialize};
use rand::rngs::OsRng;
use rand::RngCore;
use rand_chacha::rand_core::SeedableRng;
use rand_chacha::ChaChaRng;
use crate::field::{le_value, fr_modulus};

verus! {

/// The compressed encoding of the G1 generator `(1, 2)`.
pub const G1_GENERATOR: [u8; 32] = [
    1, 0, 0, 0, 0, 0, 0, 0, 0, 0, 0, 0, 0, 0, 0, 0, 0, 0, 0, 0, 0, 0, 0, 0, 0, 0, 0, 0, 0, 0, 0, 0,
];

/// The compressed encoding of the G2 generator.
pub const G2_GENERATOR: [u8; 64] = [
    237, 246, 146, 217, 92, 189, 222, 70, 221, 218, 94, 247, 212, 34, 67, 103, 121, 68, 92, 94, 102, 0, 106, 66,
    118, 30, 31, 18, 239, 222, 0, 24, 194, 18, 243, 174, 183, 133, 228, 151, 18, 231, 169, 53, 51, 73, 170, 241,
    37, 93, 251, 49, 183, 191, 96, 114, 58, 72, 13, 146, 147, 147, 142, 25,
];

/// The compressed encoding of the G1 identity (the point at infinity).
pub const G1_IDENTITY: [u8; 32] = [
    0, 0, 0, 0, 0, 0, 0, 0, 0, 0, 0, 0, 0, 0, 0, 0, 0, 0, 0, 0, 0, 0, 0, 0, 0, 0, 0, 0, 0, 0, 0, 64,
];

/// The compressed encoding of the G2 identity (the point at infinity).
pub const G2_IDENTITY: [u8; 64] = [
    0, 0, 0, 0, 0, 0, 0, 0, 0, 0, 0, 0, 0, 0, 0, 0, 0, 0, 0, 0, 0, 0, 0, 0, 0, 0, 0, 0, 0, 0, 0, 0,
    0, 0, 0, 0, 0, 0, 0, 0, 0, 0, 0, 0, 0, 0, 0, 0, 0, 0, 0, 0, 0, 0, 0, 0, 0, 0, 0, 0, 0, 0, 0, 64,
];

/// The scalar one, as 32 little-endian bytes.
pub const FR_ONE: [u8; 32] = [
    1, 0, 0, 0, 0, 0, 0, 0, 0, 0, 0, 0, 0, 0, 0, 0, 0, 0, 0, 0, 0, 0, 0, 0, 0, 0, 0, 0, 0, 0, 0, 0,
];

/// Whether the bytes are the compressed encoding of a valid G1 point.
pub uninterp spec fn g1_decodes(bytes: Seq<u8>) -> bool;

/// Whether the bytes are the compressed encoding of a valid G2 point.
pub uninterp spec fn g2_decodes(bytes: Seq<u8>) -> bool;

/// Whether a G1 point is the identity.
pub uninterp spec fn g1_is_identity(p: Seq<u8>) -> bool;

/// Whether a G2 point is the identity.
pub uninterp spec fn g2_is_identity(p: Seq<u8>) -> bool;

/// A G1 point times a scalar (taken modulo the group order).
pub uninterp spec fn g1_scaled(p: Seq<u8>, s: Seq<u8>) -> Seq<u8>;

/// A G2 point times a scalar (taken modulo the group order).
pub uninterp spec fn g2_scaled(p: Seq<u8>, s: Seq<u8>) -> Seq<u8>;

/// The sum of two G1 points.
pub uninterp spec fn g1_sum(a: Seq<u8>, b: Seq<u8>) -> Seq<u8>;

/// The sum of two G2 points.
pub uninterp spec fn g2_sum(a: Seq<u8>, b: Seq<u8>) -> Seq<u8>;

/// The difference of two G1 points.
pub uninterp spec fn g1_difference(a: Seq<u8>, b: Seq<u8>) -> Seq<u8>;

/// The encoding of the pairing of a G1 and a G2 point.
pub uninterp spec fn pairing_value(g1: Seq<u8>, g2: Seq<u8>) -> Seq<u8>;

/// The product of two scalars.
pub uninterp spec fn fr_product(a: Seq<u8>, b: Seq<u8>) -> Seq<u8>;

/// The inverse of a scalar; `None` for zero.
pub uninterp spec fn fr_inverse(a: Seq<u8>) -> Option<Seq<u8>>;

/// The 128 bytes of the ChaCha20 stream seeded with `seed` that start at
/// word `32 * index` (the `index`-th 128-byte draw).
pub uninterp spec fn chacha_chunk(seed: Seq<u8>, index: nat) -> Seq<u8>;

/// The G2 point `G2Affine::from_random_bytes` reads from 128 bytes, if any.
pub uninterp spec fn g2_from_random_bytes(bytes: Seq<u8>) -> Option<Seq<u8>>;

/// Whether the bytes are the compressed encoding of a point on the G2
/// curve (not necessarily in the prime-order subgroup).
pub uninterp spec fn g2_on_curve(bytes: Seq<u8>) -> bool;

/// A G2 point multiplied by the cofactor, into the prime-order subgroup.
pub uninterp spec fn g2_cofactor_cleared(p: Seq<u8>) -> Seq<u8>;

/// A canonical scalar: 32 bytes whose little-endian value is below the order.
pub open spec fn fr_canonical(s: Seq<u8>) -> bool {
    s.len() == 32 && le_value(s) < fr_modulus()
}

/// The compressed G1 generator, `G1Affine::generator()`.
#[verifier::external_body]
pub(crate) fn g1_generator() -> (r: [u8; 32])
    ensures
        r@ == G1_GENERATOR@,
        g1_decodes(r@),
        !g1_is_identity(r@),
{
    let mut out = [0u8; 32];
    G1Affine::generator().serialize_compressed(&mut out[..]).expect("32 bytes");
    out
}

/// The compressed G2 generator, `G2Affine::generator()`.
#[verifier::external_body]
pub(crate) fn g2_generator() -> (r: [u8; 64])
    ensures
        r@ == G2_GENERATOR@,
        g2_decodes(r@),
        !g2_is_identity(r@),
{
    let mut out = [0u8; 64];
    G2Affine::generator().serialize_compressed(&mut out[..]).expect("64 bytes");
    out
}

/// The compressed G1 identity, `G1Affine::zero()`.
#[verifier::external_body]
pub(crate) fn g1_zero() -> (r: [u8; 32])
    ensures
        r@ == G1_IDENTITY@,
        g1_decodes(r@),
        g1_is_identity(r@),
{
    let mut out = [0u8; 32];
    G1Affine::zero().serialize_compressed(&mut out[..]).expect("32 bytes");
    out
}

/// Calls `G1Affine::deserialize_compressed` (with validation) on the bytes
/// from `at` on, which reads the 32 bytes there; the message on failure
/// (too few bytes, or not a valid point) is ark-serialize's.
#[verifier::external_body]
pub(crate) fn g1_check(bytes: &[u8], at: usize) -> (r: Result<(), String>)
    requires
        at <= bytes@.len(),
    ensures
        r is Ok <==> (at + 32 <= bytes@.len() && g1_decodes(bytes@.subrange(at as int, at + 32))),
{
    match G1Affine::deserialize_compressed(&bytes[at..]) {
        Ok(_) => Ok(()),
        Err(e) => Err(e.to_string()),
    }
}

/// Calls `G2Affine::deserialize_compressed` (with validation) on the bytes
/// from `at` on, which reads the 64 bytes there; the message on failure
/// (too few bytes, or not a valid point) is ark-serialize's.
#[verifier::external_body]
pub(crate) fn g2_check(bytes: &[u8], at: usize) -> (r: Result<(), String>)
    requires
        at <= bytes@.len(),
    ensures
        r is Ok <==> (at + 64 <= bytes@.len() && g2_decodes(bytes@.subrange(at as int, at + 64))),
{
    match G2Affine::deserialize_compressed(&bytes[at..]) {
        Ok(_) => Ok(()),
        Err(e) => Err(e.to_string()),
    }
}

/// The compressed G2 identity, `G2Affine::zero()`.
#[verifier::external_body]
pub(crate) fn g2_zero() -> (r: [u8; 64])
    ensures
        r@ == G2_IDENTITY@,
        g2_decodes(r@),
        g2_is_identity(r@),
{
    let mut out = [0u8; 64];
    G2Affine::zero().serialize_compressed(&mut out[..]).expect("64 bytes");
    out
}

/// Calls `AffineRepr::is_zero` on a decoded G1 point.
#[verifier::external_body]
pub(crate) fn g1_identity(p: &[u8; 32]) -> (b: bool)
    requires
        g1_decodes(p@),
    ensures
        b == g1_is_identity(p@),
{
    G1Affine::deserialize_compressed(&p[..]).map_or(false, |q| q.is_zero())
}

/// Calls `AffineRepr::is_zero` on a decoded G2 point.
#[verifier::external_body]
pub(crate) fn g2_identity(p: &[u8; 64]) -> (b: bool)
    requires
        g2_decodes(p@),
    ensures
        b == g2_is_identity(p@),
{
    G2Affine::deserialize_compressed(&p[..]).map_or(false, |q| q.is_zero())
}

/// Multiplies a decoded G1 point by `Fr::from_le_bytes_mod_order(s)` and
/// compresses the (valid) result.
#[verifier::external_body]
pub(crate) fn g1_mul(p: &[u8; 32], s: &[u8; 32]) -> (r: [u8; 32])
    requires
        g1_decodes(p@),
    ensures
        r@ == g1_scaled(p@, s@),
        g1_decodes(r@),
{
    let q = G1Affine::deserialize_compressed(&p[..]).expect("a valid point");
    let mut out = [0u8; 32];
    (q * Fr::from_le_bytes_mod_order(s)).into_affine().serialize_compressed(&mut out[..]).expect("32 bytes");
    out
}

/// Multiplies a decoded G2 point by `Fr::from_le_bytes_mod_order(s)` and
/// compresses the (valid) result.
#[verifier::external_body]
pub(crate) fn g2_mul(p: &[u8; 64], s: &[u8; 32]) -> (r: [u8; 64])
    requires
        g2_decodes(p@),
    ensures
        r@ == g2_scaled(p@, s@),
        g2_decodes(r@),
{
    let q = G2Affine::deserialize_compressed(&p[..]).expect("a valid point");
    let mut out = [0u8; 64];
    (q * Fr::from_le_bytes_mod_order(s)).into_affine().serialize_compressed(&mut out[..]).expect("64 bytes");
    out
}

/// Adds two decoded G1 points and compresses the (valid) sum.
#[verifier::external_body]
pub(crate) fn g1_add(a: &[u8; 32], b: &[u8; 32]) -> (r: [u8; 32])
    requires
        g1_decodes(a@),
        g1_decodes(b@),
    ensures
        r@ == g1_sum(a@, b@),
        g1_decodes(r@),
{
    let x = G1Affine::deserialize_compressed(&a[..]).expect("a valid point");
    let y = G1Affine::deserialize_compressed(&b[..]).expect("a valid point");
    let mut out = [0u8; 32];
    (x + y).into_affine().serialize_compressed(&mut out[..]).expect("32 bytes");
    out
}

/// Subtracts a decoded G1 point from another and compresses the (valid)
/// difference.
#[verifier::external_body]
pub(crate) fn g1_sub(a: &[u8; 32], b: &[u8; 32]) -> (r: [u8; 32])
    requires
        g1_decodes(a@),
        g1_decodes(b@),
    ensures
        r@ == g1_difference(a@, b@),
        g1_decodes(r@),
{
    let x = G1Affine::deserialize_compressed(&a[..]).expect("a valid point");
    let y = G1Affine::deserialize_compressed(&b[..]).expect("a valid point");
    let mut out = [0u8; 32];
    (x.into_group() - y).into_affine().serialize_compressed(&mut out[..]).expect("32 bytes");
    out
}

/// Adds two decoded G2 points and compresses the (valid) sum.
#[verifier::external_body]
pub(crate) fn g2_add(a: &[u8; 64], b: &[u8; 64]) -> (r: [u8; 64])
    requires
        g2_decodes(a@),
        g2_decodes(b@),
    ensures
        r@ == g2_sum(a@, b@),
        g2_decodes(r@),
{
    let x = G2Affine::deserialize_compressed(&a[..]).expect("a valid point");
    let y = G2Affine::deserialize_compressed(&b[..]).expect("a valid point");
    let mut out = [0u8; 64];
    (x + y).into_affine().serialize_compressed(&mut out[..]).expect("64 bytes");
    out
}

/// Calls `Bn254::pairing` on two decoded points and returns the compressed
/// encoding of the result.
#[verifier::external_body]
pub(crate) fn pairing(g1: &[u8; 32], g2: &[u8; 64]) -> (r: Vec<u8>)
    requires
        g1_decodes(g1@),
        g2_decodes(g2@),
    ensures
        r@ == pairing_value(g1@, g2@),
{
    let x = G1Affine::deserialize_compressed(&g1[..]).expect("a valid point");
    let y = G2Affine::deserialize_compressed(&g2[..]).expect("a valid point");
    let mut out = Vec::new();
    Bn254::pairing(x, y).serialize_compressed(&mut out).expect("serializing cannot fail");
    out
}

/// Multiplies two scalars (each reduced modulo the order) and returns the
/// canonical product.
#[verifier::external_body]
pub(crate) fn fr_mul(a: &[u8; 32], b: &[u8; 32]) -> (r: [u8; 32])
    ensures
        r@ == fr_product(a@, b@),
        fr_canonical(r@),
{
    let x = Fr::from_le_bytes_mod_order(a) * Fr::from_le_bytes_mod_order(b);
    x.into_bigint().to_bytes_le().try_into().expect("32 bytes")
}

/// Calls `Field::inverse` on a scalar (reduced modulo the order); `None`
/// exactly for zero.
#[verifier::external_body]
pub(crate) fn fr_inv(a: &[u8; 32]) -> (r: Option<[u8; 32]>)
    ensures
        match r {
            Some(x) => fr_inverse(a@) == Some(x@) && fr_canonical(x@),
            None => fr_inverse(a@) is None,
        },
{
    let x = Fr::from_le_bytes_mod_order(a).inverse()?;
    Some(x.into_bigint().to_bytes_le().try_into().expect("32 bytes"))
}

/// A uniformly random scalar (`Fr::rand` with `OsRng`), canonical. Nothing
/// is stated of which scalar comes back.
#[verifier::external_body]
pub(crate) fn random_fr() -> (r: [u8; 32])
    ensures
        fr_canonical(r@),
{
    Fr::rand(&mut OsRng).into_bigint().to_bytes_le().try_into().expect("32 bytes")
}

/// A uniformly random G1 point (`G1Projective::rand` with `OsRng`),
/// compressed. Nothing is stated of which point comes back.
#[verifier::external_body]
pub(crate) fn random_g1() -> (r: [u8; 32])
    ensures
        g1_decodes(r@),
{
    let mut out = [0u8; 32];
    G1Projective::rand(&mut OsRng).into_affine().serialize_compressed(&mut out[..]).expect("32 bytes");
    out
}

/// The `index`-th 128-byte draw of `ChaChaRng::from_seed(seed)`: positions
/// the stream at word `32 * index` and fills 128 bytes.
#[verifier::external_body]
pub(crate) fn chacha_draw(seed: &[u8; 32], index: u64) -> (r: [u8; 128])
    ensures
        r@ == chacha_chunk(seed@, index as nat),
{
    let mut rng = ChaChaRng::from_seed(*seed);
    rng.set_word_pos(32 * (index as u128));
    let mut out = [0u8; 128];
    rng.fill_bytes(&mut out);
    out
}

/// Calls `G2Affine::from_random_bytes` and compresses the point it reads, if
/// any (a point read this way is on the curve but maybe outside the
/// prime-order subgroup).
#[verifier::external_body]
pub(crate) fn g2_from_random(bytes: &[u8; 128]) -> (r: Option<[u8; 64]>)
    ensures
        match r {
            Some(p) => g2_from_random_bytes(bytes@) == Some(p@) && g2_on_curve(p@),
            None => g2_from_random_bytes(bytes@) is None,
        },
{
    let p = G2Affine::from_random_bytes(&bytes[..])?;
    let mut out = [0u8; 64];
    p.serialize_compressed(&mut out[..]).expect("64 bytes");
    Some(out)
}

/// Calls `mul_by_cofactor_to_group` on a point read by `g2_from_random` and
/// compresses the (valid) result.
#[verifier::external_body]
pub(crate) fn g2_clear_cofactor(p: &[u8; 64]) -> (r: [u8; 64])
    requires
        g2_on_curve(p@),
    ensures
        r@ == g2_cofactor_cleared(p@),
        g2_decodes(r@),
{
    let q = G2Affine::deserialize_compressed_unchecked(&p[..]).expect("a point on the curve");
    let mut out = [0u8; 64];
    q.mul_by_cofactor_to_group().into_affine().serialize_compressed(&mut out[..]).expect("64 bytes");
    out
}

/// Whether two 32-byte arrays are equal.
pub fn eq32(a: &[u8; 32], b: &[u8; 32]) -> (r: bool)
    ensures
        r == (a@ == b@),
{
    let mut i: usize = 0;
    while i < 32
        invariant
            i <= 32,
            a@.len() == 32,
            b@.len() == 32,
            forall|k: int| 0 <= k < i ==> a@[k] == b@[k],
        decreases 32 - i,
    {
        if a[i] != b[i] {
            return false;
        }
        i = i + 1;
    }
    proof { assert(a@ =~= b@); }
    true
}

/// Whether two 64-byte arrays are equal.
pub fn eq64(a: &[u8; 64], b: &[u8; 64]) -> (r: bool)
    ensures
        r == (a@ == b@),
{
    let mut i: usize = 0;
    while i < 64
        invariant
            i <= 64,
            a@.len() == 64,
            b@.len() == 64,
            forall|k: int| 0 <= k < i ==> a@[k] == b@[k],
        decreases 64 - i,
    {
        if a[i] != b[i] {
            return false;
        }
        i = i + 1;
    }
    proof { assert(a@ =~= b@); }
    true
}

/// Whether two byte vectors are equal.
pub fn eq_bytes(a: &Vec<u8>, b: &Vec<u8>) -> (r: bool)
    ensures
        r == (a@ == b@),
{
    if a.len() != b.len() {
        return false;
    }
    let mut i: usize = 0;
    while i < a.len()
        invariant
            i <= a@.len(),
            a@.len() == b@.len(),
            forall|k: int| 0 <= k < i ==> a@[k] == b@[k],
        decreases a@.len() - i,
    {
        if a[i] != b[i] {
            return false;
        }
        i = i + 1;
    }
    proof { assert(a@ =~= b@); }
    true
}

} // verus!

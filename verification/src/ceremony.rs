//! Plain-value parts of the Groth16 trusted-setup ceremony over BN254: its
//! errors, the invariant checks between two parameter sets, the QAP domain
//! size, the byte layout of a contribution's public key and of stored
//! parameters, and the Blake2b-512 transcript hashes that chain
//! contributions together.
//!
//! Curve points appear here as their canonical compressed encodings (32
//! bytes for G1, 64 for G2), and a proving key as its compressed encoding.

use vstd::prelude::*;
use vstd::std_specs::cmp::PartialEqSpec;
use ark_poly::{EvaluationDomain, Radix2EvaluationDomain};
use ark_relations::r1cs::SynthesisError;
use ark_serialize::CanonicalDeserialize;
use blake2::{Blake2b512, Digest};
use crate::text::{decimal, make_string, push_digits, push_str};
use crate::curve::{g1_decodes, g2_decodes, g1_check, g2_check};
use crate::phase2::{ProvingKeyParts, encodes_key};

verus! {

/// `ark_relations::r1cs::SynthesisError`, carried as is in
/// `BridgeError::Synthesis`; nothing inside it is read.
#[verifier::external_type_specification]
#[verifier::external_body]
pub struct ExSynthesisError(SynthesisError);

/// Why a ceremony step was refused.
#[derive(Debug)]
pub enum CeremonyError {
    NoContributions,
    InvalidLength,
    BrokenInvariant(&'static str),
    Ratio(&'static str),
    Serialization(String),
}

/// The message of a ceremony error.
pub open spec fn ceremony_message(e: CeremonyError) -> Seq<char> {
    match e {
        CeremonyError::NoContributions => "no contributions found"@,
        CeremonyError::InvalidLength => "query length mismatch between before/after"@,
        CeremonyError::BrokenInvariant(what) =>
            "broken invariant: "@ + what@ + " must not change between contributions"@,
        CeremonyError::Ratio(what) => "ratio check failed: "@ + what@,
        CeremonyError::Serialization(e) => "serialization error: "@ + e@,
    }
}

impl CeremonyError {
    /// The message shown for this error.
    pub fn to_string(&self) -> (s: String)
        ensures
            s@ == ceremony_message(*self),
    {
        match self {
            CeremonyError::NoContributions => make_string("no contributions found"),
            CeremonyError::InvalidLength => make_string("query length mismatch between before/after"),
            CeremonyError::BrokenInvariant(what) => {
                let mut s = make_string("broken invariant: ");
                push_str(&mut s, what);
                push_str(&mut s, " must not change between contributions");
                s
            },
            CeremonyError::Ratio(what) => {
                let mut s = make_string("ratio check failed: ");
                push_str(&mut s, what);
                s
            },
            CeremonyError::Serialization(e) => {
                let mut s = make_string("serialization error: ");
                push_str(&mut s, e.as_str());
                s
            },
        }
    }
}

/// A failed ratio check between two pairs of points, naming the check.
#[derive(Debug, Clone, Copy)]
pub struct RatioMismatch(pub &'static str);

impl RatioMismatch {
    /// The message shown for this error.
    pub fn to_string(&self) -> (s: String)
        ensures
            s@ == "ratio check failed: "@ + self.0@,
    {
        let mut s = make_string("ratio check failed: ");
        push_str(&mut s, self.0);
        s
    }
}

/// Refuses with `BrokenInvariant(what)` when `before` and `after` differ.
pub fn ensure_unchanged<T: PartialEq>(before: T, after: T, what: &'static str) -> (r: Result<(), CeremonyError>)
    ensures
        T::obeys_eq_spec() ==> (r is Ok <==> before.eq_spec(&after)),
        r matches Err(e) ==> e == CeremonyError::BrokenInvariant(what),
{
    if before != after {
        return Err(CeremonyError::BrokenInvariant(what));
    }
    Ok(())
}

/// Refuses with `InvalidLength` when the two slices differ in length.
pub fn ensure_same_length<T, U>(a: &[T], b: &[U]) -> (r: Result<(), CeremonyError>)
    ensures
        r is Ok <==> a@.len() == b@.len(),
        r matches Err(e) ==> e == CeremonyError::InvalidLength,
{
    if a.len() != b.len() {
        return Err(CeremonyError::InvalidLength);
    }
    Ok(())
}

/// Passes a ratio check's static message through to `CeremonyError::Ratio`.
pub fn leak(s: &'static str) -> (r: &'static str)
    ensures
        r == s,
{
    s
}

// ---------------------------------------------------------------------------
// QAP domain

/// The 2-adicity of the BN254 scalar field: the largest radix-2 FFT domain
/// has 2^28 points.
pub open spec fn fr_two_adicity() -> nat {
    28
}

/// Whether `n` is a power of two.
pub open spec fn is_power_of_two(n: nat) -> bool
    decreases n,
{
    if n <= 1 {
        n == 1
    } else {
        n % 2 == 0 && is_power_of_two(n / 2)
    }
}

/// The size of a radix-2 domain for `n` coefficients: the least power of two
/// at least `n` (1 for 0), when that is at most 2^28.
pub open spec fn domain_size_for(n: nat, size: nat) -> bool {
    &&& is_power_of_two(size)
    &&& n <= size
    &&& forall|m: nat| #[trigger] is_power_of_two(m) && n <= m ==> size <= m
    &&& size <= vstd::arithmetic::power2::pow2(fr_two_adicity())
}

/// Calls `Radix2EvaluationDomain::<Fr>::compute_size_of_domain`: the least
/// power of two at least `n`, unless it would exceed 2^28 (the field's
/// 2-adicity) or overflow `usize`.
#[verifier::external_body]
pub(crate) fn compute_size_of_domain(n: usize) -> (r: Option<usize>)
    ensures
        match r {
            Some(size) => domain_size_for(n as nat, size as nat),
            None => forall|size: nat| !#[trigger] domain_size_for(n as nat, size),
        },
{
    Radix2EvaluationDomain::<ark_bn254::Fr>::compute_size_of_domain(n)
}

/// The QAP domain size a circuit needs (the radix-2 domain for its
/// constraints plus its instance variables), or 0 when no domain is large
/// enough. A Phase 1 accumulator must have at least this size.
pub fn required_domain_size(num_constraints: usize, num_instance_variables: usize) -> (r: usize)
    requires
        num_constraints + num_instance_variables <= usize::MAX,
    ensures
        r == 0 <==> forall|size: nat| !#[trigger] domain_size_for((num_constraints + num_instance_variables) as nat, size),
        r != 0 ==> domain_size_for((num_constraints + num_instance_variables) as nat, r as nat),
{
    match compute_size_of_domain(num_constraints + num_instance_variables) {
        Some(size) => {
            proof {
                assert(domain_size_for((num_constraints + num_instance_variables) as nat, size as nat));
                if size == 0 {
                    assert(!is_power_of_two(0));
                }
            }
            size
        },
        None => 0,
    }
}

/// Why building Phase 2 parameters from a Phase 1 accumulator failed.
#[derive(Debug)]
pub enum BridgeError {
    Synthesis(SynthesisError),
    DomainTooSmall,
    AccumulatorTooSmall { needed: usize, have: usize },
}

/// Calls `SynthesisError`'s `Display`; nothing is stated of the text.
#[verifier::external_body]
fn synthesis_text(e: &SynthesisError) -> (s: String) {
    e.to_string()
}

/// The message of a bridge error other than a synthesis error.
pub open spec fn bridge_message(e: BridgeError) -> Seq<char> {
    match e {
        BridgeError::Synthesis(_) => "constraint synthesis error: "@,
        BridgeError::DomainTooSmall => "could not construct an evaluation domain of the required size"@,
        BridgeError::AccumulatorTooSmall { needed, have } =>
            "Phase 1 accumulator is too small for this circuit: need degree "@ + decimal(needed as nat, 0) + ", have "@
                + decimal(have as nat, 0),
    }
}

impl BridgeError {
    /// The message shown for this error: for a synthesis error, the fixed
    /// prefix and then arkworks' own text.
    pub fn to_string(&self) -> (s: String)
        ensures
            self is Synthesis ==> s@.len() >= bridge_message(*self).len()
                && s@.subrange(0, bridge_message(*self).len() as int) == bridge_message(*self),
            !(self is Synthesis) ==> s@ == bridge_message(*self),
    {
        match self {
            BridgeError::Synthesis(e) => {
                let mut s = make_string("constraint synthesis error: ");
                let t = synthesis_text(e);
                let ghost head = s@;
                push_str(&mut s, t.as_str());
                proof { assert(s@.subrange(0, head.len() as int) =~= head); }
                s
            },
            BridgeError::DomainTooSmall => make_string("could not construct an evaluation domain of the required size"),
            BridgeError::AccumulatorTooSmall { needed, have } => {
                let mut s = make_string("Phase 1 accumulator is too small for this circuit: need degree ");
                push_digits(&mut s, *needed as u64, 10, 0);
                push_str(&mut s, ", have ");
                push_digits(&mut s, *have as u64, 10, 0);
                s
            },
        }
    }
}

/// Refuses an accumulator with fewer than `domain_size` G2 powers or fewer
/// than `2 * domain_size - 1` G1 powers of tau; `have` reports the G2 count.
pub fn check_accumulator_size(tau_powers_g1: usize, tau_powers_g2: usize, domain_size: usize)
    -> (r: Result<(), BridgeError>)
    requires
        domain_size >= 1,
        tau_powers_g2 >= domain_size ==> 2 * domain_size <= usize::MAX,
    ensures
        r is Ok <==> (tau_powers_g2 >= domain_size && tau_powers_g1 >= 2 * domain_size - 1),
        r matches Err(e) ==> e == (BridgeError::AccumulatorTooSmall { needed: domain_size, have: tau_powers_g2 }),
{
    if tau_powers_g2 < domain_size || tau_powers_g1 < 2 * domain_size - 1 {
        return Err(BridgeError::AccumulatorTooSmall { needed: domain_size, have: tau_powers_g2 });
    }
    Ok(())
}

// ---------------------------------------------------------------------------
// Hashing

/// The Blake2b-512 digest of `bytes`.
pub uninterp spec fn blake2b512(bytes: Seq<u8>) -> Seq<u8>;

/// Calls `Blake2b512` over `bytes` (one `update`, then `finalize`); the
/// digest has 64 bytes.
#[verifier::external_body]
pub(crate) fn blake2b512_digest(bytes: &[u8]) -> (d: [u8; 64])
    ensures
        d@ == blake2b512(bytes@),
{
    let mut out = [0u8; 64];
    out.copy_from_slice(&Blake2b512::digest(bytes));
    out
}

// ---------------------------------------------------------------------------
// Contribution public keys

/// A contribution's public key as stored and hashed: `delta_g1` after the
/// contribution, the fresh point `s`, `s` scaled by the secret, the hashed
/// G2 point scaled by the secret, and the transcript hash that binds the
/// contribution to its place in the chain.
#[derive(Debug, Clone, Copy, PartialEq, Eq)]
pub struct PublicKey {
    pub delta_after: [u8; 32],
    pub s: [u8; 32],
    pub s_delta: [u8; 32],
    pub r_delta: [u8; 64],
    pub transcript: [u8; 64],
}

/// The canonical encoding of a public key: its fields in order.
pub open spec fn public_key_encoding(k: PublicKey) -> Seq<u8> {
    k.delta_after@ + k.s@ + k.s_delta@ + k.r_delta@ + k.transcript@
}

/// The encodings of a run of public keys, one after another.
pub open spec fn public_keys_encoding(ks: Seq<PublicKey>) -> Seq<u8>
    decreases ks.len(),
{
    if ks.len() == 0 {
        Seq::empty()
    } else {
        public_keys_encoding(ks.drop_last()) + public_key_encoding(ks.last())
    }
}

pub(crate) fn push_bytes(out: &mut Vec<u8>, b: &[u8])
    ensures
        final(out)@ == old(out)@ + b@,
{
    let mut i: usize = 0;
    while i < b.len()
        invariant
            i <= b@.len(),
            out@ == old(out)@ + b@.take(i as int),
        decreases b@.len() - i,
    {
        out.push(b[i]);
        proof { assert(b@.take(i + 1) =~= b@.take(i as int).push(b@[i as int])); }
        i = i + 1;
    }
    proof { assert(b@.take(b@.len() as int) =~= b@); }
}

impl PublicKey {
    /// The canonical encoding, used for hashing and for storage.
    pub fn to_bytes(&self) -> (b: Vec<u8>)
        ensures
            b@ == public_key_encoding(*self),
    {
        let mut b: Vec<u8> = Vec::new();
        push_bytes(&mut b, &self.delta_after);
        push_bytes(&mut b, &self.s);
        push_bytes(&mut b, &self.s_delta);
        push_bytes(&mut b, &self.r_delta);
        push_bytes(&mut b, &self.transcript);
        proof {
            assert(b@ =~= public_key_encoding(*self));
        }
        b
    }

    /// Blake2b-512 of the encoding: what a contributor looks for in a
    /// verification's output to confirm their contribution is in the chain.
    pub fn hash(&self) -> (h: [u8; 64])
        ensures
            h@ == blake2b512(public_key_encoding(*self)),
    {
        let b = self.to_bytes();
        blake2b512_digest(b.as_slice())
    }
}

/// `H(cs_hash || every prior contribution || s || s_delta)` with Blake2b-512.
pub open spec fn transcript_hash(cs_hash: Seq<u8>, prior: Seq<PublicKey>, s: Seq<u8>, s_delta: Seq<u8>) -> Seq<u8> {
    blake2b512(cs_hash + public_keys_encoding(prior) + s + s_delta)
}

/// The transcript hash of a contribution made after `contributions`.
pub fn hash_cs_pubkeys(cs_hash: &[u8; 64], contributions: &[PublicKey], s: &[u8; 32], s_delta: &[u8; 32])
    -> (h: [u8; 64])
    ensures
        h@ == transcript_hash(cs_hash@, contributions@, s@, s_delta@),
{
    let mut bytes: Vec<u8> = Vec::new();
    push_bytes(&mut bytes, cs_hash);
    let mut i: usize = 0;
    while i < contributions.len()
        invariant
            i <= contributions@.len(),
            bytes@ == cs_hash@ + public_keys_encoding(contributions@.take(i as int)),
        decreases contributions@.len() - i,
    {
        let b = contributions[i].to_bytes();
        push_bytes(&mut bytes, b.as_slice());
        proof {
            let t = contributions@.take(i + 1);
            assert(t.drop_last() =~= contributions@.take(i as int));
            assert(bytes@ =~= cs_hash@ + public_keys_encoding(t));
        }
        i = i + 1;
    }
    push_bytes(&mut bytes, s);
    push_bytes(&mut bytes, s_delta);
    proof {
        assert(contributions@.take(contributions@.len() as int) =~= contributions@);
    }
    blake2b512_digest(bytes.as_slice())
}

// ---------------------------------------------------------------------------
// Decoding

/// How many leading bytes a compressed proving key occupies, if the bytes
/// start with one.
pub uninterp spec fn proving_key_prefix(bytes: Seq<u8>) -> Option<nat>;

/// Calls `ProvingKey::<Bn254>::deserialize_compressed` on a cursor over
/// `bytes` and reports how many bytes it read; the message on failure is
/// ark-serialize's. The key is read field by field in order, each list as
/// its length in 8 little-endian bytes and then its points, and every point
/// is checked; so where the bytes begin with the compressed encoding of a
/// key of valid points, exactly that encoding is read.
#[verifier::external_body]
fn proving_key_len(bytes: &[u8]) -> (r: Result<usize, String>)
    ensures
        match r {
            Ok(n) => proving_key_prefix(bytes@) == Some(n as nat) && n <= bytes@.len(),
            Err(_) => proving_key_prefix(bytes@) is None,
        },
        forall|k: nat| #[trigger] key_starts(bytes@, k) ==> bytes_read(r) == Some(k),
{
    let mut cursor = bytes;
    match ark_groth16::ProvingKey::<ark_bn254::Bn254>::deserialize_compressed(&mut cursor) {
        Ok(_) => Ok(bytes.len() - cursor.len()),
        Err(e) => Err(e.to_string()),
    }
}

/// How many bytes a read took, if it succeeded.
pub open spec fn bytes_read(r: Result<usize, String>) -> Option<nat> {
    match r {
        Ok(n) => Some(n as nat),
        Err(_) => None,
    }
}

/// The first `k` bytes are the whole compressed encoding of a key of valid
/// points.
pub open spec fn key_starts(bytes: Seq<u8>, k: nat) -> bool {
    k <= bytes.len() && exists|p: ProvingKeyParts| #[trigger] encodes_key(bytes.take(k as int), p)
}

/// The encoded length of a public key.
pub open spec fn public_key_len() -> nat {
    224
}

/// Whether `buf` is exactly a public key's encoding with valid points.
pub open spec fn public_key_valid(buf: Seq<u8>) -> bool {
    &&& buf.len() == public_key_len()
    &&& g1_decodes(buf.subrange(0, 32))
    &&& g1_decodes(buf.subrange(32, 64))
    &&& g1_decodes(buf.subrange(64, 96))
    &&& g2_decodes(buf.subrange(96, 160))
}

pub(crate) fn copy32(buf: &[u8], at: usize) -> (r: [u8; 32])
    requires
        at + 32 <= buf@.len(),
    ensures
        r@ == buf@.subrange(at as int, at + 32),
{
    let mut r = [0u8; 32];
    let n = buf.len();
    let mut i: usize = 0;
    while i < 32
        invariant
            n == buf@.len(),
            i <= 32,
            at + 32 <= buf@.len(),
            r@.len() == 32,
            forall|k: int| 0 <= k < i ==> r@[k] == buf@[at + k],
        decreases 32 - i,
    {
        r[i] = buf[at + i];
        i = i + 1;
    }
    proof { assert(r@ =~= buf@.subrange(at as int, at + 32)); }
    r
}

pub(crate) fn copy64(buf: &[u8], at: usize) -> (r: [u8; 64])
    requires
        at + 64 <= buf@.len(),
    ensures
        r@ == buf@.subrange(at as int, at + 64),
{
    let mut r = [0u8; 64];
    let n = buf.len();
    let mut i: usize = 0;
    while i < 64
        invariant
            n == buf@.len(),
            i <= 64,
            at + 64 <= buf@.len(),
            r@.len() == 64,
            forall|k: int| 0 <= k < i ==> r@[k] == buf@[at + k],
        decreases 64 - i,
    {
        r[i] = buf[at + i];
        i = i + 1;
    }
    proof { assert(r@ =~= buf@.subrange(at as int, at + 64)); }
    r
}

/// Decodes a stored public key: three G1 points, one G2 point and exactly
/// 64 transcript bytes, read in that order. A point that is cut short or
/// does not decode is refused with arkworks' own message; valid points
/// followed by other than 64 bytes, with "malformed PublicKey transcript
/// length".
pub fn decode_public_key(buf: &[u8]) -> (r: Result<PublicKey, CeremonyError>)
    ensures
        r is Ok <==> public_key_valid(buf@),
        r matches Ok(k) ==> public_key_encoding(k) == buf@,
        r matches Err(e) ==> e is Serialization,
        (buf@.len() >= 160 && g1_decodes(buf@.subrange(0, 32)) && g1_decodes(buf@.subrange(32, 64))
            && g1_decodes(buf@.subrange(64, 96)) && g2_decodes(buf@.subrange(96, 160)) && buf@.len() != 224)
            ==> (r matches Err(CeremonyError::Serialization(m)) && m@ == "malformed PublicKey transcript length"@),
{
    if let Err(e) = g1_check(buf, 0) {
        return Err(CeremonyError::Serialization(e));
    }
    if let Err(e) = g1_check(buf, 32) {
        return Err(CeremonyError::Serialization(e));
    }
    if let Err(e) = g1_check(buf, 64) {
        return Err(CeremonyError::Serialization(e));
    }
    if let Err(e) = g2_check(buf, 96) {
        return Err(CeremonyError::Serialization(e));
    }
    let delta_after = copy32(buf, 0);
    let s = copy32(buf, 32);
    let s_delta = copy32(buf, 64);
    let r_delta = copy64(buf, 96);
    if buf.len() != 224 {
        return Err(CeremonyError::Serialization(make_string("malformed PublicKey transcript length")));
    }
    let transcript = copy64(buf, 160);
    let k = PublicKey { delta_after, s, s_delta, r_delta, transcript };
    proof {
        assert(public_key_encoding(k) =~= buf@);
    }
    Ok(k)
}

// ---------------------------------------------------------------------------
// Stored parameters

/// `n` as 4 little-endian bytes.
pub open spec fn u32_le(n: u32) -> Seq<u8> {
    seq![(n % 256) as u8, ((n / 256) % 256) as u8, ((n / 65536) % 256) as u8, (n / 16777216) as u8]
}

/// The little-endian `u32` in the 4 bytes at `at`.
pub open spec fn read_u32_le(b: Seq<u8>, at: int) -> u32 {
    (b[at] as int + 256 * b[at + 1] as int + 65536 * b[at + 2] as int + 16777216 * b[at + 3] as int) as u32
}

/// Each public key stored as its 4-byte little-endian length and its encoding.
pub open spec fn framed_keys(ks: Seq<PublicKey>) -> Seq<u8>
    decreases ks.len(),
{
    if ks.len() == 0 {
        Seq::empty()
    } else {
        framed_keys(ks.drop_last()) + u32_le(public_key_len() as u32) + public_key_encoding(ks.last())
    }
}

/// The stored form of parameters: the proving key's encoding, the circuit
/// hash, the number of contributions (4 bytes, little-endian) and each
/// contribution with its length.
pub open spec fn parameters_encoding(pk: Seq<u8>, cs_hash: Seq<u8>, ks: Seq<PublicKey>) -> Seq<u8> {
    pk + cs_hash + u32_le(ks.len() as u32) + framed_keys(ks)
}

fn u32_bytes(n: u32) -> (b: [u8; 4])
    ensures
        b@ == u32_le(n),
{
    let b = [(n % 256) as u8, ((n / 256) % 256) as u8, ((n / 65536) % 256) as u8, (n / 16777216) as u8];
    proof { assert(b@ =~= u32_le(n)); }
    b
}

/// Stores parameters: the proving key's encoding `pk`, the circuit hash and
/// the contributions. The count is written as a `u32` (as the format has it).
pub fn write_parameters(pk: &[u8], cs_hash: &[u8; 64], contributions: &[PublicKey]) -> (b: Vec<u8>)
    ensures
        b@ == parameters_encoding(pk@, cs_hash@, contributions@),
{
    let mut b: Vec<u8> = Vec::new();
    push_bytes(&mut b, pk);
    push_bytes(&mut b, cs_hash);
    let count = u32_bytes(contributions.len() as u32);
    push_bytes(&mut b, &count);
    let ghost head = b@;
    let mut i: usize = 0;
    proof { assert(head + framed_keys(contributions@.take(0)) =~= head); }
    while i < contributions.len()
        invariant
            i <= contributions@.len(),
            b@ == head + framed_keys(contributions@.take(i as int)),
        decreases contributions@.len() - i,
    {
        let k = contributions[i].to_bytes();
        let len = u32_bytes(224);
        push_bytes(&mut b, &len);
        push_bytes(&mut b, k.as_slice());
        proof {
            let t = contributions@.take(i + 1);
            assert(t.drop_last() =~= contributions@.take(i as int));
            assert(b@ =~= head + framed_keys(t));
        }
        i = i + 1;
    }
    proof {
        assert(contributions@.take(contributions@.len() as int) =~= contributions@);
        assert(b@ =~= parameters_encoding(pk@, cs_hash@, contributions@));
    }
    b
}

/// The encodings of a run of public keys.
pub open spec fn key_encodings(ks: Seq<PublicKey>) -> Seq<Seq<u8>> {
    ks.map_values(|k: PublicKey| public_key_encoding(k))
}

/// The `count` contributions stored from `at` on, by their encodings: each
/// a 4-byte little-endian length and that many bytes, which must be a valid
/// public key; `None` where the bytes run out or a key does not decode.
pub open spec fn stored_keys(b: Seq<u8>, at: int, count: nat) -> Option<Seq<Seq<u8>>>
    decreases count,
{
    if count == 0 {
        Some(Seq::empty())
    } else if at < 0 || at + 4 > b.len() {
        None
    } else {
        let len = read_u32_le(b, at) as int;
        if at + 4 + len > b.len() {
            None
        } else if !public_key_valid(b.subrange(at + 4, at + 4 + len)) {
            None
        } else {
            match stored_keys(b, at + 4 + len, (count - 1) as nat) {
                Some(rest) => Some(seq![b.subrange(at + 4, at + 4 + len)] + rest),
                None => None,
            }
        }
    }
}

/// `d` in front of the sequence in `o`, if any.
pub open spec fn prepend(d: Seq<Seq<u8>>, o: Option<Seq<Seq<u8>>>) -> Option<Seq<Seq<u8>>> {
    match o {
        Some(r) => Some(d + r),
        None => None,
    }
}

/// What reading stored parameters gives: the proving key's encoding, the
/// 64-byte circuit hash after it, and the encodings of as many
/// contributions as the 4-byte count after that says; `None` where the
/// proving key does not decode, the bytes run out or a contribution does
/// not decode. Bytes after the last contribution are not read.
pub open spec fn read_spec(b: Seq<u8>) -> Option<(Seq<u8>, Seq<u8>, Seq<Seq<u8>>)> {
    match proving_key_prefix(b) {
        None => None,
        Some(n) => if n + 68 > b.len() {
            None
        } else {
            match stored_keys(b, (n + 68) as int, read_u32_le(b, (n + 64) as int) as nat) {
                None => None,
                Some(ks) => Some((b.take(n as int), b.subrange(n as int, (n + 64) as int), ks)),
            }
        },
    }
}

/// Stored parameters, decoded: the proving key's encoding, the circuit hash
/// and the contributions.
pub struct StoredParameters {
    pub proving_key: Vec<u8>,
    pub cs_hash: [u8; 64],
    pub contributions: Vec<PublicKey>,
}

fn read_u32(bytes: &[u8], at: usize) -> (n: u32)
    requires
        at + 4 <= bytes@.len(),
    ensures
        n == read_u32_le(bytes@, at as int),
{
    let v: u64 = bytes[at] as u64 + 256 * (bytes[at + 1] as u64) + 65536 * (bytes[at + 2] as u64)
        + 16777216 * (bytes[at + 3] as u64);
    v as u32
}

fn slice_from(bytes: &[u8], at: usize, len: usize) -> (v: Vec<u8>)
    requires
        at + len <= bytes@.len(),
    ensures
        v@ == bytes@.subrange(at as int, at + len),
{
    let mut v: Vec<u8> = Vec::new();
    let n = bytes.len();
    let mut i: usize = 0;
    while i < len
        invariant
            n == bytes@.len(),
            i <= len,
            at + len <= bytes@.len(),
            v@ == bytes@.subrange(at as int, at + i),
        decreases len - i,
    {
        v.push(bytes[at + i]);
        proof { assert(bytes@.subrange(at as int, at + i + 1) =~= bytes@.subrange(at as int, at + i).push(bytes@[at + i])); }
        i = i + 1;
    }
    v
}

/// Reads stored parameters: the proving key, the 64-byte circuit hash, the
/// contribution count and each length-prefixed contribution. Bytes after the
/// last contribution are not read. Running out of bytes, a proving key or a
/// public key that does not decode, is a serialization error.
pub fn read_parameters(bytes: &[u8]) -> (r: Result<StoredParameters, CeremonyError>)
    ensures
        match r {
            Ok(p) => read_spec(bytes@) == Some((p.proving_key@, p.cs_hash@, key_encodings(p.contributions@))),
            Err(e) => read_spec(bytes@) is None && e is Serialization,
        },
        forall|k: nat| #[trigger] key_starts(bytes@, k) ==> proving_key_prefix(bytes@) == Some(k),
{
    let pk_read = proving_key_len(bytes);
    proof {
        assert forall|k: nat| #[trigger] key_starts(bytes@, k) implies proving_key_prefix(bytes@) == Some(k) by {
            assert(bytes_read(pk_read) == Some(k));
        }
    }
    let pk_len = match pk_read {
        Ok(n) => n,
        Err(e) => return Err(CeremonyError::Serialization(e)),
    };
    if bytes.len() - pk_len < 68 {
        proof { reveal_strlit("failed to fill whole buffer"); }
        return Err(CeremonyError::Serialization(make_string("failed to fill whole buffer")));
    }
    let proving_key = slice_from(bytes, 0, pk_len);
    let cs_hash = copy64(bytes, pk_len);
    let count = read_u32(bytes, pk_len + 64);
    let mut at: usize = pk_len + 68;
    let mut contributions: Vec<PublicKey> = Vec::new();
    let mut i: u32 = 0;
    let ghost at0: int = at as int;
    proof {
        assert(key_encodings(contributions@) =~= Seq::<Seq<u8>>::empty());
        assert(prepend(key_encodings(contributions@), stored_keys(bytes@, at0, count as nat))
            =~= stored_keys(bytes@, at0, count as nat)) by {
            match stored_keys(bytes@, at0, count as nat) {
                Some(r) => { assert(Seq::<Seq<u8>>::empty() + r =~= r); },
                None => {},
            }
        }
    }
    while i < count
        invariant
            pk_len + 68 <= at <= bytes@.len(),
            at0 == pk_len + 68,
            i <= count,
            contributions@.len() == i,
            proving_key@ == bytes@.take(pk_len as int),
            cs_hash@ == bytes@.subrange(pk_len as int, pk_len + 64),
            count == read_u32_le(bytes@, pk_len + 64),
            proving_key_prefix(bytes@) == Some(pk_len as nat),
            forall|k: nat| #[trigger] key_starts(bytes@, k) ==> proving_key_prefix(bytes@) == Some(k),
            stored_keys(bytes@, at0, count as nat)
                == prepend(key_encodings(contributions@), stored_keys(bytes@, at as int, (count - i) as nat)),
        decreases count - i,
    {
        if bytes.len() - at < 4 {
            proof { reveal_strlit("failed to fill whole buffer"); }
            return Err(CeremonyError::Serialization(make_string("failed to fill whole buffer")));
        }
        let len32 = read_u32(bytes, at);
        let len = len32 as usize;
        if bytes.len() - at - 4 < len {
            proof { reveal_strlit("failed to fill whole buffer"); }
            return Err(CeremonyError::Serialization(make_string("failed to fill whole buffer")));
        }
        let buf = slice_from(bytes, at + 4, len);
        let k = match decode_public_key(buf.as_slice()) {
            Ok(k) => k,
            Err(e) => return Err(e),
        };
        let ghost before = key_encodings(contributions@);
        let ghost next: int = at + 4 + len;
        contributions.push(k);
        proof {
            assert(key_encodings(contributions@) =~= before.push(buf@));
            let rest = stored_keys(bytes@, next, (count - i - 1) as nat);
            assert(stored_keys(bytes@, at as int, (count - i) as nat) == prepend(seq![buf@], rest));
            match rest {
                Some(r) => {
                    assert(before + (seq![buf@] + r) =~= before.push(buf@) + r);
                },
                None => {},
            }
        }
        at = at + 4 + len;
        i = i + 1;
    }
    proof {
        assert(key_encodings(contributions@) + Seq::<Seq<u8>>::empty() =~= key_encodings(contributions@));
    }
    Ok(StoredParameters { proving_key, cs_hash, contributions })
}


// ---------------------------------------------------------------------------
// Laws

proof fn lemma_u32_le_value(n: u32)
    ensures
        read_u32_le(u32_le(n), 0) == n,
{
    assert(n as int == (n % 256) as int + 256 * ((n / 256) % 256) as int + 65536 * ((n / 65536) % 256) as int
        + 16777216 * (n / 16777216) as int) by (bit_vector);
}

proof fn lemma_read_u32_at(b: Seq<u8>, at: int, n: u32)
    requires
        0 <= at,
        at + 4 <= b.len(),
        b.subrange(at, at + 4) == u32_le(n),
    ensures
        read_u32_le(b, at) == n,
{
    lemma_u32_le_value(n);
    let w = b.subrange(at, at + 4);
    assert(b[at] == w[0] && b[at + 1] == w[1] && b[at + 2] == w[2] && b[at + 3] == w[3]);
}

proof fn lemma_encoding_len(k: PublicKey)
    ensures
        public_key_encoding(k).len() == public_key_len(),
{
}

proof fn lemma_framed_front(ks: Seq<PublicKey>)
    requires
        ks.len() > 0,
    ensures
        framed_keys(ks) == u32_le(public_key_len() as u32) + public_key_encoding(ks[0]) + framed_keys(ks.drop_first()),
    decreases ks.len(),
{
    if ks.len() == 1 {
        assert(ks.drop_last() =~= Seq::<PublicKey>::empty());
        assert(ks.drop_first() =~= Seq::<PublicKey>::empty());
        assert(framed_keys(ks.drop_last()) == Seq::<u8>::empty());
        assert(framed_keys(ks.drop_first()) == Seq::<u8>::empty());
        assert(ks.last() == ks[0]);
        assert(framed_keys(ks) =~= u32_le(public_key_len() as u32) + public_key_encoding(ks[0]) + framed_keys(ks.drop_first()));
    } else {
        let dl = ks.drop_last();
        lemma_framed_front(dl);
        assert(dl.drop_first() =~= ks.drop_first().drop_last());
        assert(ks.drop_first().last() == ks.last());
        assert(dl[0] == ks[0]);
        assert(framed_keys(ks) =~= u32_le(public_key_len() as u32) + public_key_encoding(ks[0]) + framed_keys(ks.drop_first()));
    }
}

proof fn lemma_stored_keys(b: Seq<u8>, at: int, ks: Seq<PublicKey>)
    requires
        0 <= at,
        at + framed_keys(ks).len() <= b.len(),
        b.subrange(at, at + framed_keys(ks).len()) == framed_keys(ks),
        forall|i: int| 0 <= i < ks.len() ==> public_key_valid(public_key_encoding(#[trigger] ks[i])),
    ensures
        stored_keys(b, at, ks.len()) == Some(key_encodings(ks)),
    decreases ks.len(),
{
    if ks.len() == 0 {
        assert(key_encodings(ks) =~= Seq::<Seq<u8>>::empty());
    } else {
        lemma_framed_front(ks);
        lemma_encoding_len(ks[0]);
        let f = framed_keys(ks);
        let rest = ks.drop_first();
        let e0 = public_key_encoding(ks[0]);
        let head = u32_le(public_key_len() as u32);
        assert(b.subrange(at, at + 4) =~= head) by {
            assert forall|j: int| 0 <= j < 4 implies b.subrange(at, at + 4)[j] == head[j] by {
                assert(b.subrange(at, at + 4)[j] == b.subrange(at, at + f.len())[j]);
                assert(f[j] == head[j]);
            }
        }
        lemma_read_u32_at(b, at, public_key_len() as u32);
        assert(read_u32_le(b, at) as int == 224);
        assert(b.subrange(at + 4, at + 4 + 224) =~= e0) by {
            assert forall|j: int| 0 <= j < 224 implies b.subrange(at + 4, at + 228)[j] == e0[j] by {
                assert(b.subrange(at + 4, at + 228)[j] == b.subrange(at, at + f.len())[4 + j]);
                assert(f[4 + j] == e0[j]);
            }
        }
        let fr = framed_keys(rest);
        assert(b.subrange(at + 228, at + 228 + fr.len()) =~= fr) by {
            assert forall|j: int| 0 <= j < fr.len() implies b.subrange(at + 228, at + 228 + fr.len())[j] == fr[j] by {
                assert(b.subrange(at + 228, at + 228 + fr.len())[j] == b.subrange(at, at + f.len())[228 + j]);
                assert(f[228 + j] == fr[j]);
            }
        }
        assert forall|i: int| 0 <= i < rest.len() implies public_key_valid(public_key_encoding(#[trigger] rest[i])) by {
            assert(rest[i] == ks[i + 1]);
        }
        lemma_stored_keys(b, at + 228, rest);
        assert(public_key_valid(e0));
        assert(key_encodings(ks) =~= seq![e0] + key_encodings(rest));
    }
}

/// Reading back stored parameters gives what was written: the proving
/// key's encoding, the circuit hash and every contribution. It needs the
/// proving key to read back as exactly its own encoding, at most `u32::MAX`
/// contributions (the count is stored in 4 bytes) and valid public keys.
pub proof fn law_parameters_round_trip(pk: Seq<u8>, cs_hash: Seq<u8>, ks: Seq<PublicKey>)
    requires
        cs_hash.len() == 64,
        ks.len() <= u32::MAX,
        forall|i: int| 0 <= i < ks.len() ==> public_key_valid(public_key_encoding(#[trigger] ks[i])),
        proving_key_prefix(parameters_encoding(pk, cs_hash, ks)) == Some(pk.len()),
    ensures
        read_spec(parameters_encoding(pk, cs_hash, ks)) == Some((pk, cs_hash, key_encodings(ks))),
{
    let b = parameters_encoding(pk, cs_hash, ks);
    let n = pk.len() as int;
    let c = ks.len() as u32;
    assert(c as nat == ks.len());
    let f = framed_keys(ks);
    assert(b =~= pk + cs_hash + u32_le(c) + f);
    assert(b.subrange(n + 64, n + 68) =~= u32_le(c));
    lemma_read_u32_at(b, n + 64, c);
    assert(b.subrange(n + 68, n + 68 + f.len()) =~= f);
    lemma_stored_keys(b, n + 68, ks);
    assert(b.take(n) =~= pk);
    assert(b.subrange(n, n + 64) =~= cs_hash);
}

/// A public key is determined by its encoding.
pub proof fn law_public_key_encoding_injective(a: PublicKey, b: PublicKey)
    requires
        public_key_encoding(a) == public_key_encoding(b),
    ensures
        a == b,
{
    let ea = public_key_encoding(a);
    let eb = public_key_encoding(b);
    assert(a.delta_after@ =~= ea.subrange(0, 32));
    assert(b.delta_after@ =~= eb.subrange(0, 32));
    assert(a.s@ =~= ea.subrange(32, 64));
    assert(b.s@ =~= eb.subrange(32, 64));
    assert(a.s_delta@ =~= ea.subrange(64, 96));
    assert(b.s_delta@ =~= eb.subrange(64, 96));
    assert(a.r_delta@ =~= ea.subrange(96, 160));
    assert(b.r_delta@ =~= eb.subrange(96, 160));
    assert(a.transcript@ =~= ea.subrange(160, 224));
    assert(b.transcript@ =~= eb.subrange(160, 224));
    assert(a.delta_after == b.delta_after);
    assert(a.s == b.s);
    assert(a.s_delta == b.s_delta);
    assert(a.r_delta == b.r_delta);
    assert(a.transcript == b.transcript);
}

} // verus!

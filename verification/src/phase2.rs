//! Phase 2 of the setup ceremony: circuit-specific Groth16 parameters
//! whose `delta` each contributor re-randomizes, with a public key that
//! proves (as a signature of knowledge) that the contribution was made
//! correctly, chained to every earlier contribution by its transcript hash.
//! Only one contributor across the ceremony needs to destroy their secret
//! for the final parameters to be sound.

use vstd::prelude::*;
use crate::ceremony::{
    CeremonyError, PublicKey, blake2b512, blake2b512_digest, hash_cs_pubkeys, public_key_encoding, public_key_valid,
    push_bytes, copy32, copy64, read_parameters, key_starts, stored_keys, read_u32_le, read_spec, transcript_hash, write_parameters, parameters_encoding, key_encodings,
    proving_key_prefix,
};
use crate::text::make_string;
use crate::curve::{
    G1_GENERATOR, G2_GENERATOR, eq32, eq64, fr_canonical, g1_check, g2_check, fr_inv, fr_inverse, g1_decodes, g1_generator, g1_mul,
    g1_scaled, g2_decodes, g2_generator, g2_is_identity, g2_mul, g2_scaled, random_fr, random_g1,
};
use crate::setup::{all_g1, all_g2, check_same_ratio, hash_to_g2, hash_to_g2_spec, merge_pairs, merged_with, merge_of, ratio_check};

verus! {

/// A Groth16 proving key over BN254, its points as compressed encodings, in
/// the order of the key's own encoding.
#[derive(Debug, Clone)]
pub struct ProvingKeyParts {
    pub alpha_g1: [u8; 32],
    pub beta_g2: [u8; 64],
    pub gamma_g2: [u8; 64],
    pub delta_g2: [u8; 64],
    pub gamma_abc_g1: Vec<[u8; 32]>,
    pub beta_g1: [u8; 32],
    pub delta_g1: [u8; 32],
    pub a_query: Vec<[u8; 32]>,
    pub b_g1_query: Vec<[u8; 32]>,
    pub b_g2_query: Vec<[u8; 64]>,
    pub h_query: Vec<[u8; 32]>,
    pub l_query: Vec<[u8; 32]>,
}

impl ProvingKeyParts {
    /// Every point decodes.
    pub open spec fn wf(&self) -> bool {
        &&& g1_decodes(self.alpha_g1@)
        &&& g2_decodes(self.beta_g2@)
        &&& g2_decodes(self.gamma_g2@)
        &&& g2_decodes(self.delta_g2@)
        &&& all_g1(self.gamma_abc_g1@)
        &&& g1_decodes(self.beta_g1@)
        &&& g1_decodes(self.delta_g1@)
        &&& all_g1(self.a_query@)
        &&& all_g1(self.b_g1_query@)
        &&& all_g2(self.b_g2_query@)
        &&& all_g1(self.h_query@)
        &&& all_g1(self.l_query@)
    }
}

/// `n` as 8 little-endian bytes.
pub open spec fn u64_le(n: u64) -> Seq<u8> {
    seq![
        (n % 256) as u8, ((n / 0x100) % 256) as u8, ((n / 0x10000) % 256) as u8, ((n / 0x1000000) % 256) as u8,
        ((n / 0x100000000) % 256) as u8, ((n / 0x10000000000) % 256) as u8, ((n / 0x1000000000000) % 256) as u8,
        (n / 0x100000000000000) as u8,
    ]
}

/// The G1 points one after another.
pub open spec fn g1_concat(v: Seq<[u8; 32]>) -> Seq<u8>
    decreases v.len(),
{
    if v.len() == 0 { Seq::empty() } else { g1_concat(v.drop_last()) + v.last()@ }
}

/// The G2 points one after another.
pub open spec fn g2_concat(v: Seq<[u8; 64]>) -> Seq<u8>
    decreases v.len(),
{
    if v.len() == 0 { Seq::empty() } else { g2_concat(v.drop_last()) + v.last()@ }
}

/// A list of G1 points as stored: its length as 8 bytes, then the points.
pub open spec fn g1_list(v: Seq<[u8; 32]>) -> Seq<u8> {
    u64_le(v.len() as u64) + g1_concat(v)
}

/// A list of G2 points as stored: its length as 8 bytes, then the points.
pub open spec fn g2_list(v: Seq<[u8; 64]>) -> Seq<u8> {
    u64_le(v.len() as u64) + g2_concat(v)
}

/// The compressed encoding of a proving key: the verifying key's alpha,
/// beta, gamma and delta and its input points, then beta and delta in G1
/// and the five queries.
pub open spec fn proving_key_encoding(p: ProvingKeyParts) -> Seq<u8> {
    p.alpha_g1@ + p.beta_g2@ + p.gamma_g2@ + p.delta_g2@ + g1_list(p.gamma_abc_g1@) + p.beta_g1@ + p.delta_g1@
        + g1_list(p.a_query@) + g1_list(p.b_g1_query@) + g2_list(p.b_g2_query@) + g1_list(p.h_query@)
        + g1_list(p.l_query@)
}

pub(crate) fn push_u64(out: &mut Vec<u8>, n: u64)
    ensures
        final(out)@ == old(out)@ + u64_le(n),
{
    let b = [
        (n % 256) as u8, ((n / 0x100) % 256) as u8, ((n / 0x10000) % 256) as u8, ((n / 0x1000000) % 256) as u8,
        ((n / 0x100000000) % 256) as u8, ((n / 0x10000000000) % 256) as u8, ((n / 0x1000000000000) % 256) as u8,
        (n / 0x100000000000000) as u8,
    ];
    proof { assert(b@ =~= u64_le(n)); }
    push_bytes(out, &b);
}

/// Appends the G1 points one after another.
pub(crate) fn push_g1_points(out: &mut Vec<u8>, v: &Vec<[u8; 32]>)
    ensures
        final(out)@ == old(out)@ + g1_concat(v@),
{
    let ghost head = out@;
    let mut i: usize = 0;
    proof { assert(head + g1_concat(v@.take(0)) =~= head); }
    while i < v.len()
        invariant
            i <= v@.len(),
            out@ == head + g1_concat(v@.take(i as int)),
        decreases v@.len() - i,
    {
        push_bytes(out, &v[i]);
        proof {
            let t = v@.take(i + 1);
            assert(t.drop_last() =~= v@.take(i as int));
            assert(out@ =~= head + g1_concat(t));
        }
        i = i + 1;
    }
    proof { assert(v@.take(v@.len() as int) =~= v@); }
}

/// Appends the G2 points one after another.
pub(crate) fn push_g2_points(out: &mut Vec<u8>, v: &Vec<[u8; 64]>)
    ensures
        final(out)@ == old(out)@ + g2_concat(v@),
{
    let ghost head = out@;
    let mut i: usize = 0;
    proof { assert(head + g2_concat(v@.take(0)) =~= head); }
    while i < v.len()
        invariant
            i <= v@.len(),
            out@ == head + g2_concat(v@.take(i as int)),
        decreases v@.len() - i,
    {
        push_bytes(out, &v[i]);
        proof {
            let t = v@.take(i + 1);
            assert(t.drop_last() =~= v@.take(i as int));
            assert(out@ =~= head + g2_concat(t));
        }
        i = i + 1;
    }
    proof { assert(v@.take(v@.len() as int) =~= v@); }
}

fn push_g1_list(out: &mut Vec<u8>, v: &Vec<[u8; 32]>)
    ensures
        final(out)@ == old(out)@ + g1_list(v@),
{
    push_u64(out, v.len() as u64);
    push_g1_points(out, v);
    proof { assert(out@ =~= old(out)@ + g1_list(v@)); }
}

fn push_g2_list(out: &mut Vec<u8>, v: &Vec<[u8; 64]>)
    ensures
        final(out)@ == old(out)@ + g2_list(v@),
{
    push_u64(out, v.len() as u64);
    push_g2_points(out, v);
    proof { assert(out@ =~= old(out)@ + g2_list(v@)); }
}

impl ProvingKeyParts {
    /// The compressed encoding of the key.
    pub fn to_bytes(&self) -> (b: Vec<u8>)
        ensures
            b@ == proving_key_encoding(*self),
    {
        let mut b: Vec<u8> = Vec::new();
        push_bytes(&mut b, &self.alpha_g1);
        push_bytes(&mut b, &self.beta_g2);
        push_bytes(&mut b, &self.gamma_g2);
        push_bytes(&mut b, &self.delta_g2);
        push_g1_list(&mut b, &self.gamma_abc_g1);
        push_bytes(&mut b, &self.beta_g1);
        push_bytes(&mut b, &self.delta_g1);
        push_g1_list(&mut b, &self.a_query);
        push_g1_list(&mut b, &self.b_g1_query);
        push_g2_list(&mut b, &self.b_g2_query);
        push_g1_list(&mut b, &self.h_query);
        push_g1_list(&mut b, &self.l_query);
        proof { assert(b@ =~= proving_key_encoding(*self)); }
        b
    }
}

/// The secret destroyed after a contribution is applied.
pub struct PrivateKey {
    pub delta: [u8; 32],
}

/// A contributor's secret and public key.
pub struct Keypair {
    pub private_key: PrivateKey,
    pub public_key: PublicKey,
}

/// `k` is the public key of a contribution with secret `delta` to parameters
/// with `delta_g1`, circuit hash `cs_hash` and earlier contributions `prior`:
/// `delta_after` and `s_delta` are `delta_g1` and `s` scaled by the secret,
/// the transcript is their transcript hash, and `r_delta` is the transcript
/// hashed to G2 and scaled by the secret.
pub open spec fn key_for(k: PublicKey, delta: Seq<u8>, delta_g1: Seq<u8>, cs_hash: Seq<u8>, prior: Seq<PublicKey>) -> bool {
    &&& k.delta_after@ == g1_scaled(delta_g1, delta)
    &&& g1_decodes(k.s@)
    &&& k.s_delta@ == g1_scaled(k.s@, delta)
    &&& k.transcript@ == transcript_hash(cs_hash, prior, k.s@, k.s_delta@)
    &&& hash_to_g2_spec(k.transcript@) matches Some(r) && k.r_delta@ == g2_scaled(r, delta)
}

impl Keypair {
    /// A fresh keypair for a contribution to parameters with `delta_g1`,
    /// circuit hash `cs_hash` and earlier contributions `contributions`.
    /// `None` only where the transcript does not hash to a G2 point.
    pub fn new(delta_g1: &[u8; 32], cs_hash: &[u8; 64], contributions: &[PublicKey]) -> (r: Option<Keypair>)
        requires
            g1_decodes(delta_g1@),
        ensures
            r matches Some(kp) ==> fr_canonical(kp.private_key.delta@)
                && key_for(kp.public_key, kp.private_key.delta@, delta_g1@, cs_hash@, contributions@)
                && public_key_valid(public_key_encoding(kp.public_key)),
            r is None ==> exists|s: Seq<u8>, s_delta: Seq<u8>|
                #[trigger] hash_to_g2_spec(transcript_hash(cs_hash@, contributions@, s, s_delta)) is None,
    {
        let delta = random_fr();
        let delta_after = g1_mul(delta_g1, &delta);
        let s = random_g1();
        let s_delta = g1_mul(&s, &delta);
        let transcript = hash_cs_pubkeys(cs_hash, contributions, &s, &s_delta);
        let r = match hash_to_g2(&transcript) {
            Some(r) => r,
            None => {
                proof { assert(hash_to_g2_spec(transcript_hash(cs_hash@, contributions@, s@, s_delta@)) is None); }
                return None;
            },
        };
        let r_delta = g2_mul(&r, &delta);
        let k = PublicKey { delta_after, s, s_delta, r_delta, transcript };
        proof {
            let e = public_key_encoding(k);
            assert(e.subrange(0, 32) =~= delta_after@);
            assert(e.subrange(32, 64) =~= s@);
            assert(e.subrange(64, 96) =~= s_delta@);
            assert(e.subrange(96, 160) =~= r_delta@);
        }
        Some(Keypair { private_key: PrivateKey { delta }, public_key: k })
    }
}

/// Parameters for one circuit, with the transcript of every contribution.
pub struct MPCParameters {
    pub params: ProvingKeyParts,
    pub cs_hash: [u8; 64],
    pub contributions: Vec<PublicKey>,
}

/// The hash a ceremony is for: Blake2b-512 of the starting key's encoding.
pub open spec fn params_hash(p: ProvingKeyParts) -> Seq<u8> {
    blake2b512(proving_key_encoding(p))
}

/// Every point of every contribution decodes.
pub open spec fn keys_valid(ks: Seq<PublicKey>) -> bool {
    forall|i: int| 0 <= i < ks.len() ==> public_key_valid(public_key_encoding(#[trigger] ks[i]))
}

/// The G1 and G2 points of a list, scaled by the same scalar.
pub open spec fn scaled_all(v: Seq<[u8; 32]>, w: Seq<[u8; 32]>, s: Seq<u8>) -> bool {
    v.len() == w.len() && forall|i: int| 0 <= i < v.len() ==> (#[trigger] w[i])@ == g1_scaled(v[i]@, s)
}

/// `after` is `before` with one contribution of secret `delta`: the L and
/// H queries scaled by its inverse, delta in G1 and G2 scaled by it, the
/// public key appended, and nothing else changed.
pub open spec fn contributed(before: MPCParameters, after: MPCParameters, delta: Seq<u8>) -> bool {
    &&& fr_canonical(delta)
    &&& fr_inverse(delta) matches Some(inv) && {
        &&& scaled_all(before.params.l_query@, after.params.l_query@, inv)
        &&& scaled_all(before.params.h_query@, after.params.h_query@, inv)
    }
    &&& after.params.delta_g2@ == g2_scaled(before.params.delta_g2@, delta)
    &&& after.params.delta_g1@ == g1_scaled(before.params.delta_g1@, delta)
    &&& after.params.alpha_g1 == before.params.alpha_g1
    &&& after.params.beta_g2 == before.params.beta_g2
    &&& after.params.gamma_g2 == before.params.gamma_g2
    &&& after.params.gamma_abc_g1@ == before.params.gamma_abc_g1@
    &&& after.params.beta_g1 == before.params.beta_g1
    &&& after.params.a_query@ == before.params.a_query@
    &&& after.params.b_g1_query@ == before.params.b_g1_query@
    &&& after.params.b_g2_query@ == before.params.b_g2_query@
    &&& after.cs_hash == before.cs_hash
    &&& after.contributions@.len() == before.contributions@.len() + 1
    &&& after.contributions@.drop_last() == before.contributions@
    &&& key_for(after.contributions@.last(), delta, before.params.delta_g1@, before.cs_hash@, before.contributions@)
}

fn scale_all(v: &mut Vec<[u8; 32]>, s: &[u8; 32])
    requires
        all_g1(old(v)@),
    ensures
        all_g1(final(v)@),
        scaled_all(old(v)@, final(v)@, s@),
{
    let ghost orig = v@;
    let mut i: usize = 0;
    while i < v.len()
        invariant
            i <= v@.len(),
            v@.len() == orig.len(),
            forall|j: int| 0 <= j < i ==> (#[trigger] v@[j])@ == g1_scaled(orig[j]@, s@) && g1_decodes(v@[j]@),
            forall|j: int| i <= j < v@.len() ==> #[trigger] v@[j] == orig[j],
            all_g1(orig),
        decreases v@.len() - i,
    {
        let p = g1_mul(&v[i], s);
        v.set(i, p);
        i = i + 1;
    }
}

/// The spec of `verify_transcript` from contribution `i` on, with the delta
/// before it.
pub open spec fn transcript_from(cs: Seq<u8>, ks: Seq<PublicKey>, i: nat, old_delta: Seq<u8>)
    -> Result<Seq<Seq<u8>>, CeremonyError>
    decreases ks.len() - i,
{
    if i >= ks.len() {
        Ok(Seq::empty())
    } else {
        let k = ks[i as int];
        let hash = transcript_hash(cs, ks.take(i as int), k.s@, k.s_delta@);
        if k.transcript@ != hash {
            Err(CeremonyError::BrokenInvariant("transcript"))
        } else {
            match hash_to_g2_spec(hash) {
                None => Err(CeremonyError::Ratio("signature of knowledge")),
                Some(r) => if !ratio_check(k.s@, k.s_delta@, r, k.r_delta@) {
                    Err(CeremonyError::Ratio("signature of knowledge"))
                } else if !ratio_check(old_delta, k.delta_after@, r, k.r_delta@) {
                    Err(CeremonyError::Ratio("inconsistent G1 delta"))
                } else {
                    match transcript_from(cs, ks, i + 1, k.delta_after@) {
                        Ok(rest) => Ok(seq![blake2b512(public_key_encoding(k))] + rest),
                        Err(e) => Err(e),
                    }
                },
            }
        }
    }
}

/// What checking a whole chain of contributions gives: each contribution's
/// hash, or the first failed check.
pub open spec fn transcript_spec(cs: Seq<u8>, ks: Seq<PublicKey>) -> Result<Seq<Seq<u8>>, CeremonyError> {
    transcript_from(cs, ks, 0, G1_GENERATOR@)
}

pub open spec fn hashes_view(v: Seq<[u8; 64]>) -> Seq<Seq<u8>> {
    v.map_values(|h: [u8; 64]| h@)
}

/// `d` in front of the hashes in `r`, or the error in `r`.
pub open spec fn prefixed(d: Seq<Seq<u8>>, r: Result<Seq<Seq<u8>>, CeremonyError>) -> Result<Seq<Seq<u8>>, CeremonyError> {
    match r {
        Ok(rest) => Ok(d + rest),
        Err(e) => Err(e),
    }
}

/// Recomputes and checks every contribution's transcript hash, its
/// signature of knowledge and its step from the previous delta, in order;
/// returns each contribution's hash.
pub fn verify_transcript(cs_hash: &[u8; 64], contributions: &[PublicKey]) -> (r: Result<Vec<[u8; 64]>, CeremonyError>)
    requires
        keys_valid(contributions@),
    ensures
        match r {
            Ok(v) => transcript_spec(cs_hash@, contributions@) == Ok::<Seq<Seq<u8>>, CeremonyError>(hashes_view(v@)),
            Err(e) => transcript_spec(cs_hash@, contributions@) == Err::<Seq<Seq<u8>>, CeremonyError>(e),
        },
{
    let ghost ks = contributions@;
    let mut result: Vec<[u8; 64]> = Vec::new();
    let mut old_delta = g1_generator();
    let mut i: usize = 0;
    proof {
        assert(hashes_view(result@) =~= Seq::<Seq<u8>>::empty());
        match transcript_from(cs_hash@, ks, 0, old_delta@) {
            Ok(rest) => { assert(Seq::<Seq<u8>>::empty() + rest =~= rest); },
            Err(_) => {},
        }
    }
    while i < contributions.len()
        invariant
            i <= ks.len(),
            ks == contributions@,
            keys_valid(ks),
            g1_decodes(old_delta@),
            transcript_spec(cs_hash@, ks)
                == prefixed(hashes_view(result@), transcript_from(cs_hash@, ks, i as nat, old_delta@)),
        decreases ks.len() - i,
    {
        let k = &contributions[i];
        proof {
            assert(public_key_valid(public_key_encoding(ks[i as int])));
            let e = public_key_encoding(*k);
            assert(e.subrange(0, 32) =~= k.delta_after@);
            assert(e.subrange(32, 64) =~= k.s@);
            assert(e.subrange(64, 96) =~= k.s_delta@);
            assert(e.subrange(96, 160) =~= k.r_delta@);
        }
        let hash = hash_cs_pubkeys(cs_hash, &contributions[0..i], &k.s, &k.s_delta);
        proof { assert(contributions@.subrange(0, i as int) =~= ks.take(i as int)); }
        if !eq64(&k.transcript, &hash) {
            return Err(CeremonyError::BrokenInvariant("transcript"));
        }
        let r = match hash_to_g2(&hash) {
            Some(r) => r,
            None => return Err(CeremonyError::Ratio("signature of knowledge")),
        };
        if check_same_ratio(&(k.s, k.s_delta), &(r, k.r_delta), "signature of knowledge").is_err() {
            return Err(CeremonyError::Ratio("signature of knowledge"));
        }
        if check_same_ratio(&(old_delta, k.delta_after), &(r, k.r_delta), "inconsistent G1 delta").is_err() {
            return Err(CeremonyError::Ratio("inconsistent G1 delta"));
        }
        let h = k.hash();
        let ghost before = hashes_view(result@);
        result.push(h);
        proof {
            assert(hashes_view(result@) =~= before.push(h@));
            match transcript_from(cs_hash@, ks, (i + 1) as nat, k.delta_after@) {
                Ok(rest) => { assert(before + (seq![h@] + rest) =~= before.push(h@) + rest); },
                Err(_) => {},
            }
        }
        old_delta = k.delta_after;
        i = i + 1;
    }
    proof {
        assert(hashes_view(result@) + Seq::<Seq<u8>>::empty() =~= hashes_view(result@));
    }
    Ok(result)
}

/// Whether two public keys are the same.
fn same_key(a: &PublicKey, b: &PublicKey) -> (r: bool)
    ensures
        r == (*a == *b),
{
    let r = eq32(&a.delta_after, &b.delta_after) && eq32(&a.s, &b.s) && eq32(&a.s_delta, &b.s_delta)
        && eq64(&a.r_delta, &b.r_delta) && eq64(&a.transcript, &b.transcript);
    proof {
        if r {
            assert(a.delta_after == b.delta_after);
            assert(a.s == b.s);
            assert(a.s_delta == b.s_delta);
            assert(a.r_delta == b.r_delta);
            assert(a.transcript == b.transcript);
        }
    }
    r
}

/// Whether `after` starts with the contributions of `before`.
fn extends(before: &[PublicKey], after: &[PublicKey]) -> (r: bool)
    requires
        before@.len() <= after@.len(),
    ensures
        r == (after@.take(before@.len() as int) == before@),
{
    let mut i: usize = 0;
    while i < before.len()
        invariant
            i <= before@.len(),
            before@.len() <= after@.len(),
            forall|j: int| 0 <= j < i ==> before@[j] == after@[j],
        decreases before@.len() - i,
    {
        if !same_key(&before[i], &after[i]) {
            proof { assert(after@.take(before@.len() as int)[i as int] != before@[i as int]); }
            return false;
        }
        i = i + 1;
    }
    proof { assert(after@.take(before@.len() as int) =~= before@); }
    true
}

/// Whether two lists of G1 points are the same.
fn same_g1_list(a: &Vec<[u8; 32]>, b: &Vec<[u8; 32]>) -> (r: bool)
    ensures
        r == (a@ == b@),
{
    if a.len() != b.len() {
        return false;
    }
    let mut i: usize = 0;
    while i < a.len()
        invariant
            i <= a@.len(),
            a@.len() == b@.len(),
            forall|j: int| 0 <= j < i ==> a@[j] == b@[j],
        decreases a@.len() - i,
    {
        if !eq32(&a[i], &b[i]) {
            return false;
        }
        proof { assert(a@[i as int] == b@[i as int]); }
        i = i + 1;
    }
    proof { assert(a@ =~= b@); }
    true
}

/// Whether two lists of G2 points are the same.
fn same_g2_list(a: &Vec<[u8; 64]>, b: &Vec<[u8; 64]>) -> (r: bool)
    ensures
        r == (a@ == b@),
{
    if a.len() != b.len() {
        return false;
    }
    let mut i: usize = 0;
    while i < a.len()
        invariant
            i <= a@.len(),
            a@.len() == b@.len(),
            forall|j: int| 0 <= j < i ==> a@[j] == b@[j],
        decreases a@.len() - i,
    {
        if !eq64(&a[i], &b[i]) {
            return false;
        }
        proof { assert(a@[i as int] == b@[i as int]); }
        i = i + 1;
    }
    proof { assert(a@ =~= b@); }
    true
}

/// The first structural check between `before` and `after` that fails, in
/// the order `verify` makes them: a last contribution exists, its
/// `delta_after` is the new `delta_g1`, the new `delta_g2` is the generator
/// scaled by the same secret, `after` has exactly one contribution more and
/// keeps the earlier ones, the circuit hash is kept, the H and L queries
/// keep their lengths, and every other part of the key is unchanged.
pub open spec fn structure_error(before: MPCParameters, after: MPCParameters) -> Option<CeremonyError> {
    let ks = after.contributions@;
    let b = before.params;
    let a = after.params;
    if ks.len() == 0 {
        Some(CeremonyError::NoContributions)
    } else if ks.last().delta_after@ != a.delta_g1@ {
        Some(CeremonyError::BrokenInvariant("delta_g1"))
    } else if !ratio_check(G1_GENERATOR@, ks.last().delta_after@, G2_GENERATOR@, a.delta_g2@) {
        Some(CeremonyError::Ratio("inconsistent G2 delta"))
    } else if ks.len() != before.contributions@.len() + 1
        || ks.take(before.contributions@.len() as int) != before.contributions@ {
        Some(CeremonyError::BrokenInvariant("prior contributions"))
    } else if after.cs_hash@ != before.cs_hash@ {
        Some(CeremonyError::BrokenInvariant("cs_hash"))
    } else if b.h_query@.len() != a.h_query@.len() || b.l_query@.len() != a.l_query@.len() {
        Some(CeremonyError::InvalidLength)
    } else if b.alpha_g1@ != a.alpha_g1@ {
        Some(CeremonyError::BrokenInvariant("alpha_g1"))
    } else if b.beta_g1@ != a.beta_g1@ {
        Some(CeremonyError::BrokenInvariant("beta_g1"))
    } else if b.beta_g2@ != a.beta_g2@ {
        Some(CeremonyError::BrokenInvariant("beta_g2"))
    } else if b.gamma_g2@ != a.gamma_g2@ {
        Some(CeremonyError::BrokenInvariant("gamma_g2"))
    } else if b.gamma_abc_g1@ != a.gamma_abc_g1@ {
        Some(CeremonyError::BrokenInvariant("gamma_abc_g1"))
    } else if b.a_query@ != a.a_query@ {
        Some(CeremonyError::BrokenInvariant("a_query"))
    } else if b.b_g1_query@ != a.b_g1_query@ {
        Some(CeremonyError::BrokenInvariant("b_g1_query"))
    } else if b.b_g2_query@ != a.b_g2_query@ {
        Some(CeremonyError::BrokenInvariant("b_g2_query"))
    } else {
        None
    }
}

/// What verifying `after` against `before` gives once the H and L queries
/// of both have been merged into the pairs `h` and `l`: the first failed
/// structural check, else a failed ratio of a non-empty query against the
/// change of `delta_g2`, else the check of the whole transcript.
pub open spec fn verify_outcome(
    before: MPCParameters,
    after: MPCParameters,
    h: (Seq<u8>, Seq<u8>),
    l: (Seq<u8>, Seq<u8>),
) -> Result<Seq<Seq<u8>>, CeremonyError> {
    match structure_error(before, after) {
        Some(e) => Err(e),
        None => if before.params.h_query@.len() > 0
            && !ratio_check(h.0, h.1, after.params.delta_g2@, before.params.delta_g2@) {
            Err(CeremonyError::Ratio("H_query ratio"))
        } else if before.params.l_query@.len() > 0
            && !ratio_check(l.0, l.1, after.params.delta_g2@, before.params.delta_g2@) {
            Err(CeremonyError::Ratio("L_query ratio"))
        } else {
            transcript_spec(before.cs_hash@, after.contributions@)
        },
    }
}

/// `r` is the executable form of `s`.
pub open spec fn same_outcome(r: Result<Vec<[u8; 64]>, CeremonyError>, s: Result<Seq<Seq<u8>>, CeremonyError>) -> bool {
    match r {
        Ok(v) => s == Ok::<Seq<Seq<u8>>, CeremonyError>(hashes_view(v@)),
        Err(e) => s == Err::<Seq<Seq<u8>>, CeremonyError>(e),
    }
}

impl MPCParameters {
    /// A ceremony's starting point from a proving key with `delta = 1`: the
    /// circuit hash is Blake2b-512 of the key's encoding, and there are no
    /// contributions yet.
    pub fn new_placeholder(params: ProvingKeyParts) -> (r: MPCParameters)
        ensures
            r.params == params,
            r.cs_hash@ == params_hash(params),
            r.contributions@.len() == 0,
    {
        let bytes = params.to_bytes();
        let cs_hash = blake2b512_digest(bytes.as_slice());
        MPCParameters { params, cs_hash, contributions: Vec::new() }
    }

    /// Contributes fresh randomness: a new secret `delta` scales `delta` in
    /// G1 and G2 and divides the H and L queries, and its public key is
    /// appended. Returns the contribution's hash. Refused, with the
    /// parameters unchanged, only where the transcript does not hash to G2
    /// or the secret drawn is zero.
    pub fn contribute(&mut self) -> (r: Result<[u8; 64], CeremonyError>)
        requires
            old(self).params.wf(),
            keys_valid(old(self).contributions@),
        ensures
            final(self).params.wf(),
            keys_valid(final(self).contributions@),
            r matches Ok(h) ==> (exists|delta: Seq<u8>| contributed(*old(self), *final(self), delta))
                && h@ == blake2b512(public_key_encoding(final(self).contributions@.last())),
            r is Err ==> *final(self) == *old(self),
            r matches Err(e) ==> (e == CeremonyError::Ratio("signature of knowledge") && exists|s: Seq<u8>, s_delta: Seq<u8>|
                #[trigger] hash_to_g2_spec(transcript_hash(old(self).cs_hash@, old(self).contributions@, s, s_delta)) is None)
                || (e == CeremonyError::BrokenInvariant("delta") && exists|d: Seq<u8>| fr_canonical(d) && #[trigger] fr_inverse(d) is None),
    {
        let ghost before = *self;
        let kp = match Keypair::new(&self.params.delta_g1, &self.cs_hash, self.contributions.as_slice()) {
            Some(kp) => kp,
            None => return Err(CeremonyError::Ratio("signature of knowledge")),
        };
        let delta_inv = match fr_inv(&kp.private_key.delta) {
            Some(x) => x,
            None => {
                proof { assert(fr_canonical(kp.private_key.delta@) && fr_inverse(kp.private_key.delta@) is None); }
                return Err(CeremonyError::BrokenInvariant("delta"));
            },
        };
        scale_all(&mut self.params.l_query, &delta_inv);
        scale_all(&mut self.params.h_query, &delta_inv);
        self.params.delta_g2 = g2_mul(&self.params.delta_g2, &kp.private_key.delta);
        self.params.delta_g1 = g1_mul(&self.params.delta_g1, &kp.private_key.delta);
        self.contributions.push(kp.public_key);
        proof {
            assert(self.contributions@.drop_last() =~= before.contributions@);
            assert(contributed(before, *self, kp.private_key.delta@));
        }
        Ok(kp.public_key.hash())
    }

    /// The stored form: the proving key's encoding, the circuit hash and
    /// each contribution with its length.
    pub fn write(&self) -> (b: Vec<u8>)
        ensures
            b@ == parameters_encoding(proving_key_encoding(self.params), self.cs_hash@, self.contributions@),
    {
        let pk = self.params.to_bytes();
        write_parameters(pk.as_slice(), &self.cs_hash, self.contributions.as_slice())
    }
}


impl MPCParameters {
    /// Makes the structural checks between `self` and `after`, in order.
    fn check_structure(&self, after: &MPCParameters) -> (r: Result<(), CeremonyError>)
        requires
            after.params.wf(),
            keys_valid(after.contributions@),
        ensures
            match r {
                Ok(()) => structure_error(*self, *after) is None,
                Err(e) => structure_error(*self, *after) == Some(e),
            },
    {
        let b = &self.params;
        let a = &after.params;
        let n = after.contributions.len();
        if n == 0 {
            return Err(CeremonyError::NoContributions);
        }
        let pubkey = &after.contributions[n - 1];
        proof {
            assert(after.contributions@.last() == *pubkey);
            let e = public_key_encoding(*pubkey);
            assert(public_key_valid(e));
            assert(e.subrange(0, 32) =~= pubkey.delta_after@);
        }
        if !eq32(&pubkey.delta_after, &a.delta_g1) {
            return Err(CeremonyError::BrokenInvariant("delta_g1"));
        }
        let g1 = g1_generator();
        let g2 = g2_generator();
        if check_same_ratio(&(g1, pubkey.delta_after), &(g2, a.delta_g2), "inconsistent G2 delta").is_err() {
            return Err(CeremonyError::Ratio("inconsistent G2 delta"));
        }
        if n - 1 != self.contributions.len() {
            return Err(CeremonyError::BrokenInvariant("prior contributions"));
        }
        if !extends(self.contributions.as_slice(), after.contributions.as_slice()) {
            return Err(CeremonyError::BrokenInvariant("prior contributions"));
        }
        if !eq64(&self.cs_hash, &after.cs_hash) {
            return Err(CeremonyError::BrokenInvariant("cs_hash"));
        }
        if b.h_query.len() != a.h_query.len() || b.l_query.len() != a.l_query.len() {
            return Err(CeremonyError::InvalidLength);
        }
        if !eq32(&b.alpha_g1, &a.alpha_g1) {
            return Err(CeremonyError::BrokenInvariant("alpha_g1"));
        }
        if !eq32(&b.beta_g1, &a.beta_g1) {
            return Err(CeremonyError::BrokenInvariant("beta_g1"));
        }
        if !eq64(&b.beta_g2, &a.beta_g2) {
            return Err(CeremonyError::BrokenInvariant("beta_g2"));
        }
        if !eq64(&b.gamma_g2, &a.gamma_g2) {
            return Err(CeremonyError::BrokenInvariant("gamma_g2"));
        }
        if !same_g1_list(&b.gamma_abc_g1, &a.gamma_abc_g1) {
            return Err(CeremonyError::BrokenInvariant("gamma_abc_g1"));
        }
        if !same_g1_list(&b.a_query, &a.a_query) {
            return Err(CeremonyError::BrokenInvariant("a_query"));
        }
        if !same_g1_list(&b.b_g1_query, &a.b_g1_query) {
            return Err(CeremonyError::BrokenInvariant("b_g1_query"));
        }
        if !same_g2_list(&b.b_g2_query, &a.b_g2_query) {
            return Err(CeremonyError::BrokenInvariant("b_g2_query"));
        }
        Ok(())
    }

    /// Verifies that `after` is `self` with one more contribution, given
    /// the H queries of both merged into `h` and the L queries into `l`
    /// (with the same coefficients on each side): the structural checks,
    /// the ratio of each non-empty query against the change of `delta_g2`,
    /// then the whole transcript. Returns every contribution's hash.
    pub fn verify_with_merged(
        &self,
        after: &MPCParameters,
        h: &([u8; 32], [u8; 32]),
        l: &([u8; 32], [u8; 32]),
    ) -> (r: Result<Vec<[u8; 64]>, CeremonyError>)
        requires
            self.params.wf(),
            after.params.wf(),
            keys_valid(after.contributions@),
            g1_decodes(h.0@),
            g1_decodes(h.1@),
            g1_decodes(l.0@),
            g1_decodes(l.1@),
        ensures
            same_outcome(r, verify_outcome(*self, *after, (h.0@, h.1@), (l.0@, l.1@))),
            r is Ok ==> structure_error(*self, *after) is None
                && (self.params.h_query@.len() > 0
                    ==> ratio_check(h.0@, h.1@, after.params.delta_g2@, self.params.delta_g2@))
                && (self.params.l_query@.len() > 0
                    ==> ratio_check(l.0@, l.1@, after.params.delta_g2@, self.params.delta_g2@)),
    {
        if let Err(e) = self.check_structure(after) {
            return Err(e);
        }
        if self.params.h_query.len() > 0 {
            if check_same_ratio(h, &(after.params.delta_g2, self.params.delta_g2), "H_query ratio").is_err() {
                return Err(CeremonyError::Ratio("H_query ratio"));
            }
        }
        if self.params.l_query.len() > 0 {
            if check_same_ratio(l, &(after.params.delta_g2, self.params.delta_g2), "L_query ratio").is_err() {
                return Err(CeremonyError::Ratio("L_query ratio"));
            }
        }
        verify_transcript(&self.cs_hash, after.contributions.as_slice())
    }

    /// Verifies that `after` is a valid evolution of `self` by exactly one
    /// more contribution, merging each of the H and L queries with fresh
    /// random coefficients so that one pairing check covers all of it.
    /// Returns every contribution's hash. A failed structural check is
    /// reported exactly; past those, the result is what
    /// `verify_with_merged` gives for the merged pairs drawn.
    pub fn verify(&self, after: &MPCParameters) -> (r: Result<Vec<[u8; 64]>, CeremonyError>)
        requires
            self.params.wf(),
            after.params.wf(),
            keys_valid(after.contributions@),
        ensures
            structure_error(*self, *after) matches Some(e) ==> r == Err::<Vec<[u8; 64]>, CeremonyError>(e),
            structure_error(*self, *after) is None ==> exists|h: (Seq<u8>, Seq<u8>), l: (Seq<u8>, Seq<u8>)|
                #![trigger verify_outcome(*self, *after, h, l)]
                merge_of(self.params.h_query@, after.params.h_query@, h)
                    && merge_of(self.params.l_query@, after.params.l_query@, l)
                    && same_outcome(r, verify_outcome(*self, *after, h, l)),
            r is Ok ==> structure_error(*self, *after) is None && exists|h: (Seq<u8>, Seq<u8>), l: (Seq<u8>, Seq<u8>)|
                #![trigger merge_of(self.params.h_query@, after.params.h_query@, h), merge_of(self.params.l_query@, after.params.l_query@, l)]
                merge_of(self.params.h_query@, after.params.h_query@, h)
                    && merge_of(self.params.l_query@, after.params.l_query@, l)
                    && (self.params.h_query@.len() > 0
                        ==> ratio_check(h.0, h.1, after.params.delta_g2@, self.params.delta_g2@))
                    && (self.params.l_query@.len() > 0
                        ==> ratio_check(l.0, l.1, after.params.delta_g2@, self.params.delta_g2@)),
    {
        if let Err(e) = self.check_structure(after) {
            return Err(e);
        }
        let h = merge_pairs(&self.params.h_query, &after.params.h_query);
        let l = merge_pairs(&self.params.l_query, &after.params.l_query);
        let r = self.verify_with_merged(after, &h, &l);
        proof {
            assert(merge_of(self.params.h_query@, after.params.h_query@, (h.0@, h.1@)));
            assert(merge_of(self.params.l_query@, after.params.l_query@, (l.0@, l.1@)));
            assert(same_outcome(r, verify_outcome(*self, *after, (h.0@, h.1@), (l.0@, l.1@))));
        }
        r
    }
}

/// The structure of a contribution is intact exactly when `after` has one
/// contribution more than `before` and keeps the earlier ones, its last
/// contribution's `delta_after` is the new `delta_g1` and matches the new
/// `delta_g2`, the circuit hash and the lengths of the H and L queries are
/// kept, and every part of the key other than `delta` and those queries is
/// unchanged.
pub proof fn law_structure_intact(before: MPCParameters, after: MPCParameters)
    ensures
        structure_error(before, after) is None <==> {
            let ks = after.contributions@;
            let b = before.params;
            let a = after.params;
            &&& ks.len() == before.contributions@.len() + 1
            &&& ks.take(before.contributions@.len() as int) == before.contributions@
            &&& ks.last().delta_after@ == a.delta_g1@
            &&& ratio_check(G1_GENERATOR@, a.delta_g1@, G2_GENERATOR@, a.delta_g2@)
            &&& after.cs_hash@ == before.cs_hash@
            &&& b.h_query@.len() == a.h_query@.len()
            &&& b.l_query@.len() == a.l_query@.len()
            &&& b.alpha_g1@ == a.alpha_g1@
            &&& b.beta_g1@ == a.beta_g1@
            &&& b.beta_g2@ == a.beta_g2@
            &&& b.gamma_g2@ == a.gamma_g2@
            &&& b.gamma_abc_g1@ == a.gamma_abc_g1@
            &&& b.a_query@ == a.a_query@
            &&& b.b_g1_query@ == a.b_g1_query@
            &&& b.b_g2_query@ == a.b_g2_query@
        },
{
}

/// A contribution is accepted only if the structure is intact and the
/// merged H and L queries (where not empty) moved by the inverse of the
/// change of `delta`: the merged pair before and after has the ratio of the
/// new `delta_g2` to the old one.
pub proof fn law_accepted_contribution_scales_queries(
    before: MPCParameters,
    after: MPCParameters,
    h: (Seq<u8>, Seq<u8>),
    l: (Seq<u8>, Seq<u8>),
)
    requires
        verify_outcome(before, after, h, l) is Ok,
    ensures
        structure_error(before, after) is None,
        before.params.h_query@.len() > 0 ==> ratio_check(h.0, h.1, after.params.delta_g2@, before.params.delta_g2@),
        before.params.l_query@.len() > 0 ==> ratio_check(l.0, l.1, after.params.delta_g2@, before.params.delta_g2@),
        transcript_spec(before.cs_hash@, after.contributions@) is Ok,
{
}

// ---------------------------------------------------------------------------
// Reading a proving key back

/// Writing a `u64` as 8 bytes loses nothing.
proof fn lemma_u64_le_injective(x: u64, y: u64)
    requires
        u64_le(x) == u64_le(y),
    ensures
        x == y,
{
    assert(u64_le(x)[0] == u64_le(y)[0]);
    assert(u64_le(x)[1] == u64_le(y)[1]);
    assert(u64_le(x)[2] == u64_le(y)[2]);
    assert(u64_le(x)[3] == u64_le(y)[3]);
    assert(u64_le(x)[4] == u64_le(y)[4]);
    assert(u64_le(x)[5] == u64_le(y)[5]);
    assert(u64_le(x)[6] == u64_le(y)[6]);
    assert(u64_le(x)[7] == u64_le(y)[7]);
    assert(x % 256 == y % 256);
    assert((x / 0x100) % 256 == (y / 0x100) % 256);
    assert((x / 0x10000) % 256 == (y / 0x10000) % 256);
    assert((x / 0x1000000) % 256 == (y / 0x1000000) % 256);
    assert((x / 0x100000000) % 256 == (y / 0x100000000) % 256);
    assert((x / 0x10000000000) % 256 == (y / 0x10000000000) % 256);
    assert((x / 0x1000000000000) % 256 == (y / 0x1000000000000) % 256);
    assert(x / 0x100000000000000 == y / 0x100000000000000);
    assert(x == y) by (bit_vector)
        requires
            x % 256 == y % 256,
            (x / 0x100) % 256 == (y / 0x100) % 256,
            (x / 0x10000) % 256 == (y / 0x10000) % 256,
            (x / 0x1000000) % 256 == (y / 0x1000000) % 256,
            (x / 0x100000000) % 256 == (y / 0x100000000) % 256,
            (x / 0x10000000000) % 256 == (y / 0x10000000000) % 256,
            (x / 0x1000000000000) % 256 == (y / 0x1000000000000) % 256,
            x / 0x100000000000000 == y / 0x100000000000000,
    ;
}

/// Reads the 8 little-endian bytes at `at` as a `u64`.
fn read_u64(b: &[u8], at: usize) -> (n: u64)
    requires
        at + 8 <= b@.len(),
    ensures
        u64_le(n) == b@.subrange(at as int, at + 8),
{
    let b0 = b[at];
    let b1 = b[at + 1];
    let b2 = b[at + 2];
    let b3 = b[at + 3];
    let b4 = b[at + 4];
    let b5 = b[at + 5];
    let b6 = b[at + 6];
    let b7 = b[at + 7];
    let n: u64 = (b0 as u64) | (b1 as u64) << 8u64 | (b2 as u64) << 16u64 | (b3 as u64) << 24u64
        | (b4 as u64) << 32u64 | (b5 as u64) << 40u64 | (b6 as u64) << 48u64 | (b7 as u64) << 56u64;
    let c0 = b0 as u64;
    let c1 = b1 as u64;
    let c2 = b2 as u64;
    let c3 = b3 as u64;
    let c4 = b4 as u64;
    let c5 = b5 as u64;
    let c6 = b6 as u64;
    let c7 = b7 as u64;
    assert(n % 256 == c0 && (n / 0x100) % 256 == c1 && (n / 0x10000) % 256 == c2 && (n / 0x1000000) % 256 == c3
        && (n / 0x100000000) % 256 == c4 && (n / 0x10000000000) % 256 == c5 && (n / 0x1000000000000) % 256 == c6
        && n / 0x100000000000000 == c7) by (bit_vector)
        requires
            c0 < 256 && c1 < 256 && c2 < 256 && c3 < 256 && c4 < 256 && c5 < 256 && c6 < 256 && c7 < 256,
            n == c0 | c1 << 8u64 | c2 << 16u64 | c3 << 24u64 | c4 << 32u64 | c5 << 40u64 | c6 << 48u64 | c7 << 56u64,
    ;
    proof { assert(u64_le(n) =~= b@.subrange(at as int, at + 8)); }
    n
}

proof fn lemma_g1_concat_len(v: Seq<[u8; 32]>)
    ensures
        g1_concat(v).len() == 32 * v.len(),
    decreases v.len(),
{
    if v.len() > 0 {
        lemma_g1_concat_len(v.drop_last());
    }
}

proof fn lemma_g2_concat_len(v: Seq<[u8; 64]>)
    ensures
        g2_concat(v).len() == 64 * v.len(),
    decreases v.len(),
{
    if v.len() > 0 {
        lemma_g2_concat_len(v.drop_last());
    }
}

proof fn lemma_g1_concat_at(v: Seq<[u8; 32]>, i: int)
    requires
        0 <= i < v.len(),
    ensures
        g1_concat(v).subrange(32 * i, 32 * i + 32) == v[i]@,
    decreases v.len(),
{
    lemma_g1_concat_len(v.drop_last());
    if i < v.len() - 1 {
        lemma_g1_concat_at(v.drop_last(), i);
        assert(g1_concat(v).subrange(32 * i, 32 * i + 32) =~= g1_concat(v.drop_last()).subrange(32 * i, 32 * i + 32));
    } else {
        assert(g1_concat(v).subrange(32 * i, 32 * i + 32) =~= v.last()@);
    }
}

proof fn lemma_g2_concat_at(v: Seq<[u8; 64]>, i: int)
    requires
        0 <= i < v.len(),
    ensures
        g2_concat(v).subrange(64 * i, 64 * i + 64) == v[i]@,
    decreases v.len(),
{
    lemma_g2_concat_len(v.drop_last());
    if i < v.len() - 1 {
        lemma_g2_concat_at(v.drop_last(), i);
        assert(g2_concat(v).subrange(64 * i, 64 * i + 64) =~= g2_concat(v.drop_last()).subrange(64 * i, 64 * i + 64));
    } else {
        assert(g2_concat(v).subrange(64 * i, 64 * i + 64) =~= v.last()@);
    }
}

/// The G1 points of a list encoded at `at`, one after another, are the
/// 32-byte chunks there.
proof fn lemma_g1_list_chunk(b: Seq<u8>, at: int, w: Seq<[u8; 32]>, i: int)
    requires
        0 <= at,
        0 <= i < w.len(),
        g1_concat(w).len() == 32 * w.len(),
        at + 8 + g1_concat(w).len() <= b.len(),
        b.subrange(at + 8, at + 8 + g1_concat(w).len()) == g1_concat(w),
    ensures
        b.subrange(at + 8 + 32 * i, at + 8 + 32 * i + 32) == w[i]@,
{
    lemma_g1_concat_at(w, i);
    let c = g1_concat(w);
    let k = 32 * i;
    assert(k + 32 <= c.len()) by (nonlinear_arith)
        requires
            k == 32 * i,
            0 <= i < w.len(),
            c.len() == 32 * w.len(),
    ;
    assert(b.subrange(at + 8 + k, at + 8 + k + 32) =~= c.subrange(k, k + 32));
}

/// The points of a list encoded at `at`, one after another, are the
/// chunks there.
proof fn lemma_g1_list_at(b: Seq<u8>, at: int, w: Seq<[u8; 32]>)
    requires
        0 <= at,
        w.len() <= u64::MAX,
        at + g1_list(w).len() <= b.len(),
        b.subrange(at, at + g1_list(w).len()) == g1_list(w),
    ensures
        g1_list(w).len() == 8 + 32 * w.len(),
        b.subrange(at, at + 8) == u64_le(w.len() as u64),
        forall|i: int| 0 <= i < w.len() ==> b.subrange(at + 8 + 32 * i, at + 8 + 32 * i + 32) == (#[trigger] w[i])@,
{
    lemma_g1_concat_len(w);
    let e = g1_list(w);
    let c = g1_concat(w);
    assert(e == u64_le(w.len() as u64) + c);
    assert(b.subrange(at, at + 8) =~= e.subrange(0, 8));
    assert(e.subrange(0, 8) =~= u64_le(w.len() as u64));
    assert(u64_le(w.len() as u64).len() == 8);
    assert(e.subrange(8, e.len() as int) =~= c);
    assert(b.subrange(at + 8, at + 8 + c.len()) =~= e.subrange(8, e.len() as int));
    assert forall|i: int| 0 <= i < w.len() implies b.subrange(at + 8 + 32 * i, at + 8 + 32 * i + 32) == (#[trigger] w[i])@ by {
        lemma_g1_list_chunk(b, at, w, i);
    }
}

/// The same for G2 points.
proof fn lemma_g2_list_chunk(b: Seq<u8>, at: int, w: Seq<[u8; 64]>, i: int)
    requires
        0 <= at,
        0 <= i < w.len(),
        g2_concat(w).len() == 64 * w.len(),
        at + 8 + g2_concat(w).len() <= b.len(),
        b.subrange(at + 8, at + 8 + g2_concat(w).len()) == g2_concat(w),
    ensures
        b.subrange(at + 8 + 64 * i, at + 8 + 64 * i + 64) == w[i]@,
{
    lemma_g2_concat_at(w, i);
    let c = g2_concat(w);
    let k = 64 * i;
    assert(k + 64 <= c.len()) by (nonlinear_arith)
        requires
            k == 64 * i,
            0 <= i < w.len(),
            c.len() == 64 * w.len(),
    ;
    assert(b.subrange(at + 8 + k, at + 8 + k + 64) =~= c.subrange(k, k + 64));
}

/// The points of a list encoded at `at`, one after another, are the
/// chunks there.
proof fn lemma_g2_list_at(b: Seq<u8>, at: int, w: Seq<[u8; 64]>)
    requires
        0 <= at,
        w.len() <= u64::MAX,
        at + g2_list(w).len() <= b.len(),
        b.subrange(at, at + g2_list(w).len()) == g2_list(w),
    ensures
        g2_list(w).len() == 8 + 64 * w.len(),
        b.subrange(at, at + 8) == u64_le(w.len() as u64),
        forall|i: int| 0 <= i < w.len() ==> b.subrange(at + 8 + 64 * i, at + 8 + 64 * i + 64) == (#[trigger] w[i])@,
{
    lemma_g2_concat_len(w);
    let e = g2_list(w);
    let c = g2_concat(w);
    assert(e == u64_le(w.len() as u64) + c);
    assert(b.subrange(at, at + 8) =~= e.subrange(0, 8));
    assert(e.subrange(0, 8) =~= u64_le(w.len() as u64));
    assert(u64_le(w.len() as u64).len() == 8);
    assert(e.subrange(8, e.len() as int) =~= c);
    assert(b.subrange(at + 8, at + 8 + c.len()) =~= e.subrange(8, e.len() as int));
    assert forall|i: int| 0 <= i < w.len() implies b.subrange(at + 8 + 64 * i, at + 8 + 64 * i + 64) == (#[trigger] w[i])@ by {
        lemma_g2_list_chunk(b, at, w, i);
    }
}

/// A list of valid G1 points is encoded at `at`.
pub open spec fn g1_list_at(b: Seq<u8>, at: int, w: Seq<[u8; 32]>) -> bool {
    &&& all_g1(w)
    &&& w.len() <= u64::MAX
    &&& at + g1_list(w).len() <= b.len()
    &&& b.subrange(at, at + g1_list(w).len()) == g1_list(w)
}

/// A list of valid G2 points is encoded at `at`.
pub open spec fn g2_list_at(b: Seq<u8>, at: int, w: Seq<[u8; 64]>) -> bool {
    &&& all_g2(w)
    &&& w.len() <= u64::MAX
    &&& at + g2_list(w).len() <= b.len()
    &&& b.subrange(at, at + g2_list(w).len()) == g2_list(w)
}

/// Reads the list of valid G1 points encoded at `at`; refused exactly when
/// there is none.
fn read_g1_list(b: &[u8], at: usize) -> (r: Result<(Vec<[u8; 32]>, usize), CeremonyError>)
    requires
        at <= b@.len(),
    ensures
        match r {
            Ok((v, end)) => g1_list_at(b@, at as int, v@) && end == at + g1_list(v@).len(),
            Err(e) => e is Serialization && forall|w: Seq<[u8; 32]>| !#[trigger] g1_list_at(b@, at as int, w),
        },
{
    if b.len() - at < 8 {
        proof {
            assert forall|w: Seq<[u8; 32]>| !#[trigger] g1_list_at(b@, at as int, w) by {
                lemma_g1_concat_len(w);
            }
        }
        return Err(CeremonyError::Serialization(make_string("failed to fill whole buffer")));
    }
    let n = read_u64(b, at);
    let room = (b.len() - at - 8) / 32;
    if n as u128 > room as u128 {
        proof {
            assert forall|w: Seq<[u8; 32]>| !#[trigger] g1_list_at(b@, at as int, w) by {
                if g1_list_at(b@, at as int, w) {
                    lemma_g1_list_at(b@, at as int, w);
                    lemma_u64_le_injective(n, w.len() as u64);
                }
            }
        }
        return Err(CeremonyError::Serialization(make_string("failed to fill whole buffer")));
    }
    let count = n as usize;
    let mut v: Vec<[u8; 32]> = Vec::new();
    let mut i: usize = 0;
    while i < count
        invariant
            at + 8 + 32 * count <= b.len(),
            u64_le(n) == b@.subrange(at as int, at + 8),
            count == n,
            i <= count,
            v@.len() == i,
            all_g1(v@),
            forall|j: int| 0 <= j < i ==> (#[trigger] v@[j])@ == b@.subrange(at + 8 + 32 * j, at + 8 + 32 * j + 32),
        decreases count - i,
    {
        let p = copy32(b, at + 8 + 32 * i);
        proof { assert(p@.subrange(0, 32) =~= p@); }
        if let Err(e) = g1_check(&p, 0) {
            proof {
                assert forall|w: Seq<[u8; 32]>| !#[trigger] g1_list_at(b@, at as int, w) by {
                    if g1_list_at(b@, at as int, w) {
                        lemma_g1_list_at(b@, at as int, w);
                        lemma_u64_le_injective(n, w.len() as u64);
                        assert(b@.subrange(at + 8 + 32 * i, at + 8 + 32 * i + 32) == w[i as int]@);
                    }
                }
            }
            return Err(CeremonyError::Serialization(e));
        }
        v.push(p);
        i = i + 1;
    }
    proof {
        lemma_g1_concat_len(v@);
        let e = g1_list(v@);
        assert forall|k: int| 0 <= k < e.len() implies b@.subrange(at as int, at + e.len())[k] == #[trigger] e[k] by {
            if k >= 8 {
                let j = (k - 8) / 32;
                lemma_g1_concat_at(v@, j);
                assert(g1_concat(v@).subrange(32 * j, 32 * j + 32)[k - 8 - 32 * j] == g1_concat(v@)[k - 8]);
                assert(b@.subrange(at + 8 + 32 * j, at + 8 + 32 * j + 32)[k - 8 - 32 * j] == b@[at + k]);
            } else {
                assert(u64_le(n)[k] == b@[at + k]);
            }
        }
        assert(b@.subrange(at as int, at + e.len()) =~= e);
    }
    Ok((v, at + 8 + 32 * count))
}


/// Reads the list of valid G2 points encoded at `at`; refused exactly when
/// there is none.
fn read_g2_list(b: &[u8], at: usize) -> (r: Result<(Vec<[u8; 64]>, usize), CeremonyError>)
    requires
        at <= b@.len(),
    ensures
        match r {
            Ok((v, end)) => g2_list_at(b@, at as int, v@) && end == at + g2_list(v@).len(),
            Err(e) => e is Serialization && forall|w: Seq<[u8; 64]>| !#[trigger] g2_list_at(b@, at as int, w),
        },
{
    if b.len() - at < 8 {
        proof {
            assert forall|w: Seq<[u8; 64]>| !#[trigger] g2_list_at(b@, at as int, w) by {
                lemma_g2_concat_len(w);
            }
        }
        return Err(CeremonyError::Serialization(make_string("failed to fill whole buffer")));
    }
    let n = read_u64(b, at);
    let room = (b.len() - at - 8) / 64;
    if n as u128 > room as u128 {
        proof {
            assert forall|w: Seq<[u8; 64]>| !#[trigger] g2_list_at(b@, at as int, w) by {
                if g2_list_at(b@, at as int, w) {
                    lemma_g2_list_at(b@, at as int, w);
                    lemma_u64_le_injective(n, w.len() as u64);
                }
            }
        }
        return Err(CeremonyError::Serialization(make_string("failed to fill whole buffer")));
    }
    let count = n as usize;
    let mut v: Vec<[u8; 64]> = Vec::new();
    let mut i: usize = 0;
    while i < count
        invariant
            at + 8 + 64 * count <= b.len(),
            u64_le(n) == b@.subrange(at as int, at + 8),
            count == n,
            i <= count,
            v@.len() == i,
            all_g2(v@),
            forall|j: int| 0 <= j < i ==> (#[trigger] v@[j])@ == b@.subrange(at + 8 + 64 * j, at + 8 + 64 * j + 64),
        decreases count - i,
    {
        let p = copy64(b, at + 8 + 64 * i);
        proof { assert(p@.subrange(0, 64) =~= p@); }
        if let Err(e) = g2_check(&p, 0) {
            proof {
                assert forall|w: Seq<[u8; 64]>| !#[trigger] g2_list_at(b@, at as int, w) by {
                    if g2_list_at(b@, at as int, w) {
                        lemma_g2_list_at(b@, at as int, w);
                        lemma_u64_le_injective(n, w.len() as u64);
                        assert(b@.subrange(at + 8 + 64 * i, at + 8 + 64 * i + 64) == w[i as int]@);
                    }
                }
            }
            return Err(CeremonyError::Serialization(e));
        }
        v.push(p);
        i = i + 1;
    }
    proof {
        lemma_g2_concat_len(v@);
        let e = g2_list(v@);
        assert forall|k: int| 0 <= k < e.len() implies b@.subrange(at as int, at + e.len())[k] == #[trigger] e[k] by {
            if k >= 8 {
                let j = (k - 8) / 64;
                lemma_g2_concat_at(v@, j);
                assert(g2_concat(v@).subrange(64 * j, 64 * j + 64)[k - 8 - 64 * j] == g2_concat(v@)[k - 8]);
                assert(b@.subrange(at + 8 + 64 * j, at + 8 + 64 * j + 64)[k - 8 - 64 * j] == b@[at + k]);
            } else {
                assert(u64_le(n)[k] == b@[at + k]);
            }
        }
        assert(b@.subrange(at as int, at + e.len()) =~= e);
    }
    Ok((v, at + 8 + 64 * count))
}

/// Reads the valid G1 point at `at`; refused exactly when there is none.
fn read_g1_at(b: &[u8], at: usize) -> (r: Result<([u8; 32], usize), CeremonyError>)
    requires
        at <= b@.len(),
    ensures
        match r {
            Ok((p, end)) => end == at + 32 && end <= b@.len() && p@ == b@.subrange(at as int, at + 32) && g1_decodes(p@),
            Err(e) => e is Serialization && !(at + 32 <= b@.len() && g1_decodes(b@.subrange(at as int, at + 32))),
        },
{
    if b.len() - at < 32 {
        return Err(CeremonyError::Serialization(make_string("failed to fill whole buffer")));
    }
    let p = copy32(b, at);
    proof { assert(p@.subrange(0, 32) =~= p@); }
    match g1_check(&p, 0) {
        Ok(()) => Ok((p, at + 32)),
        Err(e) => Err(CeremonyError::Serialization(e)),
    }
}

/// Reads the valid G2 point at `at`; refused exactly when there is none.
fn read_g2_at(b: &[u8], at: usize) -> (r: Result<([u8; 64], usize), CeremonyError>)
    requires
        at <= b@.len(),
    ensures
        match r {
            Ok((p, end)) => end == at + 64 && end <= b@.len() && p@ == b@.subrange(at as int, at + 64) && g2_decodes(p@),
            Err(e) => e is Serialization && !(at + 64 <= b@.len() && g2_decodes(b@.subrange(at as int, at + 64))),
        },
{
    if b.len() - at < 64 {
        return Err(CeremonyError::Serialization(make_string("failed to fill whole buffer")));
    }
    let p = copy64(b, at);
    proof { assert(p@.subrange(0, 64) =~= p@); }
    match g2_check(&p, 0) {
        Ok(()) => Ok((p, at + 64)),
        Err(e) => Err(CeremonyError::Serialization(e)),
    }
}

/// Two lists of valid G1 points encoded at the same place are the same.
proof fn lemma_g1_list_unique(b: Seq<u8>, at: int, v: Seq<[u8; 32]>, w: Seq<[u8; 32]>)
    requires
        0 <= at,
        g1_list_at(b, at, v),
        g1_list_at(b, at, w),
    ensures
        v == w,
{
    lemma_g1_list_at(b, at, v);
    lemma_g1_list_at(b, at, w);
    lemma_u64_le_injective(v.len() as u64, w.len() as u64);
    assert forall|i: int| 0 <= i < v.len() implies v[i] == w[i] by {
        assert(v[i]@ == w[i]@);
    }
    assert(v =~= w);
}

/// Two lists of valid G2 points encoded at the same place are the same.
proof fn lemma_g2_list_unique(b: Seq<u8>, at: int, v: Seq<[u8; 64]>, w: Seq<[u8; 64]>)
    requires
        0 <= at,
        g2_list_at(b, at, v),
        g2_list_at(b, at, w),
    ensures
        v == w,
{
    lemma_g2_list_at(b, at, v);
    lemma_g2_list_at(b, at, w);
    lemma_u64_le_injective(v.len() as u64, w.len() as u64);
    assert forall|i: int| 0 <= i < v.len() implies v[i] == w[i] by {
        assert(v[i]@ == w[i]@);
    }
    assert(v =~= w);
}

/// The `k`-th part of a key's encoding.
pub open spec fn key_segment(p: ProvingKeyParts, k: nat) -> Seq<u8> {
    if k == 0 {
        p.alpha_g1@
    } else if k == 1 {
        p.beta_g2@
    } else if k == 2 {
        p.gamma_g2@
    } else if k == 3 {
        p.delta_g2@
    } else if k == 4 {
        g1_list(p.gamma_abc_g1@)
    } else if k == 5 {
        p.beta_g1@
    } else if k == 6 {
        p.delta_g1@
    } else if k == 7 {
        g1_list(p.a_query@)
    } else if k == 8 {
        g1_list(p.b_g1_query@)
    } else if k == 9 {
        g2_list(p.b_g2_query@)
    } else if k == 10 {
        g1_list(p.h_query@)
    } else {
        g1_list(p.l_query@)
    }
}

/// The first `k` parts of a key's encoding.
pub open spec fn key_prefix(p: ProvingKeyParts, k: nat) -> Seq<u8>
    decreases k,
{
    if k == 0 {
        Seq::empty()
    } else {
        key_prefix(p, (k - 1) as nat) + key_segment(p, (k - 1) as nat)
    }
}

/// Every list of the key has a length that its encoding can state.
pub open spec fn lists_fit(p: ProvingKeyParts) -> bool {
    &&& p.gamma_abc_g1@.len() <= u64::MAX
    &&& p.a_query@.len() <= u64::MAX
    &&& p.b_g1_query@.len() <= u64::MAX
    &&& p.b_g2_query@.len() <= u64::MAX
    &&& p.h_query@.len() <= u64::MAX
    &&& p.l_query@.len() <= u64::MAX
}

/// `b` is exactly the encoding of a valid key.
pub open spec fn encodes_key(b: Seq<u8>, p: ProvingKeyParts) -> bool {
    p.wf() && lists_fit(p) && proving_key_encoding(p) == b
}

proof fn lemma_key_prefix_is_prefix(p: ProvingKeyParts, j: nat, k: nat)
    requires
        j <= k,
    ensures
        key_prefix(p, j).len() <= key_prefix(p, k).len(),
        key_prefix(p, k).subrange(0, key_prefix(p, j).len() as int) == key_prefix(p, j),
    decreases k,
{
    if j < k {
        lemma_key_prefix_is_prefix(p, j, (k - 1) as nat);
        assert(key_prefix(p, k).subrange(0, key_prefix(p, j).len() as int)
            =~= key_prefix(p, (k - 1) as nat).subrange(0, key_prefix(p, j).len() as int));
    } else {
        assert(key_prefix(p, k).subrange(0, key_prefix(p, j).len() as int) =~= key_prefix(p, j));
    }
}

/// In the encoding of a key, its `k`-th part starts after the first `k`.
proof fn lemma_key_segment_at(b: Seq<u8>, p: ProvingKeyParts, k: nat)
    requires
        proving_key_encoding(p) == b,
        k < 12,
    ensures
        key_prefix(p, k).len() + key_segment(p, k).len() <= b.len(),
        b.subrange(key_prefix(p, k).len() as int, (key_prefix(p, k).len() + key_segment(p, k).len()) as int)
            == key_segment(p, k),
{
    reveal_with_fuel(key_prefix, 13);
    assert(key_prefix(p, 12) =~= proving_key_encoding(p));
    lemma_key_prefix_is_prefix(p, k + 1, 12);
    let n = key_prefix(p, k).len() as int;
    let m = key_prefix(p, k + 1).len() as int;
    assert(key_prefix(p, k + 1) == key_prefix(p, k) + key_segment(p, k));
    assert(b.subrange(n, m) =~= key_prefix(p, k + 1).subrange(n, m));
    assert(key_prefix(p, k + 1).subrange(n, m) =~= key_segment(p, k));
}

impl ProvingKeyParts {
    /// Reads a key from its compressed encoding: the verifying key's
    /// points, `beta` and `delta` in G1 and the five queries, every list
    /// preceded by its length as 8 little-endian bytes and every point
    /// checked to decode. All of `bytes` must be used. Refused, with a
    /// serialization error, exactly when `bytes` is not the encoding of a
    /// key of valid points.
    #[verifier::spinoff_prover]
    #[verifier::rlimit(100)]
    pub fn from_bytes(bytes: &[u8]) -> (r: Result<ProvingKeyParts, CeremonyError>)
        ensures
            match r {
                Ok(p) => encodes_key(bytes@, p),
                Err(e) => e is Serialization && forall|p: ProvingKeyParts| !#[trigger] encodes_key(bytes@, p),
            },
    {
        let ghost b = bytes@;
        let ghost cand: Option<ProvingKeyParts> = if exists|p: ProvingKeyParts| #[trigger] encodes_key(b, p) {
            Some(choose|p: ProvingKeyParts| #[trigger] encodes_key(b, p))
        } else {
            None
        };
        proof {
            if let Some(p) = cand {
                reveal_with_fuel(key_prefix, 13);
                assert(encodes_key(b, p));
                lemma_key_segment_at(b, p, 0);
            }
        }
        let (alpha_g1, at) = match read_g1_at(bytes, 0) {
            Ok(x) => x,
            Err(e) => {
                proof { assert(cand is None); }
                return Err(e);
            },
        };
        let ghost acc = alpha_g1@;
        proof {
            assert(b.take(at as int) =~= acc);
            if let Some(p) = cand {
                assert(alpha_g1 == p.alpha_g1);
                lemma_key_segment_at(b, p, 1);
            }
        }
        let (beta_g2, at) = match read_g2_at(bytes, at) {
            Ok(x) => x,
            Err(e) => {
                proof { assert(cand is None); }
                return Err(e);
            },
        };
        proof {
            assert(b.take(at as int) =~= acc + beta_g2@);
            acc = acc + beta_g2@;
            if let Some(p) = cand {
                assert(beta_g2 == p.beta_g2);
                lemma_key_segment_at(b, p, 2);
            }
        }
        let (gamma_g2, at) = match read_g2_at(bytes, at) {
            Ok(x) => x,
            Err(e) => {
                proof { assert(cand is None); }
                return Err(e);
            },
        };
        proof {
            assert(b.take(at as int) =~= acc + gamma_g2@);
            acc = acc + gamma_g2@;
            if let Some(p) = cand {
                assert(gamma_g2 == p.gamma_g2);
                lemma_key_segment_at(b, p, 3);
            }
        }
        let (delta_g2, at) = match read_g2_at(bytes, at) {
            Ok(x) => x,
            Err(e) => {
                proof { assert(cand is None); }
                return Err(e);
            },
        };
        proof {
            assert(b.take(at as int) =~= acc + delta_g2@);
            acc = acc + delta_g2@;
            if let Some(p) = cand {
                assert(delta_g2 == p.delta_g2);
                lemma_key_segment_at(b, p, 4);
                assert(g1_list_at(b, at as int, p.gamma_abc_g1@));
            }
        }
        let (gamma_abc_g1, at) = match read_g1_list(bytes, at) {
            Ok(x) => x,
            Err(e) => {
                proof { assert(cand is None); }
                return Err(e);
            },
        };
        proof {
            assert(b.take(at as int) =~= acc + g1_list(gamma_abc_g1@));
            acc = acc + g1_list(gamma_abc_g1@);
            if let Some(p) = cand {
                lemma_g1_list_unique(b, (at - g1_list(gamma_abc_g1@).len()) as int, gamma_abc_g1@, p.gamma_abc_g1@);
                lemma_key_segment_at(b, p, 5);
            }
        }
        let (beta_g1, at) = match read_g1_at(bytes, at) {
            Ok(x) => x,
            Err(e) => {
                proof { assert(cand is None); }
                return Err(e);
            },
        };
        proof {
            assert(b.take(at as int) =~= acc + beta_g1@);
            acc = acc + beta_g1@;
            if let Some(p) = cand {
                assert(beta_g1 == p.beta_g1);
                lemma_key_segment_at(b, p, 6);
            }
        }
        let (delta_g1, at) = match read_g1_at(bytes, at) {
            Ok(x) => x,
            Err(e) => {
                proof { assert(cand is None); }
                return Err(e);
            },
        };
        proof {
            assert(b.take(at as int) =~= acc + delta_g1@);
            acc = acc + delta_g1@;
            if let Some(p) = cand {
                assert(delta_g1 == p.delta_g1);
                lemma_key_segment_at(b, p, 7);
                assert(g1_list_at(b, at as int, p.a_query@));
            }
        }
        let (a_query, at) = match read_g1_list(bytes, at) {
            Ok(x) => x,
            Err(e) => {
                proof { assert(cand is None); }
                return Err(e);
            },
        };
        proof {
            assert(b.take(at as int) =~= acc + g1_list(a_query@));
            acc = acc + g1_list(a_query@);
            if let Some(p) = cand {
                lemma_g1_list_unique(b, (at - g1_list(a_query@).len()) as int, a_query@, p.a_query@);
                lemma_key_segment_at(b, p, 8);
                assert(g1_list_at(b, at as int, p.b_g1_query@));
            }
        }
        let (b_g1_query, at) = match read_g1_list(bytes, at) {
            Ok(x) => x,
            Err(e) => {
                proof { assert(cand is None); }
                return Err(e);
            },
        };
        proof {
            assert(b.take(at as int) =~= acc + g1_list(b_g1_query@));
            acc = acc + g1_list(b_g1_query@);
            if let Some(p) = cand {
                lemma_g1_list_unique(b, (at - g1_list(b_g1_query@).len()) as int, b_g1_query@, p.b_g1_query@);
                lemma_key_segment_at(b, p, 9);
                assert(g2_list_at(b, at as int, p.b_g2_query@));
            }
        }
        let (b_g2_query, at) = match read_g2_list(bytes, at) {
            Ok(x) => x,
            Err(e) => {
                proof { assert(cand is None); }
                return Err(e);
            },
        };
        proof {
            assert(b.take(at as int) =~= acc + g2_list(b_g2_query@));
            acc = acc + g2_list(b_g2_query@);
            if let Some(p) = cand {
                lemma_g2_list_unique(b, (at - g2_list(b_g2_query@).len()) as int, b_g2_query@, p.b_g2_query@);
                lemma_key_segment_at(b, p, 10);
                assert(g1_list_at(b, at as int, p.h_query@));
            }
        }
        let (h_query, at) = match read_g1_list(bytes, at) {
            Ok(x) => x,
            Err(e) => {
                proof { assert(cand is None); }
                return Err(e);
            },
        };
        proof {
            assert(b.take(at as int) =~= acc + g1_list(h_query@));
            acc = acc + g1_list(h_query@);
            if let Some(p) = cand {
                lemma_g1_list_unique(b, (at - g1_list(h_query@).len()) as int, h_query@, p.h_query@);
                lemma_key_segment_at(b, p, 11);
                assert(g1_list_at(b, at as int, p.l_query@));
            }
        }
        let (l_query, at) = match read_g1_list(bytes, at) {
            Ok(x) => x,
            Err(e) => {
                proof { assert(cand is None); }
                return Err(e);
            },
        };
        proof {
            assert(b.take(at as int) =~= acc + g1_list(l_query@));
            acc = acc + g1_list(l_query@);
            if let Some(p) = cand {
                lemma_g1_list_unique(b, (at - g1_list(l_query@).len()) as int, l_query@, p.l_query@);
                assert(key_prefix(p, 12) =~= proving_key_encoding(p));
            }
        }
        if at != bytes.len() {
            proof { assert(cand is None); }
            return Err(CeremonyError::Serialization(make_string("trailing bytes after the proving key")));
        }
        let p = ProvingKeyParts {
            alpha_g1, beta_g2, gamma_g2, delta_g2, gamma_abc_g1, beta_g1, delta_g1, a_query, b_g1_query, b_g2_query,
            h_query, l_query,
        };
        proof {
            assert(b.take(at as int) =~= b);
            assert(acc =~= proving_key_encoding(p));
            assert(encodes_key(b, p));
        }
        Ok(p)
    }
}

/// Every contribution read from stored parameters is a valid public key.
proof fn lemma_stored_keys_valid(b: Seq<u8>, at: int, count: nat)
    requires
        stored_keys(b, at, count) is Some,
    ensures
        forall|i: int| 0 <= i < stored_keys(b, at, count)->0.len() ==> public_key_valid(
            #[trigger] stored_keys(b, at, count)->0[i],
        ),
        stored_keys(b, at, count)->0.len() == count,
    decreases count,
{
    if count > 0 {
        let len = read_u32_le(b, at) as int;
        lemma_stored_keys_valid(b, at + 4 + len, (count - 1) as nat);
    }
}

/// What reading stored parameters from `b` gives: parameters whose key,
/// circuit hash and contributions are what `read_spec` finds, the key
/// being the whole encoding of a key of valid points; or a serialization
/// error where `read_spec` finds nothing or its key bytes encode no key of
/// valid points.
pub open spec fn read_result(b: Seq<u8>, r: Result<MPCParameters, CeremonyError>) -> bool {
    match r {
        Ok(p) => read_spec(b) == Some((proving_key_encoding(p.params), p.cs_hash@, key_encodings(p.contributions@)))
            && encodes_key(proving_key_encoding(p.params), p.params) && keys_valid(p.contributions@),
        Err(e) => e is Serialization && match read_spec(b) {
            None => true,
            Some((pk, _, _)) => forall|q: ProvingKeyParts| !#[trigger] encodes_key(pk, q),
        },
    }
}

/// Stored parameters as `write` lays them out.
pub open spec fn written_form(p: MPCParameters) -> Seq<u8> {
    parameters_encoding(proving_key_encoding(p.params), p.cs_hash@, p.contributions@)
}

/// Parameters that `write` can lay out and `read` take back: valid points,
/// list lengths a `u64` can state, and at most `u32::MAX` contributions.
pub open spec fn storable(p: MPCParameters) -> bool {
    p.params.wf() && lists_fit(p.params) && keys_valid(p.contributions@) && p.contributions@.len() <= u32::MAX
}

/// `q` has the same key, circuit hash and contributions as `p`.
pub open spec fn same_parameters(q: MPCParameters, p: MPCParameters) -> bool {
    &&& q.cs_hash@ == p.cs_hash@
    &&& q.contributions@ == p.contributions@
    &&& q.params.alpha_g1 == p.params.alpha_g1
    &&& q.params.beta_g2 == p.params.beta_g2
    &&& q.params.gamma_g2 == p.params.gamma_g2
    &&& q.params.delta_g2 == p.params.delta_g2
    &&& q.params.gamma_abc_g1@ == p.params.gamma_abc_g1@
    &&& q.params.beta_g1 == p.params.beta_g1
    &&& q.params.delta_g1 == p.params.delta_g1
    &&& q.params.a_query@ == p.params.a_query@
    &&& q.params.b_g1_query@ == p.params.b_g1_query@
    &&& q.params.b_g2_query@ == p.params.b_g2_query@
    &&& q.params.h_query@ == p.params.h_query@
    &&& q.params.l_query@ == p.params.l_query@
}

fn read_stored(bytes: &[u8]) -> (r: Result<MPCParameters, CeremonyError>)
    ensures
        read_result(bytes@, r),
        forall|k: nat| #[trigger] key_starts(bytes@, k) ==> proving_key_prefix(bytes@) == Some(k),
{
    let stored = read_parameters(bytes)?;
    let params = ProvingKeyParts::from_bytes(stored.proving_key.as_slice())?;
    proof {
        let b = bytes@;
        match read_spec(b) {
            Some((pk, cs, ks)) => {
                let n = proving_key_prefix(b)->0;
                lemma_stored_keys_valid(b, (n + 68) as int, read_u32_le(b, (n + 64) as int) as nat);
                assert forall|i: int| 0 <= i < stored.contributions@.len() implies public_key_valid(
                    public_key_encoding(#[trigger] stored.contributions@[i]),
                ) by {
                    assert(key_encodings(stored.contributions@)[i] == public_key_encoding(stored.contributions@[i]));
                }
            },
            None => {},
        }
    }
    Ok(MPCParameters { params, cs_hash: stored.cs_hash, contributions: stored.contributions })
}

impl MPCParameters {
    /// Reads stored parameters: the proving key (which must be the whole
    /// encoding of a key of valid points), the circuit hash and the
    /// contributions. Any failure is a serialization error. What `write`
    /// wrote of storable parameters reads back as those parameters.
    pub fn read(bytes: &[u8]) -> (r: Result<MPCParameters, CeremonyError>)
        ensures
            read_result(bytes@, r),
            forall|p: MPCParameters| #[trigger] written_form(p) == bytes@ && storable(p)
                ==> (r matches Ok(q) && same_parameters(q, p)),
    {
        let r = read_stored(bytes);
        proof {
            assert forall|p: MPCParameters| #[trigger] written_form(p) == bytes@ && storable(p)
                implies (r matches Ok(q) && same_parameters(q, p)) by {
                let pk = proving_key_encoding(p.params);
                assert(bytes@.take(pk.len() as int) =~= pk);
                assert(encodes_key(bytes@.take(pk.len() as int), p.params));
                assert(key_starts(bytes@, pk.len()));
                law_write_then_read(p, r);
            }
        }
        r
    }
}

/// A chain of contributions whose transcript checks out is chained: each
/// contribution's transcript is the hash of the circuit hash, every
/// contribution before it, and its own `s` and `s_delta`.
pub proof fn law_accepted_transcript_is_chained(cs_hash: Seq<u8>, ks: Seq<PublicKey>)
    requires
        transcript_spec(cs_hash, ks) is Ok,
    ensures
        forall|i: int| 0 <= i < ks.len() ==> (#[trigger] ks[i]).transcript@
            == transcript_hash(cs_hash, ks.take(i), ks[i].s@, ks[i].s_delta@),
{
    assert forall|i: int| 0 <= i < ks.len() implies (#[trigger] ks[i]).transcript@
        == transcript_hash(cs_hash, ks.take(i), ks[i].s@, ks[i].s_delta@) by {
        lemma_transcript_from_ok(cs_hash, ks, 0, G1_GENERATOR@, i as nat);
    }
}

proof fn lemma_transcript_from_ok(cs: Seq<u8>, ks: Seq<PublicKey>, start: nat, old_delta: Seq<u8>, i: nat)
    requires
        transcript_from(cs, ks, start, old_delta) is Ok,
        start <= i < ks.len(),
    ensures
        ks[i as int].transcript@ == transcript_hash(cs, ks.take(i as int), ks[i as int].s@, ks[i as int].s_delta@),
    decreases i - start,
{
    if start < i {
        let k = ks[start as int];
        lemma_transcript_from_ok(cs, ks, start + 1, k.delta_after@, i);
    }
}

/// What one contribution keeps: the new `delta_g1` is the one its public
/// key states, the earlier contributions, the circuit hash and the lengths
/// of the H and L queries are unchanged, and so is every part of the key
/// besides `delta` and those queries. These are the byte-level checks of
/// `verify`.
pub proof fn law_contribution_keeps_structure(before: MPCParameters, after: MPCParameters, delta: Seq<u8>)
    requires
        contributed(before, after, delta),
    ensures
        after.contributions@.last().delta_after@ == after.params.delta_g1@,
        after.contributions@.take(before.contributions@.len() as int) == before.contributions@,
        after.cs_hash@ == before.cs_hash@,
        after.params.h_query@.len() == before.params.h_query@.len(),
        after.params.l_query@.len() == before.params.l_query@.len(),
        after.params.alpha_g1@ == before.params.alpha_g1@,
        after.params.beta_g1@ == before.params.beta_g1@,
        after.params.beta_g2@ == before.params.beta_g2@,
        after.params.gamma_g2@ == before.params.gamma_g2@,
        after.params.gamma_abc_g1@ == before.params.gamma_abc_g1@,
        after.params.a_query@ == before.params.a_query@,
        after.params.b_g1_query@ == before.params.b_g1_query@,
        after.params.b_g2_query@ == before.params.b_g2_query@,
{
    assert(after.contributions@.take(before.contributions@.len() as int) =~= after.contributions@.drop_last());
}

proof fn lemma_key_prefix_step(p: ProvingKeyParts, q: ProvingKeyParts, k: nat)
    requires
        key_prefix(p, k) == key_prefix(q, k),
        key_segment(p, k) == key_segment(q, k),
    ensures
        key_prefix(p, k + 1) == key_prefix(q, k + 1),
{
}

/// The `k`-th parts of two valid keys with the same encoding and the same
/// first `k` parts are the same.
proof fn lemma_same_segment(b: Seq<u8>, p: ProvingKeyParts, q: ProvingKeyParts, k: nat)
    requires
        encodes_key(b, p),
        encodes_key(b, q),
        k < 12,
        key_prefix(p, k) == key_prefix(q, k),
    ensures
        key_segment(p, k) == key_segment(q, k),
        k == 4 ==> p.gamma_abc_g1@ == q.gamma_abc_g1@,
        k == 7 ==> p.a_query@ == q.a_query@,
        k == 8 ==> p.b_g1_query@ == q.b_g1_query@,
        k == 9 ==> p.b_g2_query@ == q.b_g2_query@,
        k == 10 ==> p.h_query@ == q.h_query@,
        k == 11 ==> p.l_query@ == q.l_query@,
{
    lemma_key_segment_at(b, p, k);
    lemma_key_segment_at(b, q, k);
    let at = key_prefix(p, k).len() as int;
    if k == 4 {
        lemma_g1_list_unique(b, at, p.gamma_abc_g1@, q.gamma_abc_g1@);
    } else if k == 7 {
        lemma_g1_list_unique(b, at, p.a_query@, q.a_query@);
    } else if k == 8 {
        lemma_g1_list_unique(b, at, p.b_g1_query@, q.b_g1_query@);
    } else if k == 9 {
        lemma_g2_list_unique(b, at, p.b_g2_query@, q.b_g2_query@);
    } else if k == 10 {
        lemma_g1_list_unique(b, at, p.h_query@, q.h_query@);
    } else if k == 11 {
        lemma_g1_list_unique(b, at, p.l_query@, q.l_query@);
    }
}

/// A key of valid points is determined by its encoding: two such keys with
/// the same encoding have the same points. So reading back a written key
/// gives the key that was written.
pub proof fn law_proving_key_encoding_injective(p: ProvingKeyParts, q: ProvingKeyParts)
    requires
        p.wf(),
        q.wf(),
        lists_fit(p),
        lists_fit(q),
        proving_key_encoding(p) == proving_key_encoding(q),
    ensures
        p.alpha_g1 == q.alpha_g1,
        p.beta_g2 == q.beta_g2,
        p.gamma_g2 == q.gamma_g2,
        p.delta_g2 == q.delta_g2,
        p.gamma_abc_g1@ == q.gamma_abc_g1@,
        p.beta_g1 == q.beta_g1,
        p.delta_g1 == q.delta_g1,
        p.a_query@ == q.a_query@,
        p.b_g1_query@ == q.b_g1_query@,
        p.b_g2_query@ == q.b_g2_query@,
        p.h_query@ == q.h_query@,
        p.l_query@ == q.l_query@,
{
    let b = proving_key_encoding(p);
    lemma_prefixes_agree(b, p, q, 12);
    lemma_prefixes_agree(b, p, q, 4);
    lemma_same_segment(b, p, q, 4);
    lemma_prefixes_agree(b, p, q, 7);
    lemma_same_segment(b, p, q, 7);
    lemma_prefixes_agree(b, p, q, 8);
    lemma_same_segment(b, p, q, 8);
    lemma_prefixes_agree(b, p, q, 9);
    lemma_same_segment(b, p, q, 9);
    lemma_prefixes_agree(b, p, q, 10);
    lemma_same_segment(b, p, q, 10);
    lemma_prefixes_agree(b, p, q, 11);
    lemma_same_segment(b, p, q, 11);
    assert(key_segment(p, 0) == key_segment(q, 0));
    assert(key_segment(p, 1) == key_segment(q, 1));
    assert(key_segment(p, 2) == key_segment(q, 2));
    assert(key_segment(p, 3) == key_segment(q, 3));
    assert(key_segment(p, 5) == key_segment(q, 5));
    assert(key_segment(p, 6) == key_segment(q, 6));
}

proof fn lemma_prefixes_agree(b: Seq<u8>, p: ProvingKeyParts, q: ProvingKeyParts, k: nat)
    requires
        encodes_key(b, p),
        encodes_key(b, q),
        k <= 12,
    ensures
        key_prefix(p, k) == key_prefix(q, k),
        forall|j: nat| j < k ==> #[trigger] key_segment(p, j) == key_segment(q, j),
    decreases k,
{
    if k > 0 {
        lemma_prefixes_agree(b, p, q, (k - 1) as nat);
        lemma_same_segment(b, p, q, (k - 1) as nat);
        lemma_key_prefix_step(p, q, (k - 1) as nat);
    }
}

/// Reading back what `write` wrote gives the parameters that were
/// written: the same key, circuit hash and contributions. It needs the
/// stored key to read back as exactly its own encoding, at most `u32::MAX`
/// contributions (the count is stored in 4 bytes), and valid points
/// throughout.
pub proof fn law_write_then_read(p: MPCParameters, r: Result<MPCParameters, CeremonyError>)
    requires
        p.params.wf(),
        lists_fit(p.params),
        keys_valid(p.contributions@),
        p.contributions@.len() <= u32::MAX,
        proving_key_prefix(parameters_encoding(proving_key_encoding(p.params), p.cs_hash@, p.contributions@))
            == Some(proving_key_encoding(p.params).len()),
        read_result(parameters_encoding(proving_key_encoding(p.params), p.cs_hash@, p.contributions@), r),
    ensures
        r matches Ok(q) && {
            &&& q.cs_hash@ == p.cs_hash@
            &&& q.contributions@ == p.contributions@
            &&& q.params.alpha_g1 == p.params.alpha_g1
            &&& q.params.beta_g2 == p.params.beta_g2
            &&& q.params.gamma_g2 == p.params.gamma_g2
            &&& q.params.delta_g2 == p.params.delta_g2
            &&& q.params.gamma_abc_g1@ == p.params.gamma_abc_g1@
            &&& q.params.beta_g1 == p.params.beta_g1
            &&& q.params.delta_g1 == p.params.delta_g1
            &&& q.params.a_query@ == p.params.a_query@
            &&& q.params.b_g1_query@ == p.params.b_g1_query@
            &&& q.params.b_g2_query@ == p.params.b_g2_query@
            &&& q.params.h_query@ == p.params.h_query@
            &&& q.params.l_query@ == p.params.l_query@
        },
{
    let pk = proving_key_encoding(p.params);
    let ks = p.contributions@;
    let b = parameters_encoding(pk, p.cs_hash@, ks);
    assert(read_spec(b) == Some((pk, p.cs_hash@, key_encodings(ks)))) by {
        crate::ceremony::law_parameters_round_trip(pk, p.cs_hash@, ks);
    }
    lemma_read_succeeds(b, r, p.params);
    if let Ok(q) = r {
        lemma_read_is_determined(b, p, q);
    }
}

/// Reading fails only where no key can be read: where the stored key bytes
/// are a key's encoding, the read succeeds.
proof fn lemma_read_succeeds(b: Seq<u8>, r: Result<MPCParameters, CeremonyError>, key: ProvingKeyParts)
    requires
        read_result(b, r),
        read_spec(b) matches Some((pk, _, _)) && encodes_key(pk, key),
    ensures
        r is Ok,
{
}

/// Two reads of the same stored bytes find the same parameters.
proof fn lemma_read_is_determined(b: Seq<u8>, p: MPCParameters, q: MPCParameters)
    requires
        read_spec(b) == Some((proving_key_encoding(p.params), p.cs_hash@, key_encodings(p.contributions@))),
        read_spec(b) == Some((proving_key_encoding(q.params), q.cs_hash@, key_encodings(q.contributions@))),
        encodes_key(proving_key_encoding(p.params), p.params),
        encodes_key(proving_key_encoding(q.params), q.params),
    ensures
        q.cs_hash@ == p.cs_hash@,
        q.contributions@ == p.contributions@,
        q.params.alpha_g1 == p.params.alpha_g1,
        q.params.beta_g2 == p.params.beta_g2,
        q.params.gamma_g2 == p.params.gamma_g2,
        q.params.delta_g2 == p.params.delta_g2,
        q.params.gamma_abc_g1@ == p.params.gamma_abc_g1@,
        q.params.beta_g1 == p.params.beta_g1,
        q.params.delta_g1 == p.params.delta_g1,
        q.params.a_query@ == p.params.a_query@,
        q.params.b_g1_query@ == p.params.b_g1_query@,
        q.params.b_g2_query@ == p.params.b_g2_query@,
        q.params.h_query@ == p.params.h_query@,
        q.params.l_query@ == p.params.l_query@,
{
    law_proving_key_encoding_injective(q.params, p.params);
    lemma_keys_from_encodings(q.contributions@, p.contributions@);
}

/// Public keys are determined by their encodings.
proof fn lemma_keys_from_encodings(a: Seq<PublicKey>, b: Seq<PublicKey>)
    requires
        key_encodings(a) == key_encodings(b),
    ensures
        a == b,
{
    assert(a.len() == key_encodings(a).len());
    assert(b.len() == key_encodings(b).len());
    assert forall|i: int| 0 <= i < a.len() implies a[i] == b[i] by {
        assert(key_encodings(a)[i] == public_key_encoding(a[i]));
        assert(key_encodings(b)[i] == public_key_encoding(b[i]));
        crate::ceremony::law_public_key_encoding_injective(a[i], b[i]);
    }
    assert(a =~= b);
}

} // verus!

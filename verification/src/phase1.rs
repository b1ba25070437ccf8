//! Phase 1 of the setup ceremony ("powers of tau"): the circuit-independent
//! setup parameters, built up by contributors who each multiply in fresh
//! secrets `tau`, `alpha` and `beta`, and the checks that a contribution was
//! made honestly.

use vstd::prelude::*;
use crate::ceremony::{RatioMismatch, blake2b512, blake2b512_digest, push_bytes};
use crate::curve::{
    FR_ONE, G1_GENERATOR, G2_GENERATOR, eq32, eq64, fr_canonical, fr_mul, fr_product, g1_check, g1_decodes,
    g1_generator, g1_mul, g1_scaled, g2_check, g2_decodes, g2_generator, g2_mul, g2_scaled, random_fr, random_g1,
};
use crate::phase2::{g1_concat, g2_concat, push_g1_points, push_g2_points};
use crate::setup::{
    all_g1, all_g2, check_same_ratio, compute_g2_s, g2_s_spec, merge_of, merge_of_g2, power_pairs, power_pairs_g2,
    ratio_check,
};

verus! {

/// The universal setup parameters: powers of `tau` in G1 (about twice as
/// many as the others) and G2, `alpha` and `beta` times the powers of `tau`
/// in G1, and `beta` in G2.
pub struct Accumulator {
    pub tau_powers_g1: Vec<[u8; 32]>,
    pub tau_powers_g2: Vec<[u8; 64]>,
    pub alpha_tau_powers_g1: Vec<[u8; 32]>,
    pub beta_tau_powers_g1: Vec<[u8; 32]>,
    pub beta_g2: [u8; 64],
}

impl Accumulator {
    /// Every point decodes.
    pub open spec fn wf(&self) -> bool {
        &&& all_g1(self.tau_powers_g1@)
        &&& all_g2(self.tau_powers_g2@)
        &&& all_g1(self.alpha_tau_powers_g1@)
        &&& all_g1(self.beta_tau_powers_g1@)
        &&& g2_decodes(self.beta_g2@)
    }

    /// Long enough for the checks of a contribution: two powers of `tau` in
    /// each group and the first `alpha` and `beta` power.
    pub open spec fn checkable(&self) -> bool {
        &&& self.tau_powers_g1@.len() >= 2
        &&& self.tau_powers_g2@.len() >= 2
        &&& self.alpha_tau_powers_g1@.len() >= 1
        &&& self.beta_tau_powers_g1@.len() >= 1
    }
}

/// Every point of the sequence is `p`.
pub open spec fn all_are32(v: Seq<[u8; 32]>, p: [u8; 32]) -> bool {
    forall|i: int| 0 <= i < v.len() ==> #[trigger] v[i] == p
}

/// Every point of the sequence is `p`.
pub open spec fn all_are64(v: Seq<[u8; 64]>, p: [u8; 64]) -> bool {
    forall|i: int| 0 <= i < v.len() ==> #[trigger] v[i] == p
}

/// The hashed form of an accumulator: every point in field order.
pub open spec fn accumulator_encoding(a: Accumulator) -> Seq<u8> {
    g1_concat(a.tau_powers_g1@) + g2_concat(a.tau_powers_g2@) + g1_concat(a.alpha_tau_powers_g1@)
        + g1_concat(a.beta_tau_powers_g1@) + a.beta_g2@
}

pub(crate) fn filled32(p: [u8; 32], n: usize) -> (v: Vec<[u8; 32]>)
    ensures
        v@.len() == n,
        all_are32(v@, p),
{
    let mut v: Vec<[u8; 32]> = Vec::new();
    while v.len() < n
        invariant
            v@.len() <= n,
            all_are32(v@, p),
        decreases n - v@.len(),
    {
        v.push(p);
    }
    v
}

pub(crate) fn filled64(p: [u8; 64], n: usize) -> (v: Vec<[u8; 64]>)
    ensures
        v@.len() == n,
        all_are64(v@, p),
{
    let mut v: Vec<[u8; 64]> = Vec::new();
    while v.len() < n
        invariant
            v@.len() <= n,
            all_are64(v@, p),
        decreases n - v@.len(),
    {
        v.push(p);
    }
    v
}

/// Whether `p` is a valid compressed G1 point.
fn g1_valid(p: &[u8; 32]) -> (b: bool)
    ensures
        b == g1_decodes(p@),
{
    proof { assert(p@.subrange(0, 32) =~= p@); }
    g1_check(p, 0).is_ok()
}

/// Whether `p` is a valid compressed G2 point.
fn g2_valid(p: &[u8; 64]) -> (b: bool)
    ensures
        b == g2_decodes(p@),
{
    proof { assert(p@.subrange(0, 64) =~= p@); }
    g2_check(p, 0).is_ok()
}

/// Whether every point of `v` is a valid compressed G1 point.
fn all_g1_valid(v: &Vec<[u8; 32]>) -> (b: bool)
    ensures
        b == all_g1(v@),
{
    let mut i: usize = 0;
    while i < v.len()
        invariant
            i <= v@.len(),
            all_g1(v@.subrange(0, i as int)),
        decreases v@.len() - i,
    {
        if !g1_valid(&v[i]) {
            return false;
        }
        proof {
            assert forall|j: int| 0 <= j < i + 1 implies g1_decodes(#[trigger] v@.subrange(0, i + 1)[j]@) by {
                if j < i {
                    assert(v@.subrange(0, i as int)[j] == v@[j]);
                }
            }
        }
        i = i + 1;
    }
    proof { assert(v@.subrange(0, i as int) =~= v@); }
    true
}

/// Whether every point of `v` is a valid compressed G2 point.
fn all_g2_valid(v: &Vec<[u8; 64]>) -> (b: bool)
    ensures
        b == all_g2(v@),
{
    let mut i: usize = 0;
    while i < v.len()
        invariant
            i <= v@.len(),
            all_g2(v@.subrange(0, i as int)),
        decreases v@.len() - i,
    {
        if !g2_valid(&v[i]) {
            return false;
        }
        proof {
            assert forall|j: int| 0 <= j < i + 1 implies g2_decodes(#[trigger] v@.subrange(0, i + 1)[j]@) by {
                if j < i {
                    assert(v@.subrange(0, i as int)[j] == v@[j]);
                }
            }
        }
        i = i + 1;
    }
    proof { assert(v@.subrange(0, i as int) =~= v@); }
    true
}

impl Accumulator {
    /// Whether an accumulator received from elsewhere can be checked: every
    /// point decodes and it holds the powers that a check reads.
    pub fn check(&self) -> (b: bool)
        ensures
            b == (self.wf() && self.checkable()),
    {
        self.tau_powers_g1.len() >= 2 && self.tau_powers_g2.len() >= 2 && self.alpha_tau_powers_g1.len() >= 1
            && self.beta_tau_powers_g1.len() >= 1 && all_g1_valid(&self.tau_powers_g1)
            && all_g2_valid(&self.tau_powers_g2) && all_g1_valid(&self.alpha_tau_powers_g1)
            && all_g1_valid(&self.beta_tau_powers_g1) && g2_valid(&self.beta_g2)
    }
}

impl SecretProof {
    /// Whether every point decodes.
    pub fn check(&self) -> (b: bool)
        ensures
            b == self.wf(),
    {
        g1_valid(&self.g1_s) && g1_valid(&self.g1_s_x) && g2_valid(&self.g2_s_x)
    }
}

impl PublicKey {
    /// Whether every point of a key received from elsewhere decodes.
    pub fn check(&self) -> (b: bool)
        ensures
            b == self.wf(),
    {
        self.tau.check() && self.alpha.check() && self.beta.check()
    }
}

impl Accumulator {
    /// The starting point, with `tau = alpha = beta = 1`: every element is
    /// the generator of its group; `2 * size - 1` powers of `tau` in G1 and
    /// `size` of everything else.
    pub fn new(size: usize) -> (r: Accumulator)
        requires
            size >= 1,
            size <= usize::MAX / 2,
        ensures
            r.wf(),
            r.tau_powers_g1@.len() == 2 * size - 1,
            r.tau_powers_g2@.len() == size,
            r.alpha_tau_powers_g1@.len() == size,
            r.beta_tau_powers_g1@.len() == size,
            all_are32(r.tau_powers_g1@, G1_GENERATOR),
            all_are64(r.tau_powers_g2@, G2_GENERATOR),
            all_are32(r.alpha_tau_powers_g1@, G1_GENERATOR),
            all_are32(r.beta_tau_powers_g1@, G1_GENERATOR),
            r.beta_g2 == G2_GENERATOR,
    {
        let g1 = g1_generator();
        let g2 = g2_generator();
        proof {
            assert(g1 == G1_GENERATOR);
            assert(g2 == G2_GENERATOR);
        }
        let r = Accumulator {
            tau_powers_g1: filled32(g1, 2 * size - 1),
            tau_powers_g2: filled64(g2, size),
            alpha_tau_powers_g1: filled32(g1, size),
            beta_tau_powers_g1: filled32(g1, size),
            beta_g2: g2,
        };
        proof {
            assert forall|i: int| 0 <= i < r.tau_powers_g1@.len() implies g1_decodes(#[trigger] r.tau_powers_g1@[i]@) by {
                assert(r.tau_powers_g1@[i] == g1);
            }
            assert forall|i: int| 0 <= i < r.tau_powers_g2@.len() implies g2_decodes(#[trigger] r.tau_powers_g2@[i]@) by {
                assert(r.tau_powers_g2@[i] == g2);
            }
            assert forall|i: int| 0 <= i < r.alpha_tau_powers_g1@.len()
                implies g1_decodes(#[trigger] r.alpha_tau_powers_g1@[i]@) by {
                assert(r.alpha_tau_powers_g1@[i] == g1);
            }
            assert forall|i: int| 0 <= i < r.beta_tau_powers_g1@.len()
                implies g1_decodes(#[trigger] r.beta_tau_powers_g1@[i]@) by {
                assert(r.beta_tau_powers_g1@[i] == g1);
            }
        }
        r
    }

    /// Blake2b-512 of every point in field order: what binds a contribution
    /// to the state it was made on.
    pub fn hash(&self) -> (h: [u8; 64])
        ensures
            h@ == blake2b512(accumulator_encoding(*self)),
    {
        let mut bytes: Vec<u8> = Vec::new();
        push_g1_points(&mut bytes, &self.tau_powers_g1);
        push_g2_points(&mut bytes, &self.tau_powers_g2);
        push_g1_points(&mut bytes, &self.alpha_tau_powers_g1);
        push_g1_points(&mut bytes, &self.beta_tau_powers_g1);
        push_bytes(&mut bytes, &self.beta_g2);
        proof { assert(bytes@ =~= accumulator_encoding(*self)); }
        blake2b512_digest(bytes.as_slice())
    }
}

/// The secrets one contributor destroys after contributing.
pub struct PrivateKey {
    pub tau: [u8; 32],
    pub alpha: [u8; 32],
    pub beta: [u8; 32],
}

/// A signature of knowledge of one secret: a fresh G1 point, that point
/// scaled by the secret, and the matching hashed G2 point scaled by it.
#[derive(Debug, Clone, Copy)]
pub struct SecretProof {
    pub g1_s: [u8; 32],
    pub g1_s_x: [u8; 32],
    pub g2_s_x: [u8; 64],
}

/// The signatures of knowledge of `tau`, `alpha` and `beta`.
#[derive(Debug, Clone, Copy)]
pub struct PublicKey {
    pub tau: SecretProof,
    pub alpha: SecretProof,
    pub beta: SecretProof,
}

impl SecretProof {
    /// Every point decodes.
    pub open spec fn wf(&self) -> bool {
        g1_decodes(self.g1_s@) && g1_decodes(self.g1_s_x@) && g2_decodes(self.g2_s_x@)
    }
}

impl PublicKey {
    /// Every point decodes.
    pub open spec fn wf(&self) -> bool {
        self.tau.wf() && self.alpha.wf() && self.beta.wf()
    }
}

/// A signature of knowledge as stored: its three points in order.
pub open spec fn secret_proof_encoding(p: SecretProof) -> Seq<u8> {
    p.g1_s@ + p.g1_s_x@ + p.g2_s_x@
}

/// A public key as stored: the proofs for `tau`, `alpha` and `beta`.
pub open spec fn key_encoding(k: PublicKey) -> Seq<u8> {
    secret_proof_encoding(k.tau) + secret_proof_encoding(k.alpha) + secret_proof_encoding(k.beta)
}

impl PublicKey {
    /// The stored form.
    pub fn to_bytes(&self) -> (b: Vec<u8>)
        ensures
            b@ == key_encoding(*self),
    {
        let mut b: Vec<u8> = Vec::new();
        push_bytes(&mut b, &self.tau.g1_s);
        push_bytes(&mut b, &self.tau.g1_s_x);
        push_bytes(&mut b, &self.tau.g2_s_x);
        push_bytes(&mut b, &self.alpha.g1_s);
        push_bytes(&mut b, &self.alpha.g1_s_x);
        push_bytes(&mut b, &self.alpha.g2_s_x);
        push_bytes(&mut b, &self.beta.g1_s);
        push_bytes(&mut b, &self.beta.g1_s_x);
        push_bytes(&mut b, &self.beta.g2_s_x);
        proof { assert(b@ =~= key_encoding(*self)); }
        b
    }

    /// Blake2b-512 of the stored form.
    pub fn hash(&self) -> (h: [u8; 64])
        ensures
            h@ == blake2b512(key_encoding(*self)),
    {
        let b = self.to_bytes();
        blake2b512_digest(b.as_slice())
    }
}

/// A contributor's secrets and public key.
pub struct Keypair {
    pub private_key: PrivateKey,
    pub public_key: PublicKey,
}

/// The tag that keeps the hash to G2 of `tau`'s proof apart from the others.
pub const TAU_PERSONALIZATION: u8 = 0;
/// The tag of `alpha`'s proof.
pub const ALPHA_PERSONALIZATION: u8 = 1;
/// The tag of `beta`'s proof.
pub const BETA_PERSONALIZATION: u8 = 2;

/// `p` proves knowledge of `secret` for the state with hash `digest`:
/// `g1_s_x` is `g1_s` scaled by it, and `g2_s_x` is the tagged hash to G2
/// of the digest and both G1 points, scaled by it.
pub open spec fn proves(p: SecretProof, secret: Seq<u8>, personalization: u8, digest: Seq<u8>) -> bool {
    &&& g1_decodes(p.g1_s@)
    &&& p.g1_s_x@ == g1_scaled(p.g1_s@, secret)
    &&& g2_s_spec(digest, p.g1_s@, p.g1_s_x@, personalization) matches Some(g2_s) && p.g2_s_x@ == g2_scaled(g2_s, secret)
}

/// Whether some pair of G1 points does not hash to G2 under the tag.
pub open spec fn some_pair_unhashable(digest: Seq<u8>, personalization: u8) -> bool {
    exists|s: Seq<u8>, sx: Seq<u8>| #[trigger] g2_s_spec(digest, s, sx, personalization) is None
}

fn prove_secret(secret: &[u8; 32], personalization: u8, digest: &[u8]) -> (r: Option<SecretProof>)
    ensures
        r matches Some(p) ==> proves(p, secret@, personalization, digest@) && p.wf(),
        r is None ==> some_pair_unhashable(digest@, personalization),
{
    let g1_s = random_g1();
    let g1_s_x = g1_mul(&g1_s, secret);
    let g2_s = match compute_g2_s(digest, &g1_s, &g1_s_x, personalization) {
        Some(p) => p,
        None => return None,
    };
    let g2_s_x = g2_mul(&g2_s, secret);
    Some(SecretProof { g1_s, g1_s_x, g2_s_x })
}

/// `k` proves knowledge of the three secrets for the state with hash `digest`.
pub open spec fn key_proves(k: PublicKey, tau: Seq<u8>, alpha: Seq<u8>, beta: Seq<u8>, digest: Seq<u8>) -> bool {
    &&& proves(k.tau, tau, TAU_PERSONALIZATION, digest)
    &&& proves(k.alpha, alpha, ALPHA_PERSONALIZATION, digest)
    &&& proves(k.beta, beta, BETA_PERSONALIZATION, digest)
}

impl Keypair {
    /// Fresh secrets and their proofs for the state with hash `digest`.
    /// `None` only where a pair of points does not hash to G2.
    pub fn new(digest: &[u8]) -> (r: Option<Keypair>)
        ensures
            r matches Some(kp) ==> {
                &&& fr_canonical(kp.private_key.tau@)
                &&& fr_canonical(kp.private_key.alpha@)
                &&& fr_canonical(kp.private_key.beta@)
                &&& key_proves(kp.public_key, kp.private_key.tau@, kp.private_key.alpha@, kp.private_key.beta@, digest@)
                &&& kp.public_key.wf()
            },
            r is None ==> some_pair_unhashable(digest@, TAU_PERSONALIZATION)
                || some_pair_unhashable(digest@, ALPHA_PERSONALIZATION)
                || some_pair_unhashable(digest@, BETA_PERSONALIZATION),
    {
        let tau = random_fr();
        let alpha = random_fr();
        let beta = random_fr();
        let tau_proof = match prove_secret(&tau, TAU_PERSONALIZATION, digest) {
            Some(p) => p,
            None => return None,
        };
        let alpha_proof = match prove_secret(&alpha, ALPHA_PERSONALIZATION, digest) {
            Some(p) => p,
            None => return None,
        };
        let beta_proof = match prove_secret(&beta, BETA_PERSONALIZATION, digest) {
            Some(p) => p,
            None => return None,
        };
        Some(Keypair {
            private_key: PrivateKey { tau, alpha, beta },
            public_key: PublicKey { tau: tau_proof, alpha: alpha_proof, beta: beta_proof },
        })
    }
}

/// `tau` to the `i`-th power, as scalars.
pub open spec fn tau_power(tau: Seq<u8>, i: nat) -> Seq<u8>
    decreases i,
{
    if i == 0 {
        FR_ONE@
    } else {
        fr_product(tau_power(tau, (i - 1) as nat), tau)
    }
}

/// `after` is `before` with the secrets `tau`, `alpha` and `beta`
/// multiplied in: the `i`-th power of `tau` scales the `i`-th element of
/// each sequence (times `alpha` or `beta` for theirs), `beta` scales
/// `beta_g2`, and the sequences other than the G1 powers of `tau` keep as
/// many elements as there are G2 powers.
pub open spec fn contribution_of(before: Accumulator, after: Accumulator, tau: Seq<u8>, alpha: Seq<u8>, beta: Seq<u8>) -> bool {
    let n = before.tau_powers_g2@.len();
    &&& after.tau_powers_g1@.len() == before.tau_powers_g1@.len()
    &&& forall|i: int| 0 <= i < after.tau_powers_g1@.len() ==> (#[trigger] after.tau_powers_g1@[i])@
        == g1_scaled(before.tau_powers_g1@[i]@, tau_power(tau, i as nat))
    &&& after.tau_powers_g2@.len() == n
    &&& forall|i: int| 0 <= i < n ==> (#[trigger] after.tau_powers_g2@[i])@
        == g2_scaled(before.tau_powers_g2@[i]@, tau_power(tau, i as nat))
    &&& after.alpha_tau_powers_g1@.len() == n
    &&& forall|i: int| 0 <= i < n ==> (#[trigger] after.alpha_tau_powers_g1@[i])@
        == g1_scaled(before.alpha_tau_powers_g1@[i]@, fr_product(alpha, tau_power(tau, i as nat)))
    &&& after.beta_tau_powers_g1@.len() == n
    &&& forall|i: int| 0 <= i < n ==> (#[trigger] after.beta_tau_powers_g1@[i])@
        == g1_scaled(before.beta_tau_powers_g1@[i]@, fr_product(beta, tau_power(tau, i as nat)))
    &&& after.beta_g2@ == g2_scaled(before.beta_g2@, beta)
}

/// `after` and `k` are an honest contribution to `before` with some
/// canonical secrets.
pub open spec fn honest_contribution(before: Accumulator, after: Accumulator, k: PublicKey) -> bool {
    exists|tau: Seq<u8>, alpha: Seq<u8>, beta: Seq<u8>| #[trigger] contribution_of(before, after, tau, alpha, beta)
        && fr_canonical(tau) && fr_canonical(alpha) && fr_canonical(beta)
        && key_proves(k, tau, alpha, beta, blake2b512(accumulator_encoding(before)))
}

/// Applies one contribution with fresh secrets to `before`; returns the new
/// accumulator and the public key to publish with it. `None` only where the
/// keypair cannot be made (a pair of points that does not hash to G2).
pub fn contribute(before: &Accumulator) -> (r: Option<(Accumulator, PublicKey)>)
    requires
        before.wf(),
        before.alpha_tau_powers_g1@.len() >= before.tau_powers_g2@.len(),
        before.beta_tau_powers_g1@.len() >= before.tau_powers_g2@.len(),
    ensures
        r matches Some((after, k)) ==> after.wf() && k.wf() && honest_contribution(*before, after, k),
        r is None ==> {
            let d = blake2b512(accumulator_encoding(*before));
            some_pair_unhashable(d, TAU_PERSONALIZATION) || some_pair_unhashable(d, ALPHA_PERSONALIZATION)
                || some_pair_unhashable(d, BETA_PERSONALIZATION)
        },
{
    let digest = before.hash();
    let kp = match Keypair::new(&digest) {
        Some(kp) => kp,
        None => return None,
    };
    let tau = kp.private_key.tau;
    let alpha = kp.private_key.alpha;
    let beta = kp.private_key.beta;

    let size = before.tau_powers_g2.len();
    let mut tau_powers_g1: Vec<[u8; 32]> = Vec::new();
    let mut tau_power_now: [u8; 32] = FR_ONE;
    let mut i: usize = 0;
    while i < before.tau_powers_g1.len()
        invariant
            before.wf(),
            i <= before.tau_powers_g1@.len(),
            tau_powers_g1@.len() == i,
            tau_power_now@ == tau_power(tau@, i as nat),
            forall|j: int| 0 <= j < i ==> (#[trigger] tau_powers_g1@[j])@
                == g1_scaled(before.tau_powers_g1@[j]@, tau_power(tau@, j as nat)) && g1_decodes(tau_powers_g1@[j]@),
        decreases before.tau_powers_g1@.len() - i,
    {
        tau_powers_g1.push(g1_mul(&before.tau_powers_g1[i], &tau_power_now));
        tau_power_now = fr_mul(&tau_power_now, &tau);
        i = i + 1;
    }

    let mut tau_powers_g2: Vec<[u8; 64]> = Vec::new();
    let mut alpha_tau_powers_g1: Vec<[u8; 32]> = Vec::new();
    let mut beta_tau_powers_g1: Vec<[u8; 32]> = Vec::new();
    let mut tau_power_now: [u8; 32] = FR_ONE;
    let mut i: usize = 0;
    while i < size
        invariant
            before.wf(),
            size == before.tau_powers_g2@.len(),
            before.alpha_tau_powers_g1@.len() >= size,
            before.beta_tau_powers_g1@.len() >= size,
            i <= size,
            tau_powers_g2@.len() == i,
            alpha_tau_powers_g1@.len() == i,
            beta_tau_powers_g1@.len() == i,
            tau_power_now@ == tau_power(tau@, i as nat),
            forall|j: int| 0 <= j < i ==> (#[trigger] tau_powers_g2@[j])@
                == g2_scaled(before.tau_powers_g2@[j]@, tau_power(tau@, j as nat)) && g2_decodes(tau_powers_g2@[j]@),
            forall|j: int| 0 <= j < i ==> (#[trigger] alpha_tau_powers_g1@[j])@
                == g1_scaled(before.alpha_tau_powers_g1@[j]@, fr_product(alpha@, tau_power(tau@, j as nat)))
                && g1_decodes(alpha_tau_powers_g1@[j]@),
            forall|j: int| 0 <= j < i ==> (#[trigger] beta_tau_powers_g1@[j])@
                == g1_scaled(before.beta_tau_powers_g1@[j]@, fr_product(beta@, tau_power(tau@, j as nat)))
                && g1_decodes(beta_tau_powers_g1@[j]@),
        decreases size - i,
    {
        tau_powers_g2.push(g2_mul(&before.tau_powers_g2[i], &tau_power_now));
        let alpha_scalar = fr_mul(&alpha, &tau_power_now);
        alpha_tau_powers_g1.push(g1_mul(&before.alpha_tau_powers_g1[i], &alpha_scalar));
        let beta_scalar = fr_mul(&beta, &tau_power_now);
        beta_tau_powers_g1.push(g1_mul(&before.beta_tau_powers_g1[i], &beta_scalar));
        tau_power_now = fr_mul(&tau_power_now, &tau);
        i = i + 1;
    }

    let beta_g2 = g2_mul(&before.beta_g2, &beta);
    let after = Accumulator { tau_powers_g1, tau_powers_g2, alpha_tau_powers_g1, beta_tau_powers_g1, beta_g2 };
    proof {
        assert(contribution_of(*before, after, tau@, alpha@, beta@));
    }
    Some((after, kp.public_key))
}

/// What checking that `after` and `k` are an honest contribution to
/// `before` gives, the four sequences of `after` having been merged into
/// consecutive-element pairs `g1c`, `g2c`, `ac` and `bc`: each secret's
/// signature of knowledge (its hashed G2 point missing counts as that
/// signature failing), the first powers fixed at the generators, the step
/// of the first power of `tau` in both groups, of the first `alpha` and
/// `beta` powers and of `beta_g2`, then each sequence of `after` being
/// geometric with ratio `tau`. The first failed check is the error.
pub open spec fn hop_outcome(
    before: Accumulator,
    after: Accumulator,
    k: PublicKey,
    g1c: (Seq<u8>, Seq<u8>),
    g2c: (Seq<u8>, Seq<u8>),
    ac: (Seq<u8>, Seq<u8>),
    bc: (Seq<u8>, Seq<u8>),
) -> Result<(), RatioMismatch> {
    let digest = blake2b512(accumulator_encoding(before));
    let bt1 = before.tau_powers_g1@;
    let bt2 = before.tau_powers_g2@;
    let at1 = after.tau_powers_g1@;
    let at2 = after.tau_powers_g2@;
    match (
        g2_s_spec(digest, k.tau.g1_s@, k.tau.g1_s_x@, TAU_PERSONALIZATION),
        g2_s_spec(digest, k.alpha.g1_s@, k.alpha.g1_s_x@, ALPHA_PERSONALIZATION),
        g2_s_spec(digest, k.beta.g1_s@, k.beta.g1_s_x@, BETA_PERSONALIZATION),
    ) {
        (None, _, _) => Err(RatioMismatch("tau G1<>G2")),
        (Some(_), None, _) => Err(RatioMismatch("alpha G1<>G2")),
        (Some(_), Some(_), None) => Err(RatioMismatch("beta G1<>G2")),
        (Some(t), Some(a), Some(b)) => if !ratio_check(k.tau.g1_s@, k.tau.g1_s_x@, t, k.tau.g2_s_x@) {
            Err(RatioMismatch("tau G1<>G2"))
        } else if !ratio_check(k.alpha.g1_s@, k.alpha.g1_s_x@, a, k.alpha.g2_s_x@) {
            Err(RatioMismatch("alpha G1<>G2"))
        } else if !ratio_check(k.beta.g1_s@, k.beta.g1_s_x@, b, k.beta.g2_s_x@) {
            Err(RatioMismatch("beta G1<>G2"))
        } else if at1[0]@ != G1_GENERATOR@ {
            Err(RatioMismatch("tau_powers_g1[0] must always be the fixed generator"))
        } else if at2[0]@ != G2_GENERATOR@ {
            Err(RatioMismatch("tau_powers_g2[0] must always be the fixed generator"))
        } else if !ratio_check(bt1[1]@, at1[1]@, t, k.tau.g2_s_x@) {
            Err(RatioMismatch("before/after tau_g1[1]"))
        } else if !ratio_check(k.tau.g1_s@, k.tau.g1_s_x@, bt2[1]@, at2[1]@) {
            Err(RatioMismatch("before/after tau_g2[1]"))
        } else if !ratio_check(before.alpha_tau_powers_g1@[0]@, after.alpha_tau_powers_g1@[0]@, a, k.alpha.g2_s_x@) {
            Err(RatioMismatch("before/after alpha_tau_powers_g1[0]"))
        } else if !ratio_check(before.beta_tau_powers_g1@[0]@, after.beta_tau_powers_g1@[0]@, b, k.beta.g2_s_x@) {
            Err(RatioMismatch("before/after beta_tau_powers_g1[0]"))
        } else if !ratio_check(k.beta.g1_s@, k.beta.g1_s_x@, before.beta_g2@, after.beta_g2@) {
            Err(RatioMismatch("before/after beta_g2"))
        } else if !ratio_check(g1c.0, g1c.1, at2[0]@, at2[1]@) {
            Err(RatioMismatch("tau_powers_g1 is not a geometric sequence"))
        } else if !ratio_check(at1[0]@, at1[1]@, g2c.0, g2c.1) {
            Err(RatioMismatch("tau_powers_g2 is not a geometric sequence"))
        } else if !ratio_check(ac.0, ac.1, at2[0]@, at2[1]@) {
            Err(RatioMismatch("alpha_tau_powers_g1 is not a consistent geometric sequence"))
        } else if !ratio_check(bc.0, bc.1, at2[0]@, at2[1]@) {
            Err(RatioMismatch("beta_tau_powers_g1 is not a consistent geometric sequence"))
        } else {
            Ok(())
        },
    }
}

/// The relations an honest contribution `k` from `before` to `after`
/// satisfies, apart from the sequences being geometric: each secret's G2
/// point hashed from the digest of `before` exists and `k` signs knowledge
/// of the secret against it; the first powers are the generators; the first
/// power of `tau` in G1 and in G2, the first `alpha` and `beta` powers and
/// `beta_g2` each moved by the secret `k` proves knowledge of.
pub open spec fn contribution_relations(before: Accumulator, after: Accumulator, k: PublicKey) -> bool {
    let digest = blake2b512(accumulator_encoding(before));
    let bt1 = before.tau_powers_g1@;
    let bt2 = before.tau_powers_g2@;
    let at1 = after.tau_powers_g1@;
    let at2 = after.tau_powers_g2@;
    &&& g2_s_spec(digest, k.tau.g1_s@, k.tau.g1_s_x@, TAU_PERSONALIZATION) matches Some(t)
        && ratio_check(k.tau.g1_s@, k.tau.g1_s_x@, t, k.tau.g2_s_x@)
        && ratio_check(bt1[1]@, at1[1]@, t, k.tau.g2_s_x@)
    &&& g2_s_spec(digest, k.alpha.g1_s@, k.alpha.g1_s_x@, ALPHA_PERSONALIZATION) matches Some(a)
        && ratio_check(k.alpha.g1_s@, k.alpha.g1_s_x@, a, k.alpha.g2_s_x@)
        && ratio_check(before.alpha_tau_powers_g1@[0]@, after.alpha_tau_powers_g1@[0]@, a, k.alpha.g2_s_x@)
    &&& g2_s_spec(digest, k.beta.g1_s@, k.beta.g1_s_x@, BETA_PERSONALIZATION) matches Some(b)
        && ratio_check(k.beta.g1_s@, k.beta.g1_s_x@, b, k.beta.g2_s_x@)
        && ratio_check(before.beta_tau_powers_g1@[0]@, after.beta_tau_powers_g1@[0]@, b, k.beta.g2_s_x@)
    &&& at1[0]@ == G1_GENERATOR@
    &&& at2[0]@ == G2_GENERATOR@
    &&& ratio_check(k.tau.g1_s@, k.tau.g1_s_x@, bt2[1]@, at2[1]@)
    &&& ratio_check(k.beta.g1_s@, k.beta.g1_s_x@, before.beta_g2@, after.beta_g2@)
}

/// The merged consecutive-element pairs of `after`'s sequences all have
/// the ratio of the first two powers of `tau`: each sequence is geometric.
pub open spec fn geometric_pairs(
    after: Accumulator,
    g1c: (Seq<u8>, Seq<u8>),
    g2c: (Seq<u8>, Seq<u8>),
    ac: (Seq<u8>, Seq<u8>),
    bc: (Seq<u8>, Seq<u8>),
) -> bool {
    let at1 = after.tau_powers_g1@;
    let at2 = after.tau_powers_g2@;
    &&& ratio_check(g1c.0, g1c.1, at2[0]@, at2[1]@)
    &&& ratio_check(at1[0]@, at1[1]@, g2c.0, g2c.1)
    &&& ratio_check(ac.0, ac.1, at2[0]@, at2[1]@)
    &&& ratio_check(bc.0, bc.1, at2[0]@, at2[1]@)
}

/// A hop is accepted exactly when every relation of an honest contribution
/// holds and every merged sequence is geometric.
pub proof fn law_hop_accepted_iff_honest(
    before: Accumulator,
    after: Accumulator,
    k: PublicKey,
    g1c: (Seq<u8>, Seq<u8>),
    g2c: (Seq<u8>, Seq<u8>),
    ac: (Seq<u8>, Seq<u8>),
    bc: (Seq<u8>, Seq<u8>),
)
    ensures
        hop_outcome(before, after, k, g1c, g2c, ac, bc) is Ok
            <==> contribution_relations(before, after, k) && geometric_pairs(after, g1c, g2c, ac, bc),
{
}

/// `r` is what checking the contribution gives for some merge of each
/// sequence of `after` into consecutive-element pairs with canonical
/// coefficients.
pub open spec fn hop_may_give(before: Accumulator, after: Accumulator, k: PublicKey, r: Result<(), RatioMismatch>) -> bool {
    exists|g1c: (Seq<u8>, Seq<u8>), g2c: (Seq<u8>, Seq<u8>), ac: (Seq<u8>, Seq<u8>), bc: (Seq<u8>, Seq<u8>)|
        #![trigger hop_outcome(before, after, k, g1c, g2c, ac, bc)]
        merge_of(after.tau_powers_g1@.drop_last(), after.tau_powers_g1@.drop_first(), g1c)
            && merge_of_g2(after.tau_powers_g2@.drop_last(), after.tau_powers_g2@.drop_first(), g2c)
            && merge_of(after.alpha_tau_powers_g1@.drop_last(), after.alpha_tau_powers_g1@.drop_first(), ac)
            && merge_of(after.beta_tau_powers_g1@.drop_last(), after.beta_tau_powers_g1@.drop_first(), bc)
            && hop_outcome(before, after, k, g1c, g2c, ac, bc) == r
}

fn ratio(g1: &([u8; 32], [u8; 32]), g2: &([u8; 64], [u8; 64]), err: &'static str) -> (r: Result<(), RatioMismatch>)
    requires
        g1_decodes(g1.0@),
        g1_decodes(g1.1@),
        g2_decodes(g2.0@),
        g2_decodes(g2.1@),
    ensures
        r == (if ratio_check(g1.0@, g1.1@, g2.0@, g2.1@) { Ok::<(), RatioMismatch>(()) } else { Err(RatioMismatch(err)) }),
{
    match check_same_ratio(g1, g2, err) {
        Ok(()) => Ok(()),
        Err(_) => Err(RatioMismatch(err)),
    }
}

/// Checks that `after` and `k` are an honest contribution to `before`,
/// given each sequence of `after` already merged into a pair of
/// consecutive elements: exactly `hop_outcome`.
pub fn verify_with_pairs(
    before: &Accumulator,
    after: &Accumulator,
    k: &PublicKey,
    g1c: &([u8; 32], [u8; 32]),
    g2c: &([u8; 64], [u8; 64]),
    ac: &([u8; 32], [u8; 32]),
    bc: &([u8; 32], [u8; 32]),
) -> (r: Result<(), RatioMismatch>)
    requires
        before.wf(),
        after.wf(),
        k.wf(),
        before.checkable(),
        after.checkable(),
        g1_decodes(g1c.0@),
        g1_decodes(g1c.1@),
        g2_decodes(g2c.0@),
        g2_decodes(g2c.1@),
        g1_decodes(ac.0@),
        g1_decodes(ac.1@),
        g1_decodes(bc.0@),
        g1_decodes(bc.1@),
    ensures
        r == hop_outcome(*before, *after, *k, (g1c.0@, g1c.1@), (g2c.0@, g2c.1@), (ac.0@, ac.1@), (bc.0@, bc.1@)),
        r is Ok <==> contribution_relations(*before, *after, *k)
            && geometric_pairs(*after, (g1c.0@, g1c.1@), (g2c.0@, g2c.1@), (ac.0@, ac.1@), (bc.0@, bc.1@)),
{
    let digest = before.hash();
    let tau_g2_s = match compute_g2_s(&digest, &k.tau.g1_s, &k.tau.g1_s_x, TAU_PERSONALIZATION) {
        Some(p) => p,
        None => return Err(RatioMismatch("tau G1<>G2")),
    };
    let alpha_g2_s = match compute_g2_s(&digest, &k.alpha.g1_s, &k.alpha.g1_s_x, ALPHA_PERSONALIZATION) {
        Some(p) => p,
        None => return Err(RatioMismatch("alpha G1<>G2")),
    };
    let beta_g2_s = match compute_g2_s(&digest, &k.beta.g1_s, &k.beta.g1_s_x, BETA_PERSONALIZATION) {
        Some(p) => p,
        None => return Err(RatioMismatch("beta G1<>G2")),
    };
    proof {
        assert(g1_decodes(before.tau_powers_g1@[1]@));
        assert(g1_decodes(after.tau_powers_g1@[0]@));
        assert(g1_decodes(after.tau_powers_g1@[1]@));
        assert(g2_decodes(before.tau_powers_g2@[1]@));
        assert(g2_decodes(after.tau_powers_g2@[0]@));
        assert(g2_decodes(after.tau_powers_g2@[1]@));
        assert(g1_decodes(before.alpha_tau_powers_g1@[0]@));
        assert(g1_decodes(after.alpha_tau_powers_g1@[0]@));
        assert(g1_decodes(before.beta_tau_powers_g1@[0]@));
        assert(g1_decodes(after.beta_tau_powers_g1@[0]@));
    }
    ratio(&(k.tau.g1_s, k.tau.g1_s_x), &(tau_g2_s, k.tau.g2_s_x), "tau G1<>G2")?;
    ratio(&(k.alpha.g1_s, k.alpha.g1_s_x), &(alpha_g2_s, k.alpha.g2_s_x), "alpha G1<>G2")?;
    ratio(&(k.beta.g1_s, k.beta.g1_s_x), &(beta_g2_s, k.beta.g2_s_x), "beta G1<>G2")?;
    let g1 = g1_generator();
    let g2 = g2_generator();
    if !eq32(&after.tau_powers_g1[0], &g1) {
        return Err(RatioMismatch("tau_powers_g1[0] must always be the fixed generator"));
    }
    if !eq64(&after.tau_powers_g2[0], &g2) {
        return Err(RatioMismatch("tau_powers_g2[0] must always be the fixed generator"));
    }
    ratio(&(before.tau_powers_g1[1], after.tau_powers_g1[1]), &(tau_g2_s, k.tau.g2_s_x), "before/after tau_g1[1]")?;
    ratio(&(k.tau.g1_s, k.tau.g1_s_x), &(before.tau_powers_g2[1], after.tau_powers_g2[1]), "before/after tau_g2[1]")?;
    ratio(
        &(before.alpha_tau_powers_g1[0], after.alpha_tau_powers_g1[0]),
        &(alpha_g2_s, k.alpha.g2_s_x),
        "before/after alpha_tau_powers_g1[0]",
    )?;
    ratio(
        &(before.beta_tau_powers_g1[0], after.beta_tau_powers_g1[0]),
        &(beta_g2_s, k.beta.g2_s_x),
        "before/after beta_tau_powers_g1[0]",
    )?;
    ratio(&(k.beta.g1_s, k.beta.g1_s_x), &(before.beta_g2, after.beta_g2), "before/after beta_g2")?;
    ratio(g1c, &(after.tau_powers_g2[0], after.tau_powers_g2[1]), "tau_powers_g1 is not a geometric sequence")?;
    ratio(&(after.tau_powers_g1[0], after.tau_powers_g1[1]), g2c, "tau_powers_g2 is not a geometric sequence")?;
    ratio(
        ac,
        &(after.tau_powers_g2[0], after.tau_powers_g2[1]),
        "alpha_tau_powers_g1 is not a consistent geometric sequence",
    )?;
    ratio(
        bc,
        &(after.tau_powers_g2[0], after.tau_powers_g2[1]),
        "beta_tau_powers_g1 is not a consistent geometric sequence",
    )?;
    Ok(())
}

/// Checks one hop: that `after` is `before` with exactly the contribution
/// `k` claims. Each sequence of `after` is merged into one pair of
/// consecutive elements with fresh random coefficients, so that a tampered
/// element anywhere in it breaks the ratio check; the result is
/// `hop_outcome` for the pairs drawn.
pub fn verify(before: &Accumulator, after: &Accumulator, k: &PublicKey) -> (r: Result<(), RatioMismatch>)
    requires
        before.wf(),
        after.wf(),
        k.wf(),
        before.checkable(),
        after.checkable(),
    ensures
        hop_may_give(*before, *after, *k, r),
        r is Ok ==> contribution_relations(*before, *after, *k),
{
    let g1c = power_pairs(&after.tau_powers_g1);
    let g2c = power_pairs_g2(&after.tau_powers_g2);
    let ac = power_pairs(&after.alpha_tau_powers_g1);
    let bc = power_pairs(&after.beta_tau_powers_g1);
    let r = verify_with_pairs(before, after, k, &g1c, &g2c, &ac, &bc);
    proof {
        let p1 = (g1c.0@, g1c.1@);
        let p2 = (g2c.0@, g2c.1@);
        let p3 = (ac.0@, ac.1@);
        let p4 = (bc.0@, bc.1@);
        assert(merge_of(after.tau_powers_g1@.drop_last(), after.tau_powers_g1@.drop_first(), p1));
        assert(merge_of_g2(after.tau_powers_g2@.drop_last(), after.tau_powers_g2@.drop_first(), p2));
        assert(merge_of(after.alpha_tau_powers_g1@.drop_last(), after.alpha_tau_powers_g1@.drop_first(), p3));
        assert(merge_of(after.beta_tau_powers_g1@.drop_last(), after.beta_tau_powers_g1@.drop_first(), p4));
        assert(hop_outcome(*before, *after, *k, p1, p2, p3, p4) == r);
    }
    r
}

/// Checks a chain of states, each the previous one with the matching
/// contribution: one hop after another, stopping at the first failure.
pub fn verify_chain(states: &[Accumulator], pubkeys: &[PublicKey]) -> (r: Result<(), RatioMismatch>)
    requires
        states@.len() == pubkeys@.len() + 1,
        forall|i: int| 0 <= i < states@.len() ==> (#[trigger] states@[i]).wf() && states@[i].checkable(),
        forall|i: int| 0 <= i < pubkeys@.len() ==> (#[trigger] pubkeys@[i]).wf(),
    ensures
        r is Ok ==> forall|i: int| 0 <= i < pubkeys@.len() ==> hop_may_give(states@[i], states@[i + 1], #[trigger] pubkeys@[i], Ok(())),
        r matches Err(e) ==> exists|i: int| 0 <= i < pubkeys@.len()
            && (forall|j: int| 0 <= j < i ==> hop_may_give(states@[j], states@[j + 1], #[trigger] pubkeys@[j], Ok(())))
            && hop_may_give(states@[i], states@[i + 1], #[trigger] pubkeys@[i], Err(e)),
{
    let mut i: usize = 0;
    while i < pubkeys.len()
        invariant
            states@.len() == pubkeys@.len() + 1,
            forall|j: int| 0 <= j < states@.len() ==> (#[trigger] states@[j]).wf() && states@[j].checkable(),
            forall|j: int| 0 <= j < pubkeys@.len() ==> (#[trigger] pubkeys@[j]).wf(),
            i <= pubkeys@.len(),
            forall|j: int| 0 <= j < i ==> hop_may_give(states@[j], states@[j + 1], #[trigger] pubkeys@[j], Ok(())),
        decreases pubkeys@.len() - i,
    {
        proof {
            assert(states@[i as int].wf());
            assert(states@[i + 1].wf());
        }
        let r = verify(&states[i], &states[i + 1], &pubkeys[i]);
        if let Err(e) = r {
            proof { assert(hop_may_give(states@[i as int], states@[i + 1], pubkeys@[i as int], Err(e))); }
            return Err(e);
        }
        i = i + 1;
    }
    Ok(())
}

} // verus!

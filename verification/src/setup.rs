//! Building blocks of the setup ceremony's checks: hashing a digest to a G2
//! point of unknown discrete log, checking that two pairs of points are
//! scaled by the same secret (one pairing equation), and folding sequences
//! of pairs into one pair with random coefficients.

use vstd::prelude::*;
use crate::ceremony::{RatioMismatch, blake2b512, blake2b512_digest};
use crate::curve::{
    G1_IDENTITY, G2_IDENTITY, chacha_chunk, chacha_draw, eq_bytes, fr_canonical, g1_add, g1_decodes, g1_identity, g1_is_identity,
    g1_mul, g1_scaled, g1_sum, g1_zero, g2_clear_cofactor, g2_cofactor_cleared, g2_decodes, g2_from_random,
    g2_from_random_bytes, g2_identity, g2_is_identity, pairing, pairing_value, random_fr, g2_add, g2_mul, g2_scaled,
    g2_sum, g2_zero,
};

verus! {

/// What the `index`-th draw of the stream gives: the cofactor-cleared point
/// read from it, unless none is read or the result is the identity.
pub open spec fn g2_candidate(seed: Seq<u8>, index: nat) -> Option<Seq<u8>> {
    match g2_from_random_bytes(chacha_chunk(seed, index)) {
        Some(p) => if g2_is_identity(g2_cofactor_cleared(p)) {
            None
        } else {
            Some(g2_cofactor_cleared(p))
        },
        None => None,
    }
}

/// The first candidate among draws `index`, `index + 1`, ... (at most `left` of them).
pub open spec fn first_candidate(seed: Seq<u8>, index: nat, left: nat) -> Option<Seq<u8>>
    decreases left,
{
    if left == 0 {
        None
    } else {
        match g2_candidate(seed, index) {
            Some(p) => Some(p),
            None => first_candidate(seed, index + 1, (left - 1) as nat),
        }
    }
}

/// Number of draws `hash_to_g2` makes at most: every `u64` index.
pub open spec fn draw_limit() -> nat {
    u64::MAX as nat + 1
}

/// The G2 point a digest hashes to: the first candidate of the ChaCha20
/// stream seeded with the digest's first 32 bytes.
pub open spec fn hash_to_g2_spec(digest: Seq<u8>) -> Option<Seq<u8>> {
    first_candidate(digest.take(32), 0, draw_limit())
}

/// Hashes a digest (its first 32 bytes) to a G2 point whose discrete log
/// nobody knows: ChaCha20 seeded from the digest is drawn 128 bytes at a
/// time until the bytes read as a curve point whose cofactor-cleared
/// multiple is not the identity. The draws are counted in a `u64`; a point
/// is found after about two draws, and `None` would only come after 2^64
/// failed ones.
pub fn hash_to_g2(digest: &[u8]) -> (r: Option<[u8; 64]>)
    requires
        digest@.len() >= 32,
    ensures
        match r {
            Some(p) => hash_to_g2_spec(digest@) == Some(p@) && g2_decodes(p@) && !g2_is_identity(p@),
            None => hash_to_g2_spec(digest@) is None,
        },
{
    let mut seed = [0u8; 32];
    let mut k: usize = 0;
    while k < 32
        invariant
            k <= 32,
            digest@.len() >= 32,
            seed@.len() == 32,
            forall|j: int| 0 <= j < k ==> seed@[j] == digest@[j],
        decreases 32 - k,
    {
        seed[k] = digest[k];
        k = k + 1;
    }
    proof { assert(seed@ =~= digest@.take(32)); }
    let mut i: u64 = 0;
    loop
        invariant
            seed@ == digest@.take(32),
            hash_to_g2_spec(digest@) == first_candidate(seed@, i as nat, (draw_limit() - i) as nat),
        decreases u64::MAX - i,
    {
        let bytes = chacha_draw(&seed, i);
        match g2_from_random(&bytes) {
            Some(p) => {
                let scaled = g2_clear_cofactor(&p);
                if !g2_identity(&scaled) {
                    return Some(scaled);
                }
            },
            None => {},
        }
        if i == u64::MAX {
            proof {
                assert(first_candidate(seed@, i as nat + 1, 0) is None);
            }
            return None;
        }
        i = i + 1;
    }
}

/// `e(a, d) == e(b, c)`: `b / a` in G1 is the same ratio as `d / c` in G2.
pub open spec fn ratio_holds(a: Seq<u8>, b: Seq<u8>, c: Seq<u8>, d: Seq<u8>) -> bool {
    pairing_value(a, d) == pairing_value(b, c)
}

/// Whether `g1.0 / g1.1 == g2.0 / g2.1`, by the pairing equation
/// `e(g1.0, g2.1) == e(g1.1, g2.0)`.
pub fn same_ratio(g1: &([u8; 32], [u8; 32]), g2: &([u8; 64], [u8; 64])) -> (b: bool)
    requires
        g1_decodes(g1.0@),
        g1_decodes(g1.1@),
        g2_decodes(g2.0@),
        g2_decodes(g2.1@),
    ensures
        b == ratio_holds(g1.0@, g1.1@, g2.0@, g2.1@),
{
    let left = pairing(&g1.0, &g2.1);
    let right = pairing(&g1.1, &g2.0);
    eq_bytes(&left, &right)
}

/// No point is the identity and the ratios agree.
pub open spec fn ratio_check(a: Seq<u8>, b: Seq<u8>, c: Seq<u8>, d: Seq<u8>) -> bool {
    &&& !g1_is_identity(a)
    &&& !g1_is_identity(b)
    &&& !g2_is_identity(c)
    &&& !g2_is_identity(d)
    &&& ratio_holds(a, b, c, d)
}

/// A ratio check that also refuses the identity anywhere; the error names
/// the check.
pub fn check_same_ratio(g1: &([u8; 32], [u8; 32]), g2: &([u8; 64], [u8; 64]), err: &'static str)
    -> (r: Result<(), RatioMismatch>)
    requires
        g1_decodes(g1.0@),
        g1_decodes(g1.1@),
        g2_decodes(g2.0@),
        g2_decodes(g2.1@),
    ensures
        r is Ok <==> ratio_check(g1.0@, g1.1@, g2.0@, g2.1@),
        r matches Err(e) ==> e == RatioMismatch(err),
{
    if g1_identity(&g1.0) || g1_identity(&g1.1) || g2_identity(&g2.0) || g2_identity(&g2.1) {
        return Err(RatioMismatch(err));
    }
    if !same_ratio(g1, g2) {
        return Err(RatioMismatch(err));
    }
    Ok(())
}

/// Every point decodes.
pub open spec fn all_g1(v: Seq<[u8; 32]>) -> bool {
    forall|i: int| 0 <= i < v.len() ==> g1_decodes(#[trigger] v[i]@)
}

/// `sum_i rs[i] * v[i]` over the first `n` points, from the identity.
pub open spec fn combination(v: Seq<[u8; 32]>, rs: Seq<Seq<u8>>, n: nat) -> Seq<u8>
    decreases n,
{
    if n == 0 {
        G1_IDENTITY@
    } else {
        g1_sum(combination(v, rs, (n - 1) as nat), g1_scaled(v[n - 1]@, rs[n - 1]))
    }
}

/// The two sequences combined with the same coefficients `rs`.
pub open spec fn merged_with(v1: Seq<[u8; 32]>, v2: Seq<[u8; 32]>, rs: Seq<Seq<u8>>) -> (Seq<u8>, Seq<u8>) {
    (combination(v1, rs, v1.len()), combination(v2, rs, v1.len()))
}

/// One random linear combination of each of two equal-length sequences,
/// with the same fresh random coefficients for both, so that a per-element
/// ratio check becomes one pairing check. Which coefficients were drawn is
/// not stated; the result is the two combinations under some canonical
/// coefficients.
pub fn merge_pairs(v1: &Vec<[u8; 32]>, v2: &Vec<[u8; 32]>) -> (r: ([u8; 32], [u8; 32]))
    requires
        v1@.len() == v2@.len(),
        all_g1(v1@),
        all_g1(v2@),
    ensures
        g1_decodes(r.0@),
        g1_decodes(r.1@),
        exists|rs: Seq<Seq<u8>>| #![trigger merged_with(v1@, v2@, rs)]
            rs.len() == v1@.len() && (forall|i: int| 0 <= i < rs.len() ==> fr_canonical(#[trigger] rs[i]))
                && (r.0@, r.1@) == merged_with(v1@, v2@, rs),
{
    let mut acc1 = g1_zero();
    let mut acc2 = g1_zero();
    let ghost mut rs: Seq<Seq<u8>> = Seq::empty();
    let mut i: usize = 0;
    while i < v1.len()
        invariant
            i <= v1@.len(),
            v1@.len() == v2@.len(),
            all_g1(v1@),
            all_g1(v2@),
            g1_decodes(acc1@),
            g1_decodes(acc2@),
            rs.len() == i,
            forall|j: int| 0 <= j < rs.len() ==> fr_canonical(#[trigger] rs[j]),
            acc1@ == combination(v1@, rs, i as nat),
            acc2@ == combination(v2@, rs, i as nat),
        decreases v1@.len() - i,
    {
        let r = random_fr();
        let a = g1_mul(&v1[i], &r);
        let b = g1_mul(&v2[i], &r);
        acc1 = g1_add(&acc1, &a);
        acc2 = g1_add(&acc2, &b);
        proof {
            let rs2 = rs.push(r@);
            lemma_combination_prefix(v1@, rs, rs2, i as nat);
            lemma_combination_prefix(v2@, rs, rs2, i as nat);
            assert(rs2[i as int] == r@);
            rs = rs2;
        }
        i = i + 1;
    }
    proof {
        assert(merged_with(v1@, v2@, rs) == (acc1@, acc2@));
    }
    (acc1, acc2)
}

proof fn lemma_combination_prefix(v: Seq<[u8; 32]>, rs: Seq<Seq<u8>>, rs2: Seq<Seq<u8>>, n: nat)
    requires
        n <= rs.len(),
        n <= rs2.len(),
        forall|j: int| 0 <= j < n ==> rs[j] == rs2[j],
    ensures
        combination(v, rs, n) == combination(v, rs2, n),
    decreases n,
{
    if n > 0 {
        lemma_combination_prefix(v, rs, rs2, (n - 1) as nat);
    }
}

/// The consecutive pairs `(v[i], v[i + 1])` of a sequence merged into one
/// pair: a geometric sequence has the same ratio between every element and
/// the next.
pub fn power_pairs(v: &Vec<[u8; 32]>) -> (r: ([u8; 32], [u8; 32]))
    requires
        v@.len() >= 1,
        all_g1(v@),
    ensures
        g1_decodes(r.0@),
        g1_decodes(r.1@),
        exists|rs: Seq<Seq<u8>>| #![trigger merged_with(v@.drop_last(), v@.drop_first(), rs)]
            rs.len() == v@.len() - 1 && (forall|i: int| 0 <= i < rs.len() ==> fr_canonical(#[trigger] rs[i]))
                && (r.0@, r.1@) == merged_with(v@.drop_last(), v@.drop_first(), rs),
{
    let n = v.len();
    let mut first: Vec<[u8; 32]> = Vec::new();
    let mut rest: Vec<[u8; 32]> = Vec::new();
    let mut i: usize = 0;
    while i + 1 < n
        invariant
            n == v@.len(),
            n >= 1,
            i + 1 <= n,
            all_g1(v@),
            first@ == v@.subrange(0, i as int),
            rest@ == v@.subrange(1, i + 1),
        decreases n - i,
    {
        first.push(v[i]);
        rest.push(v[i + 1]);
        proof {
            assert(first@ =~= v@.subrange(0, i + 1));
            assert(rest@ =~= v@.subrange(1, i + 2));
        }
        i = i + 1;
    }
    proof {
        assert(first@ =~= v@.drop_last());
        assert(rest@ =~= v@.drop_first());
        assert(all_g1(first@));
        assert(all_g1(rest@));
    }
    merge_pairs(&first, &rest)
}

/// Every G2 point decodes.
pub open spec fn all_g2(v: Seq<[u8; 64]>) -> bool {
    forall|i: int| 0 <= i < v.len() ==> g2_decodes(#[trigger] v[i]@)
}

/// `sum_i rs[i] * v[i]` over the first `n` G2 points, from the identity.
pub open spec fn combination_g2(v: Seq<[u8; 64]>, rs: Seq<Seq<u8>>, n: nat) -> Seq<u8>
    decreases n,
{
    if n == 0 {
        G2_IDENTITY@
    } else {
        g2_sum(combination_g2(v, rs, (n - 1) as nat), g2_scaled(v[n - 1]@, rs[n - 1]))
    }
}

/// Two sequences of G2 points combined with the same coefficients `rs`.
pub open spec fn merged_with_g2(v1: Seq<[u8; 64]>, v2: Seq<[u8; 64]>, rs: Seq<Seq<u8>>) -> (Seq<u8>, Seq<u8>) {
    (combination_g2(v1, rs, v1.len()), combination_g2(v2, rs, v1.len()))
}

proof fn lemma_combination_g2_prefix(v: Seq<[u8; 64]>, rs: Seq<Seq<u8>>, rs2: Seq<Seq<u8>>, n: nat)
    requires
        n <= rs.len(),
        n <= rs2.len(),
        forall|j: int| 0 <= j < n ==> rs[j] == rs2[j],
    ensures
        combination_g2(v, rs, n) == combination_g2(v, rs2, n),
    decreases n,
{
    if n > 0 {
        lemma_combination_g2_prefix(v, rs, rs2, (n - 1) as nat);
    }
}

/// `merge_pairs` for G2 points.
pub fn merge_pairs_g2(v1: &Vec<[u8; 64]>, v2: &Vec<[u8; 64]>) -> (r: ([u8; 64], [u8; 64]))
    requires
        v1@.len() == v2@.len(),
        all_g2(v1@),
        all_g2(v2@),
    ensures
        g2_decodes(r.0@),
        g2_decodes(r.1@),
        exists|rs: Seq<Seq<u8>>| #![trigger merged_with_g2(v1@, v2@, rs)]
            rs.len() == v1@.len() && (forall|i: int| 0 <= i < rs.len() ==> fr_canonical(#[trigger] rs[i]))
                && (r.0@, r.1@) == merged_with_g2(v1@, v2@, rs),
{
    let mut acc1 = g2_zero();
    let mut acc2 = g2_zero();
    let ghost mut rs: Seq<Seq<u8>> = Seq::empty();
    let mut i: usize = 0;
    while i < v1.len()
        invariant
            i <= v1@.len(),
            v1@.len() == v2@.len(),
            all_g2(v1@),
            all_g2(v2@),
            g2_decodes(acc1@),
            g2_decodes(acc2@),
            rs.len() == i,
            forall|j: int| 0 <= j < rs.len() ==> fr_canonical(#[trigger] rs[j]),
            acc1@ == combination_g2(v1@, rs, i as nat),
            acc2@ == combination_g2(v2@, rs, i as nat),
        decreases v1@.len() - i,
    {
        let r = random_fr();
        let a = g2_mul(&v1[i], &r);
        let b = g2_mul(&v2[i], &r);
        acc1 = g2_add(&acc1, &a);
        acc2 = g2_add(&acc2, &b);
        proof {
            let rs2 = rs.push(r@);
            lemma_combination_g2_prefix(v1@, rs, rs2, i as nat);
            lemma_combination_g2_prefix(v2@, rs, rs2, i as nat);
            assert(rs2[i as int] == r@);
            rs = rs2;
        }
        i = i + 1;
    }
    proof {
        assert(merged_with_g2(v1@, v2@, rs) == (acc1@, acc2@));
    }
    (acc1, acc2)
}

/// `power_pairs` for G2 points.
pub fn power_pairs_g2(v: &Vec<[u8; 64]>) -> (r: ([u8; 64], [u8; 64]))
    requires
        v@.len() >= 1,
        all_g2(v@),
    ensures
        g2_decodes(r.0@),
        g2_decodes(r.1@),
        exists|rs: Seq<Seq<u8>>| #![trigger merged_with_g2(v@.drop_last(), v@.drop_first(), rs)]
            rs.len() == v@.len() - 1 && (forall|i: int| 0 <= i < rs.len() ==> fr_canonical(#[trigger] rs[i]))
                && (r.0@, r.1@) == merged_with_g2(v@.drop_last(), v@.drop_first(), rs),
{
    let n = v.len();
    let mut first: Vec<[u8; 64]> = Vec::new();
    let mut rest: Vec<[u8; 64]> = Vec::new();
    let mut i: usize = 0;
    while i + 1 < n
        invariant
            n == v@.len(),
            n >= 1,
            i + 1 <= n,
            all_g2(v@),
            first@ == v@.subrange(0, i as int),
            rest@ == v@.subrange(1, i + 1),
        decreases n - i,
    {
        first.push(v[i]);
        rest.push(v[i + 1]);
        proof {
            assert(first@ =~= v@.subrange(0, i + 1));
            assert(rest@ =~= v@.subrange(1, i + 2));
        }
        i = i + 1;
    }
    proof {
        assert(first@ =~= v@.drop_last());
        assert(rest@ =~= v@.drop_first());
        assert(all_g2(first@));
        assert(all_g2(rest@));
    }
    merge_pairs_g2(&first, &rest)
}

/// Whether `p` is the two sequences merged with canonical coefficients.
pub open spec fn merge_of(v1: Seq<[u8; 32]>, v2: Seq<[u8; 32]>, p: (Seq<u8>, Seq<u8>)) -> bool {
    exists|rs: Seq<Seq<u8>>| #![trigger merged_with(v1, v2, rs)]
        rs.len() == v1.len() && (forall|i: int| 0 <= i < rs.len() ==> fr_canonical(#[trigger] rs[i]))
            && p == merged_with(v1, v2, rs)
}

/// Whether `p` is the two sequences of G2 points merged with canonical
/// coefficients.
pub open spec fn merge_of_g2(v1: Seq<[u8; 64]>, v2: Seq<[u8; 64]>, p: (Seq<u8>, Seq<u8>)) -> bool {
    exists|rs: Seq<Seq<u8>>| #![trigger merged_with_g2(v1, v2, rs)]
        rs.len() == v1.len() && (forall|i: int| 0 <= i < rs.len() ==> fr_canonical(#[trigger] rs[i]))
            && p == merged_with_g2(v1, v2, rs)
}

/// The G2 point a Phase 1 secret's signature of knowledge is checked
/// against: the hash to G2 of `Blake2b(personalization || digest || g1_s || g1_s_x)`.
pub open spec fn g2_s_spec(digest: Seq<u8>, g1_s: Seq<u8>, g1_s_x: Seq<u8>, personalization: u8) -> Option<Seq<u8>> {
    hash_to_g2_spec(blake2b512(seq![personalization] + digest + g1_s + g1_s_x))
}

/// Computes `g2_s_spec`.
pub fn compute_g2_s(digest: &[u8], g1_s: &[u8; 32], g1_s_x: &[u8; 32], personalization: u8) -> (r: Option<[u8; 64]>)
    ensures
        match r {
            Some(p) => g2_s_spec(digest@, g1_s@, g1_s_x@, personalization) == Some(p@) && g2_decodes(p@)
                && !g2_is_identity(p@),
            None => g2_s_spec(digest@, g1_s@, g1_s_x@, personalization) is None,
        },
{
    let mut bytes: Vec<u8> = Vec::new();
    bytes.push(personalization);
    let mut i: usize = 0;
    while i < digest.len()
        invariant
            i <= digest@.len(),
            bytes@ == seq![personalization] + digest@.take(i as int),
        decreases digest@.len() - i,
    {
        bytes.push(digest[i]);
        proof { assert(digest@.take(i + 1) =~= digest@.take(i as int).push(digest@[i as int])); }
        i = i + 1;
    }
    let mut j: usize = 0;
    while j < 32
        invariant
            j <= 32,
            g1_s@.len() == 32,
            bytes@ == seq![personalization] + digest@ + g1_s@.take(j as int),
        decreases 32 - j,
    {
        bytes.push(g1_s[j]);
        proof { assert(g1_s@.take(j + 1) =~= g1_s@.take(j as int).push(g1_s@[j as int])); }
        j = j + 1;
    }
    let mut k: usize = 0;
    while k < 32
        invariant
            k <= 32,
            g1_s@.len() == 32,
            g1_s_x@.len() == 32,
            bytes@ == seq![personalization] + digest@ + g1_s@ + g1_s_x@.take(k as int),
        decreases 32 - k,
    {
        bytes.push(g1_s_x[k]);
        proof { assert(g1_s_x@.take(k + 1) =~= g1_s_x@.take(k as int).push(g1_s_x@[k as int])); }
        k = k + 1;
    }
    proof {
        assert(digest@.take(digest@.len() as int) =~= digest@);
        assert(g1_s@.take(32) =~= g1_s@);
        assert(g1_s_x@.take(32) =~= g1_s_x@);
    }
    let h = blake2b512_digest(bytes.as_slice());
    hash_to_g2(&h)
}

/// Hashing to G2 reads only the first 32 bytes of the digest: digests that
/// agree there hash to the same point.
pub proof fn law_hash_to_g2_reads_32_bytes(a: Seq<u8>, b: Seq<u8>)
    requires
        a.len() >= 32,
        b.len() >= 32,
        a.take(32) == b.take(32),
    ensures
        hash_to_g2_spec(a) == hash_to_g2_spec(b),
{
}

} // verus!

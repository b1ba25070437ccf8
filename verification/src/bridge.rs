//! From a Phase 1 accumulator to a circuit's Phase 2 starting point: the
//! powers of tau are turned into Lagrange coefficients over the circuit's
//! QAP domain (an inverse FFT over curve points), the circuit's R1CS
//! matrices are replayed against them, and the Groth16 proving key is
//! assembled with `gamma = delta = 1`. The domain size and the
//! instance-variable layout are those of arkworks' `LibsnarkReduction`.

use vstd::prelude::*;
use ark_bn254::{Fr, G1Affine, G2Affine};
use ark_ec::{AffineRepr, CurveGroup};
use ark_poly::{EvaluationDomain, Radix2EvaluationDomain};
use ark_serialize::{CanonicalDeserialize, CanonicalSerialize};
use crate::ceremony::{BridgeError, compute_size_of_domain, domain_size_for, fr_two_adicity, is_power_of_two};
use crate::curve::{
    G1_GENERATOR, G1_IDENTITY, G2_GENERATOR, G2_IDENTITY, g1_add, g1_decodes, g1_difference, g1_generator, g1_mul,
    g1_scaled, g1_sub, g1_sum, g1_zero, g2_add, g2_decodes, g2_generator, g2_mul, g2_scaled, g2_sum, g2_zero,
};
use crate::phase1::{Accumulator, filled32, filled64, all_are32, all_are64};
use crate::phase2::{ProvingKeyParts, push_u64, u64_le};
use crate::ceremony::push_bytes;
use sha2::{Digest, Sha512};
use crate::setup::{all_g1, all_g2};

verus! {

/// One entry of a sparse R1CS matrix row: a coefficient (a scalar, 32
/// little-endian bytes) and the index of the variable it multiplies.
pub type Entry = ([u8; 32], usize);

/// A circuit's R1CS matrices, one row of entries per constraint.
pub struct Matrices {
    pub num_constraints: usize,
    pub num_instance_variables: usize,
    pub num_witness_variables: usize,
    pub a: Vec<Vec<Entry>>,
    pub b: Vec<Vec<Entry>>,
    pub c: Vec<Vec<Entry>>,
}

/// The rows of a matrix as sequences.
pub open spec fn rows(m: Seq<Vec<Entry>>) -> Seq<Seq<Entry>> {
    m.map_values(|r: Vec<Entry>| r@)
}

/// One row per constraint, every variable index below `vars`.
pub open spec fn matrix_fits(m: Seq<Seq<Entry>>, constraints: nat, vars: nat) -> bool {
    &&& m.len() == constraints
    &&& forall|i: int, j: int| 0 <= i < m.len() && 0 <= j < m[i].len() ==> (#[trigger] m[i][j]).1 < vars
}

impl Matrices {
    /// The QAP's number of variables: every instance variable but the
    /// constant one, and every witness variable.
    pub open spec fn qap_variables(&self) -> nat {
        (self.num_instance_variables - 1 + self.num_witness_variables) as nat
    }

    /// As arkworks builds them: at least the constant instance variable,
    /// counts that fit in `usize`, and each matrix with one row per
    /// constraint indexing only existing variables.
    pub open spec fn wf(&self) -> bool {
        &&& self.num_instance_variables >= 1
        &&& self.num_instance_variables + self.num_witness_variables <= usize::MAX
        &&& self.num_constraints + self.num_instance_variables <= usize::MAX
        &&& matrix_fits(rows(self.a@), self.num_constraints as nat, self.qap_variables() + 1)
        &&& matrix_fits(rows(self.b@), self.num_constraints as nat, self.qap_variables() + 1)
        &&& matrix_fits(rows(self.c@), self.num_constraints as nat, self.qap_variables() + 1)
    }
}

// ---------------------------------------------------------------------------
// Inverse FFT over curve points

/// The Lagrange coefficients `Radix2EvaluationDomain::ifft` gives for G1
/// points over the domain of their number.
pub uninterp spec fn g1_ifft_values(points: Seq<[u8; 32]>) -> Seq<[u8; 32]>;

/// The Lagrange coefficients `Radix2EvaluationDomain::ifft` gives for G2
/// points over the domain of their number.
pub uninterp spec fn g2_ifft_values(points: Seq<[u8; 64]>) -> Seq<[u8; 64]>;

/// A number of points an FFT domain of the scalar field can have.
pub open spec fn fft_size(n: nat) -> bool {
    is_power_of_two(n) && n <= vstd::arithmetic::power2::pow2(fr_two_adicity())
}

/// Calls `Radix2EvaluationDomain::<Fr>::new(n).ifft` on `n` decoded G1
/// points (`n` a power of two the field supports) and compresses the `n`
/// (valid) results.
#[verifier::external_body]
fn g1_ifft(points: &Vec<[u8; 32]>) -> (r: Vec<[u8; 32]>)
    requires
        fft_size(points@.len()),
        all_g1(points@),
    ensures
        r@ == g1_ifft_values(points@),
        r@.len() == points@.len(),
        all_g1(r@),
{
    let domain = Radix2EvaluationDomain::<Fr>::new(points.len()).expect("a supported size");
    let mut evals = Vec::new();
    for p in points {
        evals.push(G1Affine::deserialize_compressed(&p[..]).expect("a valid point").into_group());
    }
    let mut out = Vec::new();
    for q in domain.ifft(&evals) {
        let mut b = [0u8; 32];
        q.into_affine().serialize_compressed(&mut b[..]).expect("32 bytes");
        out.push(b);
    }
    out
}

/// Calls `Radix2EvaluationDomain::<Fr>::new(n).ifft` on `n` decoded G2
/// points (`n` a power of two the field supports) and compresses the `n`
/// (valid) results.
#[verifier::external_body]
fn g2_ifft(points: &Vec<[u8; 64]>) -> (r: Vec<[u8; 64]>)
    requires
        fft_size(points@.len()),
        all_g2(points@),
    ensures
        r@ == g2_ifft_values(points@),
        r@.len() == points@.len(),
        all_g2(r@),
{
    let domain = Radix2EvaluationDomain::<Fr>::new(points.len()).expect("a supported size");
    let mut evals = Vec::new();
    for p in points {
        evals.push(G2Affine::deserialize_compressed(&p[..]).expect("a valid point").into_group());
    }
    let mut out = Vec::new();
    for q in domain.ifft(&evals) {
        let mut b = [0u8; 64];
        q.into_affine().serialize_compressed(&mut b[..]).expect("64 bytes");
        out.push(b);
    }
    out
}

// ---------------------------------------------------------------------------
// Replaying a matrix

/// `out` after adding, for the first `k` entries `(coeff, var)` of the row
/// of constraint `ci`, `coeff` times the constraint's Lagrange coefficient
/// to `out[var]`.
pub open spec fn row_sum_g1(row: Seq<Entry>, ci: int, lag: Seq<[u8; 32]>, out: Seq<Seq<u8>>, k: nat) -> Seq<Seq<u8>>
    decreases k,
{
    if k == 0 {
        out
    } else {
        let prev = row_sum_g1(row, ci, lag, out, (k - 1) as nat);
        let e = row[k - 1];
        prev.update(e.1 as int, g1_sum(prev[e.1 as int], g1_scaled(lag[ci]@, e.0@)))
    }
}

/// `out` after replaying the first `n` rows of the matrix against `lag`.
pub open spec fn matrix_sum_g1(m: Seq<Seq<Entry>>, lag: Seq<[u8; 32]>, out: Seq<Seq<u8>>, n: nat) -> Seq<Seq<u8>>
    decreases n,
{
    if n == 0 {
        out
    } else {
        let prev = matrix_sum_g1(m, lag, out, (n - 1) as nat);
        row_sum_g1(m[n - 1], n - 1, lag, prev, m[n - 1].len())
    }
}

/// `row_sum_g1` for G2 points.
pub open spec fn row_sum_g2(row: Seq<Entry>, ci: int, lag: Seq<[u8; 64]>, out: Seq<Seq<u8>>, k: nat) -> Seq<Seq<u8>>
    decreases k,
{
    if k == 0 {
        out
    } else {
        let prev = row_sum_g2(row, ci, lag, out, (k - 1) as nat);
        let e = row[k - 1];
        prev.update(e.1 as int, g2_sum(prev[e.1 as int], g2_scaled(lag[ci]@, e.0@)))
    }
}

/// `matrix_sum_g1` for G2 points.
pub open spec fn matrix_sum_g2(m: Seq<Seq<Entry>>, lag: Seq<[u8; 64]>, out: Seq<Seq<u8>>, n: nat) -> Seq<Seq<u8>>
    decreases n,
{
    if n == 0 {
        out
    } else {
        let prev = matrix_sum_g2(m, lag, out, (n - 1) as nat);
        row_sum_g2(m[n - 1], n - 1, lag, prev, m[n - 1].len())
    }
}

/// The encodings of G1 points.
pub open spec fn g1_view(v: Seq<[u8; 32]>) -> Seq<Seq<u8>> {
    v.map_values(|p: [u8; 32]| p@)
}

/// The encodings of G2 points.
pub open spec fn g2_view(v: Seq<[u8; 64]>) -> Seq<Seq<u8>> {
    v.map_values(|p: [u8; 64]| p@)
}

/// Replays a matrix against G1 Lagrange coefficients, adding into `out`.
fn accumulate_matrix_g1(m: &Vec<Vec<Entry>>, lag: &Vec<[u8; 32]>, out: &mut Vec<[u8; 32]>)
    requires
        m@.len() <= lag@.len(),
        all_g1(lag@),
        all_g1(old(out)@),
        forall|i: int, j: int| 0 <= i < m@.len() && 0 <= j < m@[i]@.len() ==> (#[trigger] m@[i]@[j]).1 < old(out)@.len(),
    ensures
        final(out)@.len() == old(out)@.len(),
        all_g1(final(out)@),
        g1_view(final(out)@) == matrix_sum_g1(rows(m@), lag@, g1_view(old(out)@), m@.len()),
{
    let ghost init = g1_view(out@);
    let ghost rs = rows(m@);
    let n = out.len();
    let mut ci: usize = 0;
    while ci < m.len()
        invariant
            rs == rows(m@),
            m@.len() <= lag@.len(),
            all_g1(lag@),
            out@.len() == n,
            all_g1(out@),
            forall|i: int, j: int| 0 <= i < m@.len() && 0 <= j < m@[i]@.len() ==> (#[trigger] m@[i]@[j]).1 < n,
            ci <= m@.len(),
            g1_view(out@) == matrix_sum_g1(rs, lag@, init, ci as nat),
        decreases m@.len() - ci,
    {
        let row = &m[ci];
        let ghost before_row = g1_view(out@);
        let mut k: usize = 0;
        while k < row.len()
            invariant
                rs == rows(m@),
                row@ == rs[ci as int],
                ci < m@.len(),
                m@.len() <= lag@.len(),
                all_g1(lag@),
                out@.len() == n,
                all_g1(out@),
                forall|j: int| 0 <= j < row@.len() ==> (#[trigger] row@[j]).1 < n,
                k <= row@.len(),
                g1_view(out@) == row_sum_g1(row@, ci as int, lag@, before_row, k as nat),
            decreases row@.len() - k,
        {
            let (coeff, var) = row[k];
            let ghost prev = g1_view(out@);
            let term = g1_mul(&lag[ci], &coeff);
            let sum = g1_add(&out[var], &term);
            out.set(var, sum);
            proof {
                assert(g1_view(out@) =~= prev.update(var as int, sum@));
            }
            k = k + 1;
        }
        proof {
            assert(rs[ci as int].len() == row@.len());
        }
        ci = ci + 1;
    }
}

/// Replays a matrix against G2 Lagrange coefficients, adding into `out`.
fn accumulate_matrix_g2(m: &Vec<Vec<Entry>>, lag: &Vec<[u8; 64]>, out: &mut Vec<[u8; 64]>)
    requires
        m@.len() <= lag@.len(),
        all_g2(lag@),
        all_g2(old(out)@),
        forall|i: int, j: int| 0 <= i < m@.len() && 0 <= j < m@[i]@.len() ==> (#[trigger] m@[i]@[j]).1 < old(out)@.len(),
    ensures
        final(out)@.len() == old(out)@.len(),
        all_g2(final(out)@),
        g2_view(final(out)@) == matrix_sum_g2(rows(m@), lag@, g2_view(old(out)@), m@.len()),
{
    let ghost init = g2_view(out@);
    let ghost rs = rows(m@);
    let n = out.len();
    let mut ci: usize = 0;
    while ci < m.len()
        invariant
            rs == rows(m@),
            m@.len() <= lag@.len(),
            all_g2(lag@),
            out@.len() == n,
            all_g2(out@),
            forall|i: int, j: int| 0 <= i < m@.len() && 0 <= j < m@[i]@.len() ==> (#[trigger] m@[i]@[j]).1 < n,
            ci <= m@.len(),
            g2_view(out@) == matrix_sum_g2(rs, lag@, init, ci as nat),
        decreases m@.len() - ci,
    {
        let row = &m[ci];
        let ghost before_row = g2_view(out@);
        let mut k: usize = 0;
        while k < row.len()
            invariant
                rs == rows(m@),
                row@ == rs[ci as int],
                ci < m@.len(),
                m@.len() <= lag@.len(),
                all_g2(lag@),
                out@.len() == n,
                all_g2(out@),
                forall|j: int| 0 <= j < row@.len() ==> (#[trigger] row@[j]).1 < n,
                k <= row@.len(),
                g2_view(out@) == row_sum_g2(row@, ci as int, lag@, before_row, k as nat),
            decreases row@.len() - k,
        {
            let (coeff, var) = row[k];
            let ghost prev = g2_view(out@);
            let term = g2_mul(&lag[ci], &coeff);
            let sum = g2_add(&out[var], &term);
            out.set(var, sum);
            proof {
                assert(g2_view(out@) =~= prev.update(var as int, sum@));
            }
            k = k + 1;
        }
        proof {
            assert(rs[ci as int].len() == row@.len());
        }
        ci = ci + 1;
    }
}

// ---------------------------------------------------------------------------
// Assembling the key

/// `n` G1 points: the identity, but for the first ones, which are `prefix`.
pub open spec fn prefilled_g1(n: nat, prefix: Seq<Seq<u8>>) -> Seq<Seq<u8>> {
    Seq::new(n, |i: int| if i < prefix.len() { prefix[i] } else { G1_IDENTITY@ })
}

/// `n` copies of the G2 identity.
pub open spec fn identities_g2(n: nat) -> Seq<Seq<u8>> {
    Seq::new(n, |i: int| G2_IDENTITY@)
}

/// The Lagrange coefficients, over a domain of `d` points, of the first `d`
/// G1 powers of tau.
pub open spec fn tau_lagrange_g1(acc: Accumulator, d: nat) -> Seq<[u8; 32]> {
    g1_ifft_values(acc.tau_powers_g1@.take(d as int))
}

/// The same for the G2 powers of tau.
pub open spec fn tau_lagrange_g2(acc: Accumulator, d: nat) -> Seq<[u8; 64]> {
    g2_ifft_values(acc.tau_powers_g2@.take(d as int))
}

/// The same for `alpha` times the powers of tau.
pub open spec fn alpha_lagrange_g1(acc: Accumulator, d: nat) -> Seq<[u8; 32]> {
    g1_ifft_values(acc.alpha_tau_powers_g1@.take(d as int))
}

/// The same for `beta` times the powers of tau.
pub open spec fn beta_lagrange_g1(acc: Accumulator, d: nat) -> Seq<[u8; 32]> {
    g1_ifft_values(acc.beta_tau_powers_g1@.take(d as int))
}

/// A matrix replayed against Lagrange coefficients `lag`, into a table of
/// one point per QAP variable, whose first instance-variable slots start
/// from the coefficients of the domain points after the constraints (the
/// instance-consistency block) when `prefill` is set, and from the identity
/// otherwise.
pub open spec fn table_g1(m: Matrices, rows_of: Seq<Seq<Entry>>, lag: Seq<[u8; 32]>, prefill: bool) -> Seq<Seq<u8>> {
    let nc = m.num_constraints as int;
    let ni = m.num_instance_variables as int;
    let start = if prefill { g1_view(lag).subrange(nc, nc + ni) } else { Seq::empty() };
    matrix_sum_g1(rows_of, lag, prefilled_g1(m.qap_variables() + 1, start), m.num_constraints as nat)
}

/// `A_i(tau)` for every QAP variable `i`.
pub open spec fn a_table(acc: Accumulator, m: Matrices, d: nat) -> Seq<Seq<u8>> {
    table_g1(m, rows(m.a@), tau_lagrange_g1(acc, d), true)
}

/// `C_i(tau)`.
pub open spec fn c_table(acc: Accumulator, m: Matrices, d: nat) -> Seq<Seq<u8>> {
    table_g1(m, rows(m.c@), tau_lagrange_g1(acc, d), false)
}

/// `beta * A_i(tau)`.
pub open spec fn beta_a_table(acc: Accumulator, m: Matrices, d: nat) -> Seq<Seq<u8>> {
    table_g1(m, rows(m.a@), beta_lagrange_g1(acc, d), true)
}

/// `alpha * B_i(tau)`.
pub open spec fn alpha_b_table(acc: Accumulator, m: Matrices, d: nat) -> Seq<Seq<u8>> {
    table_g1(m, rows(m.b@), alpha_lagrange_g1(acc, d), false)
}

/// `B_i(tau)` in G1.
pub open spec fn b_g1_table(acc: Accumulator, m: Matrices, d: nat) -> Seq<Seq<u8>> {
    table_g1(m, rows(m.b@), tau_lagrange_g1(acc, d), false)
}

/// `B_i(tau)` in G2.
pub open spec fn b_g2_table(acc: Accumulator, m: Matrices, d: nat) -> Seq<Seq<u8>> {
    matrix_sum_g2(rows(m.b@), tau_lagrange_g2(acc, d), identities_g2(m.qap_variables() + 1), m.num_constraints as nat)
}

/// `beta * A_i(tau) + alpha * B_i(tau) + C_i(tau)` for every QAP variable.
pub open spec fn numerators(acc: Accumulator, m: Matrices, d: nat) -> Seq<Seq<u8>> {
    Seq::new(
        m.qap_variables() + 1,
        |i: int| g1_sum(g1_sum(beta_a_table(acc, m, d)[i], alpha_b_table(acc, m, d)[i]), c_table(acc, m, d)[i]),
    )
}

/// `tau^i * (tau^d - 1)` in G1 for `i < d - 1`, as `tau^(i + d) - tau^i`.
pub open spec fn h_values(acc: Accumulator, d: nat) -> Seq<Seq<u8>> {
    Seq::new((d - 1) as nat, |i: int| g1_difference(acc.tau_powers_g1@[i + d]@, acc.tau_powers_g1@[i]@))
}

/// `pk` is the proving key built from `acc` for the circuit `m` over a
/// domain of `d` points: the instance variables' numerators as the
/// verifying key's input points and the rest as the L query, the A and B
/// tables as the A and B queries, the H query, `alpha` and `beta` from the
/// accumulator, and `gamma = delta = 1`.
pub open spec fn key_from(acc: Accumulator, m: Matrices, d: nat, pk: ProvingKeyParts) -> bool {
    let ni = m.num_instance_variables as int;
    &&& g1_view(pk.gamma_abc_g1@) == numerators(acc, m, d).take(ni)
    &&& g1_view(pk.l_query@) == numerators(acc, m, d).skip(ni)
    &&& g1_view(pk.a_query@) == a_table(acc, m, d)
    &&& g1_view(pk.b_g1_query@) == b_g1_table(acc, m, d)
    &&& g2_view(pk.b_g2_query@) == b_g2_table(acc, m, d)
    &&& g1_view(pk.h_query@) == h_values(acc, d)
    &&& pk.alpha_g1 == acc.alpha_tau_powers_g1@[0]
    &&& pk.beta_g1 == acc.beta_tau_powers_g1@[0]
    &&& pk.beta_g2 == acc.beta_g2
    &&& pk.gamma_g2@ == G2_GENERATOR@
    &&& pk.delta_g1@ == G1_GENERATOR@
    &&& pk.delta_g2@ == G2_GENERATOR@
}

/// Whether the accumulator has enough powers of tau for a domain of `d`.
pub open spec fn large_enough(acc: Accumulator, d: nat) -> bool {
    acc.tau_powers_g2@.len() >= d && acc.tau_powers_g1@.len() >= 2 * d - 1
}

/// The first `d` points.
fn prefix_g1(v: &Vec<[u8; 32]>, d: usize) -> (r: Vec<[u8; 32]>)
    requires
        d <= v@.len(),
    ensures
        r@ == v@.take(d as int),
{
    let mut r: Vec<[u8; 32]> = Vec::new();
    let mut i: usize = 0;
    while i < d
        invariant
            d <= v@.len(),
            i <= d,
            r@ == v@.take(i as int),
        decreases d - i,
    {
        r.push(v[i]);
        proof { assert(r@ =~= v@.take(i + 1)); }
        i = i + 1;
    }
    r
}

/// The first `d` points.
fn prefix_g2(v: &Vec<[u8; 64]>, d: usize) -> (r: Vec<[u8; 64]>)
    requires
        d <= v@.len(),
    ensures
        r@ == v@.take(d as int),
{
    let mut r: Vec<[u8; 64]> = Vec::new();
    let mut i: usize = 0;
    while i < d
        invariant
            d <= v@.len(),
            i <= d,
            r@ == v@.take(i as int),
        decreases d - i,
    {
        r.push(v[i]);
        proof { assert(r@ =~= v@.take(i + 1)); }
        i = i + 1;
    }
    r
}

/// The Lagrange coefficients of the first `d` points.
fn lagrange_g1(v: &Vec<[u8; 32]>, d: usize) -> (r: Vec<[u8; 32]>)
    requires
        d <= v@.len(),
        fft_size(d as nat),
        all_g1(v@),
    ensures
        r@ == g1_ifft_values(v@.take(d as int)),
        r@.len() == d,
        all_g1(r@),
{
    let p = prefix_g1(v, d);
    proof { assert(all_g1(p@)); }
    g1_ifft(&p)
}

/// The Lagrange coefficients of the first `d` points.
fn lagrange_g2(v: &Vec<[u8; 64]>, d: usize) -> (r: Vec<[u8; 64]>)
    requires
        d <= v@.len(),
        fft_size(d as nat),
        all_g2(v@),
    ensures
        r@ == g2_ifft_values(v@.take(d as int)),
        r@.len() == d,
        all_g2(r@),
{
    let p = prefix_g2(v, d);
    proof { assert(all_g2(p@)); }
    g2_ifft(&p)
}

/// `n` identities, the first `count` of them replaced by `src[from..]`.
fn prefilled_table(n: usize, src: &Vec<[u8; 32]>, from: usize, count: usize) -> (r: Vec<[u8; 32]>)
    requires
        count <= n,
        from + count <= src@.len(),
        all_g1(src@),
    ensures
        r@.len() == n,
        all_g1(r@),
        g1_view(r@) == prefilled_g1(n as nat, g1_view(src@).subrange(from as int, from + count)),
{
    let zero = g1_zero();
    let mut r = filled32(zero, n);
    let mut i: usize = 0;
    while i < count
        invariant
            count <= n,
            from + count <= src@.len(),
            all_g1(src@),
            g1_decodes(zero@),
            zero@ == G1_IDENTITY@,
            from + count <= src.len(),
            i <= count,
            r@.len() == n,
            forall|j: int| 0 <= j < i ==> #[trigger] r@[j] == src@[from + j],
            forall|j: int| i <= j < n ==> #[trigger] r@[j] == zero,
        decreases count - i,
    {
        r.set(i, src[from + i]);
        i = i + 1;
    }
    proof {
        assert forall|j: int| 0 <= j < r@.len() implies g1_decodes(#[trigger] r@[j]@) by {
            if j < count {
                assert(r@[j] == src@[from + j]);
            }
        }
        assert(g1_view(r@) =~= prefilled_g1(n as nat, g1_view(src@).subrange(from as int, from + count)));
    }
    r
}

/// `n` copies of the G2 identity.
fn identity_table_g2(n: usize) -> (r: Vec<[u8; 64]>)
    ensures
        r@.len() == n,
        all_g2(r@),
        g2_view(r@) == identities_g2(n as nat),
{
    let zero = g2_zero();
    let r = filled64(zero, n);
    proof {
        assert forall|j: int| 0 <= j < r@.len() implies g2_decodes(#[trigger] r@[j]@) by {
            assert(r@[j] == zero);
        }
        assert(g2_view(r@) =~= identities_g2(n as nat));
    }
    r
}

/// One G1 table: `src` prefilled or not, then the matrix replayed.
fn build_table_g1(m: &Matrices, matrix: &Vec<Vec<Entry>>, lag: &Vec<[u8; 32]>, prefill: bool) -> (r: Vec<[u8; 32]>)
    requires
        m.wf(),
        matrix@ == m.a@ || matrix@ == m.b@ || matrix@ == m.c@,
        m.num_constraints + m.num_instance_variables <= lag@.len(),
        all_g1(lag@),
    ensures
        r@.len() == m.qap_variables() + 1,
        all_g1(r@),
        g1_view(r@) == table_g1(*m, rows(matrix@), lag@, prefill),
{
    let n = m.num_instance_variables - 1 + m.num_witness_variables + 1;
    let count = if prefill { m.num_instance_variables } else { 0 };
    let mut t = prefilled_table(n, lag, m.num_constraints, count);
    proof {
        if !prefill {
            assert(g1_view(lag@).subrange(m.num_constraints as int, m.num_constraints as int) =~= Seq::<Seq<u8>>::empty());
        }
        assert(rows(matrix@).len() == matrix@.len());
        assert forall|i: int, j: int| 0 <= i < matrix@.len() && 0 <= j < matrix@[i]@.len()
            implies (#[trigger] matrix@[i]@[j]).1 < t@.len() by {
            assert(rows(matrix@)[i] == matrix@[i]@);
            assert(rows(matrix@)[i][j] == matrix@[i]@[j]);
        }
    }
    accumulate_matrix_g1(matrix, lag, &mut t);
    t
}

/// `beta * A_i + alpha * B_i + C_i`, pointwise.
fn sum3(x: &Vec<[u8; 32]>, y: &Vec<[u8; 32]>, z: &Vec<[u8; 32]>) -> (r: Vec<[u8; 32]>)
    requires
        x@.len() == y@.len(),
        y@.len() == z@.len(),
        all_g1(x@),
        all_g1(y@),
        all_g1(z@),
    ensures
        r@.len() == x@.len(),
        all_g1(r@),
        forall|i: int| 0 <= i < r@.len() ==> (#[trigger] r@[i])@ == g1_sum(g1_sum(x@[i]@, y@[i]@), z@[i]@),
{
    let mut r: Vec<[u8; 32]> = Vec::new();
    let mut i: usize = 0;
    while i < x.len()
        invariant
            x@.len() == y@.len(),
            y@.len() == z@.len(),
            all_g1(x@),
            all_g1(y@),
            all_g1(z@),
            i <= x@.len(),
            r@.len() == i,
            forall|j: int| 0 <= j < i ==> (#[trigger] r@[j])@ == g1_sum(g1_sum(x@[j]@, y@[j]@), z@[j]@)
                && g1_decodes(r@[j]@),
        decreases x@.len() - i,
    {
        let xy = g1_add(&x[i], &y[i]);
        r.push(g1_add(&xy, &z[i]));
        i = i + 1;
    }
    r
}

/// `v[from..to]`.
fn slice_g1(v: &Vec<[u8; 32]>, from: usize, to: usize) -> (r: Vec<[u8; 32]>)
    requires
        from <= to <= v@.len(),
    ensures
        r@ == v@.subrange(from as int, to as int),
{
    let mut r: Vec<[u8; 32]> = Vec::new();
    let mut i: usize = from;
    while i < to
        invariant
            from <= i <= to <= v@.len(),
            r@ == v@.subrange(from as int, i as int),
        decreases to - i,
    {
        r.push(v[i]);
        proof { assert(r@ =~= v@.subrange(from as int, i + 1)); }
        i = i + 1;
    }
    r
}

/// The H query: `tau^(i + d) - tau^i` in G1 for `i < d - 1`.
fn h_query_for(tau_powers_g1: &Vec<[u8; 32]>, d: usize) -> (r: Vec<[u8; 32]>)
    requires
        d >= 1,
        tau_powers_g1@.len() >= 2 * d - 1,
        all_g1(tau_powers_g1@),
    ensures
        r@.len() == d - 1,
        all_g1(r@),
        forall|i: int| 0 <= i < d - 1 ==> (#[trigger] r@[i])@ == g1_difference(tau_powers_g1@[i + d]@, tau_powers_g1@[i]@),
{
    let mut r: Vec<[u8; 32]> = Vec::new();
    let mut i: usize = 0;
    while i + 1 < d
        invariant
            d >= 1,
            tau_powers_g1@.len() >= 2 * d - 1,
            all_g1(tau_powers_g1@),
            2 * d - 1 <= tau_powers_g1.len(),
            i <= d - 1,
            r@.len() == i,
            forall|j: int| 0 <= j < i ==> (#[trigger] r@[j])@ == g1_difference(tau_powers_g1@[j + d]@, tau_powers_g1@[j]@)
                && g1_decodes(r@[j]@),
        decreases d - i,
    {
        r.push(g1_sub(&tau_powers_g1[i + d], &tau_powers_g1[i]));
        i = i + 1;
    }
    r
}

/// The domain size is a size the field's FFT supports, and at most 2^28.
proof fn lemma_domain_fits(n: nat, d: nat)
    requires
        domain_size_for(n, d),
    ensures
        fft_size(d),
        d >= 1,
        d <= 0x10000000,
{
    vstd::arithmetic::power2::lemma2_to64();
    if d == 0 {
        assert(!is_power_of_two(0));
    }
}

/// Assembles a Phase 2 starting point for the circuit with R1CS matrices
/// `m` from a Phase 1 accumulator, with `gamma = delta = 1`. Refused when
/// no radix-2 domain of the scalar field holds the circuit's constraints
/// and instance variables, or when the accumulator has fewer powers of tau
/// than that domain needs (`needed` is the domain size, `have` the number
/// of G2 powers).
pub fn from_phase1(acc: &Accumulator, m: &Matrices) -> (r: Result<ProvingKeyParts, BridgeError>)
    requires
        acc.wf(),
        m.wf(),
        forall|d: nat| #[trigger] domain_size_for((m.num_constraints + m.num_instance_variables) as nat, d)
            && large_enough(*acc, d) ==> acc.alpha_tau_powers_g1@.len() >= d && acc.beta_tau_powers_g1@.len() >= d,
    ensures
        (forall|d: nat| !#[trigger] domain_size_for((m.num_constraints + m.num_instance_variables) as nat, d))
            ==> r == Err::<ProvingKeyParts, BridgeError>(BridgeError::DomainTooSmall),
        forall|d: nat| #[trigger] domain_size_for((m.num_constraints + m.num_instance_variables) as nat, d) ==> {
            if large_enough(*acc, d) {
                r matches Ok(pk) && key_from(*acc, *m, d, pk) && pk.wf()
            } else {
                r == Err::<ProvingKeyParts, BridgeError>(
                    BridgeError::AccumulatorTooSmall { needed: d as usize, have: acc.tau_powers_g2@.len() as usize },
                )
            }
        },
{
    let n = m.num_constraints + m.num_instance_variables;
    let d = match compute_size_of_domain(n) {
        Some(d) => d,
        None => return Err(BridgeError::DomainTooSmall),
    };
    proof {
        lemma_domain_fits(n as nat, d as nat);
        lemma_domain_unique(n as nat, d as nat);
        assert(domain_size_for((m.num_constraints + m.num_instance_variables) as nat, d as nat));
    }
    if let Err(e) = crate::ceremony::check_accumulator_size(acc.tau_powers_g1.len(), acc.tau_powers_g2.len(), d) {
        return Err(e);
    }
    proof {
        assert(large_enough(*acc, d as nat));
        assert(domain_size_for((m.num_constraints + m.num_instance_variables) as nat, d as nat));
    }
    let tl1 = lagrange_g1(&acc.tau_powers_g1, d);
    let tl2 = lagrange_g2(&acc.tau_powers_g2, d);
    let al = lagrange_g1(&acc.alpha_tau_powers_g1, d);
    let bl = lagrange_g1(&acc.beta_tau_powers_g1, d);
    let a_lagrange = build_table_g1(m, &m.a, &tl1, true);
    let b_lagrange_g1 = build_table_g1(m, &m.b, &tl1, false);
    let c_lagrange = build_table_g1(m, &m.c, &tl1, false);
    let beta_a_lagrange = build_table_g1(m, &m.a, &bl, true);
    let alpha_b_lagrange = build_table_g1(m, &m.b, &al, false);
    let q1 = m.num_instance_variables - 1 + m.num_witness_variables + 1;
    let mut b_lagrange_g2 = identity_table_g2(q1);
    proof {
        assert forall|i: int, j: int| 0 <= i < m.b@.len() && 0 <= j < m.b@[i]@.len()
            implies (#[trigger] m.b@[i]@[j]).1 < b_lagrange_g2@.len() by {
            assert(rows(m.b@)[i] == m.b@[i]@);
            assert(rows(m.b@)[i][j] == m.b@[i]@[j]);
        }
    }
    accumulate_matrix_g2(&m.b, &tl2, &mut b_lagrange_g2);
    let ext = sum3(&beta_a_lagrange, &alpha_b_lagrange, &c_lagrange);
    let ni = m.num_instance_variables;
    let gamma_abc_g1 = slice_g1(&ext, 0, ni);
    let l_query = slice_g1(&ext, ni, ext.len());
    let h_query = h_query_for(&acc.tau_powers_g1, d);
    let pk = ProvingKeyParts {
        alpha_g1: acc.alpha_tau_powers_g1[0],
        beta_g2: acc.beta_g2,
        gamma_g2: g2_generator(),
        delta_g2: g2_generator(),
        gamma_abc_g1,
        beta_g1: acc.beta_tau_powers_g1[0],
        delta_g1: g1_generator(),
        a_query: a_lagrange,
        b_g1_query: b_lagrange_g1,
        b_g2_query: b_lagrange_g2,
        h_query,
        l_query,
    };
    proof {
        let dn = d as nat;
        assert(g1_view(ext@) =~= numerators(*acc, *m, dn));
        assert(g1_view(pk.gamma_abc_g1@) =~= numerators(*acc, *m, dn).take(ni as int));
        assert(g1_view(pk.l_query@) =~= numerators(*acc, *m, dn).skip(ni as int));
        assert(g1_view(pk.h_query@) =~= h_values(*acc, dn));
        assert(all_g1(pk.gamma_abc_g1@));
        assert(all_g1(pk.l_query@));
        assert(g1_decodes(acc.alpha_tau_powers_g1@[0]@));
        assert(g1_decodes(acc.beta_tau_powers_g1@[0]@));
        assert(key_from(*acc, *m, dn, pk));
    }
    Ok(pk)
}

/// The Lagrange tables `from_phase1` builds on the way, for checking
/// against a direct computation: `A_i(tau)`, `C_i(tau)`, `beta * A_i(tau)`
/// and `alpha * B_i(tau)` for every QAP variable, with the number of
/// constraints and of instance variables. Refused only when no radix-2
/// domain holds the circuit; the accumulator's size is not checked.
pub fn debug_lagrange_tables(acc: &Accumulator, m: &Matrices)
    -> (r: Result<(Vec<[u8; 32]>, Vec<[u8; 32]>, Vec<[u8; 32]>, Vec<[u8; 32]>, usize, usize), BridgeError>)
    requires
        acc.wf(),
        m.wf(),
        forall|d: nat| #[trigger] domain_size_for((m.num_constraints + m.num_instance_variables) as nat, d)
            ==> acc.tau_powers_g1@.len() >= d && acc.alpha_tau_powers_g1@.len() >= d
                && acc.beta_tau_powers_g1@.len() >= d,
    ensures
        (forall|d: nat| !#[trigger] domain_size_for((m.num_constraints + m.num_instance_variables) as nat, d))
            ==> r is Err && r->Err_0 == BridgeError::DomainTooSmall,
        forall|d: nat| #[trigger] domain_size_for((m.num_constraints + m.num_instance_variables) as nat, d) ==> {
            r matches Ok((a, c, beta_a, alpha_b, nc, ni)) && {
                &&& g1_view(a@) == a_table(*acc, *m, d)
                &&& g1_view(c@) == c_table(*acc, *m, d)
                &&& g1_view(beta_a@) == beta_a_table(*acc, *m, d)
                &&& g1_view(alpha_b@) == alpha_b_table(*acc, *m, d)
                &&& nc == m.num_constraints
                &&& ni == m.num_instance_variables
            }
        },
{
    let n = m.num_constraints + m.num_instance_variables;
    let d = match compute_size_of_domain(n) {
        Some(d) => d,
        None => return Err(BridgeError::DomainTooSmall),
    };
    proof {
        lemma_domain_fits(n as nat, d as nat);
        lemma_domain_unique(n as nat, d as nat);
        assert(domain_size_for((m.num_constraints + m.num_instance_variables) as nat, d as nat));
    }
    let tl1 = lagrange_g1(&acc.tau_powers_g1, d);
    let al = lagrange_g1(&acc.alpha_tau_powers_g1, d);
    let bl = lagrange_g1(&acc.beta_tau_powers_g1, d);
    let a_lagrange = build_table_g1(m, &m.a, &tl1, true);
    let c_lagrange = build_table_g1(m, &m.c, &tl1, false);
    let beta_a_lagrange = build_table_g1(m, &m.a, &bl, true);
    let alpha_b_lagrange = build_table_g1(m, &m.b, &al, false);
    Ok((a_lagrange, c_lagrange, beta_a_lagrange, alpha_b_lagrange, m.num_constraints, m.num_instance_variables))
}

/// The radix-2 domain size for `n` is unique.
proof fn lemma_domain_unique(n: nat, d: nat)
    requires
        domain_size_for(n, d),
    ensures
        forall|e: nat| #[trigger] domain_size_for(n, e) ==> e == d,
{
    assert forall|e: nat| #[trigger] domain_size_for(n, e) implies e == d by {
        assert(is_power_of_two(e) && n <= e);
        assert(is_power_of_two(d) && n <= d);
    }
}

// ---------------------------------------------------------------------------
// The circuit's fingerprint

/// The SHA-512 digest of `bytes`.
pub uninterp spec fn sha512(bytes: Seq<u8>) -> Seq<u8>;

/// Calls `Sha512::digest` over `bytes`; the digest has 64 bytes.
#[verifier::external_body]
fn sha512_digest(bytes: &[u8]) -> (d: [u8; 64])
    ensures
        d@ == sha512(bytes@),
{
    let mut out = [0u8; 64];
    out.copy_from_slice(&Sha512::digest(bytes));
    out
}

/// The first `k` entries of a row: each variable index as 8 little-endian
/// bytes, then the coefficient's 32 bytes.
pub open spec fn entries_encoding(row: Seq<Entry>, k: nat) -> Seq<u8>
    decreases k,
{
    if k == 0 || k > row.len() {
        Seq::empty()
    } else {
        entries_encoding(row, (k - 1) as nat) + u64_le(row[k - 1].1 as u64) + row[k - 1].0@
    }
}

/// The first `k` rows of a matrix: each row's length as 8 little-endian
/// bytes, then its entries.
pub open spec fn rows_encoding(m: Seq<Seq<Entry>>, k: nat) -> Seq<u8>
    decreases k,
{
    if k == 0 || k > m.len() {
        Seq::empty()
    } else {
        rows_encoding(m, (k - 1) as nat) + u64_le(m[k - 1].len() as u64) + entries_encoding(m[k - 1], m[k - 1].len())
    }
}

/// A matrix: its number of rows as 8 little-endian bytes, then its rows.
pub open spec fn matrix_encoding(m: Seq<Seq<Entry>>) -> Seq<u8> {
    u64_le(m.len() as u64) + rows_encoding(m, m.len())
}

/// What the fingerprint hashes: the A, B and C matrices in that order.
pub open spec fn matrices_encoding(m: Matrices) -> Seq<u8> {
    matrix_encoding(rows(m.a@)) + matrix_encoding(rows(m.b@)) + matrix_encoding(rows(m.c@))
}

/// Appends a matrix's encoding.
fn push_matrix(out: &mut Vec<u8>, m: &Vec<Vec<Entry>>)
    ensures
        final(out)@ == old(out)@ + matrix_encoding(rows(m@)),
{
    let ghost rs = rows(m@);
    push_u64(out, m.len() as u64);
    let ghost head = out@;
    let mut i: usize = 0;
    while i < m.len()
        invariant
            rs == rows(m@),
            i <= m@.len(),
            out@ == head + rows_encoding(rs, i as nat),
        decreases m@.len() - i,
    {
        let row = &m[i];
        proof { assert(row@ == rs[i as int]); }
        push_u64(out, row.len() as u64);
        let ghost mid = out@;
        let mut j: usize = 0;
        while j < row.len()
            invariant
                row@ == rs[i as int],
                i < m@.len(),
                j <= row@.len(),
                out@ == mid + entries_encoding(row@, j as nat),
            decreases row@.len() - j,
        {
            let (coeff, index) = row[j];
            push_u64(out, index as u64);
            push_bytes(out, &coeff);
            proof {
                assert(out@ =~= mid + entries_encoding(row@, (j + 1) as nat));
            }
            j = j + 1;
        }
        proof {
            assert(out@ =~= head + rows_encoding(rs, (i + 1) as nat));
        }
        i = i + 1;
    }
    proof {
        assert(out@ =~= old(out)@ + matrix_encoding(rows(m@)));
    }
}

/// The circuit's fingerprint: SHA-512 of its A, B and C matrices, each as
/// its number of rows, then every row as its length and its entries (the
/// variable index as 8 little-endian bytes and the coefficient's 32
/// bytes). Every ceremony participant confirms this hash before
/// contributing; matching counts alone would not show the same circuit.
pub fn circuit_fingerprint(m: &Matrices) -> (d: [u8; 64])
    ensures
        d@ == sha512(matrices_encoding(*m)),
{
    let mut bytes: Vec<u8> = Vec::new();
    push_matrix(&mut bytes, &m.a);
    push_matrix(&mut bytes, &m.b);
    push_matrix(&mut bytes, &m.c);
    proof { assert(bytes@ =~= matrices_encoding(*m)); }
    sha512_digest(bytes.as_slice())
}

} // verus!

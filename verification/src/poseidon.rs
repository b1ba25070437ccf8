//! Poseidon parameters for BN254 (the circomlib/iden3 `bn254_x5` constants,
//! x^5 S-box) as published by the `light-poseidon` crate, reshaped into the
//! round-constant layout of `ark-crypto-primitives` (`ark[round][state]`,
//! capacity 1), and the two Poseidon hashes built on them: a two-to-one
//! compression (state width 3) for Merkle nodes, and a three-input hash
//! (state width 4) for leaf commitments and nullifiers.

use vstd::prelude::*;
use crate::field::FieldElement;
use ark_bn254::Fr;
use ark_crypto_primitives::crh::poseidon::{TwoToOneCRH, CRH};
use ark_crypto_primitives::crh::{CRHScheme, TwoToOneCRHScheme};
use ark_crypto_primitives::sponge::poseidon::PoseidonConfig;
use ark_ff::{BigInteger, PrimeField};

verus! {

/// The values of a vector of field elements.
pub open spec fn values(v: Seq<FieldElement>) -> Seq<nat> {
    v.map_values(|x: FieldElement| x.value())
}

/// All elements are canonical.
pub open spec fn all_wf(v: Seq<FieldElement>) -> bool {
    forall|i: int| 0 <= i < v.len() ==> (#[trigger] v[i]).wf()
}

/// Parameters as `light-poseidon` publishes them: round constants flat.
pub struct LightParamsView {
    pub ark: Seq<nat>,
    pub mds: Seq<Seq<nat>>,
    pub full_rounds: nat,
    pub partial_rounds: nat,
    pub width: nat,
    pub alpha: nat,
}

/// Parameters in the layout of `ark-crypto-primitives`' `PoseidonConfig`.
pub struct PoseidonParamsView {
    pub full_rounds: nat,
    pub partial_rounds: nat,
    pub alpha: nat,
    pub ark: Seq<Seq<nat>>,
    pub mds: Seq<Seq<nat>>,
    pub rate: nat,
    pub capacity: nat,
}

/// What `light_poseidon::parameters::bn254_x5::get_poseidon_parameters` returns for a width.
pub uninterp spec fn light_poseidon_bn254_x5(width: u8) -> Option<LightParamsView>;

/// The two-to-one Poseidon compression of `ark-crypto-primitives` (a sponge
/// absorbing `left` then `right`, squeezing one element) under `params`.
pub uninterp spec fn poseidon_compress(params: PoseidonParamsView, left: nat, right: nat) -> nat;

/// The Poseidon CRH of `ark-crypto-primitives` (a sponge absorbing the
/// inputs in order, squeezing one element) under `params`.
pub uninterp spec fn poseidon_hash(params: PoseidonParamsView, inputs: Seq<nat>) -> nat;

/// `light-poseidon`'s parameters, with field elements in canonical form.
pub struct LightParams {
    pub ark: Vec<FieldElement>,
    pub mds: Vec<Vec<FieldElement>>,
    pub full_rounds: usize,
    pub partial_rounds: usize,
    pub width: usize,
    pub alpha: u64,
}

impl View for LightParams {
    type V = LightParamsView;

    open spec fn view(&self) -> LightParamsView {
        LightParamsView {
            ark: values(self.ark@),
            mds: self.mds@.map_values(|row: Vec<FieldElement>| values(row@)),
            full_rounds: self.full_rounds as nat,
            partial_rounds: self.partial_rounds as nat,
            width: self.width as nat,
            alpha: self.alpha as nat,
        }
    }
}

/// Poseidon parameters in `PoseidonConfig`'s layout, with field elements in canonical form.
pub struct PoseidonParams {
    pub full_rounds: usize,
    pub partial_rounds: usize,
    pub alpha: u64,
    pub ark: Vec<Vec<FieldElement>>,
    pub mds: Vec<Vec<FieldElement>>,
    pub rate: usize,
    pub capacity: usize,
}

impl View for PoseidonParams {
    type V = PoseidonParamsView;

    open spec fn view(&self) -> PoseidonParamsView {
        PoseidonParamsView {
            full_rounds: self.full_rounds as nat,
            partial_rounds: self.partial_rounds as nat,
            alpha: self.alpha as nat,
            ark: self.ark@.map_values(|row: Vec<FieldElement>| values(row@)),
            mds: self.mds@.map_values(|row: Vec<FieldElement>| values(row@)),
            rate: self.rate as nat,
            capacity: self.capacity as nat,
        }
    }
}

impl PoseidonParams {
    /// The shape `PoseidonConfig::new` asserts (one row of round constants
    /// per round, each as wide as the state; a square MDS matrix as wide as
    /// the state), a non-zero rate, and canonical elements.
    pub open spec fn well_shaped(&self) -> bool {
        let w = self.rate + self.capacity;
        &&& self.rate >= 1
        &&& self.ark@.len() == self.full_rounds + self.partial_rounds
        &&& forall|i: int| 0 <= i < self.ark@.len() ==> (#[trigger] self.ark@[i])@.len() == w && all_wf(self.ark@[i]@)
        &&& self.mds@.len() == w
        &&& forall|i: int| 0 <= i < self.mds@.len() ==> (#[trigger] self.mds@[i])@.len() == w && all_wf(self.mds@[i]@)
    }
}

/// Calls `light_poseidon::parameters::bn254_x5::get_poseidon_parameters::<Fr>(width)`.
/// Widths 3 and 4 are among those the crate defines (2 to 13): 8 full rounds,
/// 57 and 56 partial rounds, exponent 5, one round constant per state
/// element per round, and a square MDS matrix of the width.
#[verifier::external_body]
fn light_poseidon_parameters(width: u8) -> (r: Option<LightParams>)
    ensures
        match r {
            Some(p) => light_poseidon_bn254_x5(width) == Some(p@)
                && all_wf(p.ark@)
                && (forall|i: int| 0 <= i < p.mds@.len() ==> all_wf((#[trigger] p.mds@[i])@)),
            None => light_poseidon_bn254_x5(width) is None,
        },
        (width == 3 || width == 4) ==> r is Some,
        r matches Some(p) ==> ((width == 3 || width == 4) ==> {
            &&& p.width == width
            &&& p.full_rounds == 8
            &&& p.partial_rounds == (if width == 3 { 57usize } else { 56usize })
            &&& p.alpha == 5
            &&& p.ark@.len() == (p.full_rounds + p.partial_rounds) * (width as nat)
            &&& p.mds@.len() == width
            &&& forall|i: int| 0 <= i < p.mds@.len() ==> (#[trigger] p.mds@[i])@.len() == width
        }),
{
    let fe = |x: &Fr| FieldElement { bytes: x.into_bigint().to_bytes_le().try_into().unwrap() };
    match light_poseidon::parameters::bn254_x5::get_poseidon_parameters::<Fr>(width) {
        Ok(p) => Some(LightParams {
            ark: p.ark.iter().map(fe).collect(),
            mds: p.mds.iter().map(|row| row.iter().map(fe).collect()).collect(),
            full_rounds: p.full_rounds,
            partial_rounds: p.partial_rounds,
            width: p.width,
            alpha: p.alpha,
        }),
        Err(_) => None,
    }
}

/// Calls `TwoToOneCRH::<Fr>::compress` with the given parameters (which
/// cannot fail: it absorbs both inputs and squeezes one element).
#[verifier::external_body]
pub(crate) fn poseidon_two_to_one(params: &PoseidonParams, left: &FieldElement, right: &FieldElement) -> (r: FieldElement)
    requires
        params.well_shaped(),
        left.wf(),
        right.wf(),
    ensures
        r.wf(),
        r.value() == poseidon_compress(params@, left.value(), right.value()),
{
    let fr = |x: &FieldElement| Fr::from_le_bytes_mod_order(&x.bytes);
    let rows = |m: &Vec<Vec<FieldElement>>| m.iter().map(|r| r.iter().map(fr).collect()).collect();
    let cfg = PoseidonConfig {
        full_rounds: params.full_rounds, partial_rounds: params.partial_rounds, alpha: params.alpha,
        ark: rows(&params.ark), mds: rows(&params.mds), rate: params.rate, capacity: params.capacity,
    };
    let out = TwoToOneCRH::<Fr>::compress(&cfg, fr(left), fr(right)).expect("compression does not fail");
    let mut bytes = [0u8; 32];
    bytes.copy_from_slice(&out.into_bigint().to_bytes_le());
    FieldElement { bytes }
}

/// Calls `CRH::<Fr>::evaluate` with the given parameters and inputs (which
/// cannot fail: it absorbs the inputs and squeezes one element).
#[verifier::external_body]
pub(crate) fn poseidon_crh(params: &PoseidonParams, inputs: &Vec<FieldElement>) -> (r: FieldElement)
    requires
        params.well_shaped(),
        all_wf(inputs@),
    ensures
        r.wf(),
        r.value() == poseidon_hash(params@, values(inputs@)),
{
    let fr = |x: &FieldElement| Fr::from_le_bytes_mod_order(&x.bytes);
    let rows = |m: &Vec<Vec<FieldElement>>| m.iter().map(|r| r.iter().map(fr).collect()).collect();
    let cfg = PoseidonConfig {
        full_rounds: params.full_rounds, partial_rounds: params.partial_rounds, alpha: params.alpha,
        ark: rows(&params.ark), mds: rows(&params.mds), rate: params.rate, capacity: params.capacity,
    };
    let out = CRH::<Fr>::evaluate(&cfg, inputs.iter().map(fr).collect::<Vec<Fr>>()).expect("hashing does not fail");
    let mut bytes = [0u8; 32];
    bytes.copy_from_slice(&out.into_bigint().to_bytes_le());
    FieldElement { bytes }
}

/// The layout of `PoseidonConfig` from `light-poseidon`'s flat parameters:
/// round constants cut into rows of the state width, rate `width - 1`,
/// capacity 1.
pub open spec fn reshape(p: LightParamsView, w: nat) -> PoseidonParamsView {
    PoseidonParamsView {
        full_rounds: p.full_rounds,
        partial_rounds: p.partial_rounds,
        alpha: p.alpha,
        ark: Seq::new(p.ark.len() / w, |r: int| p.ark.subrange(r * w, r * w + w)),
        mds: p.mds,
        rate: (w - 1) as nat,
        capacity: 1,
    }
}

/// The parameters of width `w` (3 or 4).
pub open spec fn params_for_width(w: u8) -> PoseidonParamsView {
    reshape(light_poseidon_bn254_x5(w)->0, w as nat)
}

/// Two-to-one compression parameters (Merkle nodes): width 3.
pub open spec fn node_params() -> PoseidonParamsView {
    params_for_width(3)
}

/// Three-input hash parameters (leaf commitments, nullifiers): width 4.
pub open spec fn three_input_params() -> PoseidonParamsView {
    params_for_width(4)
}

fn config_for_width(width: u8) -> (c: PoseidonParams)
    requires
        width == 3 || width == 4,
    ensures
        c.well_shaped(),
        c@ == params_for_width(width),
{
    let p = match light_poseidon_parameters(width) {
        Some(p) => p,
        None => {
            proof { assert(false); }
            return PoseidonParams {
                full_rounds: 0, partial_rounds: 0, alpha: 0, ark: Vec::new(), mds: Vec::new(), rate: 0, capacity: 0,
            };
        },
    };
    let w = width as usize;
    let rows_n = p.ark.len() / w;
    proof {
        assert(rows_n * w == p.ark@.len()) by (nonlinear_arith)
            requires
                rows_n == p.ark@.len() / (w as nat),
                p.ark@.len() == (p.full_rounds + p.partial_rounds) * w,
                w > 0,
        ;
        assert(rows_n == p.full_rounds + p.partial_rounds) by (nonlinear_arith)
            requires
                rows_n * w == (p.full_rounds + p.partial_rounds) * w,
                w > 0,
        ;
    }
    let mut ark: Vec<Vec<FieldElement>> = Vec::new();
    let mut r: usize = 0;
    while r < rows_n
        invariant
            w == width as usize,
            w == 3 || w == 4,
            rows_n * w == p.ark@.len(),
            all_wf(p.ark@),
            r <= rows_n,
            ark@.len() == r,
            forall|k: int| 0 <= k < r ==> values((#[trigger] ark@[k])@) == values(p.ark@).subrange(k * w, k * w + w),
            forall|k: int| 0 <= k < r ==> (#[trigger] ark@[k])@.len() == w && all_wf(ark@[k]@),
        decreases rows_n - r,
    {
        let mut row: Vec<FieldElement> = Vec::new();
        let mut j: usize = 0;
        proof {
            assert(r * w + w <= rows_n * w) by (nonlinear_arith)
                requires r < rows_n, w > 0;
        }
        let ghost alen = p.ark@.len();
        let len = p.ark.len();
        let base = r * w;
        while j < w
            invariant
                w == 3 || w == 4,
                r < rows_n,
                r * w + w <= p.ark@.len(),
                base == r * w,
                len == p.ark@.len(),
                all_wf(p.ark@),
                j <= w,
                row@.len() == j,
                values(row@) == values(p.ark@).subrange(r * w, r * w + j),
                all_wf(row@),
            decreases w - j,
        {
            row.push(p.ark[base + j]);
            j = j + 1;
            proof {
                assert(values(row@) =~= values(p.ark@).subrange(r * w, r * w + j));
            }
        }
        ark.push(row);
        r = r + 1;
    }
    let params = PoseidonParams {
        full_rounds: p.full_rounds,
        partial_rounds: p.partial_rounds,
        alpha: p.alpha,
        ark,
        mds: p.mds,
        rate: w - 1,
        capacity: 1,
    };
    proof {
        let spec = params_for_width(width);
        assert(light_poseidon_bn254_x5(width)->0 == p@);
        assert(params@.ark =~= spec.ark) by {
            assert forall|k: int| 0 <= k < params@.ark.len() implies params@.ark[k] == spec.ark[k] by {
                assert(values(p.ark@) == p@.ark);
            }
        }
        assert(params@ == spec);
    }
    params
}

/// Two-to-one compression parameters for Merkle nodes (state width 3).
pub fn merkle_node_config() -> (c: PoseidonParams)
    ensures
        c.well_shaped(),
        c@ == node_params(),
        c.rate == 2,
        c.capacity == 1,
{
    config_for_width(3)
}

/// Three-input hash parameters for leaf commitments and nullifiers (state width 4).
pub fn three_input_config() -> (c: PoseidonParams)
    ensures
        c.well_shaped(),
        c@ == three_input_params(),
        c.rate == 3,
        c.capacity == 1,
{
    config_for_width(4)
}

} // verus!

//! Two-party private set intersection (DH-PSI) over the Ristretto group:
//! checking whether an indicator is in someone else's private list without
//! either side revealing its list.
//!
//! 1. The Holder picks a secret scalar `b` and sends `{ b * H(s) }` for its
//!    set, shuffled (`blind_set`).
//! 2. The Querier picks a fresh secret `a` and sends `a * H(x)` (`blind_query`).
//! 3. The Holder answers `b * (a * H(x))` (`respond_to_query`).
//! 4. The Querier removes `a` and looks the result up in the blinded set
//!    (`finish_query`).
//!
//! Semi-honest security only; the set size is not hidden; two Queriers of
//! the same Holder key who query the same item get the same unblinded value;
//! guessable items can be enumerated. `H` is `RistrettoPoint::hash_from_bytes`
//! with SHA-512 over the normalized indicator.
//!
//! Points travel as their 32-byte compressed encoding and scalars are held
//! as their 32 canonical bytes.

use vstd::prelude::*;
use vstd::utf8::encode_utf8;
use curve25519_dalek::ristretto::{CompressedRistretto, RistrettoPoint};
use curve25519_dalek::scalar::Scalar;
use rand::rngs::OsRng;
use rand::RngCore;
use sha2::Sha512;
use crate::indicator::normalize_indicator;
use crate::text::{lowercase_of, trimmed, make_string};
use crate::field::le_value;

verus! {

/// A peer sent bytes that do not decode to a valid Ristretto point.
#[derive(Debug, Clone, Copy, PartialEq, Eq, Structural)]
pub enum PsiError {
    InvalidPoint,
}

impl PsiError {
    /// The message shown for this error.
    pub fn to_string(&self) -> (s: String)
        ensures
            s@ == "received bytes do not decode to a valid point"@,
    {
        make_string("received bytes do not decode to a valid point")
    }
}

/// A compressed Ristretto point, as sent on the wire.
#[derive(Debug, Clone, Copy, PartialEq, Eq)]
pub struct CompressedPoint(pub [u8; 32]);

impl View for CompressedPoint {
    type V = Seq<u8>;

    open spec fn view(&self) -> Seq<u8> {
        self.0@
    }
}

/// The compressed point `RistrettoPoint::hash_from_bytes::<Sha512>` gives
/// for `input`.
pub uninterp spec fn ristretto_hash(input: Seq<u8>) -> Seq<u8>;

/// Whether `CompressedRistretto::decompress` accepts the bytes.
pub uninterp spec fn point_decodes(point: Seq<u8>) -> bool;

/// The compressed product of a scalar (by its bytes, reduced) and a point
/// (by its compressed bytes).
pub uninterp spec fn ristretto_mul(scalar: Seq<u8>, point: Seq<u8>) -> Seq<u8>;

/// What `Scalar::invert` gives for a scalar, by its bytes.
pub uninterp spec fn scalar_inverse(scalar: Seq<u8>) -> Seq<u8>;

/// Calls `RistrettoPoint::hash_from_bytes::<Sha512>` and compresses the
/// point; a compressed point always decompresses again.
#[verifier::external_body]
fn hash_to_group(input: &[u8]) -> (p: CompressedPoint)
    ensures
        p@ == ristretto_hash(input@),
        point_decodes(p@),
{
    CompressedPoint(RistrettoPoint::hash_from_bytes::<Sha512>(input).compress().to_bytes())
}

/// Decompresses `point` (`None` where `CompressedRistretto::decompress`
/// refuses it), multiplies it by the scalar and compresses the product,
/// which decompresses again.
#[verifier::external_body]
fn point_mul(scalar: &[u8; 32], point: &CompressedPoint) -> (r: Option<CompressedPoint>)
    ensures
        r is Some <==> point_decodes(point@),
        r matches Some(q) ==> q@ == ristretto_mul(scalar@, point@) && point_decodes(q@),
{
    let p = CompressedRistretto(point.0).decompress()?;
    Some(CompressedPoint((Scalar::from_bytes_mod_order(*scalar) * p).compress().to_bytes()))
}

/// Calls `Scalar::invert` (which its documentation defines for nonzero
/// scalars; on zero it returns some scalar rather than failing).
#[verifier::external_body]
fn invert_scalar(scalar: &[u8; 32]) -> (r: [u8; 32])
    ensures
        r@ == scalar_inverse(scalar@),
{
    Scalar::from_bytes_mod_order(*scalar).invert().to_bytes()
}

/// The order of the Ristretto group, `2^252 + 27742317777372353535851937790883648493`.
pub open spec fn ristretto_order() -> nat {
    7237005577332262213973186563042994240857116359379907606001950938285454250989nat
}

/// A canonical scalar: 32 little-endian bytes whose value is below the
/// group order.
pub open spec fn scalar_canonical(s: Seq<u8>) -> bool {
    s.len() == 32 && le_value(s) < ristretto_order()
}

/// A scalar reduced from 64 bytes of `OsRng` (`Scalar::from_bytes_mod_order_wide`,
/// which reduces modulo the group order), as its canonical bytes
/// (`Scalar::to_bytes`). Nothing is stated of which scalar comes back.
#[verifier::external_body]
fn random_scalar() -> (r: [u8; 32])
    ensures
        scalar_canonical(r@),
{
    let mut bytes = [0u8; 64];
    OsRng.fill_bytes(&mut bytes);
    Scalar::from_bytes_mod_order_wide(&bytes).to_bytes()
}

/// A random `u32` from `OsRng`. Nothing is stated of which value comes back.
#[verifier::external_body]
fn random_u32() -> (r: u32) {
    OsRng.next_u32()
}

/// The point an indicator hashes to: `H` of its normalized UTF-8 bytes.
pub open spec fn indicator_point(raw: Seq<char>) -> Seq<u8> {
    ristretto_hash(encode_utf8(lowercase_of(trimmed(raw))))
}

/// Hashes a raw indicator to a Ristretto point, after the same
/// normalization the proof-of-observation hash uses.
pub fn hash_indicator(raw: &str) -> (p: CompressedPoint)
    ensures
        p@ == indicator_point(raw@),
        point_decodes(p@),
{
    let normalized = normalize_indicator(raw);
    hash_to_group(normalized.as_str().as_bytes())
}

/// A Holder's secret blinding scalar.
pub struct HolderKey {
    scalar: [u8; 32],
}

impl View for HolderKey {
    type V = Seq<u8>;

    closed spec fn view(&self) -> Seq<u8> {
        self.scalar@
    }
}

impl HolderKey {
    /// A fresh random key, a canonical scalar drawn from the operating
    /// system's generator; use a new one per relationship or epoch.
    pub fn generate() -> (k: HolderKey)
        ensures
            scalar_canonical(k@),
    {
        HolderKey { scalar: random_scalar() }
    }
}

/// A Querier's secret blinding scalar for one query.
pub struct QuerierKey {
    scalar: [u8; 32],
}

impl View for QuerierKey {
    type V = Seq<u8>;

    closed spec fn view(&self) -> Seq<u8> {
        self.scalar@
    }
}

/// An item of the Holder's set, blinded under key `b`.
pub open spec fn blinded_item(b: Seq<u8>, raw: Seq<char>) -> Seq<u8> {
    ristretto_mul(b, indicator_point(raw))
}

pub open spec fn point_views(v: Seq<CompressedPoint>) -> Seq<Seq<u8>> {
    v.map_values(|p: CompressedPoint| p@)
}

/// Blinds one item of the Holder's set.
fn blind_item(key: &HolderKey, raw: &str) -> (p: CompressedPoint)
    ensures
        p@ == blinded_item(key@, raw@),
{
    let h = hash_indicator(raw);
    match point_mul(&key.scalar, &h) {
        Some(q) => q,
        None => h,
    }
}

/// Step 1 (Holder): blinds every item of the set and shuffles the result
/// (Fisher-Yates with `OsRng`), so the order of the set does not leak: the
/// result holds exactly the blinded items, each as often as in the input.
pub fn blind_set(key: &HolderKey, raw_items: &[String]) -> (r: Vec<CompressedPoint>)
    ensures
        r@.len() == raw_items@.len(),
        point_views(r@).to_multiset()
            == raw_items@.map_values(|s: String| blinded_item(key@, s@)).to_multiset(),
{
    let ghost want = raw_items@.map_values(|s: String| blinded_item(key@, s@));
    let mut blinded: Vec<CompressedPoint> = Vec::new();
    let mut i: usize = 0;
    while i < raw_items.len()
        invariant
            i <= raw_items@.len(),
            want == raw_items@.map_values(|s: String| blinded_item(key@, s@)),
            point_views(blinded@) == want.take(i as int),
        decreases raw_items@.len() - i,
    {
        let p = blind_item(key, raw_items[i].as_str());
        let ghost before = point_views(blinded@);
        blinded.push(p);
        proof {
            assert(want[i as int] == p@);
            assert(point_views(blinded@) =~= before.push(p@));
            assert(want.take(i + 1) =~= want.take(i as int).push(want[i as int]));
            assert(point_views(blinded@) =~= want.take(i + 1));
        }
        i = i + 1;
    }
    proof {
        assert(want.take(raw_items@.len() as int) =~= want);
    }
    let mut k: usize = blinded.len();
    while k > 1
        invariant
            k <= blinded@.len(),
            blinded@.len() == raw_items@.len(),
            point_views(blinded@).to_multiset() == want.to_multiset(),
        decreases k,
    {
        let idx = k - 1;
        let j = (random_u32() as usize) % k;
        let a = blinded[idx];
        let b = blinded[j];
        let ghost before = point_views(blinded@);
        blinded.set(idx, b);
        blinded.set(j, a);
        proof {
            let mid = before.update(idx as int, b@);
            assert(point_views(blinded@) =~= mid.update(j as int, a@));
            vstd::seq_lib::to_multiset_update(before, idx as int, b@);
            vstd::seq_lib::to_multiset_update(mid, j as int, a@);
            assert(mid[j as int] == b@);
            assert(before[idx as int] == a@);
            assert(before.contains(b@)) by { assert(before[j as int] == b@); }
            assert(before.contains(a@)) by { assert(before[idx as int] == a@); }
            vstd::seq_lib::to_multiset_contains(before, b@);
            vstd::seq_lib::to_multiset_contains(before, a@);
            broadcast use vstd::multiset::group_multiset_axioms;
            assert(before.to_multiset().insert(b@).remove(a@).insert(a@).remove(b@) =~= before.to_multiset());
        }
        k = k - 1;
    }
    blinded
}

/// Step 2 (Querier): blinds one item with a fresh random key, returned for
/// unblinding the answer later.
pub fn blind_query(raw_item: &str) -> (r: (QuerierKey, CompressedPoint))
    ensures
        r.1@ == ristretto_mul(r.0@, indicator_point(raw_item@)),
{
    let key = QuerierKey { scalar: random_scalar() };
    let h = hash_indicator(raw_item);
    let blinded = match point_mul(&key.scalar, &h) {
        Some(q) => q,
        None => h,
    };
    (key, blinded)
}

/// Step 3 (Holder): blinds a Querier's blinded query again; bytes that do
/// not decode to a point are refused rather than trusted.
pub fn respond_to_query(key: &HolderKey, blinded_query: CompressedPoint) -> (r: Result<CompressedPoint, PsiError>)
    ensures
        match r {
            Ok(q) => point_decodes(blinded_query@) && q@ == ristretto_mul(key@, blinded_query@),
            Err(e) => !point_decodes(blinded_query@) && e == PsiError::InvalidPoint,
        },
{
    match point_mul(&key.scalar, &blinded_query) {
        Some(q) => Ok(q),
        None => Err(PsiError::InvalidPoint),
    }
}

/// Removes the Querier's blinding from a doubly blinded answer.
pub fn unblind(key: &QuerierKey, double_blinded: CompressedPoint) -> (r: Result<CompressedPoint, PsiError>)
    ensures
        match r {
            Ok(q) => point_decodes(double_blinded@) && q@ == ristretto_mul(scalar_inverse(key@), double_blinded@),
            Err(e) => !point_decodes(double_blinded@) && e == PsiError::InvalidPoint,
        },
{
    let inv = invert_scalar(&key.scalar);
    match point_mul(&inv, &double_blinded) {
        Some(q) => Ok(q),
        None => Err(PsiError::InvalidPoint),
    }
}

/// A Holder's blinded set, kept without repeated points.
pub struct BlindedSet {
    present: Vec<[u8; 32]>,
}

pub open spec fn byte_views(v: Seq<[u8; 32]>) -> Seq<Seq<u8>> {
    v.map_values(|b: [u8; 32]| b@)
}

impl View for BlindedSet {
    type V = Set<Seq<u8>>;

    closed spec fn view(&self) -> Set<Seq<u8>> {
        byte_views(self.present@).to_set()
    }
}

fn same_bytes(a: &[u8; 32], b: &[u8; 32]) -> (r: bool)
    ensures
        r == (a@ == b@),
{
    let mut i: usize = 0;
    while i < 32
        invariant
            i <= 32,
            a@.len() == 32,
            b@.len() == 32,
            forall|k: int| 0 <= k < i ==> a@[k] == b@[k],
        decreases 32 - i,
    {
        if a[i] != b[i] {
            return false;
        }
        i = i + 1;
    }
    proof { assert(a@ =~= b@); }
    true
}

impl BlindedSet {
    /// No point is kept twice.
    pub closed spec fn wf(&self) -> bool {
        byte_views(self.present@).no_duplicates()
    }

    fn find(&self, p: &[u8; 32]) -> (r: bool)
        ensures
            r == self@.contains(p@),
    {
        let ghost v = byte_views(self.present@);
        let mut i: usize = 0;
        while i < self.present.len()
            invariant
                i <= self.present@.len(),
                v == byte_views(self.present@),
                forall|j: int| 0 <= j < i ==> v[j] != p@,
            decreases self.present@.len() - i,
        {
            if same_bytes(&self.present[i], p) {
                proof { assert(v[i as int] == p@); }
                return true;
            }
            i = i + 1;
        }
        proof { assert(!v.contains(p@)); }
        false
    }

    /// Indexes the points received from the Holder.
    pub fn new(points: &[CompressedPoint]) -> (s: BlindedSet)
        ensures
            s.wf(),
            s@ == point_views(points@).to_set(),
    {
        let ghost pv = point_views(points@);
        let mut s = BlindedSet { present: Vec::new() };
        let mut i: usize = 0;
        proof { assert(pv.take(0).to_set() =~= Set::<Seq<u8>>::empty()); }
        while i < points.len()
            invariant
                i <= points@.len(),
                pv == point_views(points@),
                s.wf(),
                s@ == pv.take(i as int).to_set(),
            decreases points@.len() - i,
        {
            let b = points[i].0;
            proof {
                assert(pv.take(i + 1) =~= pv.take(i as int).push(b@));
                pv.take(i as int).lemma_push_to_set_commute(b@);
            }
            if !s.find(&b) {
                let ghost old_v = byte_views(s.present@);
                s.present.push(b);
                proof {
                    let v = byte_views(s.present@);
                    assert(v =~= old_v.push(b@));
                    old_v.lemma_push_to_set_commute(b@);
                    assert(!old_v.contains(b@));
                    assert(v.no_duplicates()) by {
                        assert forall|x: int, y: int| 0 <= x < v.len() && 0 <= y < v.len() && x != y
                            implies v[x] != v[y] by {
                            if x == v.len() - 1 && y < old_v.len() {
                                assert(old_v[y] == v[y]);
                            } else if y == v.len() - 1 && x < old_v.len() {
                                assert(old_v[x] == v[x]);
                            } else {
                                assert(old_v[x] == v[x]);
                                assert(old_v[y] == v[y]);
                            }
                        }
                    }
                }
            } else {
                proof { assert(s@.insert(b@) =~= s@); }
            }
            i = i + 1;
        }
        proof { assert(pv.take(points@.len() as int) =~= pv); }
        s
    }

    /// Number of distinct points.
    pub fn len(&self) -> (n: usize)
        requires
            self.wf(),
        ensures
            n == self@.len(),
    {
        proof { byte_views(self.present@).unique_seq_to_set(); }
        self.present.len()
    }

    /// Whether no point was received.
    pub fn is_empty(&self) -> (b: bool)
        requires
            self.wf(),
        ensures
            b == (self@.len() == 0),
    {
        proof { byte_views(self.present@).unique_seq_to_set(); }
        self.present.len() == 0
    }

    /// Whether the point is in the set.
    pub fn contains(&self, p: &CompressedPoint) -> (b: bool)
        ensures
            b == self@.contains(p@),
    {
        self.find(&p.0)
    }
}

/// Step 4 (Querier): removes the Querier's blinding from the Holder's answer
/// and looks the result up in the blinded set.
pub fn finish_query(key: QuerierKey, double_blinded: CompressedPoint, blinded_set: &BlindedSet) -> (r: Result<bool, PsiError>)
    ensures
        match r {
            Ok(found) => point_decodes(double_blinded@)
                && found == blinded_set@.contains(ristretto_mul(scalar_inverse(key@), double_blinded@)),
            Err(e) => !point_decodes(double_blinded@) && e == PsiError::InvalidPoint,
        },
{
    match unblind(&key, double_blinded) {
        Ok(q) => Ok(blinded_set.contains(&q)),
        Err(e) => Err(e),
    }
}

/// Indicators that agree after trimming white space and lowercasing map to
/// the same point, so a Holder and a Querier agree on an item's identity
/// whatever its case or surrounding space.
pub proof fn law_point_normalization_invariance(a: Seq<char>, b: Seq<char>)
    requires
        lowercase_of(trimmed(a)) == lowercase_of(trimmed(b)),
    ensures
        indicator_point(a) == indicator_point(b),
{
}

} // verus!

//! Elements of the BN254 scalar field, held as their canonical 32-byte
//! little-endian encoding (the encoding `ark-serialize` writes for `Fr`),
//! and the few arkworks operations the protocol needs on them.

use vstd::prelude::*;
use ark_bn254::Fr;
use ark_ff::{BigInteger, PrimeField};
use ark_serialize::CanonicalDeserialize;

verus! {

/// The order of the BN254 scalar field.
pub open spec fn fr_modulus() -> nat {
    21888242871839275222246405745257275088548364400416034343698204186575808495617nat
}

/// The little-endian integer value of a byte sequence.
pub open spec fn le_value(s: Seq<u8>) -> nat
    decreases s.len(),
{
    if s.len() == 0 {
        0
    } else {
        s[0] as nat + 256 * le_value(s.drop_first())
    }
}

/// A BN254 scalar field element, as its canonical little-endian bytes.
#[derive(Debug, Clone, Copy, PartialEq, Eq)]
pub struct FieldElement {
    pub(crate) bytes: [u8; 32],
}

impl View for FieldElement {
    type V = Seq<u8>;

    closed spec fn view(&self) -> Seq<u8> {
        self.bytes@
    }
}

impl FieldElement {
    /// The integer the element stands for.
    pub open spec fn value(&self) -> nat {
        le_value(self@)
    }

    /// The encoding is canonical: its value is below the field order.
    pub open spec fn wf(&self) -> bool {
        self@.len() == 32 && self.value() < fr_modulus()
    }

    /// Two elements are equal exactly when their values are.
    pub proof fn lemma_value_injective(&self, other: &FieldElement)
        ensures
            (self@ == other@) <==> (self.value() == other.value()),
    {
        if self.value() == other.value() {
            lemma_le_value_injective(self@, other@);
        }
    }

    /// The canonical encoding.
    pub fn to_bytes(&self) -> (b: [u8; 32])
        ensures
            b@ == self@,
    {
        self.bytes
    }

    /// Whether the two elements are equal.
    pub fn equals(&self, other: &FieldElement) -> (b: bool)
        ensures
            b == (self@ == other@),
            b == (self.value() == other.value()),
    {
        proof { self.lemma_value_injective(other); }
        let mut i: usize = 0;
        while i < 32
            invariant
                i <= 32,
                self@.len() == 32,
                other@.len() == 32,
                forall|k: int| 0 <= k < i ==> self@[k] == other@[k],
            decreases 32 - i,
        {
            if self.bytes[i] != other.bytes[i] {
                proof {
                    assert(self@[i as int] != other@[i as int]);
                    self.lemma_value_injective(other);
                }
                return false;
            }
            i = i + 1;
        }
        proof {
            assert(self@ =~= other@);
            self.lemma_value_injective(other);
        }
        true
    }
}

/// Sequences of the same length with the same little-endian value are equal.
pub proof fn lemma_le_value_injective(a: Seq<u8>, b: Seq<u8>)
    requires
        a.len() == b.len(),
        le_value(a) == le_value(b),
    ensures
        a == b,
    decreases a.len(),
{
    if a.len() > 0 {
        let va = le_value(a.drop_first());
        let vb = le_value(b.drop_first());
        assert(a[0] as nat == b[0] as nat && va == vb) by (nonlinear_arith)
            requires
                a[0] as nat + 256 * va == b[0] as nat + 256 * vb,
                a[0] < 256,
                b[0] < 256,
        ;
        lemma_le_value_injective(a.drop_first(), b.drop_first());
        assert(a =~= b) by {
            assert forall|i: int| 0 <= i < a.len() implies a[i] == b[i] by {
                if i > 0 {
                    assert(a[i] == a.drop_first()[i - 1]);
                    assert(b[i] == b.drop_first()[i - 1]);
                }
            }
        }
    }
}

/// Trailing zero bytes add nothing to the little-endian value.
proof fn lemma_le_value_zero_tail(s: Seq<u8>, n: nat)
    requires
        n <= s.len(),
        forall|k: int| n <= k < s.len() ==> s[k] == 0,
    ensures
        le_value(s) == le_value(s.take(n as int)),
    decreases n,
{
    if n == 0 {
        lemma_le_value_zeros(s);
        assert(s.take(0) =~= Seq::<u8>::empty());
    } else {
        lemma_le_value_zero_tail(s.drop_first(), (n - 1) as nat);
        assert(s.take(n as int).drop_first() =~= s.drop_first().take(n - 1));
    }
}

proof fn lemma_le_value_zeros(s: Seq<u8>)
    requires
        forall|k: int| 0 <= k < s.len() ==> s[k] == 0,
    ensures
        le_value(s) == 0,
    decreases s.len(),
{
    if s.len() > 0 {
        lemma_le_value_zeros(s.drop_first());
    }
}

/// The element with value `x` (what `Fr::from(x)` gives).
pub fn fr_from_u64(x: u64) -> (r: FieldElement)
    ensures
        r.wf(),
        r.value() == x as nat,
{
    let c0 = x & 0xff;
    let c1 = (x >> 8u64) & 0xff;
    let c2 = (x >> 16u64) & 0xff;
    let c3 = (x >> 24u64) & 0xff;
    let c4 = (x >> 32u64) & 0xff;
    let c5 = (x >> 40u64) & 0xff;
    let c6 = (x >> 48u64) & 0xff;
    let c7 = (x >> 56u64) & 0xff;
    assert(c0 < 256 && c1 < 256 && c2 < 256 && c3 < 256 && c4 < 256 && c5 < 256 && c6 < 256 && c7 < 256
        && x == c0 + 256 * (c1 + 256 * (c2 + 256 * (c3 + 256 * (c4 + 256 * (c5 + 256 * (c6 + 256 * c7)))))))
        by (bit_vector)
        requires
            c0 == x & 0xff,
            c1 == (x >> 8u64) & 0xff,
            c2 == (x >> 16u64) & 0xff,
            c3 == (x >> 24u64) & 0xff,
            c4 == (x >> 32u64) & 0xff,
            c5 == (x >> 40u64) & 0xff,
            c6 == (x >> 48u64) & 0xff,
            c7 == (x >> 56u64) & 0xff,
    ;
    let mut bytes = [0u8; 32];
    bytes[0] = c0 as u8;
    bytes[1] = c1 as u8;
    bytes[2] = c2 as u8;
    bytes[3] = c3 as u8;
    bytes[4] = c4 as u8;
    bytes[5] = c5 as u8;
    bytes[6] = c6 as u8;
    bytes[7] = c7 as u8;
    let r = FieldElement { bytes };
    proof {
        let s = bytes@;
        assert forall|k: int| 8 <= k < s.len() implies s[k] == 0 by {}
        lemma_le_value_zero_tail(s, 8);
        let t = s.take(8);
        reveal_with_fuel(le_value, 9);
        assert(t.drop_first().drop_first().drop_first().drop_first().drop_first().drop_first().drop_first().drop_first()
            =~= Seq::<u8>::empty());
        assert(le_value(t) == x as nat);
        assert(r.value() == x as nat);
        assert(x as nat <= 0xffff_ffff_ffff_ffff);
    }
    r
}

/// Calls `Fr::from_le_bytes_mod_order`; the element's value is the
/// little-endian value of `bytes` reduced modulo the field order.
#[verifier::external_body]
pub(crate) fn fr_from_le_bytes_mod_order(bytes: &[u8]) -> (r: FieldElement)
    ensures
        r.wf(),
        r.value() == le_value(bytes@) % fr_modulus(),
{
    let limbs = Fr::from_le_bytes_mod_order(bytes).into_bigint().to_bytes_le();
    let mut out = [0u8; 32];
    out.copy_from_slice(&limbs);
    FieldElement { bytes: out }
}

/// Calls `Fr::deserialize_compressed`: it reads the first 32 bytes as a
/// little-endian integer and accepts it exactly when there are at least 32
/// bytes and the integer is below the field order; later bytes are not read.
#[verifier::external_body]
pub(crate) fn fr_deserialize(bytes: &[u8]) -> (r: Option<FieldElement>)
    ensures
        r is Some <==> (bytes@.len() >= 32 && le_value(bytes@.take(32)) < fr_modulus()),
        r matches Some(f) ==> f@ == bytes@.take(32) && f.wf(),
{
    match Fr::deserialize_compressed(bytes) {
        Ok(_) => {
            let mut out = [0u8; 32];
            out.copy_from_slice(&bytes[..32]);
            Some(FieldElement { bytes: out })
        },
        Err(_) => None,
    }
}

} // verus!


//! Canonical indicator normalization and string-to-field hashing.
//!
//! The circuit only ever sees an opaque field element for an indicator; how
//! a raw string maps to it is a protocol convention that every prover and
//! every verifier disclosing an indicator must share. It is a Poseidon-based
//! Merkle–Damgård construction: the normalized string's UTF-8 bytes, cut
//! into chunks of at most 31 bytes (each below the field order), are folded
//! through the two-to-one compression used for Merkle nodes, and the byte
//! length is folded in last against prefix collisions.
//!
//! Normalization is deliberately conservative: trim white space and
//! lowercase. No defanging, URL or IPv6 canonicalization yet.

use vstd::prelude::*;
use vstd::utf8::encode_utf8;
use crate::text::{lowercase_of, trimmed, trim_lowercase};
use crate::field::{FieldElement, le_value, fr_modulus, fr_from_u64, fr_from_le_bytes_mod_order};
use crate::poseidon::{PoseidonParamsView, poseidon_compress, poseidon_two_to_one, merkle_node_config, node_params};

verus! {

/// Trims surrounding white space and lowercases.
pub fn normalize_indicator(raw: &str) -> (r: String)
    ensures
        r@ == lowercase_of(trimmed(raw@)),
{
    trim_lowercase(raw)
}

/// The largest chunk that always stays below the field order (248 bits).
pub open spec fn chunk_bytes() -> nat {
    31
}

/// The chunks of `bytes`, from the front, folded into `acc`.
pub open spec fn chunk_fold(p: PoseidonParamsView, bytes: Seq<u8>, acc: nat) -> nat
    decreases bytes.len(),
{
    if bytes.len() == 0 {
        acc
    } else {
        let n = if bytes.len() < chunk_bytes() { bytes.len() } else { chunk_bytes() };
        chunk_fold(p, bytes.skip(n as int), poseidon_compress(p, acc, le_value(bytes.take(n as int)) % fr_modulus()))
    }
}

/// The field element of a raw indicator.
pub open spec fn indicator_hash_spec(raw: Seq<char>) -> nat {
    let bytes = encode_utf8(lowercase_of(trimmed(raw)));
    poseidon_compress(node_params(), chunk_fold(node_params(), bytes, 0), bytes.len())
}

/// Maps a raw indicator string to the field element used as the public
/// `indicator_hash` and as a leaf and nullifier input.
pub fn indicator_hash_from_raw(raw: &str) -> (h: FieldElement)
    ensures
        h.wf(),
        h.value() == indicator_hash_spec(raw@),
{
    let normalized = normalize_indicator(raw);
    let bytes = normalized.as_str().as_bytes();
    let ghost all = bytes@;
    let node_cfg = merkle_node_config();
    let ghost p = node_params();
    let mut acc = fr_from_u64(0);
    let mut i: usize = 0;
    let n = bytes.len();
    proof { assert(all.skip(0) =~= all); }
    while i < n
        invariant
            n == all.len(),
            all == bytes@,
            node_cfg.well_shaped(),
            node_cfg@ == p,
            i <= n,
            acc.wf(),
            chunk_fold(p, all, 0) == chunk_fold(p, all.skip(i as int), acc.value()),
        decreases n - i,
    {
        let end = if n - i < 31 { n } else { i + 31 };
        let chunk = &bytes[i..end];
        let c = fr_from_le_bytes_mod_order(chunk);
        let ghost rest = all.skip(i as int);
        proof {
            let k = (end - i) as nat;
            assert(rest.take(k as int) =~= chunk@);
            assert(rest.skip(k as int) =~= all.skip(end as int));
        }
        acc = poseidon_two_to_one(&node_cfg, &acc, &c);
        i = end;
    }
    let len_fr = fr_from_u64(n as u64);
    proof { assert(all.skip(n as int).len() == 0); }
    poseidon_two_to_one(&node_cfg, &acc, &len_fr)
}

/// Indicators that agree after trimming white space and lowercasing hash
/// to the same field element: case and surrounding space never split one
/// indicator's identity.
pub proof fn law_normalization_invariance(a: Seq<char>, b: Seq<char>)
    requires
        lowercase_of(trimmed(a)) == lowercase_of(trimmed(b)),
    ensures
        indicator_hash_spec(a) == indicator_hash_spec(b),
{
}

} // verus!

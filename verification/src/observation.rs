//! The proof-of-observation statement:
//!
//!   "I know a Merkle path from leaf = H(indicator_hash, epoch, salt) to a
//!    published root; nullifier = H(credential_secret, indicator_hash,
//!    epoch); and I know a Merkle path from credential_leaf =
//!    H(credential_secret, credential_tier, DOMAIN_TAG) to a published
//!    credential_root, where credential_tier >= min_tier."
//!
//! This module holds the statement's public inputs and witness, the
//! statement itself over field values, and the construction of a sample
//! observation (a 4-leaf indicator tree and a 4-leaf credential tree) with
//! everything a prover needs. The R1CS constraints that enforce the
//! statement inside a Groth16 proof are generated outside the library.

use vstd::prelude::*;
use vstd::utf8::encode_utf8;
use crate::field::{FieldElement, le_value, fr_modulus, fr_from_u64, fr_from_le_bytes_mod_order};
use crate::poseidon::{
    poseidon_hash, poseidon_compress, poseidon_crh, poseidon_two_to_one, three_input_config, three_input_params,
    merkle_node_config, node_params, values, all_wf, PoseidonParams,
};
use crate::merkle::{build_tree, fold_path, tree_path, tree_dirs, tree_root, is_pow2, law_path_folds_to_root};

verus! {

/// The values a verifier sees and checks.
#[derive(Debug, Clone, Copy)]
pub struct PublicInputs {
    /// Poseidon hash of the normalized indicator.
    pub indicator_hash: FieldElement,
    /// Epoch identifier.
    pub epoch: FieldElement,
    /// The Merkle root the contributor published for this epoch.
    pub root: FieldElement,
    /// H(credential_secret, indicator_hash, epoch): prevents double counting.
    pub nullifier: FieldElement,
    /// Minimum tier claimed (0 to 3).
    pub min_tier: FieldElement,
    /// Root of the issuer-published credential tree.
    pub credential_root: FieldElement,
}

/// The private witness known only to the contributor.
#[derive(Debug, Clone)]
pub struct Witness {
    /// Per-leaf salt.
    pub salt: FieldElement,
    /// Siblings from the indicator leaf up to the root.
    pub merkle_path: Vec<FieldElement>,
    /// `true` where the current node is the right input.
    pub path_directions: Vec<bool>,
    /// Secret backing the anonymous credential.
    pub credential_secret: FieldElement,
    /// Tier recorded for the credential.
    pub credential_tier: FieldElement,
    /// Siblings from the credential leaf up to the credential root.
    pub credential_merkle_path: Vec<FieldElement>,
    /// Direction bits for `credential_merkle_path`.
    pub credential_path_directions: Vec<bool>,
}

/// The statement's instance: public inputs, and the witness when proving.
#[derive(Debug, Clone)]
pub struct ProofOfObservationCircuit {
    pub public: PublicInputs,
    pub witness: Option<Witness>,
}

pub struct PublicView {
    pub indicator_hash: nat,
    pub epoch: nat,
    pub root: nat,
    pub nullifier: nat,
    pub min_tier: nat,
    pub credential_root: nat,
}

pub struct WitnessView {
    pub salt: nat,
    pub merkle_path: Seq<nat>,
    pub path_directions: Seq<bool>,
    pub credential_secret: nat,
    pub credential_tier: nat,
    pub credential_merkle_path: Seq<nat>,
    pub credential_path_directions: Seq<bool>,
}

impl View for PublicInputs {
    type V = PublicView;

    open spec fn view(&self) -> PublicView {
        PublicView {
            indicator_hash: self.indicator_hash.value(),
            epoch: self.epoch.value(),
            root: self.root.value(),
            nullifier: self.nullifier.value(),
            min_tier: self.min_tier.value(),
            credential_root: self.credential_root.value(),
        }
    }
}

impl View for Witness {
    type V = WitnessView;

    open spec fn view(&self) -> WitnessView {
        WitnessView {
            salt: self.salt.value(),
            merkle_path: values(self.merkle_path@),
            path_directions: self.path_directions@,
            credential_secret: self.credential_secret.value(),
            credential_tier: self.credential_tier.value(),
            credential_merkle_path: values(self.credential_merkle_path@),
            credential_path_directions: self.credential_path_directions@,
        }
    }
}

/// One of the four tiers 0 to 3.
pub open spec fn valid_tier(v: nat) -> bool {
    v <= 3
}

/// `a - b` in the field.
pub open spec fn field_sub(a: nat, b: nat) -> nat {
    ((a + fr_modulus() - b) % (fr_modulus() as int)) as nat
}

/// The domain tag of credential leaves: the ASCII bytes of
/// `UMBRA_CREDENTIAL_LEAF_V1` read as a little-endian field element.
pub open spec fn credential_tag() -> nat {
    le_value(encode_utf8("UMBRA_CREDENTIAL_LEAF_V1"@)) % fr_modulus()
}

/// The indicator leaf: H(indicator_hash, epoch, salt).
pub open spec fn indicator_leaf(indicator_hash: nat, epoch: nat, salt: nat) -> nat {
    poseidon_hash(three_input_params(), seq![indicator_hash, epoch, salt])
}

/// The nullifier: H(credential_secret, indicator_hash, epoch).
pub open spec fn nullifier_of(secret: nat, indicator_hash: nat, epoch: nat) -> nat {
    poseidon_hash(three_input_params(), seq![secret, indicator_hash, epoch])
}

/// The credential leaf: H(credential_secret, credential_tier, tag).
pub open spec fn credential_leaf(secret: nat, tier: nat) -> nat {
    poseidon_hash(three_input_params(), seq![secret, tier, credential_tag()])
}

/// What a satisfying witness shows: both Merkle paths fold to their roots,
/// the nullifier is derived from the credential secret, and the credential's
/// tier and the claimed minimum are tiers with `credential_tier >= min_tier`
/// (their difference in the field is itself a tier).
pub open spec fn statement_holds(pi: PublicView, w: WitnessView) -> bool {
    &&& w.merkle_path.len() == w.path_directions.len()
    &&& w.credential_merkle_path.len() == w.credential_path_directions.len()
    &&& fold_path(node_params(), indicator_leaf(pi.indicator_hash, pi.epoch, w.salt), w.merkle_path, w.path_directions)
        == pi.root
    &&& pi.nullifier == nullifier_of(w.credential_secret, pi.indicator_hash, pi.epoch)
    &&& fold_path(node_params(), credential_leaf(w.credential_secret, w.credential_tier),
        w.credential_merkle_path, w.credential_path_directions) == pi.credential_root
    &&& valid_tier(w.credential_tier)
    &&& valid_tier(pi.min_tier)
    &&& valid_tier(field_sub(w.credential_tier, pi.min_tier))
}

/// For two tiers, the field difference is a tier exactly when the first is
/// at least the second: the circuit's `>=` check is the plain comparison.
pub proof fn law_tier_gate(tier: nat, min_tier: nat)
    requires
        valid_tier(tier),
        valid_tier(min_tier),
    ensures
        valid_tier(field_sub(tier, min_tier)) <==> tier >= min_tier,
{
    let r: int = fr_modulus() as int;
    let t: int = tier as int;
    let m: int = min_tier as int;
    assert(r > 10);
    if t >= m {
        assert((t + r - m) % r == t - m) by (nonlinear_arith)
            requires t >= m, t - m < r, r > 0;
    } else {
        assert((t + r - m) % r == t + r - m) by (nonlinear_arith)
            requires t < m, 0 <= t, m <= 3, r > 10;
    }
}

impl PublicInputs {
    /// Every element is canonical.
    pub open spec fn wf(&self) -> bool {
        &&& self.indicator_hash.wf()
        &&& self.epoch.wf()
        &&& self.root.wf()
        &&& self.nullifier.wf()
        &&& self.min_tier.wf()
        &&& self.credential_root.wf()
    }
}

impl Witness {
    /// Every element is canonical, and each path has one direction bit per
    /// sibling (the circuit refuses to be built otherwise).
    pub open spec fn wf(&self) -> bool {
        &&& self.salt.wf()
        &&& self.credential_secret.wf()
        &&& self.credential_tier.wf()
        &&& all_wf(self.merkle_path@)
        &&& all_wf(self.credential_merkle_path@)
        &&& self.merkle_path@.len() == self.path_directions@.len()
        &&& self.credential_merkle_path@.len() == self.credential_path_directions@.len()
    }
}

/// Folds `leaf` up a Merkle path: at each step the current node is
/// compressed with its sibling, as the right input where the direction bit
/// is set; the shorter of `path` and `dirs` bounds the steps.
pub fn fold_merkle_path(node_cfg: &PoseidonParams, leaf: FieldElement, path: &Vec<FieldElement>, dirs: &Vec<bool>)
    -> (r: FieldElement)
    requires
        node_cfg.well_shaped(),
        leaf.wf(),
        all_wf(path@),
    ensures
        r.wf(),
        r.value() == fold_path(node_cfg@, leaf.value(), values(path@), dirs@),
{
    let n = if path.len() < dirs.len() { path.len() } else { dirs.len() };
    let mut cur = leaf;
    let mut i: usize = 0;
    proof {
        assert(values(path@).skip(0) =~= values(path@));
        assert(dirs@.skip(0) =~= dirs@);
    }
    while i < n
        invariant
            node_cfg.well_shaped(),
            all_wf(path@),
            n <= path@.len(),
            n <= dirs@.len(),
            n == path@.len() || n == dirs@.len(),
            i <= n,
            cur.wf(),
            fold_path(node_cfg@, leaf.value(), values(path@), dirs@)
                == fold_path(node_cfg@, cur.value(), values(path@).skip(i as int), dirs@.skip(i as int)),
        decreases n - i,
    {
        let sibling = path[i];
        let next = if dirs[i] {
            poseidon_two_to_one(node_cfg, &sibling, &cur)
        } else {
            poseidon_two_to_one(node_cfg, &cur, &sibling)
        };
        proof {
            let vp = values(path@).skip(i as int);
            let vd = dirs@.skip(i as int);
            assert(vp[0] == sibling.value());
            assert(vd[0] == dirs@[i as int]);
            assert(vp.drop_first() =~= values(path@).skip(i + 1));
            assert(vd.drop_first() =~= dirs@.skip(i + 1));
        }
        cur = next;
        i = i + 1;
    }
    proof {
        assert(values(path@).skip(n as int).len() == 0 || dirs@.skip(n as int).len() == 0);
    }
    cur
}

/// Whether a field element is one of the tiers 0 to 3, and which.
fn tier_of(v: &FieldElement) -> (r: Option<u8>)
    requires
        v.wf(),
    ensures
        match r {
            Some(t) => t <= 3 && v.value() == t as nat,
            None => !valid_tier(v.value()),
        },
{
    let mut t: u8 = 0;
    while t <= 3
        invariant
            v.wf(),
            t <= 4,
            v.value() >= t as nat,
        decreases 4 - t,
    {
        let f = fr_from_u64(t as u64);
        if v.equals(&f) {
            return Some(t);
        }
        t = t + 1;
    }
    None
}

/// Whether the witness satisfies the statement for these public inputs:
/// what the circuit's constraints decide.
pub fn statement_satisfied(public: &PublicInputs, witness: &Witness) -> (b: bool)
    requires
        public.wf(),
        witness.wf(),
    ensures
        b == statement_holds(public@, witness@),
{
    let leaf_cfg = three_input_config();
    let node_cfg = merkle_node_config();
    let leaf = hash3(&public.indicator_hash, &public.epoch, &witness.salt);
    let root = fold_merkle_path(&node_cfg, leaf, &witness.merkle_path, &witness.path_directions);
    let nullifier = hash3(&witness.credential_secret, &public.indicator_hash, &public.epoch);
    let tag = credential_domain_tag();
    let credential_leaf_value = hash3(&witness.credential_secret, &witness.credential_tier, &tag);
    let credential_root = fold_merkle_path(
        &node_cfg, credential_leaf_value, &witness.credential_merkle_path, &witness.credential_path_directions);
    let roots_ok = root.equals(&public.root) && nullifier.equals(&public.nullifier)
        && credential_root.equals(&public.credential_root);
    let tiers_ok = match (tier_of(&witness.credential_tier), tier_of(&public.min_tier)) {
        (Some(t), Some(m)) => {
            proof { law_tier_gate(t as nat, m as nat); }
            t >= m
        },
        (ct, mt) => {
            proof {
                assert(!valid_tier(witness@.credential_tier) || !valid_tier(public@.min_tier));
            }
            false
        },
    };
    roots_ok && tiers_ok
}

impl ProofOfObservationCircuit {
    /// Whether the circuit's constraints are satisfied; `None` when there is
    /// no witness to assign.
    pub fn is_satisfied(&self) -> (r: Option<bool>)
        requires
            self.public.wf(),
            self.witness matches Some(w) ==> w.wf(),
        ensures
            match self.witness {
                Some(w) => r == Some(statement_holds(self.public@, w@)),
                None => r is None,
            },
    {
        match &self.witness {
            Some(w) => Some(statement_satisfied(&self.public, w)),
            None => None,
        }
    }
}

/// Everything needed to submit an observation: public inputs (as a record
/// and as the flat vector Groth16 verification takes) and the instance with
/// its witness.
#[derive(Debug, Clone)]
pub struct SampleObservation {
    pub circuit: ProofOfObservationCircuit,
    pub public: PublicInputs,
    pub public_inputs_vec: Vec<FieldElement>,
}

/// The leaves of the sample indicator tree: the contributor's leaf at index
/// 1 among the fillers 1, 2 and 3.
pub open spec fn sample_indicator_leaves(leaf: nat) -> Seq<nat> {
    seq![1, leaf, 2, 3]
}

/// The leaves of the sample credential tree: the credential leaf at index 1
/// among the fillers 11, 12 and 13.
pub open spec fn sample_credential_leaves(leaf: nat) -> Seq<nat> {
    seq![11, leaf, 12, 13]
}

/// The credential domain tag as a field element.
fn credential_domain_tag() -> (t: FieldElement)
    ensures
        t.wf(),
        t.value() == credential_tag(),
{
    fr_from_le_bytes_mod_order("UMBRA_CREDENTIAL_LEAF_V1".as_bytes())
}

fn hash3(a: &FieldElement, b: &FieldElement, c: &FieldElement) -> (h: FieldElement)
    requires
        a.wf(),
        b.wf(),
        c.wf(),
    ensures
        h.wf(),
        h.value() == poseidon_hash(three_input_params(), seq![a.value(), b.value(), c.value()]),
{
    let cfg = three_input_config();
    let mut v: Vec<FieldElement> = Vec::new();
    v.push(*a);
    v.push(*b);
    v.push(*c);
    proof { assert(values(v@) =~= seq![a.value(), b.value(), c.value()]); }
    poseidon_crh(&cfg, &v)
}

/// The 4-leaf tree of `leaves` with the target at index 1.
fn four_leaf_tree(l0: FieldElement, target: FieldElement, l2: FieldElement, l3: FieldElement)
    -> (r: (FieldElement, Vec<FieldElement>, Vec<bool>, FieldElement))
    requires
        l0.wf(),
        target.wf(),
        l2.wf(),
        l3.wf(),
    ensures
        r.0 == target,
        r.3.wf(),
        all_wf(r.1@),
        values(r.1@).len() == r.2@.len(),
        fold_path(node_params(), target.value(), values(r.1@), r.2@) == r.3.value(),
        r.3.value() == tree_root(node_params(), seq![l0.value(), target.value(), l2.value(), l3.value()]),
        values(r.1@) == tree_path(node_params(), seq![l0.value(), target.value(), l2.value(), l3.value()], 1),
        r.2@ == tree_dirs(4, 1),
{
    let mut leaves: Vec<FieldElement> = Vec::new();
    leaves.push(l0);
    leaves.push(target);
    leaves.push(l2);
    leaves.push(l3);
    proof {
        assert(is_pow2(4)) by { reveal_with_fuel(is_pow2, 3); }
        assert(all_wf(leaves@));
    }
    let r = build_tree(leaves.as_slice(), 1);
    proof {
        law_path_folds_to_root(node_params(), values(leaves@), 1);
        assert(values(leaves@) =~= seq![l0.value(), target.value(), l2.value(), l3.value()]);
    }
    r
}

/// Builds a self-consistent sample observation: the indicator tree over the
/// leaves `[1, leaf, 2, 3]` and the credential tree over `[11, credential
/// leaf, 12, 13]`, each with its target at index 1; their roots, the
/// nullifier, and a witness holding both index-1 paths. The statement holds
/// exactly when `credential_tier` and `min_tier` are tiers with
/// `credential_tier >= min_tier`.
pub fn sample_observation(
    indicator_hash: FieldElement,
    epoch: FieldElement,
    salt: FieldElement,
    credential_secret: FieldElement,
    credential_tier: FieldElement,
    min_tier: FieldElement,
) -> (s: SampleObservation)
    requires
        indicator_hash.wf(),
        epoch.wf(),
        salt.wf(),
        credential_secret.wf(),
        credential_tier.wf(),
        min_tier.wf(),
    ensures
        s.public@.indicator_hash == indicator_hash.value(),
        s.public@.epoch == epoch.value(),
        s.public@.min_tier == min_tier.value(),
        s.public@.nullifier == nullifier_of(credential_secret.value(), indicator_hash.value(), epoch.value()),
        s.public@.root == tree_root(node_params(), sample_indicator_leaves(
            indicator_leaf(indicator_hash.value(), epoch.value(), salt.value()))),
        s.public@.credential_root == tree_root(node_params(), sample_credential_leaves(
            credential_leaf(credential_secret.value(), credential_tier.value()))),
        s.public.wf(),
        s.circuit.public.wf(),
        all_wf(s.public_inputs_vec@),
        s.circuit.public@ == s.public@,
        values(s.public_inputs_vec@) == seq![
            s.public@.indicator_hash, s.public@.epoch, s.public@.root,
            s.public@.nullifier, s.public@.min_tier, s.public@.credential_root,
        ],
        s.circuit.witness matches Some(w) && {
            &&& w.wf()
            &&& w@.salt == salt.value()
            &&& w@.credential_secret == credential_secret.value()
            &&& w@.credential_tier == credential_tier.value()
            &&& w@.merkle_path == tree_path(node_params(), sample_indicator_leaves(
                indicator_leaf(indicator_hash.value(), epoch.value(), salt.value())), 1)
            &&& w@.path_directions == tree_dirs(4, 1)
            &&& w@.credential_merkle_path == tree_path(node_params(), sample_credential_leaves(
                credential_leaf(credential_secret.value(), credential_tier.value())), 1)
            &&& w@.credential_path_directions == tree_dirs(4, 1)
            &&& (statement_holds(s.public@, w@) <==> (valid_tier(credential_tier.value())
                && valid_tier(min_tier.value()) && credential_tier.value() >= min_tier.value()))
        },
{
    let leaf = hash3(&indicator_hash, &epoch, &salt);
    let (_, merkle_path, path_directions, root) = four_leaf_tree(fr_from_u64(1), leaf, fr_from_u64(2), fr_from_u64(3));

    let nullifier = hash3(&credential_secret, &indicator_hash, &epoch);

    let tag = credential_domain_tag();
    let credential_leaf_value = hash3(&credential_secret, &credential_tier, &tag);
    let (_, credential_merkle_path, credential_path_directions, credential_root) =
        four_leaf_tree(fr_from_u64(11), credential_leaf_value, fr_from_u64(12), fr_from_u64(13));

    let public = PublicInputs {
        indicator_hash,
        epoch,
        root,
        nullifier,
        min_tier,
        credential_root,
    };
    let mut public_inputs_vec: Vec<FieldElement> = Vec::new();
    public_inputs_vec.push(indicator_hash);
    public_inputs_vec.push(epoch);
    public_inputs_vec.push(root);
    public_inputs_vec.push(nullifier);
    public_inputs_vec.push(min_tier);
    public_inputs_vec.push(credential_root);

    let witness = Witness {
        salt,
        merkle_path,
        path_directions,
        credential_secret,
        credential_tier,
        credential_merkle_path,
        credential_path_directions,
    };
    proof {
        assert(values(public_inputs_vec@) =~= seq![
            public@.indicator_hash, public@.epoch, public@.root,
            public@.nullifier, public@.min_tier, public@.credential_root,
        ]);
        if valid_tier(credential_tier.value()) && valid_tier(min_tier.value()) {
            law_tier_gate(credential_tier.value(), min_tier.value());
        }
        assert(statement_holds(public@, witness@) <==> (valid_tier(credential_tier.value())
            && valid_tier(min_tier.value()) && valid_tier(field_sub(credential_tier.value(), min_tier.value()))));
    }
    SampleObservation {
        circuit: ProofOfObservationCircuit { public, witness: Some(witness) },
        public,
        public_inputs_vec,
    }
}

} // verus!

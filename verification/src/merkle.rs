//! Binary Merkle trees over Poseidon two-to-one compression: building a
//! tree natively, and the path a prover needs for one leaf.

use vstd::prelude::*;
use crate::field::FieldElement;
use crate::poseidon::{
    PoseidonParams, PoseidonParamsView, poseidon_compress, poseidon_two_to_one, merkle_node_config,
    node_params, values, all_wf,
};

verus! {

/// `n` is a power of two (1, 2, 4, ...).
pub open spec fn is_pow2(n: nat) -> bool
    decreases n,
{
    if n == 1 {
        true
    } else if n == 0 || n % 2 == 1 {
        false
    } else {
        is_pow2(n / 2)
    }
}

/// The level above `level`: each pair of neighbours compressed.
pub open spec fn next_level(p: PoseidonParamsView, level: Seq<nat>) -> Seq<nat> {
    Seq::new(level.len() / 2, |i: int| poseidon_compress(p, level[2 * i], level[2 * i + 1]))
}

/// The root of the tree whose bottom level is `level`.
pub open spec fn tree_root(p: PoseidonParamsView, level: Seq<nat>) -> nat
    decreases level.len(),
{
    if level.len() <= 1 {
        level[0]
    } else {
        tree_root(p, next_level(p, level))
    }
}

/// The siblings on the way from leaf `idx` to the root, leaf's sibling first.
pub open spec fn tree_path(p: PoseidonParamsView, level: Seq<nat>, idx: nat) -> Seq<nat>
    decreases level.len(),
{
    if level.len() <= 1 {
        Seq::empty()
    } else {
        let sibling: int = if idx % 2 == 1 { idx - 1 } else { idx + 1 as int };
        seq![level[sibling]] + tree_path(p, next_level(p, level), idx / 2)
    }
}

/// The direction bits on the way from leaf `idx` of a level of `n` nodes to
/// the root: `true` where the current node is the right child.
pub open spec fn tree_dirs(n: nat, idx: nat) -> Seq<bool>
    decreases n,
{
    if n <= 1 {
        Seq::empty()
    } else {
        seq![idx % 2 == 1] + tree_dirs(n / 2, idx / 2)
    }
}

/// A leaf folded up a path: at each step the current node is compressed with
/// its sibling, as the right input when the direction bit is set.
pub open spec fn fold_path(p: PoseidonParamsView, leaf: nat, path: Seq<nat>, dirs: Seq<bool>) -> nat
    decreases path.len(),
{
    if path.len() == 0 || dirs.len() == 0 {
        leaf
    } else {
        let cur = if dirs[0] { poseidon_compress(p, path[0], leaf) } else { poseidon_compress(p, leaf, path[0]) };
        fold_path(p, cur, path.drop_first(), dirs.drop_first())
    }
}

/// Folding a leaf up the path the tree gives for it yields the tree's root:
/// the path and direction bits that `build_tree` returns are an inclusion
/// proof of that leaf.
pub proof fn law_path_folds_to_root(p: PoseidonParamsView, level: Seq<nat>, idx: nat)
    requires
        is_pow2(level.len()),
        idx < level.len(),
    ensures
        fold_path(p, level[idx as int], tree_path(p, level, idx), tree_dirs(level.len(), idx)) == tree_root(p, level),
        tree_path(p, level, idx).len() == tree_dirs(level.len(), idx).len(),
    decreases level.len(),
{
    if level.len() > 1 {
        let next = next_level(p, level);
        let path = tree_path(p, level, idx);
        let dirs = tree_dirs(level.len(), idx);
        let j = idx / 2;
        assert(next.len() == level.len() / 2);
        assert(j < next.len());
        if idx % 2 == 1 {
            assert(2 * j + 1 == idx);
        } else {
            assert(2 * j == idx);
        }
        assert(next[j as int] == poseidon_compress(p, level[2 * j as int], level[2 * j as int + 1]));
        law_path_folds_to_root(p, next, j);
        assert(path.drop_first() =~= tree_path(p, next, j));
        assert(dirs.drop_first() =~= tree_dirs(next.len(), j));
    }
}

proof fn lemma_pow2_half(n: nat)
    requires
        is_pow2(n),
        n > 1,
    ensures
        is_pow2(n / 2),
        n % 2 == 0,
        n / 2 < n,
{
}

/// Builds a Merkle tree over `leaves` and returns what a prover needs for
/// leaf `target_index`: the leaf, its sibling path (leaf's sibling first),
/// the direction bits, and the root.
pub fn build_tree(leaves: &[FieldElement], target_index: usize) -> (r: (FieldElement, Vec<FieldElement>, Vec<bool>, FieldElement))
    requires
        is_pow2(leaves@.len()),
        target_index < leaves@.len(),
        all_wf(leaves@),
    ensures
        r.0 == leaves@[target_index as int],
        values(r.1@) == tree_path(node_params(), values(leaves@), target_index as nat),
        r.2@ == tree_dirs(leaves@.len(), target_index as nat),
        r.3.value() == tree_root(node_params(), values(leaves@)),
        all_wf(r.1@),
        r.3.wf(),
{
    let cfg = merkle_node_config();
    let ghost p = node_params();
    let ghost leaf_values = values(leaves@);
    let mut level: Vec<FieldElement> = vstd::slice::slice_to_vec(leaves);
    let mut index: usize = target_index;
    let mut path: Vec<FieldElement> = Vec::new();
    let mut dirs: Vec<bool> = Vec::new();
    proof {
        assert(level@ == leaves@);
        assert(values(path@) + tree_path(p, values(level@), index as nat) =~= tree_path(p, leaf_values, target_index as nat));
        assert(dirs@ + tree_dirs(level@.len(), index as nat) =~= tree_dirs(leaves@.len(), target_index as nat));
    }
    while level.len() > 1
        invariant
            cfg.well_shaped(),
            cfg@ == p,
            is_pow2(level@.len()),
            index < level@.len(),
            all_wf(level@),
            all_wf(path@),
            tree_root(p, values(level@)) == tree_root(p, leaf_values),
            values(path@) + tree_path(p, values(level@), index as nat) == tree_path(p, leaf_values, target_index as nat),
            dirs@ + tree_dirs(level@.len(), index as nat) == tree_dirs(leaves@.len(), target_index as nat),
        decreases level@.len(),
    {
        proof { lemma_pow2_half(level@.len()); }
        let len_level = level.len();
        let half = len_level / 2;
        let mut next: Vec<FieldElement> = Vec::new();
        let mut j: usize = 0;
        while j < half
            invariant
                cfg.well_shaped(),
                cfg@ == p,
                half * 2 == level@.len(),
                len_level == level@.len(),
                all_wf(level@),
                j <= half,
                all_wf(next@),
                values(next@) == next_level(p, values(level@)).take(j as int),
            decreases half - j,
        {
            let l = level[2 * j];
            let r = level[2 * j + 1];
            let c = poseidon_two_to_one(&cfg, &l, &r);
            let ghost before = values(next@);
            next.push(c);
            proof {
                let vl = values(level@);
                assert(vl[2 * j as int] == l.value());
                assert(vl[2 * j as int + 1] == r.value());
                assert(next_level(p, vl)[j as int] == c.value());
                assert(values(next@) =~= before.push(c.value()));
                assert(values(next@) =~= next_level(p, vl).take(j + 1));
            }
            j = j + 1;
        }
        let is_right = index % 2 == 1;
        let sibling_index = if is_right { index - 1 } else { index + 1 };
        let ghost old_level = values(level@);
        let ghost old_index = index;
        let ghost old_path = values(path@);
        let ghost old_dirs = dirs@;
        path.push(level[sibling_index]);
        dirs.push(is_right);
        proof {
            assert(next_level(p, old_level).take(half as int) =~= next_level(p, old_level));
            assert(values(next@) == next_level(p, old_level));
            assert(values(path@) =~= old_path.push(old_level[sibling_index as int]));
            assert(tree_path(p, old_level, old_index as nat)
                == seq![old_level[sibling_index as int]] + tree_path(p, values(next@), (old_index / 2) as nat));
            assert(values(path@) + tree_path(p, values(next@), (old_index / 2) as nat)
                =~= old_path + tree_path(p, old_level, old_index as nat));
            assert(dirs@ + tree_dirs(next@.len(), (old_index / 2) as nat)
                =~= old_dirs + tree_dirs(level@.len(), old_index as nat));
        }
        level = next;
        index = index / 2;
    }
    proof {
        assert(values(path@) =~= values(path@) + tree_path(p, values(level@), index as nat));
        assert(dirs@ =~= dirs@ + tree_dirs(level@.len(), index as nat));
        assert(index == 0);
    }
    let root = level[0];
    (leaves[target_index], path, dirs, root)
}

} // verus!

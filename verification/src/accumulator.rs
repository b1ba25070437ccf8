//! Aggregate confidence scoring:
//! `confidence(X, E)` is the sum of `tier_weight(N_i)` over valid proofs for
//! indicator X in epoch E whose nullifiers were not seen before.
//!
//! Proofs are assumed to have been verified already; this module rejects
//! replayed nullifiers and folds tier-weighted counts into per-(indicator,
//! epoch) scores. It does no I/O and owns no persistence: the set of seen
//! nullifiers is threaded in by the caller.

use vstd::prelude::*;
use crate::tables::{ScoreKey, ScoreTable, StringSet};

verus! {

/// How many points a proof at a given tier contributes (tiers 0 to 3).
#[derive(Debug, Clone)]
pub struct TierWeights {
    weights: [u32; 4],
}

impl View for TierWeights {
    type V = Seq<u32>;

    closed spec fn view(&self) -> Seq<u32> {
        self.weights@
    }
}

/// The weight of `tier` under the weights `w`: 0 for a tier outside 0 to 3.
pub open spec fn tier_weight(w: Seq<u32>, tier: u8) -> nat {
    if tier < 4 && (tier as int) < w.len() {
        w[tier as int] as nat
    } else {
        0
    }
}

impl TierWeights {
    /// The default policy: 1, 2, 4 and 8 points for tiers 0 to 3.
    pub fn default_weights() -> (w: TierWeights)
        ensures
            w@ == seq![1u32, 2u32, 4u32, 8u32],
    {
        let w = TierWeights { weights: [1, 2, 4, 8] };
        assert(w@ =~= seq![1u32, 2u32, 4u32, 8u32]);
        w
    }

    /// A policy with the given weights for tiers 0 to 3.
    pub fn new(weights: [u32; 4]) -> (w: TierWeights)
        ensures
            w@ == weights@,
    {
        TierWeights { weights }
    }

    /// The weight of `tier`; 0 for a tier outside 0 to 3, rather than a panic.
    pub fn weight_for(&self, tier: u8) -> (r: u32)
        ensures
            r == tier_weight(self@, tier),
            self@.len() == 4,
    {
        if tier < 4 {
            self.weights[tier as usize]
        } else {
            0
        }
    }
}

impl Default for TierWeights {
    fn default() -> (w: TierWeights)
        ensures
            w@ == seq![1u32, 2u32, 4u32, 8u32],
    {
        TierWeights::default_weights()
    }
}

/// The claims of a proof that was already verified cryptographically.
#[derive(Debug, Clone, PartialEq, Eq, Hash)]
pub struct VerifiedObservation {
    pub indicator_hash: String,
    pub epoch: u64,
    pub nullifier: String,
    pub tier: u8,
}

/// The claims of an observation, as values.
pub struct ObservationView {
    pub indicator_hash: Seq<char>,
    pub epoch: u64,
    pub nullifier: Seq<char>,
    pub tier: u8,
}

impl View for VerifiedObservation {
    type V = ObservationView;

    open spec fn view(&self) -> ObservationView {
        ObservationView {
            indicator_hash: self.indicator_hash@,
            epoch: self.epoch,
            nullifier: self.nullifier@,
            tier: self.tier,
        }
    }
}

impl VerifiedObservation {
    /// A copy with the same claims.
    pub fn duplicate(&self) -> (r: VerifiedObservation)
        ensures
            r@ == self@,
    {
        VerifiedObservation {
            indicator_hash: self.indicator_hash.clone(),
            epoch: self.epoch,
            nullifier: self.nullifier.clone(),
            tier: self.tier,
        }
    }
}

/// The views of a batch of observations.
pub open spec fn views(obs: Seq<VerifiedObservation>) -> Seq<ObservationView> {
    obs.map_values(|o: VerifiedObservation| o@)
}

/// The state of an accumulation: nullifiers seen, scores, and rejected replays.
pub struct AccState {
    pub seen: Set<Seq<char>>,
    pub scores: Map<ScoreKey, nat>,
    pub rejected: Seq<ObservationView>,
}

/// The score under `k`, 0 when absent.
pub open spec fn score_of(m: Map<ScoreKey, nat>, k: ScoreKey) -> nat {
    if m.contains_key(k) { m[k] } else { 0 }
}

/// One observation folded into the state.
pub open spec fn step(st: AccState, o: ObservationView, w: Seq<u32>) -> AccState {
    if st.seen.contains(o.nullifier) {
        AccState { seen: st.seen, scores: st.scores, rejected: st.rejected.push(o) }
    } else {
        let k = (o.indicator_hash, o.epoch);
        AccState {
            seen: st.seen.insert(o.nullifier),
            scores: st.scores.insert(k, score_of(st.scores, k) + tier_weight(w, o.tier)),
            rejected: st.rejected,
        }
    }
}

/// A batch folded, in input order, into the state that starts from `seen`.
pub open spec fn accumulate_from(st: AccState, obs: Seq<ObservationView>, w: Seq<u32>) -> AccState
    decreases obs.len(),
{
    if obs.len() == 0 {
        st
    } else {
        step(accumulate_from(st, obs.drop_last(), w), obs.last(), w)
    }
}

/// The state before any observation of a batch: the caller's seen set.
pub open spec fn start(seen: Set<Seq<char>>) -> AccState {
    AccState { seen: seen, scores: Map::empty(), rejected: Seq::empty() }
}

/// What `accumulate` computes from a batch, a seen set and weights.
pub open spec fn accumulate_spec(obs: Seq<ObservationView>, seen: Set<Seq<char>>, w: Seq<u32>) -> AccState {
    accumulate_from(start(seen), obs, w)
}

/// Every score of the batch fits in a `u32`.
pub open spec fn scores_fit(obs: Seq<ObservationView>, seen: Set<Seq<char>>, w: Seq<u32>) -> bool {
    forall|k: ScoreKey| #[trigger] score_of(accumulate_spec(obs, seen, w).scores, k) <= u32::MAX
}

/// The table's scores, as natural numbers.
pub open spec fn table_scores(m: Map<ScoreKey, u32>) -> Map<ScoreKey, nat> {
    Map::new(|k: ScoreKey| m.contains_key(k), |k: ScoreKey| m[k] as nat)
}

/// Scores never decrease along a batch.
proof fn lemma_scores_grow(st: AccState, obs: Seq<ObservationView>, w: Seq<u32>, i: int, k: ScoreKey)
    requires
        0 <= i <= obs.len(),
    ensures
        score_of(accumulate_from(st, obs.take(i), w).scores, k)
            <= score_of(accumulate_from(st, obs, w).scores, k),
    decreases obs.len() - i,
{
    if i < obs.len() {
        lemma_scores_grow(st, obs, w, i + 1, k);
        assert(obs.take(i + 1).drop_last() =~= obs.take(i));
    } else {
        assert(obs.take(i) =~= obs);
    }
}

/// The result of accumulating one batch.
pub struct AccumulationResult {
    pub scores: ScoreTable,
    pub rejected_replays: Vec<VerifiedObservation>,
}

/// Folds a batch of verified observations into per-(indicator, epoch) scores.
///
/// Replay detection follows input order: of observations sharing a
/// nullifier, only the first counts, and every later one, as well as every
/// observation whose nullifier is already in `seen_nullifiers`, is reported
/// in `rejected_replays`. `seen_nullifiers` gains every nullifier counted.
pub fn accumulate(
    observations: &[VerifiedObservation],
    seen_nullifiers: &mut StringSet,
    weights: &TierWeights,
) -> (result: AccumulationResult)
    requires
        old(seen_nullifiers).wf(),
        scores_fit(views(observations@), old(seen_nullifiers)@, weights@),
    ensures
        final(seen_nullifiers).wf(),
        result.scores.wf(),
        final(seen_nullifiers)@ == accumulate_spec(views(observations@), old(seen_nullifiers)@, weights@).seen,
        table_scores(result.scores@) == accumulate_spec(views(observations@), old(seen_nullifiers)@, weights@).scores,
        views(result.rejected_replays@) == accumulate_spec(views(observations@), old(seen_nullifiers)@, weights@).rejected,
{
    let ghost obs = views(observations@);
    let ghost s0 = start(old(seen_nullifiers)@);
    let mut scores = ScoreTable::new();
    let mut rejected: Vec<VerifiedObservation> = Vec::new();
    let mut i: usize = 0;
    proof {
        assert(obs.take(0) =~= Seq::<ObservationView>::empty());
        assert(table_scores(scores@) =~= Map::<ScoreKey, nat>::empty());
        assert(views(rejected@) =~= Seq::<ObservationView>::empty());
    }
    while i < observations.len()
        invariant
            i <= observations@.len(),
            obs == views(observations@),
            s0 == start(old(seen_nullifiers)@),
            scores_fit(obs, old(seen_nullifiers)@, weights@),
            seen_nullifiers.wf(),
            scores.wf(),
            seen_nullifiers@ == accumulate_from(s0, obs.take(i as int), weights@).seen,
            table_scores(scores@) == accumulate_from(s0, obs.take(i as int), weights@).scores,
            views(rejected@) == accumulate_from(s0, obs.take(i as int), weights@).rejected,
        decreases observations@.len() - i,
    {
        let o = &observations[i];
        let ghost before = accumulate_from(s0, obs.take(i as int), weights@);
        proof {
            assert(obs.take(i + 1).drop_last() =~= obs.take(i as int));
            assert(obs.take(i + 1).last() == o@);
        }
        if seen_nullifiers.contains(&o.nullifier) {
            rejected.push(o.duplicate());
            proof {
                assert(views(rejected@) =~= before.rejected.push(o@));
            }
        } else {
            let w = weights.weight_for(o.tier);
            let ghost k = (o.indicator_hash@, o.epoch);
            proof {
                lemma_scores_grow(s0, obs, weights@, i + 1, k);
                assert(score_of(accumulate_from(s0, obs.take(i + 1), weights@).scores, k)
                    == score_of(before.scores, k) + w);
                assert(score_of(accumulate_spec(obs, old(seen_nullifiers)@, weights@).scores, k) <= u32::MAX);
                assert(scores@.contains_key(k) ==> scores@[k] as nat == before.scores[k]);
            }
            scores.add(&o.indicator_hash, o.epoch, w);
            seen_nullifiers.insert(o.nullifier.clone());
            proof {
                let after = accumulate_from(s0, obs.take(i + 1), weights@);
                assert(table_scores(scores@) =~= after.scores);
            }
        }
        i = i + 1;
    }
    proof {
        assert(obs.take(observations@.len() as int) =~= obs);
    }
    AccumulationResult { scores, rejected_replays: rejected }
}

// ---------------------------------------------------------------------------
// Laws

/// Scores of two maps added key by key.
pub open spec fn add_scores(a: Map<ScoreKey, nat>, b: Map<ScoreKey, nat>) -> Map<ScoreKey, nat> {
    Map::new(
        |k: ScoreKey| a.contains_key(k) || b.contains_key(k),
        |k: ScoreKey| score_of(a, k) + score_of(b, k),
    )
}

proof fn lemma_concat_from(st: AccState, a: Seq<ObservationView>, b: Seq<ObservationView>, w: Seq<u32>)
    ensures
        accumulate_from(st, a + b, w) == accumulate_from(accumulate_from(st, a, w), b, w),
    decreases b.len(),
{
    if b.len() == 0 {
        assert(a + b =~= a);
    } else {
        assert((a + b).drop_last() =~= a + b.drop_last());
        assert((a + b).last() == b.last());
        lemma_concat_from(st, a, b.drop_last(), w);
    }
}

/// Folding from a state with extra scores only adds those scores.
proof fn lemma_shift_scores(st: AccState, extra: Map<ScoreKey, nat>, b: Seq<ObservationView>, w: Seq<u32>)
    ensures
        accumulate_from(AccState { seen: st.seen, scores: add_scores(extra, st.scores), rejected: st.rejected }, b, w)
            == (AccState {
                seen: accumulate_from(st, b, w).seen,
                scores: add_scores(extra, accumulate_from(st, b, w).scores),
                rejected: accumulate_from(st, b, w).rejected,
            }),
    decreases b.len(),
{
    if b.len() > 0 {
        lemma_shift_scores(st, extra, b.drop_last(), w);
        let p = accumulate_from(st, b.drop_last(), w);
        let o = b.last();
        if !p.seen.contains(o.nullifier) {
            let k = (o.indicator_hash, o.epoch);
            let lhs = add_scores(extra, p.scores).insert(k, score_of(add_scores(extra, p.scores), k) + tier_weight(w, o.tier));
            let rhs = add_scores(extra, p.scores.insert(k, score_of(p.scores, k) + tier_weight(w, o.tier)));
            assert(lhs =~= rhs);
        }
    } else {
        let _ = 0int;
    }
}

/// Splitting a batch into two consecutive calls that share one seen set
/// gives the same seen set, the same rejected replays (in order) and, key
/// by key, the sum of the two calls' scores as one call on the whole batch.
pub proof fn law_batches_compose(a: Seq<ObservationView>, b: Seq<ObservationView>, seen: Set<Seq<char>>, w: Seq<u32>)
    ensures
        ({
            let first = accumulate_spec(a, seen, w);
            let second = accumulate_spec(b, first.seen, w);
            let whole = accumulate_spec(a + b, seen, w);
            &&& whole.seen == second.seen
            &&& whole.rejected == first.rejected + second.rejected
            &&& whole.scores == add_scores(first.scores, second.scores)
        }),
{
    let first = accumulate_spec(a, seen, w);
    lemma_concat_from(start(seen), a, b, w);
    let base = AccState { seen: first.seen, scores: Map::empty(), rejected: Seq::empty() };
    let shifted = AccState { seen: first.seen, scores: add_scores(first.scores, base.scores), rejected: Seq::empty() };
    assert(add_scores(first.scores, Map::<ScoreKey, nat>::empty()) =~= first.scores);
    lemma_shift_scores(base, first.scores, b, w);
    lemma_rejected_prefix(AccState { seen: first.seen, scores: first.scores, rejected: Seq::empty() }, first.rejected, b, w);
    assert(accumulate_from(first, b, w).rejected =~= first.rejected + accumulate_spec(b, first.seen, w).rejected);
}

/// Folding from a state with earlier rejections keeps them in front.
proof fn lemma_rejected_prefix(st: AccState, pre: Seq<ObservationView>, b: Seq<ObservationView>, w: Seq<u32>)
    requires
        st.rejected == Seq::<ObservationView>::empty(),
    ensures
        accumulate_from(AccState { seen: st.seen, scores: st.scores, rejected: pre }, b, w)
            == (AccState {
                seen: accumulate_from(st, b, w).seen,
                scores: accumulate_from(st, b, w).scores,
                rejected: pre + accumulate_from(st, b, w).rejected,
            }),
    decreases b.len(),
{
    if b.len() > 0 {
        lemma_rejected_prefix(st, pre, b.drop_last(), w);
        let p = accumulate_from(st, b.drop_last(), w);
        assert((pre + p.rejected).push(b.last()) =~= pre + p.rejected.push(b.last()));
    } else {
        assert(pre + Seq::<ObservationView>::empty() =~= pre);
    }
}

/// Every nullifier of the batch is in the seen set afterwards.
proof fn lemma_all_seen(st: AccState, obs: Seq<ObservationView>, w: Seq<u32>)
    ensures
        st.seen.subset_of(accumulate_from(st, obs, w).seen),
        forall|i: int| 0 <= i < obs.len() ==> accumulate_from(st, obs, w).seen.contains(#[trigger] obs[i].nullifier),
    decreases obs.len(),
{
    if obs.len() > 0 {
        lemma_all_seen(st, obs.drop_last(), w);
        assert forall|i: int| 0 <= i < obs.len() implies accumulate_from(st, obs, w).seen.contains(#[trigger] obs[i].nullifier) by {
            if i < obs.len() - 1 {
                assert(obs.drop_last()[i] == obs[i]);
            }
        }
    }
}

/// Folding a batch whose every nullifier is already seen rejects all of it.
proof fn lemma_all_rejected(st: AccState, obs: Seq<ObservationView>, w: Seq<u32>)
    requires
        forall|i: int| 0 <= i < obs.len() ==> st.seen.contains(#[trigger] obs[i].nullifier),
    ensures
        accumulate_from(st, obs, w) == (AccState { seen: st.seen, scores: st.scores, rejected: st.rejected + obs }),
    decreases obs.len(),
{
    if obs.len() > 0 {
        assert forall|i: int| 0 <= i < obs.drop_last().len() implies st.seen.contains(#[trigger] obs.drop_last()[i].nullifier) by {
            assert(obs.drop_last()[i] == obs[i]);
        }
        lemma_all_rejected(st, obs.drop_last(), w);
        assert(st.rejected + obs =~= (st.rejected + obs.drop_last()).push(obs.last()));
    } else {
        assert(st.rejected + obs =~= st.rejected);
    }
}

/// Replaying a batch against the seen set it left behind counts nothing:
/// every observation is rejected, no score is produced, and the seen set
/// stays as it was.
pub proof fn law_replayed_batch_scores_nothing(obs: Seq<ObservationView>, seen: Set<Seq<char>>, w: Seq<u32>)
    ensures
        ({
            let first = accumulate_spec(obs, seen, w);
            let again = accumulate_spec(obs, first.seen, w);
            &&& again.scores == Map::<ScoreKey, nat>::empty()
            &&& again.rejected == obs
            &&& again.seen == first.seen
        }),
{
    let first = accumulate_spec(obs, seen, w);
    lemma_all_seen(start(seen), obs, w);
    lemma_all_rejected(start(first.seen), obs, w);
    assert(Seq::<ObservationView>::empty() + obs =~= obs);
}

/// A nullifier already seen never adds to any score: the batch's scores
/// equal those of the same batch with that observation left out, and the
/// observation is reported as rejected.
pub proof fn law_seen_nullifier_counts_nothing(obs: Seq<ObservationView>, seen: Set<Seq<char>>, w: Seq<u32>, o: ObservationView)
    requires
        seen.contains(o.nullifier),
    ensures
        accumulate_spec(seq![o] + obs, seen, w).scores == accumulate_spec(obs, seen, w).scores,
        accumulate_spec(seq![o] + obs, seen, w).rejected == seq![o] + accumulate_spec(obs, seen, w).rejected,
{
    lemma_concat_from(start(seen), seq![o], obs, w);
    assert(seq![o].drop_last() =~= Seq::<ObservationView>::empty());
    assert(seq![o].last() == o);
    assert(accumulate_from(start(seen), Seq::<ObservationView>::empty(), w) == start(seen));
    assert(Seq::<ObservationView>::empty().push(o) =~= seq![o]);
    let after_o = accumulate_from(start(seen), seq![o], w);
    assert(after_o == (AccState { seen: seen, scores: Map::empty(), rejected: seq![o] }));
    lemma_rejected_prefix(start(seen), seq![o], obs, w);
}

/// A batch of observations whose nullifiers are pairwise distinct and none
/// of them already seen: nothing in it is a replay.
pub open spec fn fresh_batch(obs: Seq<ObservationView>, seen: Set<Seq<char>>) -> bool {
    &&& forall|i: int| 0 <= i < obs.len() ==> !seen.contains(#[trigger] obs[i].nullifier)
    &&& forall|i: int, j: int| 0 <= i < obs.len() && 0 <= j < obs.len() && i != j
        ==> #[trigger] obs[i].nullifier != #[trigger] obs[j].nullifier
}

/// The summed weights of the observations of a batch under key `k`.
pub open spec fn weight_sum(obs: Seq<ObservationView>, k: ScoreKey, w: Seq<u32>) -> nat
    decreases obs.len(),
{
    if obs.len() == 0 {
        0
    } else {
        weight_sum(obs.drop_last(), k, w) + (if (obs.last().indicator_hash, obs.last().epoch) == k {
            tier_weight(w, obs.last().tier)
        } else {
            0
        })
    }
}

/// Some observation of the batch has key `k`.
pub open spec fn has_key(obs: Seq<ObservationView>, k: ScoreKey) -> bool {
    exists|i: int| 0 <= i < obs.len() && (#[trigger] obs[i].indicator_hash, obs[i].epoch) == k
}

/// Some observation of the batch has nullifier `n`.
pub open spec fn has_nullifier(obs: Seq<ObservationView>, n: Seq<char>) -> bool {
    exists|i: int| 0 <= i < obs.len() && (#[trigger] obs[i].nullifier) == n
}

/// A fresh batch scores each key with the summed weights of its
/// observations, rejects nothing, and adds every nullifier to the seen set.
proof fn lemma_fresh_batch(obs: Seq<ObservationView>, seen: Set<Seq<char>>, w: Seq<u32>)
    requires
        fresh_batch(obs, seen),
    ensures
        accumulate_spec(obs, seen, w).rejected == Seq::<ObservationView>::empty(),
        forall|n: Seq<char>| #[trigger] accumulate_spec(obs, seen, w).seen.contains(n)
            <==> (seen.contains(n) || has_nullifier(obs, n)),
        forall|k: ScoreKey| #[trigger] score_of(accumulate_spec(obs, seen, w).scores, k) == weight_sum(obs, k, w),
        forall|k: ScoreKey| #[trigger] accumulate_spec(obs, seen, w).scores.contains_key(k) <==> has_key(obs, k),
    decreases obs.len(),
{
    if obs.len() > 0 {
        let pre = obs.drop_last();
        let o = obs.last();
        assert(fresh_batch(pre, seen)) by {
            assert forall|i: int, j: int| 0 <= i < pre.len() && 0 <= j < pre.len() && i != j
                implies #[trigger] pre[i].nullifier != #[trigger] pre[j].nullifier by {
                assert(obs[i] == pre[i] && obs[j] == pre[j]);
            }
            assert forall|i: int| 0 <= i < pre.len() implies !seen.contains(#[trigger] pre[i].nullifier) by {
                assert(obs[i] == pre[i]);
            }
        }
        lemma_fresh_batch(pre, seen, w);
        let st = accumulate_spec(pre, seen, w);
        assert(!seen.contains(obs[obs.len() - 1].nullifier));
        assert(!has_nullifier(pre, o.nullifier)) by {
            if has_nullifier(pre, o.nullifier) {
                let i = choose|i: int| 0 <= i < pre.len() && (#[trigger] pre[i].nullifier) == o.nullifier;
                assert(obs[i].nullifier == obs[obs.len() - 1].nullifier);
            }
        }
        assert(!st.seen.contains(o.nullifier));
        let k0 = (o.indicator_hash, o.epoch);
        assert(accumulate_spec(obs, seen, w) == step(st, o, w));
        assert forall|n: Seq<char>| #[trigger] accumulate_spec(obs, seen, w).seen.contains(n)
            <==> (seen.contains(n) || has_nullifier(obs, n)) by {
            if has_nullifier(pre, n) {
                let i = choose|i: int| 0 <= i < pre.len() && (#[trigger] pre[i].nullifier) == n;
                assert(obs[i] == pre[i]);
            }
            if has_nullifier(obs, n) {
                let i = choose|i: int| 0 <= i < obs.len() && (#[trigger] obs[i].nullifier) == n;
                if i < obs.len() - 1 {
                    assert(pre[i] == obs[i]);
                }
            }
        }
        assert forall|k: ScoreKey| #[trigger] score_of(accumulate_spec(obs, seen, w).scores, k) == weight_sum(obs, k, w) by {
            assert(score_of(st.scores, k) == weight_sum(pre, k, w));
        }
        assert forall|k: ScoreKey| #[trigger] accumulate_spec(obs, seen, w).scores.contains_key(k)
            <==> has_key(obs, k) by {
            if has_key(pre, k) {
                let i = choose|i: int| 0 <= i < pre.len() && (#[trigger] pre[i].indicator_hash, pre[i].epoch) == k;
                assert(obs[i] == pre[i]);
            }
            if has_key(obs, k) {
                let i = choose|i: int| 0 <= i < obs.len() && (#[trigger] obs[i].indicator_hash, obs[i].epoch) == k;
                if i < obs.len() - 1 {
                    assert(pre[i] == obs[i]);
                }
            }
            if k == k0 {
                assert((obs[obs.len() - 1].indicator_hash, obs[obs.len() - 1].epoch) == k);
            }
        }
    }
}

/// The summed weights of a batch do not depend on its order: removing one
/// observation removes its weight.
proof fn lemma_weight_sum_remove(obs: Seq<ObservationView>, i: int, k: ScoreKey, w: Seq<u32>)
    requires
        0 <= i < obs.len(),
    ensures
        weight_sum(obs, k, w) == weight_sum(obs.remove(i), k, w) + (if (obs[i].indicator_hash, obs[i].epoch) == k {
            tier_weight(w, obs[i].tier)
        } else {
            0
        }),
    decreases obs.len(),
{
    if i < obs.len() - 1 {
        lemma_weight_sum_remove(obs.drop_last(), i, k, w);
        assert(obs.remove(i).drop_last() =~= obs.drop_last().remove(i));
        assert(obs.remove(i).last() == obs.last());
    } else {
        assert(obs.remove(i) =~= obs.drop_last());
    }
}

proof fn lemma_weight_sum_permutation(a: Seq<ObservationView>, b: Seq<ObservationView>, k: ScoreKey, w: Seq<u32>)
    requires
        a.to_multiset() == b.to_multiset(),
    ensures
        weight_sum(a, k, w) == weight_sum(b, k, w),
    decreases a.len(),
{
    broadcast use vstd::seq_lib::group_to_multiset_ensures;
    if a.len() == 0 {
        assert(b.len() == 0) by {
            assert(a.to_multiset().len() == 0);
        }
    } else {
        let x = a.last();
        assert(a.drop_last().push(x) =~= a);
        assert(a.to_multiset().count(x) > 0);
        assert(b.contains(x));
        let j = choose|j: int| 0 <= j < b.len() && b[j] == x;
        assert(b.remove(j).to_multiset() == b.to_multiset().remove(x));
        assert(a.drop_last().to_multiset() =~= a.to_multiset().remove(x)) by {
            broadcast use vstd::multiset::group_multiset_axioms;
        }
        lemma_weight_sum_permutation(a.drop_last(), b.remove(j), k, w);
        lemma_weight_sum_remove(b, j, k, w);
    }
}

/// The same elements are in both sequences.
proof fn lemma_permutation_contains(a: Seq<ObservationView>, b: Seq<ObservationView>, x: ObservationView)
    requires
        a.to_multiset() == b.to_multiset(),
    ensures
        a.contains(x) <==> b.contains(x),
{
    vstd::seq_lib::to_multiset_contains(a, x);
    vstd::seq_lib::to_multiset_contains(b, x);
}

/// A reordering of a fresh batch is fresh.
proof fn lemma_permutation_fresh(a: Seq<ObservationView>, b: Seq<ObservationView>, seen: Set<Seq<char>>)
    requires
        fresh_batch(a, seen),
        a.to_multiset() == b.to_multiset(),
    ensures
        fresh_batch(b, seen),
{
    assert(a.no_duplicates()) by {
        assert forall|i: int, j: int| 0 <= i < a.len() && 0 <= j < a.len() && i != j implies a[i] != a[j] by {
            assert(a[i].nullifier != a[j].nullifier);
        }
    }
    a.lemma_multiset_has_no_duplicates();
    b.lemma_multiset_has_no_duplicates_conv();
    assert forall|i: int| 0 <= i < b.len() implies !seen.contains(#[trigger] b[i].nullifier) by {
        lemma_permutation_contains(a, b, b[i]);
        assert(b.contains(b[i]));
        let i2 = choose|i2: int| 0 <= i2 < a.len() && a[i2] == b[i];
        assert(!seen.contains(a[i2].nullifier));
    }
    assert forall|i: int, j: int| 0 <= i < b.len() && 0 <= j < b.len() && i != j
        implies #[trigger] b[i].nullifier != #[trigger] b[j].nullifier by {
        lemma_permutation_contains(a, b, b[i]);
        lemma_permutation_contains(a, b, b[j]);
        assert(b.contains(b[i]));
        assert(b.contains(b[j]));
        let i2 = choose|i2: int| 0 <= i2 < a.len() && a[i2] == b[i];
        let j2 = choose|j2: int| 0 <= j2 < a.len() && a[j2] == b[j];
        assert(b[i] != b[j]);
        assert(i2 != j2);
        assert(a[i2].nullifier != a[j2].nullifier);
    }
}

/// A batch of fresh observations (distinct nullifiers, none seen before)
/// scores the same in any order: reordering it gives the same scores, the
/// same seen set, and no rejected replays either way; and its scores fit in
/// a `u32`, as `accumulate` asks, in one order exactly when in the other.
pub proof fn law_fresh_batch_order_is_irrelevant(
    obs: Seq<ObservationView>,
    perm: Seq<ObservationView>,
    seen: Set<Seq<char>>,
    w: Seq<u32>,
)
    requires
        fresh_batch(obs, seen),
        perm.to_multiset() == obs.to_multiset(),
    ensures
        accumulate_spec(obs, seen, w).scores == accumulate_spec(perm, seen, w).scores,
        accumulate_spec(obs, seen, w).seen == accumulate_spec(perm, seen, w).seen,
        accumulate_spec(obs, seen, w).rejected == Seq::<ObservationView>::empty(),
        accumulate_spec(perm, seen, w).rejected == Seq::<ObservationView>::empty(),
        scores_fit(obs, seen, w) == scores_fit(perm, seen, w),
{
    lemma_permutation_fresh(obs, perm, seen);
    lemma_fresh_batch(obs, seen, w);
    lemma_fresh_batch(perm, seen, w);
    let a = accumulate_spec(obs, seen, w);
    let b = accumulate_spec(perm, seen, w);
    assert forall|k: ScoreKey| has_key(obs, k) <==> has_key(perm, k) by {
        if has_key(obs, k) {
            let i = choose|i: int| 0 <= i < obs.len() && (#[trigger] obs[i].indicator_hash, obs[i].epoch) == k;
            lemma_permutation_contains(obs, perm, obs[i]);
            assert(obs.contains(obs[i]));
            let j = choose|j: int| 0 <= j < perm.len() && perm[j] == obs[i];
            assert((perm[j].indicator_hash, perm[j].epoch) == k);
        }
        if has_key(perm, k) {
            let i = choose|i: int| 0 <= i < perm.len() && (#[trigger] perm[i].indicator_hash, perm[i].epoch) == k;
            lemma_permutation_contains(obs, perm, perm[i]);
            assert(perm.contains(perm[i]));
            let j = choose|j: int| 0 <= j < obs.len() && obs[j] == perm[i];
            assert((obs[j].indicator_hash, obs[j].epoch) == k);
        }
    }
    assert forall|n: Seq<char>| has_nullifier(obs, n) <==> has_nullifier(perm, n) by {
        if has_nullifier(obs, n) {
            let i = choose|i: int| 0 <= i < obs.len() && (#[trigger] obs[i].nullifier) == n;
            lemma_permutation_contains(obs, perm, obs[i]);
            assert(obs.contains(obs[i]));
            let j = choose|j: int| 0 <= j < perm.len() && perm[j] == obs[i];
            assert(perm[j].nullifier == n);
        }
        if has_nullifier(perm, n) {
            let i = choose|i: int| 0 <= i < perm.len() && (#[trigger] perm[i].nullifier) == n;
            lemma_permutation_contains(obs, perm, perm[i]);
            assert(perm.contains(perm[i]));
            let j = choose|j: int| 0 <= j < obs.len() && obs[j] == perm[i];
            assert(obs[j].nullifier == n);
        }
    }
    assert forall|k: ScoreKey| #[trigger] a.scores.contains_key(k) implies a.scores[k] == b.scores[k] by {
        lemma_weight_sum_permutation(obs, perm, k, w);
        assert(score_of(a.scores, k) == score_of(b.scores, k));
    }
    assert(a.scores =~= b.scores);
    assert(a.seen =~= b.seen);
}

} // verus!

use umbra_exchange::accumulator::{accumulate, TierWeights, VerifiedObservation};
use umbra_exchange::tables::StringSet;

fn obs(indicator: &str, epoch: u64, nullifier: &str, tier: u8) -> VerifiedObservation {
    VerifiedObservation {
        indicator_hash: indicator.to_string(),
        epoch,
        nullifier: nullifier.to_string(),
        tier,
    }
}

#[test]
fn single_observation_scores_by_tier_weight() {
    let mut seen = StringSet::new();
    let weights = TierWeights::default_weights();
    let batch = vec![obs("abc123", 1, "null-1", 2)];

    let result = accumulate(&batch, &mut seen, &weights);

    assert_eq!(result.scores.get(&("abc123".to_string(), 1)), Some(&4));
    assert!(result.rejected_replays.is_empty());
}

#[test]
fn multiple_distinct_contributors_sum_weights() {
    let mut seen = StringSet::new();
    let weights = TierWeights::default_weights();
    let batch = vec![
        obs("abc123", 1, "null-1", 0),
        obs("abc123", 1, "null-2", 3),
        obs("abc123", 1, "null-3", 1),
    ];

    let result = accumulate(&batch, &mut seen, &weights);

    assert_eq!(result.scores.get(&("abc123".to_string(), 1)), Some(&11));
}

#[test]
fn replayed_nullifier_within_batch_is_rejected_not_double_counted() {
    let mut seen = StringSet::new();
    let weights = TierWeights::default_weights();
    let batch = vec![obs("abc123", 1, "null-1", 3), obs("abc123", 1, "null-1", 3)];

    let result = accumulate(&batch, &mut seen, &weights);

    assert_eq!(result.scores.get(&("abc123".to_string(), 1)), Some(&8));
    assert_eq!(result.rejected_replays.len(), 1);
    assert_eq!(result.rejected_replays[0].nullifier, "null-1");
}

#[test]
fn replay_detection_persists_across_calls_via_shared_seen_set() {
    let mut seen = StringSet::new();
    let weights = TierWeights::default_weights();

    let first_batch = vec![obs("abc123", 1, "null-1", 2)];
    let first = accumulate(&first_batch, &mut seen, &weights);
    assert_eq!(first.scores.get(&("abc123".to_string(), 1)), Some(&4));

    let second_batch = vec![obs("abc123", 1, "null-1", 2)];
    let second = accumulate(&second_batch, &mut seen, &weights);
    assert!(second.scores.is_empty());
    assert_eq!(second.rejected_replays.len(), 1);
}

#[test]
fn different_epochs_are_scored_independently() {
    let mut seen = StringSet::new();
    let weights = TierWeights::default_weights();
    let batch = vec![obs("abc123", 1, "null-1", 2), obs("abc123", 2, "null-2", 2)];

    let result = accumulate(&batch, &mut seen, &weights);

    assert_eq!(result.scores.get(&("abc123".to_string(), 1)), Some(&4));
    assert_eq!(result.scores.get(&("abc123".to_string(), 2)), Some(&4));
}

#[test]
fn out_of_range_tier_contributes_zero_weight_rather_than_panicking() {
    let mut seen = StringSet::new();
    let weights = TierWeights::default_weights();
    let batch = vec![obs("abc123", 1, "null-1", 99)];

    let result = accumulate(&batch, &mut seen, &weights);

    assert_eq!(result.scores.get(&("abc123".to_string(), 1)), Some(&0));
}

#[test]
fn custom_weights_are_respected() {
    let mut seen = StringSet::new();
    let weights = TierWeights::new([0, 1, 1, 100]);
    let batch = vec![obs("abc123", 1, "null-1", 3)];

    let result = accumulate(&batch, &mut seen, &weights);

    assert_eq!(result.scores.get(&("abc123".to_string(), 1)), Some(&100));
}

// ---------------------------------------------------------------------------

#[test]
fn default_weights_are_one_two_four_eight() {
    let w = TierWeights::default_weights();
    assert_eq!(w.weight_for(0), 1);
    assert_eq!(w.weight_for(1), 2);
    assert_eq!(w.weight_for(2), 4);
    assert_eq!(w.weight_for(3), 8);
    assert_eq!(w.weight_for(4), 0);
    let d: TierWeights = Default::default();
    assert_eq!(d.weight_for(3), 8);
}

#[test]
fn seen_set_gains_every_counted_nullifier() {
    let mut seen = StringSet::new();
    let weights = TierWeights::default_weights();
    let batch = vec![obs("x", 1, "n1", 0), obs("y", 1, "n2", 1), obs("x", 1, "n1", 3)];
    let result = accumulate(&batch, &mut seen, &weights);
    assert_eq!(seen.len(), 2);
    assert!(seen.contains(&"n1".to_string()));
    assert!(seen.contains(&"n2".to_string()));
    assert_eq!(result.scores.len(), 2);
    assert_eq!(result.scores.get_or_zero(&"x".to_string(), 1), 1);
    assert_eq!(result.scores.get_or_zero(&"y".to_string(), 1), 2);
    assert_eq!(result.rejected_replays.len(), 1);
}

#[test]
fn batches_compose_like_one_batch() {
    let weights = TierWeights::default_weights();
    let a = vec![obs("x", 1, "n1", 0), obs("x", 1, "n2", 2)];
    let b = vec![obs("x", 1, "n3", 3), obs("x", 1, "n1", 3)];

    let mut seen_split = StringSet::new();
    let ra = accumulate(&a, &mut seen_split, &weights);
    let rb = accumulate(&b, &mut seen_split, &weights);

    let mut all = a.clone();
    all.extend(b.clone());
    let mut seen_whole = StringSet::new();
    let r = accumulate(&all, &mut seen_whole, &weights);

    let split_total = ra.scores.get_or_zero(&"x".to_string(), 1) + rb.scores.get_or_zero(&"x".to_string(), 1);
    assert_eq!(split_total, r.scores.get_or_zero(&"x".to_string(), 1));
    assert_eq!(split_total, 13);
    assert_eq!(ra.rejected_replays.len() + rb.rejected_replays.len(), r.rejected_replays.len());
}

#[test]
fn replayed_batch_scores_nothing() {
    let weights = TierWeights::default_weights();
    let batch = vec![obs("x", 1, "n1", 0), obs("y", 2, "n2", 3)];
    let mut seen = StringSet::new();
    let _ = accumulate(&batch, &mut seen, &weights);
    let again = accumulate(&batch, &mut seen, &weights);
    assert!(again.scores.is_empty());
    assert_eq!(again.rejected_replays.len(), 2);
}

#[test]
fn fresh_batch_scores_the_same_in_any_order() {
    let weights = TierWeights::default_weights();
    let batch = vec![obs("a", 1, "n1", 0), obs("b", 1, "n2", 3), obs("a", 1, "n3", 2), obs("a", 2, "n4", 1)];
    let reversed: Vec<VerifiedObservation> = batch.iter().rev().map(|o| o.duplicate()).collect();
    let mut s1 = StringSet::new();
    let mut s2 = StringSet::new();
    let r1 = accumulate(&batch, &mut s1, &weights);
    let r2 = accumulate(&reversed, &mut s2, &weights);
    for key in [("a".to_string(), 1), ("b".to_string(), 1), ("a".to_string(), 2), ("b".to_string(), 2)] {
        assert_eq!(r1.scores.get(&key), r2.scores.get(&key));
    }
    assert_eq!(r1.scores.get(&("a".to_string(), 1)), Some(&5));
    assert!(r1.rejected_replays.is_empty() && r2.rejected_replays.is_empty());
    assert_eq!(s1.len(), 4);
    assert_eq!(s2.len(), 4);
    for n in ["n1", "n2", "n3", "n4"] {
        assert!(s1.contains(&n.to_string()) && s2.contains(&n.to_string()));
    }
}

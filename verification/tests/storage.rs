use stellarflow_contracts::storage::{
    check_and_prune_feed_stake, update_feed_stake_activity, FeedStakeValue, PrunedTotals, RENT_THRESHOLD,
};

#[test]
fn stale_stake_pruned_from_totals() {
    let stake = FeedStakeValue { amount: 300, last_active: 1_000 };
    let now = 1_000 + RENT_THRESHOLD as u64 + 1;
    assert_eq!(check_and_prune_feed_stake(Some(stake), now, Some(1_000), Some(5_000)),
        Some(PrunedTotals { node_total: Some(700), total_staked: 4_700 }));
    // The node's entry goes when nothing remains; totals never go below zero.
    assert_eq!(check_and_prune_feed_stake(Some(stake), now, Some(300), Some(100)),
        Some(PrunedTotals { node_total: None, total_staked: 0 }));
    assert_eq!(check_and_prune_feed_stake(Some(stake), now, None, None),
        Some(PrunedTotals { node_total: None, total_staked: 0 }));
}

#[test]
fn active_or_missing_stake_kept() {
    let stake = FeedStakeValue { amount: 300, last_active: 1_000 };
    assert_eq!(check_and_prune_feed_stake(Some(stake), 1_000 + RENT_THRESHOLD as u64, Some(1), Some(1)), None);
    assert_eq!(check_and_prune_feed_stake(Some(stake), 10, Some(1), Some(1)), None);
    assert_eq!(check_and_prune_feed_stake(None, u64::MAX, Some(1), Some(1)), None);
}

#[test]
fn refreshed_stake_survives_rent_expiry() {
    let stake = FeedStakeValue { amount: 42, last_active: 0 };
    let now = 10_000_000u64;
    let refreshed = update_feed_stake_activity(Some(stake), now).unwrap();
    assert_eq!(refreshed, FeedStakeValue { amount: 42, last_active: now });
    assert_eq!(check_and_prune_feed_stake(Some(refreshed), now, Some(42), Some(42)), None);
    assert_eq!(update_feed_stake_activity(None, now), None);
}

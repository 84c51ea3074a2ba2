//! Storage-rent expiry for feed stakes and the storage keys without
//! addresses.
//!
//! A feed stake whose validator has been inactive for longer than the rent
//! threshold is pruned, and its amount leaves the node's and the global
//! stake totals; an active validator refreshes its stake's clock.

use vstd::prelude::*;

verus! {

/// Heartbeat storage key: asset id to last heartbeat time.
#[derive(Clone, Copy, Debug, PartialEq, Eq, Structural)]
pub enum HeartbeatKey {
    HeartbeatByAsset(u32),
}

/// A validator's stake on one feed and the time it was last active.
#[derive(Clone, Copy, Debug, PartialEq, Eq, Structural)]
pub struct FeedStakeValue {
    pub amount: u64,
    pub last_active: u64,
}

/// Seconds of inactivity after which a feed stake is pruned.
pub const RENT_THRESHOLD: u32 = 259_200;
/// Ledgers a refreshed feed stake's lifetime is extended to.
pub const RENT_EXTEND_TO: u32 = 518_400;
/// Remaining lifetime below which an asset price entry is extended.
pub const ASSET_TTL_THRESHOLD: u32 = 5_000;
/// Ledgers an asset price entry's lifetime is extended to.
pub const ASSET_TTL_EXTEND_TO: u32 = 100_000;
/// Remaining lifetime below which a node profile is extended.
pub const PROFILE_TTL_THRESHOLD: u32 = 10_000;
/// Renewal threshold of persistent entries: 31 days of 5-second ledgers.
pub const PERSISTENT_TTL_THRESHOLD: u32 = 535_680;

/// The stake totals after pruning a feed stake.
#[derive(Clone, Copy, Debug, PartialEq, Eq, Structural)]
pub struct PrunedTotals {
    /// The node's remaining total stake; `None` when nothing remains (the
    /// node's entry is removed).
    pub node_total: Option<u64>,
    /// The remaining global stake total.
    pub total_staked: u64,
}

/// `a - b`, or zero when `b` exceeds `a`.
pub open spec fn sub_floor_zero(a: u64, b: u64) -> u64 {
    if a >= b { (a - b) as u64 } else { 0 }
}

/// What the rent expiry does to a stake: `None` when it is absent or was
/// active within `RENT_THRESHOLD` seconds of `now`; otherwise the totals
/// left once its amount is taken out (not below zero).
pub open spec fn prune_outcome(
    stake: Option<FeedStakeValue>,
    now: u64,
    node_total: Option<u64>,
    total_staked: Option<u64>,
) -> Option<PrunedTotals> {
    match stake {
        None => None,
        Some(v) => if sub_floor_zero(now, v.last_active) > RENT_THRESHOLD {
            let node_left = sub_floor_zero(match node_total { Some(t) => t, None => 0 }, v.amount);
            Some(PrunedTotals {
                node_total: if node_left == 0 { None } else { Some(node_left) },
                total_staked: sub_floor_zero(match total_staked { Some(t) => t, None => 0 }, v.amount),
            })
        } else {
            None
        },
    }
}

/// Prune a stale feed stake.
///
/// `stake` is the stored stake (if any), `node_total` the node's stored
/// total and `total_staked` the stored global total. Returns `None` when the
/// stake is absent or was active within `RENT_THRESHOLD` seconds of `now`
/// (nothing changes); otherwise the stake is removed and the totals to store
/// are returned, each reduced by the stake's amount (not below zero).
pub fn check_and_prune_feed_stake(
    stake: Option<FeedStakeValue>,
    now: u64,
    node_total: Option<u64>,
    total_staked: Option<u64>,
) -> (r: Option<PrunedTotals>)
    ensures
        r == prune_outcome(stake, now, node_total, total_staked),
{
    let val = match stake {
        Some(v) => v,
        None => return None,
    };
    let elapsed = now.saturating_sub(val.last_active);
    if elapsed > RENT_THRESHOLD as u64 {
        let current_node = match node_total {
            Some(t) => t,
            None => 0,
        };
        let new_node_total = current_node.saturating_sub(val.amount);
        let current_total = match total_staked {
            Some(t) => t,
            None => 0,
        };
        let new_total = current_total.saturating_sub(val.amount);
        Some(PrunedTotals {
            node_total: if new_node_total == 0 { None } else { Some(new_node_total) },
            total_staked: new_total,
        })
    } else {
        None
    }
}

/// Refresh an existing feed stake's activity time to `now`; `None` when
/// there is no stake (nothing is written).
pub fn update_feed_stake_activity(stake: Option<FeedStakeValue>, now: u64) -> (r: Option<FeedStakeValue>)
    ensures
        match stake {
            None => r is None,
            Some(v) => r == Some(FeedStakeValue { amount: v.amount, last_active: now }),
        },
{
    match stake {
        Some(v) => Some(FeedStakeValue { amount: v.amount, last_active: now }),
        None => None,
    }
}

/// A refreshed stake is not pruned: right after its validator is active,
/// a stake survives the rent expiry, whatever the totals.
pub proof fn law_refreshed_stake_survives(v: FeedStakeValue, now: u64, node_total: Option<u64>, total: Option<u64>)
    ensures
        prune_outcome(Some(FeedStakeValue { amount: v.amount, last_active: now }), now, node_total, total) is None,
{
}

/// Only a stake left inactive for more than three days (259_200 seconds)
/// is pruned, and pruning takes exactly its amount out of the node's total
/// and the global total (never below zero); the node's entry goes once
/// nothing of it remains.
pub proof fn law_prune_takes_out_stale_stake(
    stake: Option<FeedStakeValue>,
    now: u64,
    node_total: Option<u64>,
    total_staked: Option<u64>,
)
    ensures
        prune_outcome(stake, now, node_total, total_staked) is Some <==> (stake matches Some(v)
            && now > v.last_active + 259_200),
        prune_outcome(stake, now, node_total, total_staked) matches Some(p) ==> ({
            let v = stake->Some_0;
            let node = match node_total { Some(t) => t as int, None => 0 };
            let total = match total_staked { Some(t) => t as int, None => 0 };
            &&& p.total_staked == (if total >= v.amount { total - v.amount } else { 0 })
            &&& (node > v.amount ==> p.node_total == Some((node - v.amount) as u64))
            &&& (node <= v.amount ==> p.node_total is None)
        }),
{
}

} // verus!

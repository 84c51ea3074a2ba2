//! Concentrated-liquidity tick index: a sorted list of initialized ticks
//! with binary-search lookup, per-tick liquidity accounting and swap
//! simulation across tick boundaries.

use vstd::prelude::*;
use crate::error::ContractError;
use crate::host::{tick_list_contents, tick_list_get, tick_list_insert, tick_list_len, tick_list_remove, tick_list_typed};
use crate::amm::tick_math::{
    compute_step_input, compute_step_output, lemma_tick_price_range, step_input_outcome, step_output_outcome,
    tick_price_outcome, tick_to_price,
};

verus! {

/// Maximum allowed tick index (bounds the price range).
pub const MAX_TICK_INDEX: i32 = 887_220;

/// Minimum allowed tick index.
pub const MIN_TICK_INDEX: i32 = -887_220;

/// Maximum number of initialized ticks per pool.
pub const MAX_TICKS_PER_POOL: u32 = 256;

/// Default tick spacing for stable fiat corridors (1 tick = 0.01%).
pub const STABLE_TICK_SPACING: i32 = 1;

/// Default tick spacing for volatile pairs.
pub const VOLATILE_TICK_SPACING: i32 = 60;

/// Storage key of a pool's tick index metadata.
#[derive(Clone, Copy, Debug, PartialEq, Eq, Structural)]
pub struct TickIndexKey(pub u32);

/// Storage key of one tick's liquidity record.
#[derive(Clone, Copy, Debug, PartialEq, Eq, Structural)]
pub struct TickDataKey(pub u32, pub i32);

/// Storage key of a pool's sorted list of initialized ticks.
#[derive(Clone, Copy, Debug, PartialEq, Eq, Structural)]
pub struct TickListKey(pub u32);

/// Metadata of a pool's tick index.
#[derive(Clone, Copy, Debug, PartialEq, Eq, Structural)]
pub struct TickIndexMeta {
    /// The asset pair identifier for this pool.
    pub asset: u32,
    /// Minimum distance between two initialized ticks.
    pub tick_spacing: i32,
    /// Current tick, the tick closest to the active price.
    pub current_tick: i32,
    /// Active liquidity.
    pub active_liquidity: u64,
    /// Number of initialized ticks.
    pub tick_count: u32,
}

/// Per-tick liquidity accounting record.
#[derive(Clone, Copy, Debug, PartialEq, Eq, Structural)]
pub struct TickData {
    /// Net liquidity delta applied when price crosses this tick upward.
    pub liquidity_net: i64,
    /// Total liquidity referencing this tick.
    pub liquidity_gross: u64,
}

/// Result of executing a swap across tick boundaries.
#[derive(Clone, Copy, Debug, PartialEq, Eq, Structural)]
pub struct SwapTickResult {
    /// The tick where the swap ended.
    pub final_tick: i32,
    /// Liquidity that was active during the final step.
    pub final_liquidity: u64,
    /// Amount of token in consumed.
    pub amount_in: u64,
    /// Amount of token out produced.
    pub amount_out: u64,
    /// Number of tick crossings performed.
    pub crossings: u32,
}

/// A single step of a multi-tick swap traversal.
#[derive(Clone, Copy, Debug, PartialEq, Eq, Structural)]
pub struct SwapStep {
    /// Tick index where this step starts.
    pub start_tick: i32,
    /// Tick index where this step ends (next initialized tick or boundary).
    pub end_tick: i32,
    /// Liquidity active during this step.
    pub liquidity: u64,
    /// Amount of input consumed in this step.
    pub step_amount_in: u64,
    /// Amount of output produced in this step.
    pub step_amount_out: u64,
}

/// Create a pool's tick index with the given spacing; `existing` is the
/// stored index of the pool, if any. The pool starts at tick zero with no
/// liquidity and an empty tick list.
pub fn initialize_tick_index(existing: &Option<TickIndexMeta>, asset: u32, tick_spacing: i32) -> (r: Result<TickIndexMeta, ContractError>)
    ensures
        tick_spacing <= 0 ==> r == Err::<TickIndexMeta, ContractError>(ContractError::InvalidTickSpacing),
        tick_spacing > 0 && existing is Some ==> r == Err::<TickIndexMeta, ContractError>(ContractError::TickIndexAlreadyExists),
        tick_spacing > 0 && existing is None ==> r == Ok::<TickIndexMeta, ContractError>(TickIndexMeta {
            asset,
            tick_spacing,
            current_tick: 0,
            active_liquidity: 0,
            tick_count: 0,
        }),
{
    if tick_spacing <= 0 {
        return Err(ContractError::InvalidTickSpacing);
    }
    if existing.is_some() {
        return Err(ContractError::TickIndexAlreadyExists);
    }
    Ok(TickIndexMeta { asset, tick_spacing, current_tick: 0, active_liquidity: 0, tick_count: 0 })
}

/// The stored tick index of a pool, or `TickIndexNotFound`.
pub fn get_tick_index(stored: Option<TickIndexMeta>) -> (r: Result<TickIndexMeta, ContractError>)
    ensures
        match stored {
            Some(m) => r == Ok::<TickIndexMeta, ContractError>(m),
            None => r == Err::<TickIndexMeta, ContractError>(ContractError::TickIndexNotFound),
        },
{
    match stored {
        Some(m) => Ok(m),
        None => Err(ContractError::TickIndexNotFound),
    }
}

/// The stored record of a tick, or an empty record.
pub fn get_tick_data(stored: Option<TickData>) -> (r: TickData)
    ensures
        r == match stored { Some(d) => d, None => TickData { liquidity_net: 0, liquidity_gross: 0 } },
{
    match stored {
        Some(d) => d,
        None => TickData { liquidity_net: 0, liquidity_gross: 0 },
    }
}

/// The list holds tick indices in strictly increasing order.
pub open spec fn strictly_sorted(s: Seq<i32>) -> bool {
    forall|i: int, j: int| 0 <= i < j < s.len() ==> s[i] < s[j]
}

/// The element at `i` of the tick list (`None` past the end); an element
/// that is not an `i32` on the host is refused with `InvalidInput`.
fn read_tick(list: &soroban_sdk::Vec<i32>, i: u32) -> (r: Result<Option<i32>, ContractError>)
    ensures
        i >= tick_list_contents(*list).len() ==> r == Ok::<Option<i32>, ContractError>(None),
        i < tick_list_contents(*list).len() && r is Ok ==> r == Ok::<Option<i32>, ContractError>(
            Some(tick_list_contents(*list)[i as int])),
        tick_list_typed(*list) ==> r is Ok,
        r is Err ==> r == Err::<Option<i32>, ContractError>(ContractError::InvalidInput) && !tick_list_typed(*list),
{
    match tick_list_get(list, i) {
        Ok(v) => Ok(v),
        Err(_) => Err(ContractError::InvalidInput),
    }
}

/// Binary search over the sorted tick list: the index of `target` if
/// present, otherwise the index where it would be inserted. A list holding
/// a host value that is not an `i32` may be refused with `InvalidInput`.
pub fn binary_search_tick(list: &soroban_sdk::Vec<i32>, target: i32) -> (r: Result<u32, ContractError>)
    ensures
        tick_list_typed(*list) ==> r is Ok,
        r is Err ==> r == Err::<u32, ContractError>(ContractError::InvalidInput) && !tick_list_typed(*list),
        r matches Ok(pos) ==> pos <= tick_list_contents(*list).len() && (strictly_sorted(tick_list_contents(*list)) ==> (
            (forall|k: int| 0 <= k < pos ==> tick_list_contents(*list)[k] < target)
            && (forall|k: int| pos <= k < tick_list_contents(*list).len()
                ==> tick_list_contents(*list)[k] >= target))),
{
    let ghost s = tick_list_contents(*list);
    let mut lo: u32 = 0;
    let mut hi: u32 = tick_list_len(list);
    while lo < hi
        invariant
            lo <= hi <= s.len(),
            s == tick_list_contents(*list),
            strictly_sorted(s) ==> (forall|k: int| 0 <= k < lo ==> s[k] < target),
            strictly_sorted(s) ==> (forall|k: int| hi <= k < s.len() ==> s[k] > target),
        decreases hi - lo,
    {
        let mid = lo + (hi - lo) / 2;
        match read_tick(list, mid) {
            Ok(Some(val)) => {
                if val == target {
                    return Ok(mid);
                } else if val < target {
                    lo = mid + 1;
                } else {
                    hi = mid;
                }
            },
            Ok(None) => {
                hi = mid;
            },
            Err(e) => {
                return Err(e);
            },
        }
    }
    Ok(lo)
}

/// Insert a tick into the sorted list, keeping it sorted and free of
/// duplicates; rejects the insertion once the pool holds
/// `MAX_TICKS_PER_POOL` ticks.
pub fn insert_tick_sorted(list: &mut soroban_sdk::Vec<i32>, tick: i32) -> (r: Result<(), ContractError>)
    ensures
        tick_list_contents(*old(list)).len() >= MAX_TICKS_PER_POOL ==> r == Err::<(), ContractError>(
            ContractError::TooManyTicks) && tick_list_contents(*final(list)) == tick_list_contents(*old(list)),
        tick_list_contents(*old(list)).len() < MAX_TICKS_PER_POOL && tick_list_typed(*old(list)) ==> r is Ok,
        tick_list_contents(*old(list)).len() < MAX_TICKS_PER_POOL && r is Err ==> r == Err::<(), ContractError>(
            ContractError::InvalidInput) && !tick_list_typed(*old(list))
            && tick_list_contents(*final(list)) == tick_list_contents(*old(list)),
        tick_list_typed(*final(list)) == tick_list_typed(*old(list)),
        strictly_sorted(tick_list_contents(*old(list))) && tick_list_contents(*old(list)).contains(tick)
            ==> tick_list_contents(*final(list)) == tick_list_contents(*old(list)),
        strictly_sorted(tick_list_contents(*old(list))) ==> strictly_sorted(tick_list_contents(*final(list)))
            && (r is Ok ==> (forall|x: i32| tick_list_contents(*final(list)).contains(x)
                <==> (tick_list_contents(*old(list)).contains(x) || x == tick))),
        strictly_sorted(tick_list_contents(*old(list))) && !tick_list_contents(*old(list)).contains(tick) && r is Ok
            ==> tick_list_contents(*final(list)).len() == tick_list_contents(*old(list)).len() + 1,
{
    let ghost s = tick_list_contents(*list);
    if tick_list_len(list) >= MAX_TICKS_PER_POOL {
        return Err(ContractError::TooManyTicks);
    }
    let pos = match binary_search_tick(list, tick) {
        Ok(p) => p,
        Err(e) => return Err(e),
    };
    if pos < tick_list_len(list) {
        match read_tick(list, pos) {
            Ok(found) => {
                if found == Some(tick) {
                    return Ok(());
                }
            },
            Err(e) => return Err(e),
        }
    }
    proof {
        if s.contains(tick) {
            let k = choose|k: int| 0 <= k < s.len() && s[k] == tick;
            if strictly_sorted(s) {
                assert(k == pos);
            }
        }
    }
    tick_list_insert(list, pos, tick);
    proof {
        let f = tick_list_contents(*list);
        assert(f == s.insert(pos as int, tick));
        if strictly_sorted(s) {
            assert(forall|k: int| pos <= k < s.len() ==> s[k] > tick) by {
                if (pos as int) < s.len() {
                    assert(s[pos as int] != tick);
                }
            }
            assert forall|i: int, j: int| 0 <= i < j < f.len() implies f[i] < f[j] by {
                if j < pos {
                } else if i > pos {
                    assert(f[i] == s[i - 1]);
                    assert(f[j] == s[j - 1]);
                } else if i == pos {
                    assert(f[j] == s[j - 1]);
                } else if j == pos {
                    assert(f[i] == s[i]);
                } else {
                    assert(f[i] == s[i]);
                    assert(f[j] == s[j - 1]);
                }
            }
            assert forall|x: i32| f.contains(x) <==> (s.contains(x) || x == tick) by {
                if f.contains(x) {
                    let k = choose|k: int| 0 <= k < f.len() && f[k] == x;
                    if k < pos {
                        assert(s[k] == x);
                    } else if k > pos {
                        assert(s[k - 1] == x);
                    }
                }
                if s.contains(x) {
                    let k = choose|k: int| 0 <= k < s.len() && s[k] == x;
                    if k < pos {
                        assert(f[k] == x);
                    } else {
                        assert(f[k + 1] == x);
                    }
                }
                if x == tick {
                    assert(f[pos as int] == x);
                }
            }
        }
    }
    Ok(())
}

/// Remove a tick from the sorted list (no change when it is absent).
/// A list holding a host value that is not an `i32` may be refused with
/// `InvalidInput`, and is then left as it was.
pub fn remove_tick_sorted(list: &mut soroban_sdk::Vec<i32>, tick: i32) -> (r: Result<(), ContractError>)
    ensures
        tick_list_typed(*old(list)) ==> r is Ok,
        r is Err ==> r == Err::<(), ContractError>(ContractError::InvalidInput) && !tick_list_typed(*old(list))
            && tick_list_contents(*final(list)) == tick_list_contents(*old(list)),
        tick_list_typed(*old(list)) ==> tick_list_typed(*final(list)),
        !tick_list_contents(*old(list)).contains(tick)
            ==> tick_list_contents(*final(list)) == tick_list_contents(*old(list)),
        strictly_sorted(tick_list_contents(*old(list))) ==> strictly_sorted(tick_list_contents(*final(list)))
            && (r is Ok ==> (forall|x: i32| tick_list_contents(*final(list)).contains(x)
                <==> (tick_list_contents(*old(list)).contains(x) && x != tick))),
        strictly_sorted(tick_list_contents(*old(list))) && tick_list_contents(*old(list)).contains(tick) && r is Ok
            ==> tick_list_contents(*final(list)).len() == tick_list_contents(*old(list)).len() - 1,
{
    let ghost s = tick_list_contents(*list);
    let pos = match binary_search_tick(list, tick) {
        Ok(p) => p,
        Err(e) => return Err(e),
    };
    let found = if pos < tick_list_len(list) {
        match read_tick(list, pos) {
            Ok(v) => v,
            Err(e) => return Err(e),
        }
    } else {
        None
    };
    if found == Some(tick) {
        tick_list_remove(list, pos);
        proof {
            let f = tick_list_contents(*list);
            assert(f == s.remove(pos as int));
            if strictly_sorted(s) {
                assert forall|i: int, j: int| 0 <= i < j < f.len() implies f[i] < f[j] by {
                    if j < pos {
                    } else if i >= pos {
                        assert(f[i] == s[i + 1]);
                        assert(f[j] == s[j + 1]);
                    } else {
                        assert(f[j] == s[j + 1]);
                    }
                }
                assert forall|x: i32| f.contains(x) <==> (s.contains(x) && x != tick) by {
                    if f.contains(x) {
                        let k = choose|k: int| 0 <= k < f.len() && f[k] == x;
                        if k < pos {
                            assert(s[k] == x);
                        } else {
                            assert(s[k + 1] == x);
                        }
                    }
                    if s.contains(x) && x != tick {
                        let k = choose|k: int| 0 <= k < s.len() && s[k] == x;
                        if k < pos {
                            assert(f[k] == x);
                        } else {
                            assert(k != pos);
                            assert(f[k - 1] == x);
                        }
                    }
                }
            }
        }
    } else {
        proof {
            if s.contains(tick) {
                let k = choose|k: int| 0 <= k < s.len() && s[k] == tick;
                if strictly_sorted(s) {
                    assert(k == pos);
                }
            }
        }
    }
    Ok(())
}

/// The first tick at or above `current_tick` (for a sorted list: the
/// smallest initialized tick the price reaches moving up).
pub open spec fn next_tick_up(s: Seq<i32>, current_tick: i32) -> Option<i32>
    decreases s.len(),
{
    if s.len() == 0 {
        None
    } else if s[0] >= current_tick {
        Some(s[0])
    } else {
        next_tick_up(s.drop_first(), current_tick)
    }
}

/// The last tick at or below `current_tick` (for a sorted list: the
/// largest initialized tick the price reaches moving down).
pub open spec fn next_tick_down(s: Seq<i32>, current_tick: i32) -> Option<i32>
    decreases s.len(),
{
    if s.len() == 0 {
        None
    } else if s.last() <= current_tick {
        Some(s.last())
    } else {
        next_tick_down(s.drop_last(), current_tick)
    }
}

/// The next initialized tick in the swap direction.
pub open spec fn next_tick_in(s: Seq<i32>, current_tick: i32, direction_up: bool) -> Option<i32> {
    if direction_up {
        next_tick_up(s, current_tick)
    } else {
        next_tick_down(s, current_tick)
    }
}

/// Find the next initialized tick in the direction of a swap, by binary
/// search over the sorted list of initialized ticks. A list holding a host
/// value that is not an `i32` may be refused with `InvalidInput`.
pub fn find_next_initialized_tick(
    list: &soroban_sdk::Vec<i32>,
    current_tick: i32,
    direction_up: bool,
) -> (r: Result<Option<i32>, ContractError>)
    ensures
        tick_list_typed(*list) ==> r is Ok,
        r is Err ==> r == Err::<Option<i32>, ContractError>(ContractError::InvalidInput) && !tick_list_typed(*list),
        r matches Ok(Some(t)) ==> tick_list_contents(*list).contains(t),
        strictly_sorted(tick_list_contents(*list)) && r is Ok
            ==> r == Ok::<Option<i32>, ContractError>(next_tick_in(tick_list_contents(*list), current_tick, direction_up)),
{
    let ghost s = tick_list_contents(*list);
    let len = tick_list_len(list);
    if len == 0 {
        return Ok(None);
    }
    let idx = match binary_search_tick(list, current_tick) {
        Ok(p) => p,
        Err(e) => return Err(e),
    };
    if direction_up {
        if idx < len {
            let got = match read_tick(list, idx) {
                Ok(v) => v,
                Err(e) => return Err(e),
            };
            if let Some(t) = got {
                if t >= current_tick {
                    proof {
                        if strictly_sorted(s) {
                            lemma_next_up_is(s, current_tick, idx as int);
                        }
                    }
                    return Ok(Some(t));
                }
            }
        }
        proof {
            if strictly_sorted(s) {
                lemma_next_up_is(s, current_tick, s.len() as int);
            }
        }
        Ok(None)
    } else {
        if idx < len {
            let got = match read_tick(list, idx) {
                Ok(v) => v,
                Err(e) => return Err(e),
            };
            if let Some(t) = got {
                if t == current_tick {
                    proof {
                        if strictly_sorted(s) {
                            assert(forall|m: int| idx < m < s.len() ==> s[m] > current_tick);
                            lemma_next_down_is(s, current_tick, idx as int);
                        }
                    }
                    return Ok(Some(t));
                }
            }
        }
        proof {
            if (idx as int) < s.len() && strictly_sorted(s) {
                assert(s[idx as int] != current_tick);
                assert(forall|m: int| idx <= m < s.len() ==> s[m] > current_tick);
            }
        }
        if idx > 0 {
            let got = match read_tick(list, idx - 1) {
                Ok(v) => v,
                Err(e) => return Err(e),
            };
            if let Some(t) = got {
                proof {
                    if strictly_sorted(s) {
                        lemma_next_down_is(s, current_tick, idx - 1);
                    }
                }
                return Ok(Some(t));
            }
        }
        proof {
            if strictly_sorted(s) {
                lemma_next_down_is(s, current_tick, -1);
            }
        }
        Ok(None)
    }
}

/// The next initialized tick is the nearest one in the swap direction,
/// counting the current tick itself: upward, the smallest listed tick at or
/// above the current one; downward, the largest listed tick at or below it;
/// `None` when there is none on that side.
pub proof fn law_next_tick_is_nearest(s: Seq<i32>, c: i32)
    ensures
        next_tick_up(s, c) matches Some(t) ==> s.contains(t) && t >= c
            && forall|k: int| 0 <= k < s.len() && (#[trigger] s[k]) >= c && strictly_sorted(s) ==> s[k] >= t,
        next_tick_up(s, c) is None ==> forall|k: int| 0 <= k < s.len() ==> #[trigger] s[k] < c,
        next_tick_down(s, c) matches Some(t) ==> s.contains(t) && t <= c
            && forall|k: int| 0 <= k < s.len() && (#[trigger] s[k]) <= c && strictly_sorted(s) ==> s[k] <= t,
        next_tick_down(s, c) is None ==> forall|k: int| 0 <= k < s.len() ==> #[trigger] s[k] > c,
    decreases s.len(),
{
    if s.len() > 0 {
        let f = s.drop_first();
        let l = s.drop_last();
        law_next_tick_is_nearest(f, c);
        law_next_tick_is_nearest(l, c);
        assert forall|k: int| 0 <= k < f.len() implies #[trigger] f[k] == s[k + 1] by {}
        assert forall|k: int| 0 <= k < l.len() implies #[trigger] l[k] == s[k] by {}
        if strictly_sorted(s) {
            assert(strictly_sorted(f));
            assert(strictly_sorted(l));
        }
        if let Some(t) = next_tick_up(f, c) {
            if s[0] < c {
                let j = choose|j: int| 0 <= j < f.len() && f[j] == t;
                assert(s[j + 1] == t);
                assert forall|k: int| 0 <= k < s.len() && (#[trigger] s[k]) >= c && strictly_sorted(s) implies s[k] >= t by {
                    if k > 0 {
                        assert(f[k - 1] == s[k]);
                    }
                }
            }
        }
        if next_tick_up(f, c) is None && s[0] < c {
            assert forall|k: int| 0 <= k < s.len() implies #[trigger] s[k] < c by {
                if k > 0 {
                    assert(f[k - 1] == s[k]);
                }
            }
        }
        if s[0] >= c {
            assert(s.contains(s[0]));
            assert forall|k: int| 0 <= k < s.len() && (#[trigger] s[k]) >= c && strictly_sorted(s) implies s[k] >= s[0] by {
                if k > 0 {
                    assert(s[0] < s[k]);
                }
            }
        }
        let last = s.len() - 1;
        if let Some(t) = next_tick_down(l, c) {
            if s[last] > c {
                let j = choose|j: int| 0 <= j < l.len() && l[j] == t;
                assert(s[j] == t);
                assert forall|k: int| 0 <= k < s.len() && (#[trigger] s[k]) <= c && strictly_sorted(s) implies s[k] <= t by {
                    if k < last {
                        assert(l[k] == s[k]);
                    }
                }
            }
        }
        if next_tick_down(l, c) is None && s[last] > c {
            assert forall|k: int| 0 <= k < s.len() implies #[trigger] s[k] > c by {
                if k < last {
                    assert(l[k] == s[k]);
                }
            }
        }
        if s[last] <= c {
            assert(s.contains(s[last]));
            assert forall|k: int| 0 <= k < s.len() && (#[trigger] s[k]) <= c && strictly_sorted(s) implies s[k] <= s[last] by {
                if k < last {
                    assert(s[k] < s[last]);
                }
            }
        }
    }
}

proof fn lemma_next_up_is(s: Seq<i32>, c: i32, k: int)
    requires
        0 <= k <= s.len(),
        k < s.len() ==> s[k] >= c,
        forall|m: int| 0 <= m < k ==> s[m] < c,
    ensures
        next_tick_up(s, c) == if k < s.len() { Some(s[k]) } else { None::<i32> },
    decreases k,
{
    if s.len() > 0 && k > 0 {
        assert(s[0] < c);
        let t = s.drop_first();
        assert forall|m: int| 0 <= m < k - 1 implies t[m] < c by {
            assert(t[m] == s[m + 1]);
        }
        lemma_next_up_is(t, c, k - 1);
    }
}

proof fn lemma_next_down_is(s: Seq<i32>, c: i32, k: int)
    requires
        -1 <= k < s.len(),
        k >= 0 ==> s[k] <= c,
        forall|m: int| k < m < s.len() ==> s[m] > c,
    ensures
        next_tick_down(s, c) == if k >= 0 { Some(s[k]) } else { None::<i32> },
    decreases s.len(),
{
    if s.len() > 0 && k < s.len() - 1 {
        assert(s.last() > c);
        let t = s.drop_last();
        lemma_next_down_is(t, c, k);
    }
}

/// `tick` is a multiple of `spacing` (its remainder is zero).
pub open spec fn tick_aligned(tick: i32, spacing: i32) -> bool {
    let t = if tick < 0 { -(tick as int) } else { tick as int };
    let s = if spacing < 0 { -(spacing as int) } else { spacing as int };
    t % s == 0
}

/// The effect of placing `liquidity_delta` at `tick` on the pool metadata
/// and the tick's record, before the initialized-tick list is touched;
/// `list_len` is the length of the pool's tick list. The list itself gains
/// the tick when its gross liquidity rises from zero and loses it when the
/// gross liquidity falls back to zero.
pub open spec fn place_liquidity_outcome(
    meta: TickIndexMeta,
    data: TickData,
    list_len: nat,
    tick: i32,
    liquidity_delta: i64,
) -> Result<(TickIndexMeta, TickData), ContractError> {
    let d = liquidity_delta as int;
    if !tick_aligned(tick, meta.tick_spacing) {
        Err(ContractError::TickNotAligned)
    } else if tick < MIN_TICK_INDEX || tick > MAX_TICK_INDEX {
        Err(ContractError::TickOutOfBounds)
    } else if d > 0 && (data.liquidity_gross + d > u64::MAX || meta.active_liquidity + d > u64::MAX) {
        Err(ContractError::Overflow)
    } else if d < 0 && (data.liquidity_gross + d < 0 || meta.active_liquidity + d < 0) {
        Err(ContractError::Overflow)
    } else if data.liquidity_net + d > i64::MAX || data.liquidity_net + d < i64::MIN {
        Err(ContractError::Overflow)
    } else {
        let gross = data.liquidity_gross + d;
        let becomes_initialized = data.liquidity_gross == 0 && d > 0;
        let becomes_empty = gross == 0 && d < 0;
        if becomes_initialized && list_len >= MAX_TICKS_PER_POOL {
            Err(ContractError::TooManyTicks)
        } else if becomes_initialized && meta.tick_count == u32::MAX {
            Err(ContractError::Overflow)
        } else {
            let count = if becomes_initialized {
                meta.tick_count + 1
            } else if becomes_empty {
                if meta.tick_count == 0 { 0 } else { meta.tick_count - 1 }
            } else {
                meta.tick_count as int
            };
            Ok((
                TickIndexMeta {
                    active_liquidity: (meta.active_liquidity + d) as u64,
                    tick_count: count as u32,
                    ..meta
                },
                TickData { liquidity_net: (data.liquidity_net + d) as i64, liquidity_gross: gross as u64 },
            ))
        }
    }
}

proof fn lemma_zero_remainder_is_aligned(x: i32, d: i32)
    requires
        d != 0,
        !(x == i32::MIN && d == -1),
    ensures
        (x.checked_rem(d) == Some(0i32)) <==> tick_aligned(x, d),
{
    let xi = x as int;
    let di = d as int;
    let ax = if xi < 0 { -xi } else { xi };
    let ad = if di < 0 { -di } else { di };
    vstd::arithmetic::div_mod::lemma_mod_pos_bound(ax, ad);
    assert(0 <= ax % ad < ad);
    assert(ad <= 0x8000_0000);
    if xi == 0 {
        assert(ax % ad == 0) by {
            vstd::arithmetic::div_mod::lemma_mod_self_0(ad);
            vstd::arithmetic::div_mod::lemma_small_mod(0, ad as nat);
        }
    } else if xi > 0 && di > 0 {
    } else if xi < 0 && di < 0 {
        assert(xi * -1 == ax && di * -1 == ad);
    } else if xi < 0 {
        assert(xi * -1 == ax);
    } else {
        assert(di * -1 == ad);
    }
}

/// The stored record of tick `t` (an empty record when there is none).
pub open spec fn record_of(data: Map<i32, TickData>, t: i32) -> TickData {
    if data.dom().contains(t) { data[t] } else { TickData { liquidity_net: 0, liquidity_gross: 0 } }
}

/// Tick `t` carries liquidity.
pub open spec fn tick_initialized(data: Map<i32, TickData>, t: i32) -> bool {
    record_of(data, t).liquidity_gross > 0
}

/// A pool's index agrees with its tick records: the sorted list holds
/// exactly the ticks that carry liquidity, each a multiple of the pool's
/// spacing within the tick range, at most `MAX_TICKS_PER_POOL` of them, and
/// the metadata counts them.
pub open spec fn pool_consistent(meta: TickIndexMeta, list: Seq<i32>, data: Map<i32, TickData>) -> bool {
    &&& strictly_sorted(list)
    &&& forall|t: i32| #![trigger list.contains(t)] #![trigger tick_initialized(data, t)]
            list.contains(t) <==> tick_initialized(data, t)
    &&& forall|t: i32| #![trigger list.contains(t)]
            list.contains(t) ==> tick_aligned(t, meta.tick_spacing) && MIN_TICK_INDEX <= t <= MAX_TICK_INDEX
    &&& list.len() <= MAX_TICKS_PER_POOL
    &&& meta.tick_count == list.len()
}

/// A freshly initialized pool, with its empty tick list and no tick
/// records, is consistent; `place_liquidity` keeps it so.
pub proof fn law_new_pool_consistent(asset: u32, tick_spacing: i32)
    ensures
        pool_consistent(
            TickIndexMeta { asset, tick_spacing, current_tick: 0, active_liquidity: 0, tick_count: 0 },
            Seq::empty(),
            Map::empty(),
        ),
{
    let data = Map::<i32, TickData>::empty();
    assert forall|t: i32| #![trigger Seq::<i32>::empty().contains(t)] #![trigger tick_initialized(data, t)]
        Seq::<i32>::empty().contains(t) <==> tick_initialized(data, t) by {
        assert(!data.dom().contains(t));
    }
}

/// Place (positive delta) or remove (negative delta) liquidity at a tick.
///
/// Gross and net liquidity of the tick and the pool's active liquidity are
/// updated together: on any error none of them changes. A tick whose gross
/// liquidity rises from zero joins the sorted list of initialized ticks; one
/// whose gross liquidity falls back to zero leaves it. A tick list holding a
/// host value that is not an `i32` may be refused with `InvalidInput`,
/// again with nothing changed.
pub fn place_liquidity(
    meta: &mut TickIndexMeta,
    tick_data: &mut TickData,
    list: &mut soroban_sdk::Vec<i32>,
    tick: i32,
    liquidity_delta: i64,
) -> (r: Result<TickData, ContractError>)
    requires
        old(meta).tick_spacing != 0,
        !(old(meta).tick_spacing == -1 && tick == i32::MIN),
        liquidity_delta != i64::MIN,
    ensures
        ({
            let outcome = place_liquidity_outcome(
                *old(meta), *old(tick_data), tick_list_contents(*old(list)).len(), tick, liquidity_delta);
            match outcome {
                Ok((m, d)) => if r is Ok {
                    r == Ok::<TickData, ContractError>(d) && *final(meta) == m && *final(tick_data) == d
                } else {
                    r == Err::<TickData, ContractError>(ContractError::InvalidInput) && !tick_list_typed(*old(list))
                        && *final(meta) == *old(meta) && *final(tick_data) == *old(tick_data)
                        && tick_list_contents(*final(list)) == tick_list_contents(*old(list))
                },
                Err(e) => r == Err::<TickData, ContractError>(e) && *final(meta) == *old(meta)
                    && *final(tick_data) == *old(tick_data)
                    && tick_list_contents(*final(list)) == tick_list_contents(*old(list)),
            }
        }),
        tick_list_typed(*old(list)) ==> r is Ok || place_liquidity_outcome(
            *old(meta), *old(tick_data), tick_list_contents(*old(list)).len(), tick, liquidity_delta) is Err,
        tick_list_typed(*old(list)) ==> tick_list_typed(*final(list)),
        strictly_sorted(tick_list_contents(*old(list))) ==> strictly_sorted(tick_list_contents(*final(list))),
        strictly_sorted(tick_list_contents(*old(list))) && r is Ok ==> (forall|x: i32|
            tick_list_contents(*final(list)).contains(x) <==> (
                if old(tick_data).liquidity_gross == 0 && liquidity_delta > 0 {
                    tick_list_contents(*old(list)).contains(x) || x == tick
                } else if final(tick_data).liquidity_gross == 0 && liquidity_delta < 0 {
                    tick_list_contents(*old(list)).contains(x) && x != tick
                } else {
                    tick_list_contents(*old(list)).contains(x)
                })),
        r is Ok ==> forall|data: Map<i32, TickData>|
            #![trigger pool_consistent(*old(meta), tick_list_contents(*old(list)), data)]
            pool_consistent(*old(meta), tick_list_contents(*old(list)), data) && record_of(data, tick) == *old(tick_data)
                ==> pool_consistent(*final(meta), tick_list_contents(*final(list)), data.insert(tick, *final(tick_data))),
{
    let ghost s0 = tick_list_contents(*list);
    let ghost d0 = *tick_data;
    let ghost m0 = *meta;
    let remainder = match tick.checked_rem(meta.tick_spacing) {
        Some(v) => v,
        None => return Err(ContractError::TickNotAligned),
    };
    proof {
        lemma_zero_remainder_is_aligned(tick, meta.tick_spacing);
    }
    if remainder != 0 {
        return Err(ContractError::TickNotAligned);
    }
    if tick < MIN_TICK_INDEX || tick > MAX_TICK_INDEX {
        return Err(ContractError::TickOutOfBounds);
    }
    let old_gross = tick_data.liquidity_gross;
    let mut gross = tick_data.liquidity_gross;
    let mut active = meta.active_liquidity;
    if liquidity_delta > 0 {
        let delta = liquidity_delta as u64;
        assert(delta as int == liquidity_delta as int);
        gross = match gross.checked_add(delta) {
            Some(v) => v,
            None => return Err(ContractError::Overflow),
        };
        active = match active.checked_add(delta) {
            Some(v) => v,
            None => return Err(ContractError::Overflow),
        };
    } else if liquidity_delta < 0 {
        let delta = (-liquidity_delta) as u64;
        assert(delta as int == -(liquidity_delta as int));
        gross = match gross.checked_sub(delta) {
            Some(v) => v,
            None => return Err(ContractError::Overflow),
        };
        active = match active.checked_sub(delta) {
            Some(v) => v,
            None => return Err(ContractError::Overflow),
        };
    }
    let net = match tick_data.liquidity_net.checked_add(liquidity_delta) {
        Some(v) => v,
        None => return Err(ContractError::Overflow),
    };

    // A tick joins the list when its gross liquidity rises from zero, and
    // leaves it when its gross liquidity falls back to zero.
    let becomes_initialized = old_gross == 0 && liquidity_delta > 0;
    let becomes_empty = gross == 0 && liquidity_delta < 0;
    let mut count = meta.tick_count;
    if becomes_initialized {
        if tick_list_len(list) >= MAX_TICKS_PER_POOL {
            return Err(ContractError::TooManyTicks);
        }
        count = match count.checked_add(1) {
            Some(v) => v,
            None => return Err(ContractError::Overflow),
        };
        match insert_tick_sorted(list, tick) {
            Ok(()) => {},
            Err(e) => return Err(e),
        }
    } else if becomes_empty {
        match remove_tick_sorted(list, tick) {
            Ok(()) => {},
            Err(e) => return Err(e),
        }
        count = count.saturating_sub(1);
    }
    tick_data.liquidity_gross = gross;
    tick_data.liquidity_net = net;
    meta.active_liquidity = active;
    meta.tick_count = count;
    proof {
        let f = tick_list_contents(*list);
        let nd = *tick_data;
        assert forall|data: Map<i32, TickData>|
            #![trigger pool_consistent(m0, s0, data)]
            pool_consistent(m0, s0, data) && record_of(data, tick) == d0
                implies pool_consistent(*meta, f, data.insert(tick, nd)) by {
            let data2 = data.insert(tick, nd);
            assert(s0.contains(tick) <==> tick_initialized(data, tick));
            assert(record_of(data2, tick) == nd);
            assert forall|t: i32| #![trigger f.contains(t)] #![trigger tick_initialized(data2, t)]
                f.contains(t) <==> tick_initialized(data2, t) by {
                if t != tick {
                    assert(record_of(data2, t) == record_of(data, t));
                    assert(s0.contains(t) <==> tick_initialized(data, t));
                }
            }
            assert forall|t: i32| #![trigger f.contains(t)]
                f.contains(t) implies tick_aligned(t, meta.tick_spacing) && MIN_TICK_INDEX <= t <= MAX_TICK_INDEX by {
                if t != tick {
                    assert(s0.contains(t));
                }
            }
            if becomes_initialized {
                if s0.contains(tick) {
                    assert(f == s0);
                } else {
                    assert(f.len() == s0.len() + 1);
                }
            } else if becomes_empty {
                if s0.contains(tick) {
                    assert(f.len() == s0.len() - 1);
                } else {
                    assert(f == s0);
                }
            }
        }
    }
    Ok(*tick_data)
}

/// Placing liquidity changes exactly what it should: it succeeds only at a
/// tick that is a multiple of the spacing within the tick range; the tick's
/// gross and net liquidity and the pool's active liquidity all move by the
/// delta; the count of initialized ticks grows by one when the tick's gross
/// liquidity rises from zero, shrinks by one when it falls back to zero, and
/// stays otherwise; the spacing, asset and current tick never change.
pub proof fn law_placement_moves_by_delta(meta: TickIndexMeta, data: TickData, list_len: nat, tick: i32, delta: i64)
    ensures
        place_liquidity_outcome(meta, data, list_len, tick, delta) matches Ok((m, d)) ==> {
            &&& tick_aligned(tick, meta.tick_spacing)
            &&& MIN_TICK_INDEX <= tick <= MAX_TICK_INDEX
            &&& d.liquidity_gross == data.liquidity_gross + delta
            &&& d.liquidity_net == data.liquidity_net + delta
            &&& m.active_liquidity == meta.active_liquidity + delta
            &&& m.tick_count == (if data.liquidity_gross == 0 && delta > 0 {
                meta.tick_count + 1
            } else if d.liquidity_gross == 0 && delta < 0 && meta.tick_count > 0 {
                meta.tick_count - 1
            } else {
                meta.tick_count as int
            })
            &&& m.tick_spacing == meta.tick_spacing && m.asset == meta.asset && m.current_tick == meta.current_tick
        },
        !tick_aligned(tick, meta.tick_spacing) ==> place_liquidity_outcome(meta, data, list_len, tick, delta)
            == Err::<(TickIndexMeta, TickData), ContractError>(ContractError::TickNotAligned),
{
}

/// Placing liquidity and then removing the same amount at the same tick
/// restores the tick's record, the pool metadata and the set of
/// initialized ticks.
pub proof fn law_place_then_remove_restores(
    meta: TickIndexMeta,
    data: TickData,
    list_len: nat,
    tick: i32,
    amount: i64,
)
    requires
        amount > 0,
        place_liquidity_outcome(meta, data, list_len, tick, amount) is Ok,
    ensures
        ({
            let (m1, d1) = place_liquidity_outcome(meta, data, list_len, tick, amount)->Ok_0;
            let len1 = if data.liquidity_gross == 0 { list_len + 1 } else { list_len };
            place_liquidity_outcome(m1, d1, len1, tick, (-amount) as i64) == Ok::<(TickIndexMeta, TickData), ContractError>(
                (meta, data))
        }),
{
}

/// The liquidity record of initialized tick `t`, from the records that run
/// parallel to the sorted tick list.
pub open spec fn tick_data_of(s: Seq<i32>, data: Seq<TickData>, t: i32) -> TickData {
    let k = choose|k: int| 0 <= k < s.len() && #[trigger] s[k] == t;
    if s.contains(t) && k < data.len() {
        data[k]
    } else {
        TickData { liquidity_net: 0, liquidity_gross: 0 }
    }
}

/// Whether a tick is one of the two ends of the tick range.
pub open spec fn is_range_end(t: i32) -> bool {
    t == MAX_TICK_INDEX || t == MIN_TICK_INDEX
}

/// State of a swap simulation between steps.
pub struct SwapSimState {
    pub tick: i32,
    pub liquidity: u64,
    pub remaining: u64,
    pub total_out: u64,
    pub crossings: u32,
    pub steps: Seq<SwapStep>,
    pub stopped: bool,
}

/// Liquidity after crossing tick `next` in the swap direction: crossing
/// upward adds the tick's net liquidity, crossing downward takes it away.
/// A result outside the range of `u64` is an overflow. The ends of the
/// range carry no liquidity change.
pub open spec fn liquidity_after_cross(
    s: Seq<i32>,
    data: Seq<TickData>,
    up: bool,
    liquidity: u64,
    next: i32,
) -> Result<u64, ContractError> {
    if is_range_end(next) {
        Ok(liquidity)
    } else {
        let net = tick_data_of(s, data, next).liquidity_net as int;
        let v = if up { liquidity + net } else { liquidity - net };
        if v < 0 || v > u64::MAX {
            Err(ContractError::Overflow)
        } else {
            Ok(v as u64)
        }
    }
}

/// One step of a swap simulation: aim at the next initialized tick (or the
/// end of the range), consume input net of the fee and produce output in
/// proportion. Only a step whose whole input was supplied reaches that tick
/// and crosses it; a step cut short by the input running out leaves the
/// current tick and liquidity as they were.
pub open spec fn swap_sim_step(
    s: Seq<i32>,
    data: Seq<TickData>,
    up: bool,
    fee_bps: u32,
    st: SwapSimState,
) -> Result<SwapSimState, ContractError> {
    let next = match next_tick_in(s, st.tick, up) {
        Some(t) => t,
        None => if up { MAX_TICK_INDEX } else { MIN_TICK_INDEX },
    };
    match tick_price_outcome(st.tick) {
        Err(e) => Err(e),
        Ok(ps) => match tick_price_outcome(next) {
            Err(e) => Err(e),
            Ok(pe) => match step_input_outcome(ps as int, pe as int, st.liquidity as int) {
                Err(e) => Err(e),
                Ok(step_in) => {
                    let fee = step_in * fee_bps / 10_000;
                    if fee > step_in {
                        Err(ContractError::Overflow)
                    } else {
                        let net_in = (step_in - fee) as u64;
                        match step_output_outcome(ps as int, pe as int, st.liquidity as int) {
                            Err(e) => Err(e),
                            Ok(step_out) => {
                                let full = st.remaining >= net_in;
                                let consumed = if full { net_in } else { st.remaining };
                                let actual_out = if net_in > 0 {
                                    (step_out * consumed / (net_in as int)) as u64
                                } else {
                                    0u64
                                };
                                let step = SwapStep {
                                    start_tick: st.tick,
                                    end_tick: next,
                                    liquidity: st.liquidity,
                                    step_amount_in: consumed,
                                    step_amount_out: actual_out,
                                };
                                if st.total_out + actual_out > u64::MAX {
                                    Err(ContractError::Overflow)
                                } else if !full {
                                    Ok(SwapSimState {
                                        tick: st.tick,
                                        liquidity: st.liquidity,
                                        remaining: (st.remaining - consumed) as u64,
                                        total_out: (st.total_out + actual_out) as u64,
                                        crossings: st.crossings,
                                        steps: st.steps.push(step),
                                        stopped: st.stopped,
                                    })
                                } else {
                                    match liquidity_after_cross(s, data, up, st.liquidity, next) {
                                        Err(e) => Err(e),
                                        Ok(liq) => Ok(SwapSimState {
                                            tick: next,
                                            liquidity: liq,
                                            remaining: (st.remaining - consumed) as u64,
                                            total_out: (st.total_out + actual_out) as u64,
                                            crossings: if is_range_end(next) {
                                                st.crossings
                                            } else {
                                                (st.crossings + 1) as u32
                                            },
                                            steps: st.steps.push(step),
                                            stopped: is_range_end(next),
                                        }),
                                    }
                                }
                            },
                        }
                    }
                },
            },
        },
    }
}

/// The simulation after at most `n` steps; it stops early once the input
/// is used up or the end of the range is reached.
pub open spec fn swap_sim_run(
    s: Seq<i32>,
    data: Seq<TickData>,
    up: bool,
    fee_bps: u32,
    init: SwapSimState,
    n: nat,
) -> Result<SwapSimState, ContractError>
    decreases n,
{
    if n == 0 {
        Ok(init)
    } else {
        match swap_sim_run(s, data, up, fee_bps, init, (n - 1) as nat) {
            Err(e) => Err(e),
            Ok(t) => if t.stopped || t.remaining == 0 {
                Ok(t)
            } else {
                swap_sim_step(s, data, up, fee_bps, t)
            },
        }
    }
}

proof fn lemma_sim_run_settled(
    s: Seq<i32>,
    data: Seq<TickData>,
    up: bool,
    fee_bps: u32,
    init: SwapSimState,
    k: nat,
    m: nat,
)
    requires
        k <= m,
        k == m || swap_sim_run(s, data, up, fee_bps, init, k) is Err
            || swap_sim_run(s, data, up, fee_bps, init, k)->Ok_0.stopped
            || swap_sim_run(s, data, up, fee_bps, init, k)->Ok_0.remaining == 0,
    ensures
        swap_sim_run(s, data, up, fee_bps, init, m) == swap_sim_run(s, data, up, fee_bps, init, k),
    decreases m - k,
{
    if k < m {
        lemma_sim_run_settled(s, data, up, fee_bps, init, k, (m - 1) as nat);
    }
}

proof fn lemma_next_tick_in_list(s: Seq<i32>, c: i32, up: bool)
    ensures
        next_tick_in(s, c, up) matches Some(t) ==> s.contains(t),
    decreases s.len(),
{
    if s.len() > 0 {
        if up {
            if s[0] < c {
                lemma_next_tick_in_list(s.drop_first(), c, up);
                if let Some(t) = next_tick_in(s.drop_first(), c, up) {
                    let k = choose|k: int| 0 <= k < s.drop_first().len() && s.drop_first()[k] == t;
                    assert(s[k + 1] == t);
                }
            }
        } else {
            if s.last() > c {
                lemma_next_tick_in_list(s.drop_last(), c, up);
                if let Some(t) = next_tick_in(s.drop_last(), c, up) {
                    let k = choose|k: int| 0 <= k < s.drop_last().len() && s.drop_last()[k] == t;
                    assert(s[k] == t);
                }
            }
        }
    }
}

/// The liquidity record of a tick: its entry in the records that run
/// parallel to the list, or an empty record for a tick without one.
fn tick_record(list: &soroban_sdk::Vec<i32>, list_data: &Vec<TickData>, t: i32) -> (r: Result<TickData, ContractError>)
    ensures
        tick_list_typed(*list) ==> r is Ok,
        r is Err ==> r == Err::<TickData, ContractError>(ContractError::InvalidInput) && !tick_list_typed(*list),
        r matches Ok(d) ==> (strictly_sorted(tick_list_contents(*list)) ==> d == tick_data_of(tick_list_contents(*list), list_data@, t)),
        r matches Ok(d) ==> (d == (TickData { liquidity_net: 0, liquidity_gross: 0 })
            || exists|k: int| 0 <= k < list_data@.len() && list_data@[k] == d),
{
    let ghost s = tick_list_contents(*list);
    let pos = match binary_search_tick(list, t) {
        Ok(p) => p,
        Err(e) => return Err(e),
    };
    proof {
        if strictly_sorted(s) && s.contains(t) {
            let k = choose|k: int| 0 <= k < s.len() && #[trigger] s[k] == t;
            assert(k >= pos);
            assert(s[pos as int] >= t);
            if k > pos {
                assert(s[pos as int] < s[k]);
            }
            assert(k == pos as int);
        }
    }
    let found = if (pos as usize) < list_data.len() {
        match read_tick(list, pos) {
            Ok(v) => v,
            Err(e) => return Err(e),
        }
    } else {
        None
    };
    if found == Some(t) {
        Ok(list_data[pos as usize])
    } else {
        proof {
            if strictly_sorted(s) && s.contains(t) {
                let k = choose|k: int| 0 <= k < s.len() && #[trigger] s[k] == t;
                assert(k == pos as int);
            }
        }
        Ok(TickData { liquidity_net: 0, liquidity_gross: 0 })
    }
}

/// One step of the swap simulation from the given state, as
/// `swap_sim_step` describes it: the step taken, and the new tick,
/// liquidity, remaining input, total output, crossing count and whether the
/// end of the range was reached.
fn swap_step(
    list: &soroban_sdk::Vec<i32>,
    list_data: &Vec<TickData>,
    direction_up: bool,
    fee_bps: u32,
    current_tick: i32,
    current_liquidity: u64,
    remaining_in: u64,
    total_out: u64,
    crossings: u32,
    Ghost(st): Ghost<SwapSimState>,
) -> (r: Result<(SwapStep, (i32, u64, u64, u64, u32, bool)), ContractError>)
    requires
        crossings < u32::MAX,
        st.tick == current_tick,
        st.liquidity == current_liquidity,
        st.remaining == remaining_in,
        st.total_out == total_out,
        st.crossings == crossings,
        !st.stopped,
    ensures
        r matches Ok(x) ==> x.1.2 <= remaining_in && x.1.4 <= crossings + 1,
        tick_list_typed(*list) ==> r != Err::<(SwapStep, (i32, u64, u64, u64, u32, bool)), ContractError>(
            ContractError::InvalidInput),
        r == Err::<(SwapStep, (i32, u64, u64, u64, u32, bool)), ContractError>(ContractError::InvalidInput)
            ==> !tick_list_typed(*list),
        strictly_sorted(tick_list_contents(*list)) && r != Err::<(SwapStep, (i32, u64, u64, u64, u32, bool)), ContractError>(
            ContractError::InvalidInput) ==> match r {
            Err(e) => swap_sim_step(tick_list_contents(*list), list_data@, direction_up, fee_bps, st)
                == Err::<SwapSimState, ContractError>(e),
            Ok(x) => swap_sim_step(tick_list_contents(*list), list_data@, direction_up, fee_bps, st)
                == Ok::<SwapSimState, ContractError>(SwapSimState {
                    tick: x.1.0,
                    liquidity: x.1.1,
                    remaining: x.1.2,
                    total_out: x.1.3,
                    crossings: x.1.4,
                    steps: st.steps.push(x.0),
                    stopped: x.1.5,
                }),
        },
{
    let ghost s = tick_list_contents(*list);
    let found = match find_next_initialized_tick(list, current_tick, direction_up) {
        Ok(f) => f,
        Err(e) => return Err(e),
    };
    proof {
        lemma_next_tick_in_list(s, current_tick, direction_up);
    }
    let next_tick = match found {
        Some(t) => t,
        None => if direction_up { MAX_TICK_INDEX } else { MIN_TICK_INDEX },
    };
    let price_start = tick_to_price(current_tick)?;
    let price_end = tick_to_price(next_tick)?;
    proof {
        lemma_tick_price_range(current_tick);
        lemma_tick_price_range(next_tick);
    }
    let step_in = compute_step_input(price_start, price_end, current_liquidity, direction_up)?;
    proof {
        vstd::arithmetic::mul::lemma_mul_upper_bound(
            step_in as int, u64::MAX as int, fee_bps as int, u32::MAX as int);
    }
    let fee = (step_in as u128) * (fee_bps as u128) / 10_000;
    if fee > step_in as u128 {
        return Err(ContractError::Overflow);
    }
    let net_in = ((step_in as u128) - fee) as u64;
    let step_out = compute_step_output(price_start, price_end, current_liquidity, direction_up)?;
    let full = remaining_in >= net_in;
    let consumed = if full { net_in } else { remaining_in };
    let actual_out: u64 = if net_in > 0 {
        proof {
            vstd::arithmetic::mul::lemma_mul_upper_bound(
                step_out as int, u64::MAX as int, consumed as int, u64::MAX as int);
            vstd::arithmetic::mul::lemma_mul_inequality(consumed as int, net_in as int, step_out as int);
            vstd::arithmetic::mul::lemma_mul_is_commutative(consumed as int, step_out as int);
            vstd::arithmetic::mul::lemma_mul_is_commutative(net_in as int, step_out as int);
            assert(consumed <= net_in);
            vstd::arithmetic::div_mod::lemma_div_is_ordered(
                step_out * consumed, step_out * net_in, net_in as int);
            vstd::arithmetic::div_mod::lemma_div_multiples_vanish(step_out as int, net_in as int);
            vstd::arithmetic::mul::lemma_mul_is_commutative(step_out as int, net_in as int);
        }
        ((step_out as u128) * (consumed as u128) / (net_in as u128)) as u64
    } else {
        0
    };
    let new_total = match total_out.checked_add(actual_out) {
        Some(v) => v,
        None => return Err(ContractError::Overflow),
    };
    let step = SwapStep {
        start_tick: current_tick,
        end_tick: next_tick,
        liquidity: current_liquidity,
        step_amount_in: consumed,
        step_amount_out: actual_out,
    };
    let remaining_after = remaining_in - consumed;
    if !full {
        return Ok((step, (current_tick, current_liquidity, remaining_after, new_total, crossings, false)));
    }
    let at_end = next_tick == MAX_TICK_INDEX || next_tick == MIN_TICK_INDEX;
    if at_end {
        return Ok((step, (next_tick, current_liquidity, remaining_after, new_total, crossings, true)));
    }
    let record = match tick_record(list, list_data, next_tick) {
        Ok(d) => d,
        Err(e) => return Err(e),
    };
    let l = current_liquidity as i128;
    let net = record.liquidity_net as i128;
    let v = if direction_up { l + net } else { l - net };
    if v < 0 || v > u64::MAX as i128 {
        return Err(ContractError::Overflow);
    }
    Ok((step, (next_tick, v as u64, remaining_after, new_total, crossings + 1, false)))
}

/// Simulate a swap across tick boundaries without touching storage:
/// starting at `start_tick` with `start_liquidity`, repeatedly move to the
/// next initialized tick (or the end of the range), consume input net of
/// the fee and produce output proportionally, for at most `tick_count + 1`
/// steps. A step that receives its whole input crosses its tick, which adds
/// the tick's net liquidity going up and removes it going down; a step cut
/// short by the input running out crosses nothing. A tick list holding a
/// host value that is not an `i32` may be refused with `InvalidInput`.
///
/// `list` is the pool's sorted list of initialized ticks and `list_data`
/// their liquidity records, position by position.
pub fn simulate_swap_across_ticks(
    meta: Option<TickIndexMeta>,
    list: &soroban_sdk::Vec<i32>,
    list_data: &Vec<TickData>,
    start_tick: i32,
    start_liquidity: u64,
    amount_in: u64,
    direction_up: bool,
    fee_bps: u32,
) -> (r: Result<(SwapTickResult, Vec<SwapStep>), ContractError>)
    requires
        amount_in != 0 && start_liquidity != 0 ==> (meta matches Some(m) ==> m.tick_count < u32::MAX),
    ensures
        amount_in == 0 ==> r == Err::<(SwapTickResult, Vec<SwapStep>), ContractError>(ContractError::ZeroSwapAmount),
        amount_in != 0 && start_liquidity == 0 ==> r == Err::<(SwapTickResult, Vec<SwapStep>), ContractError>(
            ContractError::InsufficientLiquidityDepth),
        amount_in != 0 && start_liquidity != 0 && meta is None ==> r == Err::<(SwapTickResult, Vec<SwapStep>), ContractError>(
            ContractError::TickIndexNotFound),
        tick_list_typed(*list) ==> r != Err::<(SwapTickResult, Vec<SwapStep>), ContractError>(ContractError::InvalidInput),
        r == Err::<(SwapTickResult, Vec<SwapStep>), ContractError>(ContractError::InvalidInput) ==> !tick_list_typed(*list),
        amount_in != 0 && start_liquidity != 0 && meta is Some && strictly_sorted(tick_list_contents(*list))
            && r != Err::<(SwapTickResult, Vec<SwapStep>), ContractError>(ContractError::InvalidInput) ==> ({
            let init = SwapSimState {
                tick: start_tick,
                liquidity: start_liquidity,
                remaining: amount_in,
                total_out: 0,
                crossings: 0,
                steps: Seq::empty(),
                stopped: false,
            };
            match swap_sim_run(tick_list_contents(*list), list_data@, direction_up, fee_bps, init,
                (meta->Some_0.tick_count + 1) as nat) {
                Err(e) => r == Err::<(SwapTickResult, Vec<SwapStep>), ContractError>(e),
                Ok(t) => r matches Ok(res) && res.0 == (SwapTickResult {
                        final_tick: t.tick,
                        final_liquidity: t.liquidity,
                        amount_in: (amount_in - t.remaining) as u64,
                        amount_out: t.total_out,
                        crossings: t.crossings,
                    }) && res.1@ == t.steps,
            }
        }),
{
    if amount_in == 0 {
        return Err(ContractError::ZeroSwapAmount);
    }
    if start_liquidity == 0 {
        return Err(ContractError::InsufficientLiquidityDepth);
    }
    let m = match meta {
        Some(m) => m,
        None => return Err(ContractError::TickIndexNotFound),
    };
    let ghost s = tick_list_contents(*list);
    let ghost data = list_data@;
    let ghost init = SwapSimState {
        tick: start_tick,
        liquidity: start_liquidity,
        remaining: amount_in,
        total_out: 0,
        crossings: 0,
        steps: Seq::empty(),
        stopped: false,
    };

    let mut steps: Vec<SwapStep> = Vec::new();
    let mut remaining_in = amount_in;
    let mut total_out: u64 = 0;
    let mut crossings: u32 = 0;
    let mut current_tick = start_tick;
    let mut current_liquidity = start_liquidity;
    let mut stopped = false;

    // At most one step per initialized tick, plus the final one.
    let max_iterations = m.tick_count + 1;
    let mut iterations = 0u32;

    while remaining_in > 0 && iterations < max_iterations && !stopped
        invariant
            amount_in > 0,
            start_liquidity > 0,
            meta == Some(m),
            max_iterations == m.tick_count + 1,
            init == (SwapSimState {
                tick: start_tick,
                liquidity: start_liquidity,
                remaining: amount_in,
                total_out: 0,
                crossings: 0,
                steps: Seq::empty(),
                stopped: false,
            }),
            s == tick_list_contents(*list),
            data == list_data@,
            iterations <= max_iterations,
            crossings <= iterations,
            remaining_in <= amount_in,
            strictly_sorted(s) ==> swap_sim_run(s, data, direction_up, fee_bps, init, iterations as nat) == Ok::<SwapSimState, ContractError>(
                SwapSimState {
                    tick: current_tick,
                    liquidity: current_liquidity,
                    remaining: remaining_in,
                    total_out,
                    crossings,
                    steps: steps@,
                    stopped,
                }),
        decreases max_iterations - iterations,
    {
        let ghost st = SwapSimState {
            tick: current_tick,
            liquidity: current_liquidity,
            remaining: remaining_in,
            total_out,
            crossings,
            steps: steps@,
            stopped,
        };
        iterations += 1;
        assert(strictly_sorted(s) ==> swap_sim_run(s, data, direction_up, fee_bps, init, iterations as nat)
            == swap_sim_step(s, data, direction_up, fee_bps, st));
        match swap_step(list, list_data, direction_up, fee_bps, current_tick, current_liquidity,
            remaining_in, total_out, crossings, Ghost(st)) {
            Err(e) => {
                proof {
                    if strictly_sorted(s) && e != ContractError::InvalidInput {
                        lemma_sim_run_settled(s, data, direction_up, fee_bps, init, iterations as nat, max_iterations as nat);
                    }
                }
                return Err(e);
            },
            Ok((step, next_state)) => {
                steps.push(step);
                current_tick = next_state.0;
                current_liquidity = next_state.1;
                remaining_in = next_state.2;
                total_out = next_state.3;
                crossings = next_state.4;
                stopped = next_state.5;
            },
        }
    }
    proof {
        if strictly_sorted(s) {
            lemma_sim_run_settled(s, data, direction_up, fee_bps, init, iterations as nat, max_iterations as nat);
        }
    }
    Ok((
        SwapTickResult {
            final_tick: current_tick,
            final_liquidity: current_liquidity,
            amount_in: amount_in - remaining_in,
            amount_out: total_out,
            crossings,
        },
        steps,
    ))
}

/// A swap step charges the fee on its input: the step aims from the current
/// tick at the tick it records as its end, the input needed to move between
/// those two tick prices is `step_in`, and the input the step consumes is
/// `step_in - floor(step_in * fee_bps / 10_000)` when the remaining input
/// covers it, and all the remaining input otherwise. So a step never
/// consumes more than `step_in`, and a fee that amounts to at least one unit
/// makes it consume strictly less.
pub proof fn law_swap_step_charges_fee(
    s: Seq<i32>,
    data: Seq<TickData>,
    up: bool,
    fee_bps: u32,
    st: SwapSimState,
)
    requires
        swap_sim_step(s, data, up, fee_bps, st) is Ok,
    ensures
        ({
            let t = swap_sim_step(s, data, up, fee_bps, st)->Ok_0;
            let step = t.steps.last();
            let ps = tick_price_outcome(step.start_tick)->Ok_0 as int;
            let pe = tick_price_outcome(step.end_tick)->Ok_0 as int;
            let step_in = step_input_outcome(ps, pe, st.liquidity as int)->Ok_0 as int;
            let net = step_in - step_in * (fee_bps as int) / 10_000;
            &&& t.steps == st.steps.push(step)
            &&& step.start_tick == st.tick
            &&& step.liquidity == st.liquidity
            &&& tick_price_outcome(step.start_tick) is Ok
            &&& tick_price_outcome(step.end_tick) is Ok
            &&& step_input_outcome(ps, pe, st.liquidity as int) is Ok
            &&& step.step_amount_in == (if st.remaining >= net { net } else { st.remaining as int })
            &&& step.step_amount_in <= step_in
            &&& (fee_bps > 0 && step_in * fee_bps >= 10_000 && st.remaining >= net ==> step.step_amount_in < step_in)
            &&& t.remaining == st.remaining - step.step_amount_in
        }),
{
    let next = match next_tick_in(s, st.tick, up) {
        Some(t) => t,
        None => if up { MAX_TICK_INDEX } else { MIN_TICK_INDEX },
    };
    let ps = tick_price_outcome(st.tick)->Ok_0 as int;
    let pe = tick_price_outcome(next)->Ok_0 as int;
    let step_in = step_input_outcome(ps, pe, st.liquidity as int)->Ok_0 as int;
    assert(step_in >= 0);
    assert(step_in * (fee_bps as int) / 10_000 >= 0) by (nonlinear_arith)
        requires
            step_in >= 0,
            fee_bps >= 0,
    ;
    if fee_bps > 0 && step_in * fee_bps >= 10_000 {
        assert(step_in * (fee_bps as int) / 10_000 >= 1) by (nonlinear_arith)
            requires
                step_in * fee_bps >= 10_000,
        ;
    }
}

/// A swap step aims at the next initialized tick in its direction (or the
/// end of the range), pays out in proportion to the input it consumed, and
/// crosses its tick only when it was taken whole: crossing upward adds the
/// tick's net liquidity, crossing downward takes it away, and each crossed
/// initialized tick counts once. A step cut short keeps the tick, the
/// liquidity and the count of crossings.
pub proof fn law_swap_step_crosses_only_when_whole(
    s: Seq<i32>,
    data: Seq<TickData>,
    up: bool,
    fee_bps: u32,
    st: SwapSimState,
)
    requires
        st.crossings < u32::MAX,
        swap_sim_step(s, data, up, fee_bps, st) is Ok,
    ensures
        ({
            let t = swap_sim_step(s, data, up, fee_bps, st)->Ok_0;
            let step = t.steps.last();
            let ps = tick_price_outcome(step.start_tick)->Ok_0 as int;
            let pe = tick_price_outcome(step.end_tick)->Ok_0 as int;
            let step_in = step_input_outcome(ps, pe, st.liquidity as int)->Ok_0 as int;
            let net = step_in - step_in * (fee_bps as int) / 10_000;
            let step_out = step_output_outcome(ps, pe, st.liquidity as int)->Ok_0 as int;
            let whole = st.remaining >= net;
            let n = tick_data_of(s, data, step.end_tick).liquidity_net as int;
            &&& step.end_tick == match next_tick_in(s, st.tick, up) {
                Some(k) => k,
                None => if up { MAX_TICK_INDEX } else { MIN_TICK_INDEX },
            }
            &&& step_output_outcome(ps, pe, st.liquidity as int) is Ok
            &&& (net > 0 ==> step.step_amount_out * net <= step_out * step.step_amount_in
                && step_out * step.step_amount_in < (step.step_amount_out + 1) * net)
            &&& (net == 0 ==> step.step_amount_out == 0)
            &&& t.total_out == st.total_out + step.step_amount_out
            &&& (!whole ==> t.tick == st.tick && t.liquidity == st.liquidity && t.crossings == st.crossings)
            &&& (whole ==> t.tick == step.end_tick)
            &&& (whole && is_range_end(step.end_tick) ==> t.liquidity == st.liquidity
                && t.crossings == st.crossings && t.stopped)
            &&& (whole && !is_range_end(step.end_tick) ==> t.crossings == st.crossings + 1
                && t.liquidity == (if up { st.liquidity + n } else { st.liquidity - n }))
        }),
{
    law_swap_step_charges_fee(s, data, up, fee_bps, st);
    let next = match next_tick_in(s, st.tick, up) {
        Some(k) => k,
        None => if up { MAX_TICK_INDEX } else { MIN_TICK_INDEX },
    };
    let ps = tick_price_outcome(st.tick)->Ok_0 as int;
    let pe = tick_price_outcome(next)->Ok_0 as int;
    let step_in = step_input_outcome(ps, pe, st.liquidity as int)->Ok_0 as int;
    let net = step_in - step_in * (fee_bps as int) / 10_000;
    let step_out = step_output_outcome(ps, pe, st.liquidity as int)->Ok_0 as int;
    let consumed = if st.remaining >= net { net } else { st.remaining as int };
    if net > 0 {
        assert(0 <= consumed <= net);
        assert(step_out >= 0);
        let x = step_out * consumed;
        vstd::arithmetic::mul::lemma_mul_nonnegative(step_out, consumed);
        vstd::arithmetic::div_mod::lemma_fundamental_div_mod(x, net);
        vstd::arithmetic::div_mod::lemma_mod_pos_bound(x, net);
        vstd::arithmetic::div_mod::lemma_div_pos_is_pos(x, net);
        let q = x / net;
        assert(q * net <= x && x < (q + 1) * net) by (nonlinear_arith)
            requires
                x == net * q + x % net,
                0 <= x % net < net,
        ;
        vstd::arithmetic::mul::lemma_mul_inequality(consumed, net, step_out);
        vstd::arithmetic::mul::lemma_mul_is_commutative(consumed, step_out);
        vstd::arithmetic::mul::lemma_mul_is_commutative(net, step_out);
        assert(x <= step_out * net);
        vstd::arithmetic::div_mod::lemma_div_is_ordered(x, step_out * net, net);
        vstd::arithmetic::div_mod::lemma_div_multiples_vanish(step_out, net);
        assert(q <= step_out);
        assert(step_out <= u64::MAX);
        assert((q as u64) as int == q);
    }
}

/// A higher fee never makes a swap step consume more input: with the same
/// state and the same tick list, the step under the larger fee consumes at
/// most what the step under the smaller fee consumes.
pub proof fn law_higher_fee_consumes_no_more(
    s: Seq<i32>,
    data: Seq<TickData>,
    up: bool,
    fee_low: u32,
    fee_high: u32,
    st: SwapSimState,
)
    requires
        fee_low <= fee_high,
        swap_sim_step(s, data, up, fee_low, st) is Ok,
        swap_sim_step(s, data, up, fee_high, st) is Ok,
    ensures
        swap_sim_step(s, data, up, fee_high, st)->Ok_0.steps.last().step_amount_in
            <= swap_sim_step(s, data, up, fee_low, st)->Ok_0.steps.last().step_amount_in,
{
    law_swap_step_charges_fee(s, data, up, fee_low, st);
    law_swap_step_charges_fee(s, data, up, fee_high, st);
    let next = match next_tick_in(s, st.tick, up) {
        Some(t) => t,
        None => if up { MAX_TICK_INDEX } else { MIN_TICK_INDEX },
    };
    let ps = tick_price_outcome(st.tick)->Ok_0 as int;
    let pe = tick_price_outcome(next)->Ok_0 as int;
    let step_in = step_input_outcome(ps, pe, st.liquidity as int)->Ok_0 as int;
    assert(step_in * (fee_low as int) / 10_000 <= step_in * (fee_high as int) / 10_000) by (nonlinear_arith)
        requires
            step_in >= 0,
            fee_low <= fee_high,
    ;
}

/// Total input consumed over a sequence of swap steps.
pub open spec fn steps_amount_in(steps: Seq<SwapStep>) -> int
    decreases steps.len(),
{
    if steps.len() == 0 {
        0
    } else {
        steps_amount_in(steps.drop_last()) + steps.last().step_amount_in
    }
}

/// Total output produced over a sequence of swap steps.
pub open spec fn steps_amount_out(steps: Seq<SwapStep>) -> int
    decreases steps.len(),
{
    if steps.len() == 0 {
        0
    } else {
        steps_amount_out(steps.drop_last()) + steps.last().step_amount_out
    }
}

/// A swap simulation accounts exactly: the output it reports is the sum of
/// the outputs of its steps, the input it consumed is the sum of the inputs
/// of its steps, and it never consumes more than it was given.
pub proof fn law_swap_simulation_accounts(
    s: Seq<i32>,
    data: Seq<TickData>,
    up: bool,
    fee_bps: u32,
    start_tick: i32,
    start_liquidity: u64,
    amount_in: u64,
    n: nat,
)
    ensures
        ({
            let init = SwapSimState {
                tick: start_tick,
                liquidity: start_liquidity,
                remaining: amount_in,
                total_out: 0,
                crossings: 0,
                steps: Seq::empty(),
                stopped: false,
            };
            swap_sim_run(s, data, up, fee_bps, init, n) matches Ok(t) ==> (
                t.total_out == steps_amount_out(t.steps)
                && amount_in - t.remaining == steps_amount_in(t.steps)
                && t.remaining <= amount_in
                && t.crossings <= t.steps.len())
        }),
    decreases n,
{
    let init = SwapSimState {
        tick: start_tick,
        liquidity: start_liquidity,
        remaining: amount_in,
        total_out: 0,
        crossings: 0,
        steps: Seq::empty(),
        stopped: false,
    };
    if n > 0 {
        law_swap_simulation_accounts(s, data, up, fee_bps, start_tick, start_liquidity, amount_in, (n - 1) as nat);
        if let Ok(t) = swap_sim_run(s, data, up, fee_bps, init, (n - 1) as nat) {
            if !(t.stopped || t.remaining == 0) {
                if let Ok(t2) = swap_sim_step(s, data, up, fee_bps, t) {
                    assert(t2.steps.drop_last() == t.steps);
                }
            }
        }
    }
}

} // verus!

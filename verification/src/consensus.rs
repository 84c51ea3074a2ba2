use vstd::prelude::*;
use crate::error::ContractError;
use crate::host::{
    entry_list_contents, entry_list_get, entry_list_len, entry_list_new, entry_list_push_back, entry_list_set, entry_list_typed,
};

verus! {

/// Capacity of the stack-allocated validator array.
pub const MAX_VALIDATORS: usize = 16;

/// Basis-point denominator used when converting a BPS fraction to a multiplier.
pub const BPS_DENOMINATOR: u64 = 10_000;

/// Minimum number of independent validators for a complete quorum.
pub const MIN_QUORUM_DEPTH: usize = 3;

/// The first `len` validator ids are in non-decreasing order.
pub open spec fn sorted_prefix(validators: Seq<u32>, len: int) -> bool {
    forall|i: int, j: int| 0 <= i <= j < len ==> validators[i] <= validators[j]
}

/// Binary search over the first `len` entries of a sorted validator array.
///
/// Returns `Ok(index)` when `id` is found and `Err(index)` with the insertion
/// point otherwise.
pub fn binary_search_validator(validators: &[u32; MAX_VALIDATORS], id: u32, len: usize) -> (r: Result<usize, usize>)
    requires
        len <= MAX_VALIDATORS,
    ensures
        r matches Ok(i) ==> i < len && validators@[i as int] == id,
        r matches Err(i) ==> i <= len,
        sorted_prefix(validators@, len as int) ==> (r matches Err(i) ==> (
            (forall|k: int| 0 <= k < i ==> validators@[k] < id)
            && (forall|k: int| i <= k < len ==> validators@[k] > id))),
{
    let mut low: usize = 0;
    let mut high: usize = len;
    while low < high
        invariant
            low <= high <= len,
            len <= MAX_VALIDATORS,
            sorted_prefix(validators@, len as int) ==> (forall|k: int| 0 <= k < low ==> validators@[k] < id),
            sorted_prefix(validators@, len as int) ==> (forall|k: int| high <= k < len ==> validators@[k] > id),
        decreases high - low,
    {
        let mid = low + (high - low) / 2;
        if validators[mid] == id {
            return Ok(mid);
        } else if validators[mid] < id {
            low = mid + 1;
        } else {
            high = mid;
        }
    }
    Err(low)
}

/// Require at least `MIN_QUORUM_DEPTH` validators in the current round.
pub fn check_consensus_depth_stack(_validators: &[u32; MAX_VALIDATORS], len: usize) -> (r: Result<(), ContractError>)
    ensures
        len < MIN_QUORUM_DEPTH ==> r == Err::<(), ContractError>(ContractError::IncompleteQuorum),
        len >= MIN_QUORUM_DEPTH ==> r == Ok::<(), ContractError>(()),
{
    if len < MIN_QUORUM_DEPTH {
        return Err(ContractError::IncompleteQuorum);
    }
    Ok(())
}

/// Multiply a raw value by a weight, returning `MathOverflow` on overflow.
pub fn apply_weight(value: u64, weight: u64) -> (r: Result<u64, ContractError>)
    ensures
        value * weight <= u64::MAX ==> r == Ok::<u64, ContractError>((value * weight) as u64),
        value * weight > u64::MAX ==> r == Err::<u64, ContractError>(ContractError::MathOverflow),
{
    match value.checked_mul(weight) {
        Some(v) => Ok(v),
        None => Err(ContractError::MathOverflow),
    }
}

/// Minimum weight required for quorum: `total_weight * quorum_bps / 10_000`.
pub fn compute_quorum_threshold(total_weight: u64, quorum_bps: u64) -> (r: Result<u64, ContractError>)
    ensures
        total_weight * quorum_bps <= u64::MAX ==> r == Ok::<u64, ContractError>(
            ((total_weight * quorum_bps) / (BPS_DENOMINATOR as int)) as u64),
        total_weight * quorum_bps > u64::MAX ==> r == Err::<u64, ContractError>(ContractError::MathOverflow),
{
    let numerator = match total_weight.checked_mul(quorum_bps) {
        Some(v) => v,
        None => return Err(ContractError::MathOverflow),
    };
    Ok(numerator / BPS_DENOMINATOR)
}

/// Scale a raw consensus score by a fixed precision multiplier.
pub fn normalize_weight_score(raw_score: u64, precision: u64) -> (r: Result<u64, ContractError>)
    ensures
        raw_score * precision <= u64::MAX ==> r == Ok::<u64, ContractError>((raw_score * precision) as u64),
        raw_score * precision > u64::MAX ==> r == Err::<u64, ContractError>(ContractError::MathOverflow),
{
    match raw_score.checked_mul(precision) {
        Some(v) => Ok(v),
        None => Err(ContractError::MathOverflow),
    }
}

/// Share of the total weight held by one entry, in basis points:
/// `entry_weight * 10_000 / total_weight`, capped at the whole (10 000), so
/// the result lies in [0, 10 000]; zero when the total is zero.
pub fn entry_weight_share_bps(entry_weight: u64, total_weight: u64) -> (r: Result<u64, ContractError>)
    ensures
        total_weight == 0 ==> r == Ok::<u64, ContractError>(0),
        total_weight != 0 && entry_weight * BPS_DENOMINATOR <= u64::MAX ==> r == Ok::<u64, ContractError>(({
            let share = (entry_weight * BPS_DENOMINATOR) / (total_weight as int);
            if share > BPS_DENOMINATOR { BPS_DENOMINATOR as int } else { share }
        }) as u64),
        total_weight != 0 && entry_weight * BPS_DENOMINATOR > u64::MAX
            ==> r == Err::<u64, ContractError>(ContractError::MathOverflow),
        r matches Ok(bps) ==> bps <= BPS_DENOMINATOR,
        total_weight != 0 && entry_weight <= total_weight && entry_weight * BPS_DENOMINATOR <= u64::MAX
            ==> r == Ok::<u64, ContractError>(
            ((entry_weight * BPS_DENOMINATOR) / (total_weight as int)) as u64),
{
    if total_weight == 0 {
        return Ok(0);
    }
    let numerator = match entry_weight.checked_mul(BPS_DENOMINATOR) {
        Some(v) => v,
        None => return Err(ContractError::MathOverflow),
    };
    let share = numerator / total_weight;
    proof {
        if entry_weight <= total_weight {
            assert(numerator <= total_weight * BPS_DENOMINATOR) by (nonlinear_arith)
                requires
                    numerator == entry_weight * BPS_DENOMINATOR,
                    entry_weight <= total_weight,
            ;
            vstd::arithmetic::div_mod::lemma_div_is_ordered(
                numerator as int, total_weight * BPS_DENOMINATOR, total_weight as int);
            vstd::arithmetic::div_mod::lemma_div_multiples_vanish(BPS_DENOMINATOR as int, total_weight as int);
        }
    }
    if share > BPS_DENOMINATOR {
        Ok(BPS_DENOMINATOR)
    } else {
        Ok(share)
    }
}

/// A single provider's submission paired with its consensus weight (stake amount).
///
/// In a host vector an entry is stored as the row `(value, weight)`.
#[derive(Clone, Copy, Debug, PartialEq, Eq, Structural)]
pub struct WeightedEntry {
    /// Raw submitted value (e.g. price in smallest denomination).
    pub value: u64,
    /// Weight assigned to this entry, typically the provider's staked amount.
    pub weight: u64,
}

/// Some row of `rows` carries the value `v`.
pub open spec fn holds_value(rows: Seq<(u64, u64)>, v: u64) -> bool {
    exists|j: int| 0 <= j < rows.len() && (#[trigger] rows[j]).0 == v
}

/// The position of a row carrying the value `v`.
pub open spec fn value_slot(rows: Seq<(u64, u64)>, v: u64) -> int {
    choose|j: int| 0 <= j < rows.len() && (#[trigger] rows[j]).0 == v
}

/// No two rows carry the same value.
pub open spec fn distinct_values(rows: Seq<(u64, u64)>) -> bool {
    forall|i: int, j: int| 0 <= i < j < rows.len() ==> (#[trigger] rows[i]).0 != (#[trigger] rows[j]).0
}

/// Fold one row into a compacted table: add its weight to the row with the
/// same value, or append it; `None` once a merged weight overflows `u64`.
pub open spec fn merge_row(table: Option<Seq<(u64, u64)>>, row: (u64, u64)) -> Option<Seq<(u64, u64)>> {
    match table {
        None => None,
        Some(c) => if holds_value(c, row.0) {
            let j = value_slot(c, row.0);
            if c[j].1 + row.1 > u64::MAX {
                None
            } else {
                Some(c.update(j, (row.0, (c[j].1 + row.1) as u64)))
            }
        } else {
            Some(c.push(row))
        },
    }
}

/// The rows with duplicate values merged, in order of first appearance,
/// each carrying the summed weight; `None` when a sum overflows `u64`.
pub open spec fn compacted_rows(rows: Seq<(u64, u64)>) -> Option<Seq<(u64, u64)>>
    decreases rows.len(),
{
    if rows.len() == 0 {
        Some(Seq::empty())
    } else {
        merge_row(compacted_rows(rows.drop_last()), rows.last())
    }
}

/// `Σ value * weight` over the rows.
pub open spec fn weighted_total(rows: Seq<(u64, u64)>) -> int
    decreases rows.len(),
{
    if rows.len() == 0 {
        0
    } else {
        weighted_total(rows.drop_last()) + rows.last().0 * rows.last().1
    }
}

/// `Σ weight` over the rows.
pub open spec fn weight_total(rows: Seq<(u64, u64)>) -> int
    decreases rows.len(),
{
    if rows.len() == 0 {
        0
    } else {
        weight_total(rows.drop_last()) + rows.last().1
    }
}

/// A weighted average lies between the smallest and the largest value: when
/// every row's value is within `[lo, hi]`, `Σ value * weight` is within
/// `[lo * Σ weight, hi * Σ weight]`, so with some weight present the
/// rounded-down average `Σ value * weight / Σ weight` is within `[lo, hi]`.
pub proof fn law_weighted_average_between_values(rows: Seq<(u64, u64)>, lo: int, hi: int)
    requires
        0 <= lo,
        forall|i: int| 0 <= i < rows.len() ==> lo <= (#[trigger] rows[i]).0 <= hi,
    ensures
        lo * weight_total(rows) <= weighted_total(rows) <= hi * weight_total(rows),
        weight_total(rows) > 0 ==> lo <= weighted_total(rows) / weight_total(rows) <= hi,
    decreases rows.len(),
{
    if rows.len() > 0 {
        let prev = rows.drop_last();
        let e = rows.last();
        assert forall|i: int| 0 <= i < prev.len() implies lo <= (#[trigger] prev[i]).0 <= hi by {
            assert(prev[i] == rows[i]);
        }
        law_weighted_average_between_values(prev, lo, hi);
        assert(lo <= e.0 <= hi) by {
            assert(e == rows[rows.len() - 1]);
        }
        assert(lo * e.1 <= e.0 * e.1 <= hi * e.1) by (nonlinear_arith)
            requires
                0 <= lo <= e.0 <= hi,
                e.1 >= 0,
        ;
        assert(lo * weight_total(rows) == lo * weight_total(prev) + lo * e.1) by (nonlinear_arith)
            requires
                weight_total(rows) == weight_total(prev) + e.1,
        ;
        assert(hi * weight_total(rows) == hi * weight_total(prev) + hi * e.1) by (nonlinear_arith)
            requires
                weight_total(rows) == weight_total(prev) + e.1,
        ;
    }
    let w = weight_total(rows);
    let x = weighted_total(rows);
    if w > 0 {
        vstd::arithmetic::div_mod::lemma_div_is_ordered(lo * w, x, w);
        vstd::arithmetic::div_mod::lemma_div_is_ordered(x, hi * w, w);
        vstd::arithmetic::div_mod::lemma_div_multiples_vanish(lo, w);
        vstd::arithmetic::div_mod::lemma_div_multiples_vanish(hi, w);
        vstd::arithmetic::mul::lemma_mul_is_commutative(lo, w);
        vstd::arithmetic::mul::lemma_mul_is_commutative(hi, w);
    }
}

proof fn lemma_compaction_fails_for_good(rows: Seq<(u64, u64)>, k: int)
    requires
        0 <= k <= rows.len(),
        compacted_rows(rows.take(k)) is None,
    ensures
        compacted_rows(rows) is None,
    decreases rows.len(),
{
    if k == rows.len() {
        assert(rows.take(k) =~= rows);
    } else {
        assert(rows.drop_last().take(k) =~= rows.take(k));
        lemma_compaction_fails_for_good(rows.drop_last(), k);
    }
}

proof fn lemma_totals_nonneg(rows: Seq<(u64, u64)>)
    ensures
        weighted_total(rows) >= 0,
        weight_total(rows) >= 0,
    decreases rows.len(),
{
    if rows.len() > 0 {
        lemma_totals_nonneg(rows.drop_last());
        let e = rows.last();
        assert(e.0 * e.1 >= 0) by (nonlinear_arith);
    }
}

proof fn lemma_totals_prefix_bounded(rows: Seq<(u64, u64)>, k: int)
    requires
        0 <= k <= rows.len(),
    ensures
        weighted_total(rows.take(k)) <= weighted_total(rows),
        weight_total(rows.take(k)) <= weight_total(rows),
    decreases rows.len(),
{
    if k == rows.len() {
        assert(rows.take(k) =~= rows);
    } else {
        assert(rows.drop_last().take(k) =~= rows.take(k));
        lemma_totals_prefix_bounded(rows.drop_last(), k);
        let e = rows.last();
        assert(e.0 * e.1 >= 0) by (nonlinear_arith);
    }
}

proof fn lemma_totals_update(rows: Seq<(u64, u64)>, j: int, x: (u64, u64))
    requires
        0 <= j < rows.len(),
    ensures
        weighted_total(rows.update(j, x)) == weighted_total(rows) - rows[j].0 * rows[j].1 + x.0 * x.1,
        weight_total(rows.update(j, x)) == weight_total(rows) - rows[j].1 + x.1,
    decreases rows.len(),
{
    let u = rows.update(j, x);
    if j == rows.len() - 1 {
        assert(u.drop_last() =~= rows.drop_last());
    } else {
        assert(u.drop_last() =~= rows.drop_last().update(j, x));
        lemma_totals_update(rows.drop_last(), j, x);
    }
}

proof fn lemma_totals_push(rows: Seq<(u64, u64)>, x: (u64, u64))
    ensures
        weighted_total(rows.push(x)) == weighted_total(rows) + x.0 * x.1,
        weight_total(rows.push(x)) == weight_total(rows) + x.1,
{
    assert(rows.push(x).drop_last() =~= rows);
}

/// Merging duplicate rows neither creates nor loses weight: when the
/// compaction succeeds, the compacted table has the same total weight and
/// the same `Σ value * weight` as the rows it was built from, and no two
/// of its rows carry the same value.
pub proof fn law_compaction_preserves_totals(rows: Seq<(u64, u64)>)
    ensures
        compacted_rows(rows) matches Some(c) ==> {
            &&& weighted_total(c) == weighted_total(rows)
            &&& weight_total(c) == weight_total(rows)
            &&& distinct_values(c)
            &&& c.len() <= rows.len()
        },
    decreases rows.len(),
{
    if rows.len() > 0 {
        let prev = rows.drop_last();
        let e = rows.last();
        law_compaction_preserves_totals(prev);
        if let Some(c0) = compacted_rows(prev) {
            if holds_value(c0, e.0) {
                let j = value_slot(c0, e.0);
                if c0[j].1 + e.1 <= u64::MAX {
                    let x = (e.0, (c0[j].1 + e.1) as u64);
                    lemma_totals_update(c0, j, x);
                    assert(e.0 * (c0[j].1 + e.1) == e.0 * c0[j].1 + e.0 * e.1) by (nonlinear_arith);
                    let c = c0.update(j, x);
                    assert forall|a: int, b: int| 0 <= a < b < c.len() implies (#[trigger] c[a]).0 != (#[trigger] c[b]).0 by {
                        assert(c0[a].0 != c0[b].0);
                    }
                }
            } else {
                lemma_totals_push(c0, e);
                let c = c0.push(e);
                assert forall|a: int, b: int| 0 <= a < b < c.len() implies (#[trigger] c[a]).0 != (#[trigger] c[b]).0 by {
                    if b < c0.len() {
                        assert(c0[a].0 != c0[b].0);
                    } else {
                        assert(c[a] == c0[a]);
                    }
                }
            }
        }
    }
}

/// Merge rows that carry the same value, adding up their weights.
///
/// Rows keep the order in which their value first appears; fails with
/// `MathOverflow` when a merged weight overflows `u64`. A row that is not a
/// pair of `u64` on the host is refused with `InvalidInput`.
pub fn compact_duplicate_price_rows(
    env: &soroban_sdk::Env,
    entries: &soroban_sdk::Vec<(u64, u64)>,
) -> (r: Result<soroban_sdk::Vec<(u64, u64)>, ContractError>)
    ensures
        entry_list_typed(*entries) ==> r != Err::<soroban_sdk::Vec<(u64, u64)>, ContractError>(ContractError::InvalidInput),
        r == Err::<soroban_sdk::Vec<(u64, u64)>, ContractError>(ContractError::InvalidInput) ==> !entry_list_typed(*entries),
        r matches Ok(out) ==> entry_list_typed(out),
        r != Err::<soroban_sdk::Vec<(u64, u64)>, ContractError>(ContractError::InvalidInput) ==> match compacted_rows(entry_list_contents(*entries)) {
            Some(c) => r matches Ok(out) && entry_list_contents(out) == c,
            None => r == Err::<soroban_sdk::Vec<(u64, u64)>, ContractError>(ContractError::MathOverflow),
        },
{
    let ghost rows = entry_list_contents(*entries);
    let mut compacted = entry_list_new(env);
    let n = entry_list_len(entries);
    let mut i: u32 = 0;
    proof {
        assert(rows.take(0) =~= Seq::<(u64, u64)>::empty());
    }
    while i < n
        invariant
            i <= n,
            n as int == rows.len(),
            rows == entry_list_contents(*entries),
            compacted_rows(rows.take(i as int)) == Some(entry_list_contents(compacted)),
            distinct_values(entry_list_contents(compacted)),
            entry_list_contents(compacted).len() <= i,
            entry_list_typed(compacted),
        decreases n - i,
    {
        let entry = match entry_list_get(entries, i) {
            Ok(Some(e)) => e,
            Ok(None) => return Err(ContractError::InvalidInput),
            Err(_) => return Err(ContractError::InvalidInput),
        };
        let ghost c = entry_list_contents(compacted);
        let ghost e = rows[i as int];
        proof {
            assert(rows.take(i + 1).drop_last() =~= rows.take(i as int));
            assert(rows.take(i + 1).last() == e);
        }
        let m = entry_list_len(&compacted);
        let mut j: u32 = 0;
        let mut found = false;
        while j < m
            invariant_except_break
                j <= m,
                !found,
                forall|k: int| 0 <= k < j ==> (#[trigger] c[k]).0 != entry.value,
            invariant
                i < n,
                n as int == rows.len(),
                rows == entry_list_contents(*entries),
                m as int == c.len(),
                entry.value == e.0,
                entry.weight == e.1,
                found ==> compacted_rows(rows.take(i + 1)) == Some(entry_list_contents(compacted))
                    && distinct_values(entry_list_contents(compacted))
                    && entry_list_contents(compacted).len() == c.len(),
                !found ==> entry_list_contents(compacted) == c,
                distinct_values(c),
                compacted_rows(rows.take(i as int)) == Some(c),
                rows.take(i + 1).drop_last() == rows.take(i as int),
                rows.take(i + 1).last() == e,
                entry_list_typed(compacted),
            ensures
                !found ==> forall|k: int| 0 <= k < c.len() ==> (#[trigger] c[k]).0 != entry.value,
            decreases m - j,
        {
            let existing = match entry_list_get(&compacted, j) {
                Ok(Some(x)) => x,
                Ok(None) => return Err(ContractError::InvalidInput),
                Err(_) => return Err(ContractError::InvalidInput),
            };
            if existing.value == entry.value {
                proof {
                    assert(holds_value(c, e.0));
                    let slot = value_slot(c, e.0);
                    if slot != j {
                        if slot < j {
                            assert(c[slot].0 != c[j as int].0);
                        } else {
                            assert(c[j as int].0 != c[slot].0);
                        }
                    }
                }
                let merged_weight = match existing.weight.checked_add(entry.weight) {
                    Some(w) => w,
                    None => {
                        proof {
                            let t = rows.take(i + 1);
                            assert(value_slot(c, e.0) == j);
                            assert(compacted_rows(t) == merge_row(compacted_rows(t.drop_last()), t.last()));
                            assert(compacted_rows(t) is None);
                            lemma_compaction_fails_for_good(rows, i + 1);
                        }
                        return Err(ContractError::MathOverflow);
                    },
                };
                entry_list_set(&mut compacted, j, WeightedEntry { value: existing.value, weight: merged_weight });
                proof {
                    let c2 = entry_list_contents(compacted);
                    assert forall|a: int, b: int| 0 <= a < b < c2.len() implies (#[trigger] c2[a]).0 != (#[trigger] c2[b]).0 by {
                        assert(c[a].0 != c[b].0);
                    }
                }
                found = true;
                break;
            }
            j = j + 1;
        }
        if !found {
            proof {
                assert(!holds_value(c, e.0));
            }
            entry_list_push_back(&mut compacted, entry);
            proof {
                let c2 = entry_list_contents(compacted);
                assert(c2 == c.push(e));
                assert forall|a: int, b: int| 0 <= a < b < c2.len() implies (#[trigger] c2[a]).0 != (#[trigger] c2[b]).0 by {
                    if b < c.len() {
                        assert(c[a].0 != c[b].0);
                    } else {
                        assert(c2[a] == c[a]);
                    }
                }
            }
        }
        i = i + 1;
    }
    proof {
        assert(rows.take(n as int) =~= rows);
    }
    Ok(compacted)
}

/// What `compute_weighted_sum` yields for the rows: `None` when the
/// compaction or an accumulation overflows `u64`, else
/// `(Σ value * weight, Σ weight)`.
pub open spec fn weighted_sum_outcome(rows: Seq<(u64, u64)>) -> Option<(u64, u64)> {
    if compacted_rows(rows) is Some && weighted_total(rows) <= u64::MAX && weight_total(rows) <= u64::MAX {
        Some((weighted_total(rows) as u64, weight_total(rows) as u64))
    } else {
        None
    }
}

/// Sum of `value * weight` and of `weight` over the entries, after merging
/// rows that carry the same value.
///
/// Every product and every running total is checked; any overflow (or an
/// overflow while merging) fails with `MathOverflow`.
pub fn compute_weighted_sum(
    env: &soroban_sdk::Env,
    entries: &soroban_sdk::Vec<(u64, u64)>,
) -> (r: Result<(u64, u64), ContractError>)
    ensures
        entry_list_typed(*entries) ==> r != Err::<(u64, u64), ContractError>(ContractError::InvalidInput),
        r == Err::<(u64, u64), ContractError>(ContractError::InvalidInput) ==> !entry_list_typed(*entries),
        r != Err::<(u64, u64), ContractError>(ContractError::InvalidInput) ==> match weighted_sum_outcome(entry_list_contents(*entries)) {
            Some(sums) => r == Ok::<(u64, u64), ContractError>(sums),
            None => r == Err::<(u64, u64), ContractError>(ContractError::MathOverflow),
        },
{
    let ghost rows = entry_list_contents(*entries);
    let compacted = match compact_duplicate_price_rows(env, entries) {
        Ok(c) => c,
        Err(e) => return Err(e),
    };
    let ghost c = entry_list_contents(compacted);
    proof {
        law_compaction_preserves_totals(rows);
        lemma_totals_nonneg(c);
    }
    let n = entry_list_len(&compacted);
    let mut weighted_sum: u64 = 0;
    let mut total_weight: u64 = 0;
    let mut k: u32 = 0;
    proof {
        assert(c.take(0) =~= Seq::<(u64, u64)>::empty());
    }
    while k < n
        invariant
            k <= n,
            n as int == c.len(),
            rows == entry_list_contents(*entries),
            c == entry_list_contents(compacted),
            compacted_rows(rows) == Some(c),
            weighted_total(c) == weighted_total(rows),
            weight_total(c) == weight_total(rows),
            weighted_sum as int == weighted_total(c.take(k as int)),
            total_weight as int == weight_total(c.take(k as int)),
            entry_list_typed(compacted),
        decreases n - k,
    {
        let entry = match entry_list_get(&compacted, k) {
            Ok(Some(x)) => x,
            Ok(None) => return Err(ContractError::InvalidInput),
            Err(_) => return Err(ContractError::InvalidInput),
        };
        proof {
            let t = c.take(k + 1);
            assert(t.drop_last() =~= c.take(k as int));
            assert(t.last() == c[k as int]);
            lemma_totals_prefix_bounded(c, k + 1);
            lemma_totals_nonneg(c.take(k as int));
        }
        let weighted_value = match apply_weight(entry.value, entry.weight) {
            Ok(v) => v,
            Err(e) => {
                proof {
                    assert(weighted_total(c) > u64::MAX);
                }
                return Err(e);
            },
        };
        weighted_sum = match weighted_sum.checked_add(weighted_value) {
            Some(v) => v,
            None => return Err(ContractError::MathOverflow),
        };
        total_weight = match total_weight.checked_add(entry.weight) {
            Some(v) => v,
            None => return Err(ContractError::MathOverflow),
        };
        k = k + 1;
    }
    proof {
        assert(c.take(n as int) =~= c);
    }
    Ok((weighted_sum, total_weight))
}

/// Stake-weighted average of the entries: `Σ value * weight / Σ weight`
/// (rounded down), or zero when the total weight is zero.
pub fn compute_weighted_average(
    env: &soroban_sdk::Env,
    entries: &soroban_sdk::Vec<(u64, u64)>,
) -> (r: Result<u64, ContractError>)
    ensures
        entry_list_typed(*entries) ==> r != Err::<u64, ContractError>(ContractError::InvalidInput),
        r == Err::<u64, ContractError>(ContractError::InvalidInput) ==> !entry_list_typed(*entries),
        r != Err::<u64, ContractError>(ContractError::InvalidInput) ==> match weighted_sum_outcome(entry_list_contents(*entries)) {
            Some((ws, tw)) => r == Ok::<u64, ContractError>(if tw == 0 { 0 } else { ws / tw }),
            None => r == Err::<u64, ContractError>(ContractError::MathOverflow),
        },
{
    let (weighted_sum, total_weight) = match compute_weighted_sum(env, entries) {
        Ok(sums) => sums,
        Err(e) => return Err(e),
    };
    if total_weight == 0 {
        return Ok(0);
    }
    Ok(weighted_sum / total_weight)
}

/// Minimum number of ledgers between two accepted submissions of one node.
pub const MIN_BLOCK_GAP_THRESHOLD: u32 = 3;

/// Safety warning code returned when the live oracle feed is offline.
pub const WARNING_ORACLE_OFFLINE: u32 = 1001;

/// Result of a price lookup.
#[derive(Clone, Copy, Debug, PartialEq, Eq, Structural)]
pub enum PriceResult {
    /// Live price from the oracle.
    Live(i64),
    /// Historical backup price and the safety warning code.
    Fallback(i64, u32),
}

/// The oracle's answer given the configured price slot: a stored
/// non-negative price is live; a negative or missing one means the feed is
/// not registered.
pub fn mock_oracle_price(stored_price: Option<i64>) -> (r: Result<i64, ContractError>)
    ensures
        match stored_price {
            Some(p) => if p >= 0 {
                r == Ok::<i64, ContractError>(p)
            } else {
                r == Err::<i64, ContractError>(ContractError::NotRegistered)
            },
            None => r == Err::<i64, ContractError>(ContractError::NotRegistered),
        },
{
    match stored_price {
        Some(p) => if p >= 0 {
            Ok(p)
        } else {
            Err(ContractError::NotRegistered)
        },
        None => Err(ContractError::NotRegistered),
    }
}

/// Price for an asset with a graceful fallback: the live oracle price when
/// the oracle answers, otherwise `fallback_rate` tagged with
/// `WARNING_ORACLE_OFFLINE` (the caller then emits the warning event).
pub fn get_price_with_fallback(stored_price: Option<i64>, fallback_rate: i64) -> (r: PriceResult)
    ensures
        match stored_price {
            Some(p) if p >= 0 => r == PriceResult::Live(p),
            _ => r == PriceResult::Fallback(fallback_rate, WARNING_ORACLE_OFFLINE),
        },
{
    match mock_oracle_price(stored_price) {
        Ok(price) => PriceResult::Live(price),
        Err(_) => PriceResult::Fallback(fallback_rate, WARNING_ORACLE_OFFLINE),
    }
}

/// Accept a submission only while `current_ledger` lies inside the closed
/// epoch window `[epoch_start, epoch_end]`.
pub fn verify_epoch_window(current_ledger: u32, epoch_start: u32, epoch_end: u32) -> (r: Result<(), ContractError>)
    ensures
        epoch_start <= current_ledger <= epoch_end ==> r == Ok::<(), ContractError>(()),
        !(epoch_start <= current_ledger <= epoch_end) ==> r == Err::<(), ContractError>(ContractError::EpochClosed),
{
    if current_ledger < epoch_start || current_ledger > epoch_end {
        return Err(ContractError::EpochClosed);
    }
    Ok(())
}

/// The sequence checkpoints kept for one asset: the active one, read on
/// every submission, and the one it replaced, kept for audit.
#[derive(Clone, Copy, Debug, PartialEq, Eq, Structural)]
pub struct SequenceCheckpoint {
    /// Highest accepted sequence number, if any.
    pub active: Option<u32>,
    /// The active checkpoint before the last accepted submission, if any.
    pub archived: Option<u32>,
}

impl SequenceCheckpoint {
    /// No submission accepted yet.
    pub fn new() -> (r: SequenceCheckpoint)
        ensures
            r.active is None,
            r.archived is None,
    {
        SequenceCheckpoint { active: None, archived: None }
    }
}

/// What a submission numbered `incoming` does to the checkpoints: the
/// result, and the checkpoints afterwards.
pub open spec fn sequence_step(cp: SequenceCheckpoint, incoming: u32) -> (Result<(), ContractError>, SequenceCheckpoint) {
    match cp.active {
        Some(current) => if incoming <= current {
            (Err(ContractError::StaleSequence), cp)
        } else {
            (Ok(()), SequenceCheckpoint { active: Some(incoming), archived: Some(current) })
        },
        None => (Ok(()), SequenceCheckpoint { active: Some(incoming), archived: cp.archived }),
    }
}

/// Validate and register the sequence number of an asset update.
///
/// A number that does not exceed the active checkpoint is stale and leaves
/// the checkpoints untouched; otherwise it becomes the active checkpoint and
/// the one it replaces moves to the archive.
pub fn verify_and_update_sequence(checkpoint: &mut SequenceCheckpoint, incoming_sequence: u32) -> (r: Result<(), ContractError>)
    ensures
        (r, *final(checkpoint)) == sequence_step(*old(checkpoint), incoming_sequence),
{
    if let Some(current) = checkpoint.active {
        if incoming_sequence <= current {
            return Err(ContractError::StaleSequence);
        }
        checkpoint.archived = Some(current);
    }
    checkpoint.active = Some(incoming_sequence);
    Ok(())
}

/// The active sequence checkpoint, `None` before any accepted submission.
pub fn get_active_sequence(checkpoint: &SequenceCheckpoint) -> (r: Option<u32>)
    ensures
        r == checkpoint.active,
{
    checkpoint.active
}

/// The archived (previous) sequence checkpoint, `None` until a second
/// submission has been accepted.
pub fn get_archived_sequence(checkpoint: &SequenceCheckpoint) -> (r: Option<u32>)
    ensures
        r == checkpoint.archived,
{
    checkpoint.archived
}

/// Accepted sequence numbers only ever grow: after a submission, accepted
/// or not, there is an active checkpoint and it is at least the one before;
/// an accepted submission leaves it strictly greater and archives the one it
/// replaced, and a rejected one changes nothing.
pub proof fn law_active_sequence_monotone(before: SequenceCheckpoint, incoming: u32)
    ensures
        sequence_step(before, incoming).1.active is Some,
        before.active matches Some(b) ==> sequence_step(before, incoming).1.active->0 >= b,
        sequence_step(before, incoming).0 is Ok ==> sequence_step(before, incoming).1.active == Some(incoming),
        sequence_step(before, incoming).0 is Ok ==> (before.active matches Some(b) ==> incoming > b
            && sequence_step(before, incoming).1.archived == Some(b)),
        sequence_step(before, incoming).0 is Err ==> sequence_step(before, incoming).1 == before,
{
}

/// Enforce a minimum ledger gap between a node's consecutive submissions.
///
/// Given the ledger of the node's last accepted submission (if any), fails
/// with `StaleSequence` when fewer than `MIN_BLOCK_GAP_THRESHOLD` ledgers
/// have passed; otherwise returns `current_ledger_index`, the node's new
/// last accepted ledger.
pub fn verify_and_update_block_gap(last_ledger_index: Option<u32>, current_ledger_index: u32) -> (r: Result<u32, ContractError>)
    ensures
        match last_ledger_index {
            Some(last) => if current_ledger_index >= last && current_ledger_index - last >= MIN_BLOCK_GAP_THRESHOLD {
                r == Ok::<u32, ContractError>(current_ledger_index)
            } else {
                r == Err::<u32, ContractError>(ContractError::StaleSequence)
            },
            None => r == Ok::<u32, ContractError>(current_ledger_index),
        },
{
    if let Some(last) = last_ledger_index {
        let gap = current_ledger_index.saturating_sub(last);
        if gap < MIN_BLOCK_GAP_THRESHOLD {
            return Err(ContractError::StaleSequence);
        }
    }
    Ok(current_ledger_index)
}

} // verus!

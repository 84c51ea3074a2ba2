//! High-precision fee arithmetic for multi-hop corridor pools.
//!
//! Fractional corridor fee splits scale intermediate products by
//! `INTERIOR_SCALE` (10^14) before division, then normalize back to the
//! standard 10^7 fixed-point footprint before they are stored.

use vstd::prelude::*;
use vstd::arithmetic::div_mod::*;
use vstd::arithmetic::mul::*;
use crate::address::same_address;
use crate::error::ContractError;
use crate::host::{u64_list_contents, u64_list_get, u64_list_len, u64_list_new, u64_list_push_back, u64_list_typed};

verus! {

/// Standard fixed-point scale of fee profiles (10^7), signed.
pub const STANDARD_FIXED_POINT_SCALE: i128 = 10_000_000;

/// Interior precision used inside the fee distribution (10^14), signed.
pub const INTERIOR_FEE_PRECISION_SCALE: i128 = 100_000_000_000_000;

/// Interior scaling coefficient applied before division steps (10^14).
pub const INTERIOR_SCALE: u128 = 100_000_000_000_000;

/// System standard fixed-point footprint (10^7).
pub const FIXED_POINT_SCALE: u128 = 10_000_000;

/// Accumulated corridor fees for one asset.
#[derive(Clone, Copy, Debug, PartialEq, Eq, Structural)]
pub struct CorridorFeePool {
    pub asset: u32,
    pub collected: u64,
    pub variable_pool: u64,
}

/// Storage namespace of corridor fee pools.
#[derive(Clone, Copy, Debug, PartialEq, Eq, Structural)]
pub enum FeesStorageKey {
    CorridorPool(u32),
}

impl CorridorFeePool {
    /// An empty fee pool for `asset`.
    pub fn new(asset: u32) -> (r: Self)
        ensures
            r == (CorridorFeePool { asset, collected: 0, variable_pool: 0 }),
    {
        CorridorFeePool { asset, collected: 0, variable_pool: 0 }
    }

    /// Add newly collected and variable fees to the pool; both additions are
    /// checked and the pool is left unchanged on overflow.
    pub fn add_fees(&mut self, collected: u64, variable_fee: u64) -> (r: Result<(), ContractError>)
        ensures
            r is Ok <==> (old(self).collected + collected <= u64::MAX
                && old(self).variable_pool + variable_fee <= u64::MAX),
            r matches Err(e) ==> e == ContractError::MathOverflow && *final(self) == *old(self),
            r is Ok ==> *final(self) == (CorridorFeePool {
                asset: old(self).asset,
                collected: (old(self).collected + collected) as u64,
                variable_pool: (old(self).variable_pool + variable_fee) as u64,
            }),
    {
        let new_collected = match self.collected.checked_add(collected) {
            Some(v) => v,
            None => return Err(ContractError::MathOverflow),
        };
        let new_variable = match self.variable_pool.checked_add(variable_fee) {
            Some(v) => v,
            None => return Err(ContractError::MathOverflow),
        };
        self.collected = new_collected;
        self.variable_pool = new_variable;
        Ok(())
    }
}

/// Dynamic corridor weight variables, kept apart from the fee pool.
#[derive(Clone, Copy, Debug, PartialEq, Eq, Structural)]
pub struct CorridorWeightProfile {
    pub asset: u32,
    pub base_weight: u64,
    pub dynamic_weight: u64,
}

/// Storage namespace of corridor weight profiles.
#[derive(Clone, Copy, Debug, PartialEq, Eq, Structural)]
pub enum CorridorWeightKey {
    Profile(u32),
}

impl CorridorWeightProfile {
    /// A zeroed weight profile for `asset`.
    pub fn new(asset: u32) -> (r: Self)
        ensures
            r == (CorridorWeightProfile { asset, base_weight: 0, dynamic_weight: 0 }),
    {
        CorridorWeightProfile { asset, base_weight: 0, dynamic_weight: 0 }
    }
}

/// The stored fee pool of `asset`, or an empty one.
pub fn get_corridor_fee_pool(stored: Option<CorridorFeePool>, asset: u32) -> (r: CorridorFeePool)
    ensures
        r == match stored { Some(p) => p, None => CorridorFeePool { asset, collected: 0, variable_pool: 0 } },
{
    match stored {
        Some(p) => p,
        None => CorridorFeePool::new(asset),
    }
}

/// Record collected and variable fees in the pool of `asset`; only the
/// admin may. Returns the pool to store; `MathOverflow` when a total
/// overflows `u64`.
pub fn add_corridor_fees<A: PartialEq>(
    admin_slot: &Option<A>,
    caller: &A,
    stored: Option<CorridorFeePool>,
    asset: u32,
    collected: u64,
    variable_fee: u64,
) -> (r: Result<CorridorFeePool, ContractError>)
    requires
        vstd::laws_eq::obeys_concrete_eq::<A>(),
    ensures
        match *admin_slot {
            None => r == Err::<CorridorFeePool, ContractError>(ContractError::NotInitialized),
            Some(adm) => if adm != *caller {
                r == Err::<CorridorFeePool, ContractError>(ContractError::NotAdmin)
            } else {
                let p = match stored { Some(p) => p, None => CorridorFeePool { asset, collected: 0, variable_pool: 0 } };
                if p.collected + collected > u64::MAX || p.variable_pool + variable_fee > u64::MAX {
                    r == Err::<CorridorFeePool, ContractError>(ContractError::MathOverflow)
                } else {
                    r == Ok::<CorridorFeePool, ContractError>(CorridorFeePool {
                        asset: p.asset,
                        collected: (p.collected + collected) as u64,
                        variable_pool: (p.variable_pool + variable_fee) as u64,
                    })
                }
            },
        },
{
    let adm = match admin_slot {
        Some(a) => a,
        None => return Err(ContractError::NotInitialized),
    };
    if !same_address(adm, caller) {
        return Err(ContractError::NotAdmin);
    }
    let mut pool = get_corridor_fee_pool(stored, asset);
    pool.add_fees(collected, variable_fee)?;
    Ok(pool)
}

/// Fees recorded in two steps add up as if recorded at once.
pub proof fn law_fee_additions_accumulate(p: CorridorFeePool, c1: u64, v1: u64, c2: u64, v2: u64)
    requires
        p.collected + c1 + c2 <= u64::MAX,
        p.variable_pool + v1 + v2 <= u64::MAX,
    ensures
        ({
            let once = CorridorFeePool {
                asset: p.asset,
                collected: (p.collected + c1) as u64,
                variable_pool: (p.variable_pool + v1) as u64,
            };
            &&& once.collected + c2 <= u64::MAX && once.variable_pool + v2 <= u64::MAX
            &&& (CorridorFeePool {
                asset: once.asset,
                collected: (once.collected + c2) as u64,
                variable_pool: (once.variable_pool + v2) as u64,
            }) == (CorridorFeePool {
                asset: p.asset,
                collected: (p.collected + (c1 + c2)) as u64,
                variable_pool: (p.variable_pool + (v1 + v2)) as u64,
            })
        }),
{
}

/// The stored weight profile of `asset`, or a zeroed one.
pub fn get_corridor_weight(stored: Option<CorridorWeightProfile>, asset: u32) -> (r: CorridorWeightProfile)
    ensures
        r == match stored { Some(p) => p, None => CorridorWeightProfile { asset, base_weight: 0, dynamic_weight: 0 } },
{
    match stored {
        Some(p) => p,
        None => CorridorWeightProfile::new(asset),
    }
}

/// Set the weight profile of `asset`; only the admin may. Returns the
/// profile to store (the fee pool is not touched).
pub fn set_corridor_weight<A: PartialEq>(
    admin_slot: &Option<A>,
    caller: &A,
    asset: u32,
    base_weight: u64,
    dynamic_weight: u64,
) -> (r: Result<CorridorWeightProfile, ContractError>)
    requires
        vstd::laws_eq::obeys_concrete_eq::<A>(),
    ensures
        match *admin_slot {
            None => r == Err::<CorridorWeightProfile, ContractError>(ContractError::NotInitialized),
            Some(adm) => if adm != *caller {
                r == Err::<CorridorWeightProfile, ContractError>(ContractError::NotAdmin)
            } else {
                r == Ok::<CorridorWeightProfile, ContractError>(CorridorWeightProfile { asset, base_weight, dynamic_weight })
            },
        },
{
    let adm = match admin_slot {
        Some(a) => a,
        None => return Err(ContractError::NotInitialized),
    };
    if !same_address(adm, caller) {
        return Err(ContractError::NotAdmin);
    }
    Ok(CorridorWeightProfile { asset, base_weight, dynamic_weight })
}

/// Scale an intermediate product into interior precision space before division.
pub fn scale_product_to_interior(a: u128, b: u128) -> (r: Result<u128, ContractError>)
    ensures
        a * b * INTERIOR_SCALE <= u128::MAX ==> r == Ok::<u128, ContractError>((a * b * INTERIOR_SCALE) as u128),
        a * b * INTERIOR_SCALE > u128::MAX ==> r == Err::<u128, ContractError>(ContractError::Overflow),
{
    proof {
        lemma_mul_nonnegative(a as int, b as int);
        if a * b > u128::MAX {
            lemma_mul_inequality(u128::MAX as int + 1, a * b, INTERIOR_SCALE as int);
        }
    }
    let ab = match a.checked_mul(b) {
        Some(v) => v,
        None => return Err(ContractError::Overflow),
    };
    match ab.checked_mul(INTERIOR_SCALE) {
        Some(v) => Ok(v),
        None => Err(ContractError::Overflow),
    }
}

/// Normalize an interior-space quotient back to the 10^7 footprint:
/// `interior_value / 10^14`, which must fit in a `u64`.
pub fn normalize_to_fixed_point_footprint(interior_value: u128) -> (r: Result<u64, ContractError>)
    ensures
        interior_value / INTERIOR_SCALE <= u64::MAX
            ==> r == Ok::<u64, ContractError>((interior_value / INTERIOR_SCALE) as u64),
        interior_value / INTERIOR_SCALE > u64::MAX ==> r == Err::<u64, ContractError>(ContractError::Overflow),
{
    let normalized = interior_value / INTERIOR_SCALE;
    if normalized > u64::MAX as u128 {
        return Err(ContractError::Overflow);
    }
    Ok(normalized as u64)
}

/// Scaling by the interior precision and dividing it back out again
/// loses nothing: `(x * 10^14 / d) / 10^14 == x / d`.
pub proof fn lemma_interior_round_trip(x: int, d: int)
    requires
        x >= 0,
        d > 0,
    ensures
        (x * INTERIOR_SCALE) / d / (INTERIOR_SCALE as int) == x / d,
{
    let s = INTERIOR_SCALE as int;
    lemma_div_denominator(x * s, d, s);
    lemma_mul_is_commutative(d, s);
    lemma_mul_nonnegative(x, s);
    lemma_div_multiples_vanish_quotient(s, x, d);
    lemma_mul_is_commutative(x, s);
}

/// Multiply two fixed-point values and scale down to the 10^7 footprint,
/// passing through the interior precision: the result is `a * b / 10^7`.
pub fn multiply_and_scale_down(a: u64, b: u64) -> (r: Result<u64, ContractError>)
    ensures
        a * b * INTERIOR_SCALE > u128::MAX ==> r == Err::<u64, ContractError>(ContractError::Overflow),
        a * b * INTERIOR_SCALE <= u128::MAX && a * b / (FIXED_POINT_SCALE as int) <= u64::MAX
            ==> r == Ok::<u64, ContractError>((a * b / (FIXED_POINT_SCALE as int)) as u64),
        a * b * INTERIOR_SCALE <= u128::MAX && a * b / (FIXED_POINT_SCALE as int) > u64::MAX
            ==> r == Err::<u64, ContractError>(ContractError::Overflow),
{
    let interior_product = match scale_product_to_interior(a as u128, b as u128) {
        Ok(v) => v,
        Err(e) => return Err(e),
    };
    let interior_quotient = interior_product / FIXED_POINT_SCALE;
    proof {
        lemma_mul_nonnegative(a as int, b as int);
        lemma_interior_round_trip(a * b, FIXED_POINT_SCALE as int);
    }
    normalize_to_fixed_point_footprint(interior_quotient)
}

/// A relayer's fee share: `total_fee * relayer_usage / total_usage`, computed
/// at interior precision.
pub open spec fn usage_fee_share(total_fee: int, relayer_usage: int, total_usage: int) -> int {
    total_fee * relayer_usage / total_usage
}

/// Compute a single relayer's corridor usage fee share from the variable pool,
/// using interior scaling so fractional weights do not truncate early.
pub fn compute_corridor_usage_fee_share(
    total_fee: u64,
    relayer_usage: u64,
    total_usage: u64,
) -> (r: Result<u64, ContractError>)
    ensures
        total_usage == 0 ==> r == Err::<u64, ContractError>(ContractError::DivisionByZero),
        total_usage != 0 && (total_fee == 0 || relayer_usage == 0) ==> r == Ok::<u64, ContractError>(0),
        total_usage != 0 && total_fee != 0 && relayer_usage != 0 ==> (
            if total_fee * relayer_usage * INTERIOR_SCALE > u128::MAX {
                r == Err::<u64, ContractError>(ContractError::Overflow)
            } else if usage_fee_share(total_fee as int, relayer_usage as int, total_usage as int) > u64::MAX {
                r == Err::<u64, ContractError>(ContractError::Overflow)
            } else {
                r == Ok::<u64, ContractError>(
                    usage_fee_share(total_fee as int, relayer_usage as int, total_usage as int) as u64)
            }),
        relayer_usage <= total_usage ==> (r matches Ok(share) ==> share <= total_fee),
{
    if total_usage == 0 {
        return Err(ContractError::DivisionByZero);
    }
    if total_fee == 0 || relayer_usage == 0 {
        return Ok(0);
    }
    let interior_numerator = match scale_product_to_interior(total_fee as u128, relayer_usage as u128) {
        Ok(v) => v,
        Err(e) => return Err(e),
    };
    let interior_quotient = interior_numerator / (total_usage as u128);
    proof {
        lemma_mul_nonnegative(total_fee as int, relayer_usage as int);
        lemma_interior_round_trip(total_fee * relayer_usage, total_usage as int);
        if relayer_usage <= total_usage {
            lemma_share_at_most_whole(total_fee as int, relayer_usage as int, total_usage as int);
        }
    }
    normalize_to_fixed_point_footprint(interior_quotient)
}

/// A share of a whole, by a fraction at most one, is at most the whole.
proof fn lemma_share_at_most_whole(whole: int, part: int, total: int)
    requires
        whole >= 0,
        0 <= part <= total,
        total > 0,
    ensures
        whole * part / total <= whole,
{
    lemma_mul_inequality(part, total, whole);
    lemma_mul_is_commutative(part, whole);
    lemma_mul_is_commutative(total, whole);
    lemma_div_is_ordered(whole * part, whole * total, total);
    lemma_div_multiples_vanish(whole, total);
}

/// A relayer's share across a multi-hop path:
/// `total_fee * hop_usage * relayer_usage / (total_hop_usage * total_relayer_usage)`.
pub open spec fn multi_hop_fee_share(
    total_fee: int,
    hop_usage: int,
    relayer_usage: int,
    total_hop_usage: int,
    total_relayer_usage: int,
) -> int {
    total_fee * hop_usage * relayer_usage / (total_hop_usage * total_relayer_usage)
}

/// Compute a relayer's fee share across a multi-hop corridor path in one
/// interior-scaled pass, avoiding compounded truncation.
pub fn compute_multi_hop_corridor_fee_share(
    total_fee: u64,
    hop_usage: u64,
    relayer_usage: u64,
    total_hop_usage: u64,
    total_relayer_usage: u64,
) -> (r: Result<u64, ContractError>)
    ensures
        (total_hop_usage == 0 || total_relayer_usage == 0)
            ==> r == Err::<u64, ContractError>(ContractError::DivisionByZero),
        total_hop_usage != 0 && total_relayer_usage != 0 && (total_fee == 0 || hop_usage == 0 || relayer_usage == 0)
            ==> r == Ok::<u64, ContractError>(0),
        total_hop_usage != 0 && total_relayer_usage != 0 && total_fee != 0 && hop_usage != 0
            && relayer_usage != 0 ==> (
            if total_fee * hop_usage * relayer_usage * INTERIOR_SCALE > u128::MAX {
                r == Err::<u64, ContractError>(ContractError::Overflow)
            } else if multi_hop_fee_share(total_fee as int, hop_usage as int, relayer_usage as int,
                total_hop_usage as int, total_relayer_usage as int) > u64::MAX {
                r == Err::<u64, ContractError>(ContractError::Overflow)
            } else {
                r == Ok::<u64, ContractError>(multi_hop_fee_share(total_fee as int, hop_usage as int,
                    relayer_usage as int, total_hop_usage as int, total_relayer_usage as int) as u64)
            }),
{
    if total_hop_usage == 0 || total_relayer_usage == 0 {
        return Err(ContractError::DivisionByZero);
    }
    if total_fee == 0 || hop_usage == 0 || relayer_usage == 0 {
        return Ok(0);
    }
    let ghost x = total_fee * hop_usage * relayer_usage;
    proof {
        lemma_mul_nonnegative(total_fee as int, hop_usage as int);
        lemma_mul_nonnegative(total_fee * hop_usage, relayer_usage as int);
        lemma_mul_nonnegative(x, INTERIOR_SCALE as int);
        lemma_mul_strictly_positive(total_hop_usage as int, total_relayer_usage as int);
        // Once a prefix of the product overflows, the whole product does too.
        lemma_mul_inequality(1, INTERIOR_SCALE as int, x);
        lemma_mul_is_commutative(x, INTERIOR_SCALE as int);
        lemma_mul_upper_bound(total_fee as int, u64::MAX as int, hop_usage as int, u64::MAX as int);
        lemma_mul_upper_bound(total_hop_usage as int, u64::MAX as int, total_relayer_usage as int, u64::MAX as int);
    }
    let fh = match (total_fee as u128).checked_mul(hop_usage as u128) {
        Some(v) => v,
        None => return Err(ContractError::Overflow),
    };
    let fhr = match fh.checked_mul(relayer_usage as u128) {
        Some(v) => v,
        None => return Err(ContractError::Overflow),
    };
    let interior_numerator = match fhr.checked_mul(INTERIOR_SCALE) {
        Some(v) => v,
        None => return Err(ContractError::Overflow),
    };
    let interior_denominator = (total_hop_usage as u128) * (total_relayer_usage as u128);
    let interior_quotient = interior_numerator / interior_denominator;
    proof {
        lemma_interior_round_trip(x, total_hop_usage * total_relayer_usage);
    }
    normalize_to_fixed_point_footprint(interior_quotient)
}

/// A multi-hop share is the floor of the fee scaled by both usage
/// fractions: times the product of the two totals it stays within the fee
/// times both usages, by less than that product. It does not matter which
/// of the two fractions is the hop's and which the relayer's, and doubling
/// the relayer total halves the share (rounded down).
pub proof fn law_multi_hop_share_is_scaled_fraction(
    total_fee: int,
    hop_usage: int,
    relayer_usage: int,
    total_hop_usage: int,
    total_relayer_usage: int,
)
    requires
        total_fee >= 0,
        hop_usage >= 0,
        relayer_usage >= 0,
        total_hop_usage > 0,
        total_relayer_usage > 0,
    ensures
        ({
            let q = multi_hop_fee_share(total_fee, hop_usage, relayer_usage, total_hop_usage, total_relayer_usage);
            let d = total_hop_usage * total_relayer_usage;
            let x = total_fee * hop_usage * relayer_usage;
            &&& 0 <= q
            &&& q * d <= x
            &&& x < (q + 1) * d
        }),
        multi_hop_fee_share(total_fee, hop_usage, relayer_usage, total_hop_usage, total_relayer_usage)
            == multi_hop_fee_share(total_fee, relayer_usage, hop_usage, total_relayer_usage, total_hop_usage),
        multi_hop_fee_share(total_fee, hop_usage, relayer_usage, total_hop_usage, 2 * total_relayer_usage)
            == multi_hop_fee_share(total_fee, hop_usage, relayer_usage, total_hop_usage, total_relayer_usage) / 2,
{
    let d = total_hop_usage * total_relayer_usage;
    let x = total_fee * hop_usage * relayer_usage;
    lemma_mul_strictly_positive(total_hop_usage, total_relayer_usage);
    lemma_mul_nonnegative(total_fee, hop_usage);
    lemma_mul_nonnegative(total_fee * hop_usage, relayer_usage);
    lemma_fundamental_div_mod(x, d);
    lemma_mod_pos_bound(x, d);
    lemma_div_pos_is_pos(x, d);
    let q = x / d;
    assert(q * d <= x && x < (q + 1) * d) by (nonlinear_arith)
        requires
            x == d * q + x % d,
            0 <= x % d < d,
    ;
    assert(total_fee * relayer_usage * hop_usage == x) by (nonlinear_arith)
        requires
            x == total_fee * hop_usage * relayer_usage,
    ;
    assert(total_relayer_usage * total_hop_usage == d) by (nonlinear_arith)
        requires
            d == total_hop_usage * total_relayer_usage,
    ;
    assert(total_hop_usage * (2 * total_relayer_usage) == d * 2) by (nonlinear_arith)
        requires
            d == total_hop_usage * total_relayer_usage,
    ;
    lemma_div_denominator(x, d, 2);
}

/// A usage share is the floor of the fee scaled by the usage fraction:
/// times the total usage it stays within the fee times the usage, by less
/// than the total usage; a relayer using no more than the total gets at
/// most the whole fee.
pub proof fn law_usage_share_is_scaled_fraction(total_fee: int, relayer_usage: int, total_usage: int)
    requires
        total_fee >= 0,
        relayer_usage >= 0,
        total_usage > 0,
    ensures
        ({
            let q = usage_fee_share(total_fee, relayer_usage, total_usage);
            &&& 0 <= q
            &&& q * total_usage <= total_fee * relayer_usage
            &&& total_fee * relayer_usage < (q + 1) * total_usage
            &&& (relayer_usage <= total_usage ==> q <= total_fee)
        }),
{
    let x = total_fee * relayer_usage;
    lemma_mul_nonnegative(total_fee, relayer_usage);
    lemma_fundamental_div_mod(x, total_usage);
    lemma_mod_pos_bound(x, total_usage);
    lemma_div_pos_is_pos(x, total_usage);
    let q = x / total_usage;
    assert(q * total_usage <= x && x < (q + 1) * total_usage) by (nonlinear_arith)
        requires
            x == total_usage * q + x % total_usage,
            0 <= x % total_usage < total_usage,
    ;
    if relayer_usage <= total_usage {
        lemma_share_at_most_whole(total_fee, relayer_usage, total_usage);
    }
}

/// A relayer's profile share is the floor of the pool, at the 10^7 scale,
/// times its weight fraction: times the total weight it stays within the
/// scaled pool times the weight, by less than the total weight.
pub proof fn law_relayer_share_is_weighted_fraction(variable_pool: int, weight: int, total_weight: int)
    requires
        variable_pool >= 0,
        weight >= 0,
        total_weight > 0,
    ensures
        pool_profile(variable_pool) == variable_pool * 10_000_000,
        ({
            let q = relayer_profile_share(variable_pool, weight, total_weight);
            let x = variable_pool * 10_000_000 * weight;
            &&& 0 <= q
            &&& q * total_weight <= x
            &&& x < (q + 1) * total_weight
        }),
{
    let p = pool_profile(variable_pool);
    let s = INTERIOR_FEE_PRECISION_SCALE as int;
    let x = p * weight;
    lemma_mul_nonnegative(variable_pool, STANDARD_FIXED_POINT_SCALE as int);
    lemma_mul_nonnegative(p, weight);
    assert(p * s * weight == x * s) by (nonlinear_arith)
        requires
            x == p * weight,
    ;
    lemma_div_denominator(x * s, total_weight, s);
    lemma_mul_is_commutative(total_weight, s);
    lemma_mul_nonnegative(x, s);
    lemma_div_multiples_vanish_quotient(s, x, total_weight);
    lemma_mul_is_commutative(x, s);
    lemma_fundamental_div_mod(x, total_weight);
    lemma_mod_pos_bound(x, total_weight);
    lemma_div_pos_is_pos(x, total_weight);
    let q = x / total_weight;
    assert(q * total_weight <= x && x < (q + 1) * total_weight) by (nonlinear_arith)
        requires
            x == total_weight * q + x % total_weight,
            0 <= x % total_weight < total_weight,
    ;
}

/// Sum of a sequence of `u64` values.
pub open spec fn seq_u64_sum(s: Seq<u64>) -> int
    decreases s.len(),
{
    if s.len() == 0 {
        0
    } else {
        seq_u64_sum(s.drop_last()) + s.last()
    }
}

/// The whole variable pool at the standard fixed-point scale.
pub open spec fn pool_profile(variable_pool: int) -> int {
    variable_pool * STANDARD_FIXED_POINT_SCALE
}

/// One relayer's profile share of the pool, computed at interior precision
/// and rounded down: `(pool * 10^14 * weight / total) / 10^14`.
pub open spec fn relayer_profile_share(variable_pool: int, weight: int, total_weight: int) -> int {
    pool_profile(variable_pool) * INTERIOR_FEE_PRECISION_SCALE * weight / total_weight
        / (INTERIOR_FEE_PRECISION_SCALE as int)
}

/// Sum of the shares of the first `n` relayers.
pub open spec fn shares_sum(variable_pool: int, weights: Seq<u64>, total_weight: int, n: int) -> int
    decreases n,
{
    if n <= 0 {
        0
    } else {
        shares_sum(variable_pool, weights, total_weight, n - 1)
            + relayer_profile_share(variable_pool, weights[n - 1] as int, total_weight)
    }
}

/// Whether every relayer but the last can be given its share: the interior
/// product fits `i128` and the share fits `u64`.
pub open spec fn shares_fit(variable_pool: int, weights: Seq<u64>, total_weight: int) -> bool {
    forall|i: int| 0 <= i < weights.len() - 1 ==> {
        &&& #[trigger] weights[i] * (pool_profile(variable_pool) * INTERIOR_FEE_PRECISION_SCALE) <= i128::MAX
        &&& relayer_profile_share(variable_pool, weights[i] as int, total_weight) <= u64::MAX
    }
}

/// The last relayer's profile: whatever of the pool the others did not get.
pub open spec fn last_profile(variable_pool: int, weights: Seq<u64>, total_weight: int) -> int {
    pool_profile(variable_pool) - shares_sum(variable_pool, weights, total_weight, weights.len() - 1)
}

proof fn lemma_seq_u64_sum_bounds(s: Seq<u64>, i: int)
    requires
        0 <= i < s.len(),
    ensures
        0 <= s[i] <= seq_u64_sum(s),
        seq_u64_sum(s) >= 0,
    decreases s.len(),
{
    if i < s.len() - 1 {
        lemma_seq_u64_sum_bounds(s.drop_last(), i);
    } else {
        lemma_seq_u64_sum_nonneg(s.drop_last());
    }
}

proof fn lemma_seq_u64_sum_nonneg(s: Seq<u64>)
    ensures
        seq_u64_sum(s) >= 0,
    decreases s.len(),
{
    if s.len() > 0 {
        lemma_seq_u64_sum_nonneg(s.drop_last());
    }
}

proof fn lemma_seq_u64_sum_prefix(s: Seq<u64>, n: int)
    requires
        0 <= n < s.len(),
    ensures
        seq_u64_sum(s.take(n + 1)) == seq_u64_sum(s.take(n)) + s[n],
{
    assert(s.take(n + 1).drop_last() == s.take(n));
}

/// Each share, times the total weight, is at most the pool times the weight.
proof fn lemma_share_bound(variable_pool: int, weight: int, total_weight: int)
    requires
        variable_pool >= 0,
        weight >= 0,
        total_weight > 0,
    ensures
        relayer_profile_share(variable_pool, weight, total_weight)
            == pool_profile(variable_pool) * weight / total_weight,
        relayer_profile_share(variable_pool, weight, total_weight) * total_weight
            <= pool_profile(variable_pool) * weight,
        relayer_profile_share(variable_pool, weight, total_weight) >= 0,
{
    let p = pool_profile(variable_pool);
    lemma_mul_nonnegative(variable_pool, STANDARD_FIXED_POINT_SCALE as int);
    lemma_mul_nonnegative(p, weight);
    lemma_mul_is_associative(p, INTERIOR_FEE_PRECISION_SCALE as int, weight);
    lemma_mul_is_commutative(INTERIOR_FEE_PRECISION_SCALE as int, weight);
    lemma_mul_is_associative(p, weight, INTERIOR_FEE_PRECISION_SCALE as int);
    lemma_interior_round_trip(p * weight, total_weight);
    lemma_fundamental_div_mod(p * weight, total_weight);
    lemma_mod_pos_bound(p * weight, total_weight);
    lemma_div_pos_is_pos(p * weight, total_weight);
    lemma_mul_is_commutative(total_weight, p * weight / total_weight);
}

/// The shares of the first `n` relayers add up to at most the pool's
/// portion of their weights.
proof fn lemma_shares_sum_bound(variable_pool: int, weights: Seq<u64>, total_weight: int, n: int)
    requires
        variable_pool >= 0,
        total_weight > 0,
        0 <= n <= weights.len(),
    ensures
        0 <= shares_sum(variable_pool, weights, total_weight, n) * total_weight
            <= pool_profile(variable_pool) * seq_u64_sum(weights.take(n)),
        shares_sum(variable_pool, weights, total_weight, n) >= 0,
    decreases n,
{
    if n > 0 {
        lemma_shares_sum_bound(variable_pool, weights, total_weight, n - 1);
        lemma_share_bound(variable_pool, weights[n - 1] as int, total_weight);
        lemma_seq_u64_sum_prefix(weights, n - 1);
        let a = shares_sum(variable_pool, weights, total_weight, n - 1);
        let b = relayer_profile_share(variable_pool, weights[n - 1] as int, total_weight);
        lemma_mul_is_distributive_add_other_way(total_weight, a, b);
        lemma_mul_is_distributive_add(pool_profile(variable_pool), seq_u64_sum(weights.take(n - 1)),
            weights[n - 1] as int);
        lemma_mul_nonnegative(a + b, total_weight);
    } else {
        assert(weights.take(0) =~= Seq::<u64>::empty());
    }
}

/// Distribute the variable fee pool among relayers in proportion to their
/// weights, at the standard 10^7 footprint. Every relayer but the last gets
/// its rounded-down share; the last gets the remainder, so the profiles add
/// up to exactly `variable_pool * 10^7`. No weights, or a zero total
/// weight, gives no profiles. A weight that is not a `u64` on the host is
/// refused with `InvalidInput`.
pub fn distribute_variable_fee_pool(
    env: &soroban_sdk::Env,
    variable_pool: u64,
    relayer_weights: soroban_sdk::Vec<u64>,
) -> (r: Result<soroban_sdk::Vec<u64>, ContractError>)
    ensures
        u64_list_typed(relayer_weights) ==> r != Err::<soroban_sdk::Vec<u64>, ContractError>(ContractError::InvalidInput),
        r == Err::<soroban_sdk::Vec<u64>, ContractError>(ContractError::InvalidInput) ==> !u64_list_typed(relayer_weights),
        r matches Ok(p) ==> u64_list_typed(p),
        r != Err::<soroban_sdk::Vec<u64>, ContractError>(ContractError::InvalidInput) ==> ({
            let w = u64_list_contents(relayer_weights);
            let total = seq_u64_sum(w);
            let vp = variable_pool as int;
            if total > i128::MAX {
                r == Err::<soroban_sdk::Vec<u64>, ContractError>(ContractError::MathOverflow)
            } else if total == 0 || w.len() == 0 {
                r matches Ok(p) && u64_list_contents(p) == Seq::<u64>::empty()
            } else if pool_profile(vp) * INTERIOR_FEE_PRECISION_SCALE > i128::MAX
                || !shares_fit(vp, w, total) || last_profile(vp, w, total) > u64::MAX {
                r == Err::<soroban_sdk::Vec<u64>, ContractError>(ContractError::MathOverflow)
            } else {
                r matches Ok(p) && u64_list_contents(p).len() == w.len()
                    && (forall|i: int| 0 <= i < w.len() - 1 ==> u64_list_contents(p)[i] as int
                        == #[trigger] relayer_profile_share(vp, w[i] as int, total))
                    && u64_list_contents(p)[w.len() - 1] as int == last_profile(vp, w, total)
                    && seq_u64_sum(u64_list_contents(p)) == pool_profile(vp)
            }
        }),
{
    let ghost w = u64_list_contents(relayer_weights);
    let ghost vp = variable_pool as int;
    let len = u64_list_len(&relayer_weights);

    // Total weight, with a checked running sum.
    let mut total_weight: i128 = 0;
    let mut k: u32 = 0;
    while k < len
        invariant
            k <= len,
            len as int == w.len(),
            w == u64_list_contents(relayer_weights),
            total_weight as int == seq_u64_sum(w.take(k as int)),
        decreases len - k,
    {
        let weight = match u64_list_get(&relayer_weights, k) {
            Ok(Some(v)) => v,
            Ok(None) => 0,
            Err(_) => return Err(ContractError::InvalidInput),
        };
        proof {
            lemma_seq_u64_sum_prefix(w, k as int);
        }
        total_weight = match total_weight.checked_add(weight as i128) {
            Some(v) => v,
            None => {
                proof {
                    lemma_seq_u64_sum_nonneg(w.take(k as int));
                    lemma_seq_u64_prefix_monotone(w, (k + 1) as int);
                }
                return Err(ContractError::MathOverflow);
            },
        };
        k = k + 1;
    }
    proof {
        assert(w.take(len as int) =~= w);
        lemma_seq_u64_sum_nonneg(w);
    }

    let mut profiles = u64_list_new(env);
    if total_weight == 0 || len == 0 {
        return Ok(profiles);
    }

    let pool = (variable_pool as i128) * STANDARD_FIXED_POINT_SCALE;
    let interior_pool = match pool.checked_mul(INTERIOR_FEE_PRECISION_SCALE) {
        Some(v) => v,
        None => return Err(ContractError::MathOverflow),
    };

    let last_index = len - 1;
    let mut assigned: i128 = 0;
    let mut index: u32 = 0;
    while index < len
        invariant
            index <= len,
            len as int == w.len(),
            last_index == len - 1,
            w == u64_list_contents(relayer_weights),
            total_weight as int == seq_u64_sum(w),
            0 < total_weight,
            pool as int == pool_profile(vp),
            interior_pool as int == pool_profile(vp) * INTERIOR_FEE_PRECISION_SCALE,
            interior_pool <= i128::MAX,
            vp == variable_pool as int,
            index <= last_index ==> assigned as int == shares_sum(vp, w, total_weight as int, index as int),
            index == len ==> assigned as int == pool_profile(vp),
            u64_list_contents(profiles).len() == index,
            u64_list_typed(profiles),
            forall|i: int| 0 <= i < index && i < w.len() - 1 ==> u64_list_contents(profiles)[i] as int
                == #[trigger] relayer_profile_share(vp, w[i] as int, total_weight as int),
            index == len ==> u64_list_contents(profiles)[w.len() - 1] as int == last_profile(vp, w, total_weight as int),
            forall|i: int| 0 <= i < index && i < w.len() - 1 ==> {
                &&& #[trigger] w[i] * (pool_profile(vp) * INTERIOR_FEE_PRECISION_SCALE) <= i128::MAX
                &&& relayer_profile_share(vp, w[i] as int, total_weight as int) <= u64::MAX
            },
            seq_u64_sum(u64_list_contents(profiles)) == if index <= last_index {
                shares_sum(vp, w, total_weight as int, index as int)
            } else {
                pool_profile(vp)
            },
        decreases len - index,
    {
        let ghost before = u64_list_contents(profiles);
        proof {
            lemma_shares_sum_bound(vp, w, total_weight as int, index as int);
            lemma_seq_u64_sum_bounds(w, index as int);
            if index < last_index {
                lemma_shares_sum_bound(vp, w, total_weight as int, (index + 1) as int);
                lemma_seq_u64_sum_take_bound(w, (index + 1) as int);
            } else {
                lemma_seq_u64_sum_take_bound(w, index as int);
            }
            lemma_mul_nonnegative(variable_pool as int, STANDARD_FIXED_POINT_SCALE as int);
        }
        let profile: i128 = if index == last_index {
            pool - assigned
        } else {
            let weight = match u64_list_get(&relayer_weights, index) {
                Ok(Some(v)) => v,
                Ok(None) => 0,
                Err(_) => return Err(ContractError::InvalidInput),
            };
            let scaled = match interior_pool.checked_mul(weight as i128) {
                Some(v) => v,
                None => {
                    proof {
                        lemma_mul_is_commutative(w[index as int] as int, interior_pool as int);
                    }
                    return Err(ContractError::MathOverflow);
                },
            };
            proof {
                lemma_mul_nonnegative(interior_pool as int, weight as int);
                lemma_mul_is_commutative(w[index as int] as int, interior_pool as int);
            }
            let interior_share = match scaled.checked_div(total_weight) {
                Some(v) => v,
                None => return Err(ContractError::DivisionByZero),
            };
            proof {
                lemma_div_pos_is_pos(scaled as int, total_weight as int);
            }
            match interior_share.checked_div(INTERIOR_FEE_PRECISION_SCALE) {
                Some(v) => v,
                None => return Err(ContractError::DivisionByZero),
            }
        };
        proof {
            let t = total_weight as int;
            let p = pool_profile(vp);
            if index < last_index {
                lemma_share_bound(vp, w[index as int] as int, t);
                assert(profile as int == relayer_profile_share(vp, w[index as int] as int, t));
                let sn = shares_sum(vp, w, t, (index + 1) as int);
                let tk = seq_u64_sum(w.take((index + 1) as int));
                assert(sn <= p) by (nonlinear_arith)
                    requires
                        0 <= sn * t <= p * tk,
                        tk <= t,
                        t > 0,
                        p >= 0,
                ;
            } else {
                let sn = shares_sum(vp, w, t, index as int);
                let tk = seq_u64_sum(w.take(index as int));
                assert(sn <= p) by (nonlinear_arith)
                    requires
                        0 <= sn * t <= p * tk,
                        tk <= t,
                        t > 0,
                        p >= 0,
                ;
            }
        }
        assigned = match assigned.checked_add(profile) {
            Some(v) => v,
            None => return Err(ContractError::MathOverflow),
        };
        if profile < 0 || profile > u64::MAX as i128 {
            proof {
                if index < last_index {
                    lemma_later_shares_fail(vp, w, total_weight as int, index as int);
                }
            }
            return Err(ContractError::MathOverflow);
        }
        u64_list_push_back(&mut profiles, profile as u64);
        proof {
            let after = u64_list_contents(profiles);
            assert(after.drop_last() == before);
        }
        index = index + 1;
    }
    proof {
        assert(shares_fit(vp, w, total_weight as int));
    }
    Ok(profiles)
}

proof fn lemma_later_shares_fail(vp: int, w: Seq<u64>, total: int, index: int)
    requires
        0 <= index < w.len() - 1,
        relayer_profile_share(vp, w[index] as int, total) > u64::MAX,
    ensures
        !shares_fit(vp, w, total),
{
}

proof fn lemma_seq_u64_prefix_monotone(s: Seq<u64>, n: int)
    requires
        0 <= n <= s.len(),
    ensures
        seq_u64_sum(s.take(n)) <= seq_u64_sum(s),
    decreases s.len() - n,
{
    if n < s.len() {
        lemma_seq_u64_prefix_monotone(s, n + 1);
        lemma_seq_u64_sum_prefix(s, n);
    } else {
        assert(s.take(n) =~= s);
    }
}

proof fn lemma_seq_u64_sum_take_bound(s: Seq<u64>, n: int)
    requires
        0 <= n <= s.len(),
    ensures
        0 <= seq_u64_sum(s.take(n)) <= seq_u64_sum(s),
{
    lemma_seq_u64_prefix_monotone(s, n);
    lemma_seq_u64_sum_nonneg(s.take(n));
}

} // verus!

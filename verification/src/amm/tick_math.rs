use vstd::prelude::*;
use vstd::arithmetic::div_mod::*;
use vstd::arithmetic::mul::*;
use crate::amm::constant_product::{two_pow_128, U256};
use crate::error::ContractError;

verus! {

/// Numerator of the per-tick price ratio (1.0001 = 10_001 / 10_000).
pub const TICK_BASE: i128 = 10_001;

/// Denominator of the per-tick price ratio.
pub const TICK_BASE_PRECISION: i128 = 10_000;

/// Fixed-point precision of prices (10^7).
pub const PRICE_SCALE: i128 = 10_000_000;

/// Extra precision carried through the iterative tick computation, so that
/// per-step rounding does not accumulate into the reported price.
pub const TICK_PRICE_EXTRA_PRECISION: i128 = 1_000_000;

/// Starting value of the iteration: 1.0 at `PRICE_SCALE * TICK_PRICE_EXTRA_PRECISION`.
pub const TICK_PRICE_INTERIOR_ONE: i128 = 10_000_000_000_000;

/// Interior price after `steps` iterative ticks from 1.0 (scaled by
/// `PRICE_SCALE * TICK_PRICE_EXTRA_PRECISION`):
/// each step multiplies by 10_001/10_000 (upward) or by 10_000/10_001
/// (downward), rounding down after every step.
pub open spec fn price_after_steps(up: bool, steps: nat) -> int
    decreases steps,
{
    if steps == 0 {
        TICK_PRICE_INTERIOR_ONE as int
    } else {
        let p = price_after_steps(up, (steps - 1) as nat);
        if up {
            p * 10_001 / 10_000
        } else {
            p * 10_000 / 10_001
        }
    }
}

/// `|tick|` as a natural number.
pub open spec fn tick_abs(tick: i32) -> nat {
    if tick < 0 {
        (-(tick as int)) as nat
    } else {
        tick as nat
    }
}

/// Whether a tick's price lies within `i128` (every non-positive tick's
/// does: it is at most 1.0).
pub open spec fn tick_price_fits(tick: i32) -> bool {
    tick <= 0 || tick_price(tick) <= i128::MAX
}

/// The price of `tick` (scaled by `PRICE_SCALE`), as `tick_to_price` computes it:
/// the interior iteration rounded down to the standard scale.
pub open spec fn tick_price(tick: i32) -> int {
    price_after_steps(tick > 0, tick_abs(tick)) / (TICK_PRICE_EXTRA_PRECISION as int)
}

/// Prices produced by the iteration are never negative; upward they never
/// shrink, downward they never exceed 1.0.
pub proof fn lemma_price_steps_bounds(up: bool, steps: nat)
    ensures
        price_after_steps(up, steps) >= 0,
        up ==> price_after_steps(up, steps) >= TICK_PRICE_INTERIOR_ONE,
        !up ==> price_after_steps(up, steps) <= TICK_PRICE_INTERIOR_ONE,
    decreases steps,
{
    if steps > 0 {
        let p = price_after_steps(up, (steps - 1) as nat);
        lemma_price_steps_bounds(up, (steps - 1) as nat);
        if up {
            lemma_ratio_up_grows(p);
        } else {
            lemma_ratio_down_shrinks(p);
        }
    }
}

proof fn lemma_ratio_up_grows(p: int)
    requires
        p >= 0,
    ensures
        p * 10_001 / 10_000 >= p,
{
    lemma_div_is_ordered(p * TICK_BASE_PRECISION, p * TICK_BASE, TICK_BASE_PRECISION as int);
    lemma_div_multiples_vanish(p, TICK_BASE_PRECISION as int);
    lemma_mul_is_commutative(p, TICK_BASE_PRECISION as int);
}

proof fn lemma_ratio_down_shrinks(p: int)
    requires
        p >= 0,
    ensures
        0 <= p * 10_000 / 10_001 <= p,
{
    lemma_div_is_ordered(p * TICK_BASE_PRECISION, p * TICK_BASE, TICK_BASE as int);
    lemma_div_multiples_vanish(p, TICK_BASE as int);
    lemma_mul_is_commutative(p, TICK_BASE as int);
    lemma_div_pos_is_pos(p * TICK_BASE_PRECISION, TICK_BASE as int);
}

/// The upward iteration is monotone in the number of steps.
pub proof fn lemma_price_up_monotone(k: nat, n: nat)
    requires
        k <= n,
    ensures
        price_after_steps(true, k) <= price_after_steps(true, n),
    decreases n - k,
{
    if k < n {
        lemma_price_up_monotone(k, (n - 1) as nat);
        lemma_price_steps_bounds(true, (n - 1) as nat);
        lemma_ratio_up_grows(price_after_steps(true, (n - 1) as nat));
    }
}

/// `x * c` for a 256-bit `x` whose high word is small and a factor no
/// larger than the tick ratio's numerator.
fn u256_scale(x: U256, c: u128) -> (r: U256)
    requires
        x.1 < 0x8_0000,
        c <= 10_001,
    ensures
        r.value() == x.value() * c,
{
    let low = U256::mul(x.0, c);
    let ghost t = two_pow_128();
    assert(low.1 < 10_002) by (nonlinear_arith)
        requires
            low.1 as int * t + low.0 as int == x.0 as int * c as int,
            0 <= x.0 < t,
            c <= 10_001,
            low.0 >= 0,
            t > 0,
    ;
    assert(x.1 as int * c as int <= 0x8_0000 * 10_001) by (nonlinear_arith)
        requires
            x.1 < 0x8_0000,
            c <= 10_001,
    ;
    let high = x.1 * c;
    let r = U256(low.0, low.1 + high);
    assert(r.value() == x.value() * c) by (nonlinear_arith)
        requires
            r.value() == (low.1 as int + high as int) * t + low.0 as int,
            low.1 as int * t + low.0 as int == x.0 as int * c as int,
            high as int == x.1 as int * c as int,
            x.value() == x.1 as int * t + x.0 as int,
    ;
    r
}

/// `x / d`, rounded down, for a 256-bit `x` and a non-zero divisor.
fn u256_divide(x: U256, d: u128) -> (r: U256)
    requires
        d > 0,
    ensures
        r.value() == x.value() / d as int,
{
    let ghost t = two_pow_128();
    let q_hi = x.1 / d;
    let r_hi = x.1 % d;
    let rest = U256(x.0, r_hi);
    proof {
        lemma_fundamental_div_mod(rest.value(), d as int);
        lemma_mod_pos_bound(rest.value(), d as int);
        let qr = rest.value() / d as int;
        assert(rest.value() < d as int * t) by (nonlinear_arith)
            requires
                rest.value() == r_hi as int * t + x.0 as int,
                r_hi < d,
                0 <= x.0 < t,
        ;
        if qr >= t {
            assert(d as int * qr >= d as int * t) by (nonlinear_arith)
                requires
                    qr >= t,
                    d > 0,
            ;
            assert(false);
        }
    }
    match rest.div_mod(d) {
        Some((q_lo, rem)) => {
            let r = U256(q_lo, q_hi);
            proof {
                lemma_fundamental_div_mod(x.1 as int, d as int);
                lemma_fundamental_div_mod(rest.value(), d as int);
                assert(x.value() == (q_hi as int * t + q_lo as int) * d as int + rem as int) by (nonlinear_arith)
                    requires
                        x.value() == x.1 as int * t + x.0 as int,
                        x.1 as int == d as int * q_hi as int + r_hi as int,
                        rest.value() == r_hi as int * t + x.0 as int,
                        rest.value() == d as int * q_lo as int + rem as int,
                ;
                lemma_fundamental_div_mod_converse(x.value(), d as int, q_hi as int * t + q_lo as int, rem as int);
            }
            r
        },
        None => {
            proof {
                assert(false);
            }
            U256(0, 0)
        },
    }
}

/// Convert a tick index to its price, scaled by `PRICE_SCALE`:
/// `price(tick) = (10001/10000)^tick * 10^7`, computed by iterative
/// multiplication at interior precision (rounding down after each step)
/// in 256-bit arithmetic, and rounded down to `PRICE_SCALE` at the end;
/// `Overflow` when the price does not fit in an `i128`.
pub fn tick_to_price(tick: i32) -> (r: Result<i128, ContractError>)
    ensures
        tick_price_fits(tick) ==> r == Ok::<i128, ContractError>(tick_price(tick) as i128),
        !tick_price_fits(tick) ==> r == Err::<i128, ContractError>(ContractError::Overflow),
{
    let abs_tick: u32 = if tick < 0 { (-(tick as i64)) as u32 } else { tick as u32 };
    let up = tick > 0;
    let mut price = U256(TICK_PRICE_INTERIOR_ONE as u128, 0);
    let mut k: u32 = 0;
    let ghost t = two_pow_128();
    while k < abs_tick
        invariant
            k <= abs_tick,
            abs_tick as nat == tick_abs(tick),
            up == (tick > 0),
            t == two_pow_128(),
            price.value() == price_after_steps(up, k as nat),
            price.1 < 0x8_0000,
        decreases abs_tick - k,
    {
        if up {
            price = u256_divide(u256_scale(price, TICK_BASE as u128), TICK_BASE_PRECISION as u128);
        } else {
            price = u256_divide(u256_scale(price, TICK_BASE_PRECISION as u128), TICK_BASE as u128);
        }
        k = k + 1;
        proof {
            lemma_price_steps_bounds(up, k as nat);
            assert(price.1 as int * t <= price.value()) by (nonlinear_arith)
                requires
                    price.value() == price.1 as int * t + price.0 as int,
                    price.0 >= 0,
            ;
            if !up {
                assert(price.1 == 0) by (nonlinear_arith)
                    requires
                        price.1 as int * t <= price.value(),
                        price.value() <= TICK_PRICE_INTERIOR_ONE,
                        t == two_pow_128(),
                ;
            }
        }
        if price.1 >= 0x8_0000 {
            proof {
                let top = 0x8_0000 * t;
                assert(top <= price.value()) by (nonlinear_arith)
                    requires
                        top == 0x8_0000 * t,
                        price.1 as int * t <= price.value(),
                        price.1 >= 0x8_0000,
                        t > 0,
                ;
                lemma_price_up_monotone(k as nat, abs_tick as nat);
                lemma_div_is_ordered(top, price_after_steps(true, abs_tick as nat), TICK_PRICE_EXTRA_PRECISION as int);
                assert((0x8_0000 * two_pow_128()) / (TICK_PRICE_EXTRA_PRECISION as int) > i128::MAX);
            }
            return Err(ContractError::Overflow);
        }
    }
    proof {
        lemma_price_steps_bounds(up, abs_tick as nat);
    }
    let q = u256_divide(price, TICK_PRICE_EXTRA_PRECISION as u128);
    proof {
        assert(q.1 as int * t <= q.value()) by (nonlinear_arith)
            requires
                q.value() == q.1 as int * t + q.0 as int,
                q.0 >= 0,
        ;
    }
    if q.1 != 0 || q.0 > i128::MAX as u128 {
        return Err(ContractError::Overflow);
    }
    Ok(q.0 as i128)
}

/// `floor(sqrt(val))` for a non-negative value: the largest `x` with `x * x <= val`.
pub open spec fn is_floor_sqrt(x: int, val: int) -> bool {
    0 <= x && x * x <= val && val < (x + 1) * (x + 1)
}

/// The floor square root of a non-negative value.
pub open spec fn floor_sqrt(v: int) -> int {
    choose|x: int| #[trigger] is_floor_sqrt(x, v)
}

/// The floor square root is unique.
pub proof fn lemma_floor_sqrt_unique(x: int, v: int)
    requires
        is_floor_sqrt(x, v),
    ensures
        floor_sqrt(v) == x,
{
    let y = floor_sqrt(v);
    assert(is_floor_sqrt(y, v));
    if y < x {
        assert((y + 1) * (y + 1) <= x * x) by (nonlinear_arith)
            requires
                0 <= y < x,
        ;
    } else if x < y {
        assert((x + 1) * (x + 1) <= y * y) by (nonlinear_arith)
            requires
                0 <= x < y,
        ;
    }
}

/// Integer square root by the Babylonian (Heron's) method; returns the
/// floor of the exact square root, and rejects negative input.
pub fn integer_sqrt(val: i128) -> (r: Result<i128, ContractError>)
    ensures
        val < 0 ==> r == Err::<i128, ContractError>(ContractError::Overflow),
        val >= 0 ==> (r matches Ok(x) && is_floor_sqrt(x as int, val as int)),
        val >= 0 ==> r == Ok::<i128, ContractError>(floor_sqrt(val as int) as i128),
{
    if val < 0 {
        return Err(ContractError::Overflow);
    }
    if val == 0 {
        assert(is_floor_sqrt(0, 0));
        proof {
            lemma_floor_sqrt_unique(0, 0);
        }
        return Ok(0);
    }

    let mut x = val;
    // The first Heron step from `val` itself, written so that it cannot overflow.
    let mut y = x / 2 + x % 2;
    proof {
        lemma_div_by_self(val as int);
        assert((x + 1) * (x + 1) > val) by (nonlinear_arith)
            requires
                x == val,
                val >= 1,
        ;
    }
    while y < x
        invariant
            1 <= x <= val,
            (x + 1) * (x + 1) > val,
            y as int == (x as int + val as int / x as int) / 2,
        decreases x,
    {
        proof {
            lemma_heron_lower_bound(x as int, 1, val as int);
            lemma_heron_stays_above(x as int, y as int, val as int);
        }
        x = y;
        proof {
            lemma_heron_no_overflow(x as int, val as int);
        }
        y = (x + val / x) / 2;
    }
    proof {
        lemma_heron_exit(x as int, y as int, val as int);
        lemma_floor_sqrt_unique(x as int, val as int);
    }
    Ok(x)
}

/// For any `t` with `t * t <= v`, one Heron step from `x` lands at or above `t`.
proof fn lemma_heron_lower_bound(x: int, t: int, v: int)
    requires
        x >= 1,
        t >= 0,
        t * t <= v,
    ensures
        (x + v / x) / 2 >= t,
{
    let q = v / x;
    lemma_fundamental_div_mod(v, x);
    lemma_mod_pos_bound(v, x);
    assert(v < x * (q + 1)) by (nonlinear_arith)
        requires
            v == x * q + v % x,
            v % x < x,
    ;
    if x + q < 2 * t {
        assert(x * (q + 1) <= x * (2 * t - x)) by (nonlinear_arith)
            requires
                q + 1 <= 2 * t - x,
                x >= 1,
        ;
        assert(x * (2 * t - x) <= t * t) by (nonlinear_arith);
        assert(false);
    }
}

/// A Heron step never falls below the floor square root.
proof fn lemma_heron_stays_above(x: int, y: int, v: int)
    requires
        x >= 1,
        v >= 1,
        y == (x + v / x) / 2,
    ensures
        (y + 1) * (y + 1) > v,
        y >= 1,
{
    lemma_heron_lower_bound(x, 1, v);
    if (y + 1) * (y + 1) <= v {
        lemma_heron_lower_bound(x, y + 1, v);
    }
}

proof fn lemma_heron_no_overflow(x: int, v: int)
    requires
        1 <= x < v,
        v <= i128::MAX,
        (x + 1) * (x + 1) > v,
    ensures
        x + v / x <= i128::MAX,
        v / x >= 0,
{
    lemma_div_pos_is_pos(v, x);
    lemma_fundamental_div_mod(v, x);
    lemma_mod_pos_bound(v, x);
    let q = v / x;
    assert(x * q <= v);
    if x == 1 {
        assert(v < 4) by (nonlinear_arith)
            requires
                x == 1,
                (x + 1) * (x + 1) > v,
        ;
        assert(q == v);
    } else {
        if q <= 0 {
            assert(x * q <= 0) by (nonlinear_arith)
                requires
                    q <= 0,
                    x >= 1,
            ;
            assert(false);
        }
        // (x - 1) * (q - 1) >= 0, so x + q <= x * q + 1 <= v + 1, with
        // equality only when q == 1, that is when x == v.
        assert(x + q <= v) by (nonlinear_arith)
            requires
                x >= 2,
                q >= 1,
                x * q <= v,
                x < v,
        ;
    }
}

proof fn lemma_heron_exit(x: int, y: int, v: int)
    requires
        x >= 1,
        v >= 1,
        y >= x,
        y == (x + v / x) / 2,
        (x + 1) * (x + 1) > v,
    ensures
        is_floor_sqrt(x, v),
{
    lemma_fundamental_div_mod(v, x);
    lemma_mod_pos_bound(v, x);
    let q = v / x;
    assert(q >= x);
    assert(x * x <= x * q) by (nonlinear_arith)
        requires
            q >= x,
            x >= 1,
    ;
}

/// `x / d` rounded toward zero, as Rust's signed division computes it.
pub open spec fn trunc_div(x: int, d: int) -> int {
    if x >= 0 {
        x / d
    } else {
        -((-x) / d)
    }
}

/// Price movement in basis points between two ticks, relative to the lower:
/// `(price_upper - price_lower) * 10_000 / price_lower`.
pub open spec fn range_bps(price_lower: int, price_upper: int) -> int {
    trunc_div((price_upper - price_lower) * 10_000, price_lower)
}

/// Compute the price ratio between two ticks in basis points relative to
/// the lower tick; a measure of a concentrated position's capital efficiency.
pub fn range_efficiency_bps(lower_tick: i32, upper_tick: i32) -> (r: Result<i128, ContractError>)
    ensures
        !tick_price_fits(lower_tick) ==> r == Err::<i128, ContractError>(ContractError::Overflow),
        tick_price_fits(lower_tick) && !tick_price_fits(upper_tick)
            ==> r == Err::<i128, ContractError>(ContractError::Overflow),
        tick_price_fits(lower_tick) && tick_price_fits(upper_tick) && tick_price(lower_tick) == 0
            ==> r == Err::<i128, ContractError>(ContractError::DivisionByZero),
        tick_price_fits(lower_tick) && tick_price_fits(upper_tick) && tick_price(lower_tick) != 0
            ==> (if (tick_price(upper_tick) - tick_price(lower_tick)) * 10_000 > i128::MAX
                    || (tick_price(upper_tick) - tick_price(lower_tick)) * 10_000 < i128::MIN {
                    r == Err::<i128, ContractError>(ContractError::Overflow)
                } else {
                    r == Ok::<i128, ContractError>(
                        range_bps(tick_price(lower_tick), tick_price(upper_tick)) as i128)
                }),
{
    let price_lower = match tick_to_price(lower_tick) {
        Ok(p) => p,
        Err(e) => return Err(e),
    };
    let price_upper = match tick_to_price(upper_tick) {
        Ok(p) => p,
        Err(e) => return Err(e),
    };
    proof {
        lemma_price_steps_bounds(lower_tick > 0, tick_abs(lower_tick));
        lemma_price_steps_bounds(upper_tick > 0, tick_abs(upper_tick));
    }
    if price_lower == 0 {
        return Err(ContractError::DivisionByZero);
    }
    let diff = match price_upper.checked_sub(price_lower) {
        Some(v) => v,
        None => return Err(ContractError::Overflow),
    };
    let scaled = match diff.checked_mul(10_000) {
        Some(v) => v,
        None => return Err(ContractError::Overflow),
    };
    proof {
        if scaled < 0 {
            lemma_div_pos_is_pos(-(scaled as int), price_lower as int);
            lemma_div_nonincreasing(-(scaled as int), price_lower as int);
        } else {
            lemma_div_pos_is_pos(scaled as int, price_lower as int);
            lemma_div_nonincreasing(scaled as int, price_lower as int);
        }
    }
    match scaled.checked_div(price_lower) {
        Some(v) => Ok(v),
        None => Err(ContractError::DivisionByZero),
    }
}

/// The range is measured against the lower price: for an upper price at or
/// above a positive lower price, the range in basis points times the lower
/// price is within one lower price below `(upper - lower) * 10_000`; an
/// upper price twice the lower is exactly 10_000 bps, and equal prices are
/// zero.
pub proof fn law_range_bps_relative_to_lower(price_lower: int, price_upper: int)
    requires
        0 < price_lower <= price_upper,
    ensures
        range_bps(price_lower, price_upper) >= 0,
        range_bps(price_lower, price_upper) * price_lower <= (price_upper - price_lower) * 10_000,
        (price_upper - price_lower) * 10_000 < (range_bps(price_lower, price_upper) + 1) * price_lower,
        price_upper == 2 * price_lower ==> range_bps(price_lower, price_upper) == 10_000,
        price_upper == price_lower ==> range_bps(price_lower, price_upper) == 0,
{
    let x = (price_upper - price_lower) * 10_000;
    let q = x / price_lower;
    lemma_fundamental_div_mod(x, price_lower);
    lemma_mod_pos_bound(x, price_lower);
    lemma_div_pos_is_pos(x, price_lower);
    assert(q * price_lower <= x && x < (q + 1) * price_lower) by (nonlinear_arith)
        requires
            x == price_lower * q + x % price_lower,
            0 <= x % price_lower < price_lower,
    ;
    if price_upper == 2 * price_lower {
        assert(x == 10_000 * price_lower);
        lemma_div_multiples_vanish(10_000, price_lower);
        lemma_mul_is_commutative(10_000, price_lower);
    }
}

/// The downward iteration never grows with the number of steps.
proof fn lemma_price_down_monotone(k: nat, n: nat)
    requires
        k <= n,
    ensures
        price_after_steps(false, n) <= price_after_steps(false, k),
    decreases n - k,
{
    if k < n {
        lemma_price_down_monotone(k, (n - 1) as nat);
        lemma_price_steps_bounds(false, (n - 1) as nat);
        lemma_ratio_down_shrinks(price_after_steps(false, (n - 1) as nat));
    }
}

/// Tick prices follow the ratio 1.0001 per tick: the interior iteration
/// starts at 1.0 (10^13), each upward step multiplies by 10_001/10_000 and
/// each downward step by 10_000/10_001, rounding down, so upward prices grow
/// strictly; a tick's price is the interior value rounded down to the 10^7
/// scale (tick 0 is exactly 1.0); and prices never decrease as the tick
/// grows.
pub proof fn law_tick_price_follows_ratio(n: nat, t1: i32, t2: i32)
    ensures
        price_after_steps(true, 0) == 10_000_000_000_000,
        price_after_steps(false, 0) == 10_000_000_000_000,
        price_after_steps(true, n + 1) * 10_000 <= price_after_steps(true, n) * 10_001,
        price_after_steps(true, n) * 10_001 < (price_after_steps(true, n + 1) + 1) * 10_000,
        price_after_steps(false, n + 1) * 10_001 <= price_after_steps(false, n) * 10_000,
        price_after_steps(false, n) * 10_000 < (price_after_steps(false, n + 1) + 1) * 10_001,
        price_after_steps(true, n) < price_after_steps(true, n + 1),
        tick_price(t1) * 1_000_000 <= price_after_steps(t1 > 0, tick_abs(t1)),
        price_after_steps(t1 > 0, tick_abs(t1)) < (tick_price(t1) + 1) * 1_000_000,
        tick_price(0) == 10_000_000,
        t1 <= t2 ==> tick_price(t1) <= tick_price(t2),
{
    lemma_price_steps_bounds(true, n);
    lemma_price_steps_bounds(false, n);
    let pu = price_after_steps(true, n);
    let pd = price_after_steps(false, n);
    lemma_fundamental_div_mod(pu * 10_001, 10_000);
    lemma_fundamental_div_mod(pd * 10_000, 10_001);
    assert(pu < pu * 10_001 / 10_000) by {
        lemma_fundamental_div_mod(pu * 10_001, 10_000);
    }
    let e = TICK_PRICE_EXTRA_PRECISION as int;
    let p1 = price_after_steps(t1 > 0, tick_abs(t1));
    lemma_price_steps_bounds(t1 > 0, tick_abs(t1));
    lemma_fundamental_div_mod(p1, e);
    lemma_mod_pos_bound(p1, e);
    if t1 <= t2 {
        let p2 = price_after_steps(t2 > 0, tick_abs(t2));
        lemma_price_steps_bounds(t2 > 0, tick_abs(t2));
        if t1 > 0 {
            lemma_price_up_monotone(tick_abs(t1), tick_abs(t2));
        } else if t2 <= 0 {
            lemma_price_down_monotone(tick_abs(t2), tick_abs(t1));
        }
        assert(p1 <= p2);
        lemma_div_is_ordered(p1, p2, e);
    }
}

/// The input a step needs is the liquidity times the distance between the
/// floor square roots of the two prices, on the 10^7 scale and rounded
/// down (when it fits in a `u64`).
pub proof fn law_step_input_from_root_gap(price_a: int, price_b: int, liquidity: int)
    requires
        0 <= price_a,
        0 <= price_b,
        0 <= liquidity,
        step_input_outcome(price_a, price_b, liquidity) is Ok,
        liquidity * sqrt_gap(price_a, price_b) / 10_000_000 <= u64::MAX,
    ensures
        ({
            let v = step_input_outcome(price_a, price_b, liquidity)->Ok_0 as int;
            let sa = floor_sqrt(price_a);
            let sb = floor_sqrt(price_b);
            let gap = if sb > sa { sb - sa } else { sa - sb };
            &&& 0 <= sa && sa * sa <= price_a && price_a < (sa + 1) * (sa + 1)
            &&& 0 <= sb && sb * sb <= price_b && price_b < (sb + 1) * (sb + 1)
            &&& v * 10_000_000 <= liquidity * gap
            &&& liquidity * gap < (v + 1) * 10_000_000
        }),
{
    lemma_floor_sqrt_exists(price_a);
    lemma_floor_sqrt_exists(price_b);
    let sa = floor_sqrt(price_a);
    let sb = floor_sqrt(price_b);
    assert(is_floor_sqrt(sa, price_a));
    assert(is_floor_sqrt(sb, price_b));
    let x = liquidity * sqrt_gap(price_a, price_b);
    lemma_mul_nonnegative(liquidity, sqrt_gap(price_a, price_b));
    lemma_fundamental_div_mod(x, 10_000_000);
    lemma_mod_pos_bound(x, 10_000_000);
    lemma_div_pos_is_pos(x, 10_000_000);
}

/// The output of a step is the liquidity, on the 10^7 scale, times the
/// distance between the floor square roots, divided by their product and
/// rounded down (when it fits in a `u64`).
pub proof fn law_step_output_from_roots(price_a: int, price_b: int, liquidity: int)
    requires
        0 <= price_a,
        0 <= price_b,
        0 <= liquidity,
        step_output_outcome(price_a, price_b, liquidity) is Ok,
        liquidity * 10_000_000 * sqrt_gap(price_a, price_b)
            / (floor_sqrt(price_a) * floor_sqrt(price_b)) <= u64::MAX,
    ensures
        ({
            let v = step_output_outcome(price_a, price_b, liquidity)->Ok_0 as int;
            let sa = floor_sqrt(price_a);
            let sb = floor_sqrt(price_b);
            let gap = if sb > sa { sb - sa } else { sa - sb };
            &&& 0 < sa && sa * sa <= price_a && price_a < (sa + 1) * (sa + 1)
            &&& 0 < sb && sb * sb <= price_b && price_b < (sb + 1) * (sb + 1)
            &&& v * (sa * sb) <= liquidity * 10_000_000 * gap
            &&& liquidity * 10_000_000 * gap < (v + 1) * (sa * sb)
        }),
{
    lemma_floor_sqrt_exists(price_a);
    lemma_floor_sqrt_exists(price_b);
    let sa = floor_sqrt(price_a);
    let sb = floor_sqrt(price_b);
    assert(is_floor_sqrt(sa, price_a));
    assert(is_floor_sqrt(sb, price_b));
    let d = sa * sb;
    lemma_mul_nonnegative(sa, sb);
    assert(d != 0);
    assert(sa != 0 && sb != 0) by (nonlinear_arith)
        requires
            d == sa * sb,
            d != 0,
    ;
    let x = liquidity * 10_000_000 * sqrt_gap(price_a, price_b);
    lemma_mul_nonnegative(liquidity, 10_000_000);
    lemma_mul_nonnegative(liquidity * 10_000_000, sqrt_gap(price_a, price_b));
    lemma_fundamental_div_mod(x, d);
    lemma_mod_pos_bound(x, d);
    lemma_div_pos_is_pos(x, d);
    let q = x / d;
    assert(q * d <= x && x < (q + 1) * d) by (nonlinear_arith)
        requires
            x == d * q + x % d,
            0 <= x % d < d,
    ;
}

/// `tick_to_price` as a result: the price, or `Overflow` when the iteration
/// leaves `i128`.
pub open spec fn tick_price_outcome(tick: i32) -> Result<i128, ContractError> {
    if tick_price_fits(tick) {
        Ok(tick_price(tick) as i128)
    } else {
        Err(ContractError::Overflow)
    }
}

/// Tick prices are non-negative and, where they fit, at most `i128::MAX`;
/// a non-positive tick's price is at most 1.0.
pub proof fn lemma_tick_price_range(tick: i32)
    requires
        tick_price_fits(tick),
    ensures
        0 <= tick_price(tick),
        tick_price(tick) <= i128::MAX,
        tick <= 0 ==> tick_price(tick) <= PRICE_SCALE,
{
    lemma_price_steps_bounds(tick > 0, tick_abs(tick));
    let p = price_after_steps(tick > 0, tick_abs(tick));
    if tick <= 0 {
        lemma_div_is_ordered(p, TICK_PRICE_INTERIOR_ONE as int, TICK_PRICE_EXTRA_PRECISION as int);
    }
    lemma_div_pos_is_pos(p, TICK_PRICE_EXTRA_PRECISION as int);
}

/// Distance between the floor square roots of two prices.
pub open spec fn sqrt_gap(price_a: int, price_b: int) -> int {
    let sa = floor_sqrt(price_a);
    let sb = floor_sqrt(price_b);
    if sb > sa { sb - sa } else { sa - sb }
}

/// Input needed to move the price from `price_a` to `price_b` with
/// `liquidity` active: `liquidity * |sqrt(price_b) - sqrt(price_a)| / PRICE_SCALE`,
/// truncated to 64 bits.
pub open spec fn step_input_outcome(price_a: int, price_b: int, liquidity: int) -> Result<u64, ContractError> {
    if price_a < 0 || price_b < 0 {
        Err(ContractError::Overflow)
    } else if liquidity * sqrt_gap(price_a, price_b) > i128::MAX {
        Err(ContractError::Overflow)
    } else {
        Ok((liquidity * sqrt_gap(price_a, price_b) / PRICE_SCALE as int) as u64)
    }
}

/// Output produced moving the price from `price_a` to `price_b` with
/// `liquidity` active:
/// `liquidity * PRICE_SCALE * |sqrt_b - sqrt_a| / (sqrt_a * sqrt_b)`, truncated to 64 bits.
pub open spec fn step_output_outcome(price_a: int, price_b: int, liquidity: int) -> Result<u64, ContractError> {
    let sa = floor_sqrt(price_a);
    let sb = floor_sqrt(price_b);
    if price_a < 0 || price_b < 0 {
        Err(ContractError::Overflow)
    } else if sa * sb > i128::MAX {
        Err(ContractError::Overflow)
    } else if sa * sb == 0 {
        Err(ContractError::DivisionByZero)
    } else if liquidity * PRICE_SCALE * sqrt_gap(price_a, price_b) > i128::MAX {
        Err(ContractError::Overflow)
    } else {
        Ok((liquidity * PRICE_SCALE * sqrt_gap(price_a, price_b) / (sa * sb)) as u64)
    }
}

proof fn lemma_floor_sqrt_facts(v: int)
    requires
        0 <= v <= i128::MAX,
    ensures
        0 <= floor_sqrt(v) <= v,
{
    let x = floor_sqrt(v);
    // Any non-negative value has a floor square root at most itself.
    if v == 0 {
        assert(is_floor_sqrt(0, 0));
        lemma_floor_sqrt_unique(0, 0);
    } else {
        assert(exists|y: int| #[trigger] is_floor_sqrt(y, v)) by {
            lemma_floor_sqrt_exists(v);
        }
        assert(is_floor_sqrt(x, v));
        assert(x <= v) by (nonlinear_arith)
            requires
                0 <= x,
                x * x <= v,
                v >= 1,
        ;
    }
}

proof fn lemma_floor_sqrt_exists(v: int)
    requires
        0 <= v,
    ensures
        exists|y: int| #[trigger] is_floor_sqrt(y, v),
    decreases v,
{
    if v == 0 {
        assert(is_floor_sqrt(0, 0));
    } else {
        lemma_floor_sqrt_exists(v - 1);
        let y = choose|y: int| #[trigger] is_floor_sqrt(y, v - 1);
        if (y + 1) * (y + 1) <= v {
            assert(v < (y + 2) * (y + 2)) by (nonlinear_arith)
                requires
                    v - 1 < (y + 1) * (y + 1),
                    y >= 0,
            ;
            assert(is_floor_sqrt(y + 1, v));
        } else {
            assert(is_floor_sqrt(y, v));
        }
    }
}

/// Compute the input needed to move the price from `price_a` to `price_b`
/// with `liquidity` active (integer square roots avoid floating point).
pub fn compute_step_input(price_a: i128, price_b: i128, liquidity: u64, _direction_up: bool) -> (r: Result<u64, ContractError>)
    ensures
        r == step_input_outcome(price_a as int, price_b as int, liquidity as int),
{
    let sqrt_a = match integer_sqrt(price_a) {
        Ok(v) => v,
        Err(e) => return Err(e),
    };
    let sqrt_b = match integer_sqrt(price_b) {
        Ok(v) => v,
        Err(e) => return Err(e),
    };
    proof {
        lemma_floor_sqrt_facts(price_a as int);
        lemma_floor_sqrt_facts(price_b as int);
    }
    let sqrt_diff = if sqrt_b > sqrt_a { sqrt_b - sqrt_a } else { sqrt_a - sqrt_b };
    let product = match (liquidity as i128).checked_mul(sqrt_diff) {
        Some(v) => v,
        None => return Err(ContractError::Overflow),
    };
    proof {
        lemma_mul_nonnegative(liquidity as int, sqrt_diff as int);
    }
    let input = match product.checked_div(PRICE_SCALE) {
        Some(v) => v,
        None => return Err(ContractError::DivisionByZero),
    };
    Ok(input as u64)
}

/// Compute the output produced moving the price from `price_a` to
/// `price_b` with `liquidity` active.
pub fn compute_step_output(price_a: i128, price_b: i128, liquidity: u64, _direction_up: bool) -> (r: Result<u64, ContractError>)
    ensures
        r == step_output_outcome(price_a as int, price_b as int, liquidity as int),
{
    let sqrt_a = match integer_sqrt(price_a) {
        Ok(v) => v,
        Err(e) => return Err(e),
    };
    let sqrt_b = match integer_sqrt(price_b) {
        Ok(v) => v,
        Err(e) => return Err(e),
    };
    proof {
        lemma_floor_sqrt_facts(price_a as int);
        lemma_floor_sqrt_facts(price_b as int);
    }
    let sqrt_diff = if sqrt_b > sqrt_a { sqrt_b - sqrt_a } else { sqrt_a - sqrt_b };
    let sqrt_product = match sqrt_a.checked_mul(sqrt_b) {
        Some(v) => v,
        None => return Err(ContractError::Overflow),
    };
    proof {
        lemma_mul_nonnegative(sqrt_a as int, sqrt_b as int);
    }
    if sqrt_product == 0 {
        return Err(ContractError::DivisionByZero);
    }
    proof {
        lemma_mul_upper_bound(liquidity as int, u64::MAX as int, PRICE_SCALE as int, PRICE_SCALE as int);
    }
    let scaled = match (liquidity as i128).checked_mul(PRICE_SCALE) {
        Some(v) => v,
        None => return Err(ContractError::Overflow),
    };
    let numerator = match scaled.checked_mul(sqrt_diff) {
        Some(v) => v,
        None => return Err(ContractError::Overflow),
    };
    proof {
        lemma_mul_nonnegative(scaled as int, sqrt_diff as int);
    }
    let output = match numerator.checked_div(sqrt_product) {
        Some(v) => v,
        None => return Err(ContractError::DivisionByZero),
    };
    Ok(output as u64)
}

} // verus!

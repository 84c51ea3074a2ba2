//! Rolling exponential moving average of submitted prices.
//!
//! Each asset keeps one record: the first price becomes the average, and
//! every later price moves it by the smoothing factor `alpha`, expressed in
//! units of `1 / ALPHA_SCALE`.

use vstd::prelude::*;
use crate::amm::tick_math::trunc_div;

verus! {

/// Scale of the smoothing factor: `alpha == ALPHA_SCALE` follows the price.
pub const ALPHA_SCALE: i128 = 10_000;

/// The finalized moving average of one asset.
#[derive(Clone, Copy, Debug, PartialEq, Eq, Structural)]
pub struct EmaRecord {
    pub value: i128,
    pub last_updated: u64,
}

/// The moving-average engine.
#[derive(Clone, Copy, Debug, PartialEq, Eq, Structural)]
pub struct AnalyticsEngine;

/// A smoothing factor in `(0, ALPHA_SCALE]`.
pub open spec fn valid_alpha(alpha: i128) -> bool {
    0 < alpha <= ALPHA_SCALE
}

/// The average after `price`: `price` itself first, then
/// `(price * alpha + previous * (ALPHA_SCALE - alpha)) / ALPHA_SCALE`
/// (rounded toward zero).
pub open spec fn next_ema(previous: Option<EmaRecord>, price: int, alpha: int) -> int {
    match previous {
        Some(rec) => trunc_div(price * alpha + rec.value * (ALPHA_SCALE - alpha), ALPHA_SCALE as int),
        None => price,
    }
}

/// The average's intermediate sums fit in `i128`.
pub open spec fn ema_fits(previous: Option<EmaRecord>, price: int, alpha: int) -> bool {
    match previous {
        Some(rec) => {
            &&& i128::MIN <= price * alpha <= i128::MAX
            &&& i128::MIN <= rec.value * (ALPHA_SCALE - alpha) <= i128::MAX
            &&& i128::MIN <= price * alpha + rec.value * (ALPHA_SCALE - alpha) <= i128::MAX
        },
        None => true,
    }
}

impl AnalyticsEngine {
    /// Set the smoothing factor once (the engine refuses a second
    /// initialization and a factor outside `(0, ALPHA_SCALE]`).
    pub fn initialize(alpha_slot: &mut Option<i128>, alpha: i128)
        requires
            *old(alpha_slot) is None,
            valid_alpha(alpha),
        ensures
            *final(alpha_slot) == Some(alpha),
    {
        *alpha_slot = Some(alpha);
    }

    /// Fold a positive `price` submitted at `now` into the asset's record.
    pub fn submit_price(alpha_slot: &Option<i128>, record: &mut Option<EmaRecord>, price: i128, now: u64)
        requires
            price > 0,
            *alpha_slot matches Some(a) && valid_alpha(a) && ema_fits(*old(record), price as int, a as int),
        ensures
            *final(record) == Some(EmaRecord {
                value: next_ema(*old(record), price as int, alpha_slot->0 as int) as i128,
                last_updated: now,
            }),
    {
        let alpha = match alpha_slot {
            Some(a) => *a,
            None => 0,
        };
        let new_ema = match record {
            Some(rec) => {
                let numerator = price * alpha + rec.value * (ALPHA_SCALE - alpha);
                proof {
                    let n = numerator as int;
                    if n < 0 {
                        vstd::arithmetic::div_mod::lemma_div_pos_is_pos(-n, ALPHA_SCALE as int);
                        vstd::arithmetic::div_mod::lemma_div_nonincreasing(-n, ALPHA_SCALE as int);
                    } else {
                        vstd::arithmetic::div_mod::lemma_div_pos_is_pos(n, ALPHA_SCALE as int);
                        vstd::arithmetic::div_mod::lemma_div_nonincreasing(n, ALPHA_SCALE as int);
                    }
                }
                match numerator.checked_div(ALPHA_SCALE) {
                    Some(v) => v,
                    None => 0,
                }
            },
            None => price,
        };
        *record = Some(EmaRecord { value: new_ema, last_updated: now });
    }

    /// The asset's moving average, zero before its first price.
    pub fn get_ema(record: &Option<EmaRecord>) -> (r: i128)
        ensures
            r == match *record { Some(rec) => rec.value, None => 0 },
    {
        match record {
            Some(rec) => rec.value,
            None => 0,
        }
    }
}

/// The moving average never leaves the range spanned by the previous
/// average and the new price; in particular, positive prices keep it
/// positive.
pub proof fn law_ema_between(previous: i128, last_updated: u64, price: i128, alpha: i128)
    requires
        valid_alpha(alpha),
        previous > 0,
        price > 0,
    ensures
        ({
            let next = next_ema(Some(EmaRecord { value: previous, last_updated }), price as int, alpha as int);
            &&& next >= (if previous <= price { previous } else { price })
            &&& next <= (if previous <= price { price } else { previous })
            &&& next > 0
        }),
{
    let s = ALPHA_SCALE as int;
    let p = price as int;
    let v = previous as int;
    let a = alpha as int;
    let lo = if v <= p { v } else { p };
    let hi = if v <= p { p } else { v };
    let n = p * a + v * (s - a);
    assert(s * lo <= n <= s * hi) by (nonlinear_arith)
        requires
            0 < a <= s,
            lo <= p <= hi,
            lo <= v <= hi,
            n == p * a + v * (s - a),
    ;
    assert(n >= 0) by (nonlinear_arith)
        requires
            0 < a <= s,
            p > 0,
            v > 0,
            n == p * a + v * (s - a),
    ;
    vstd::arithmetic::div_mod::lemma_div_is_ordered(s * lo, n, s);
    vstd::arithmetic::div_mod::lemma_div_is_ordered(n, s * hi, s);
    vstd::arithmetic::div_mod::lemma_div_multiples_vanish(lo, s);
    vstd::arithmetic::div_mod::lemma_div_multiples_vanish(hi, s);
}

/// The smoothing factor weighs the new price: the first price becomes the
/// average, a factor of `ALPHA_SCALE` (10_000) follows the price exactly,
/// and otherwise the average times 10_000 is within 10_000 of
/// `price * alpha + previous * (10_000 - alpha)` (toward zero).
pub proof fn law_ema_weighs_price_by_alpha(previous: i128, last_updated: u64, price: i128, alpha: i128)
    requires
        valid_alpha(alpha),
        previous >= 0,
        price >= 0,
    ensures
        next_ema(None, price as int, alpha as int) == price,
        ({
            let next = next_ema(Some(EmaRecord { value: previous, last_updated }), price as int, alpha as int);
            let mix = price * alpha + previous * (10_000 - alpha);
            &&& next * 10_000 <= mix
            &&& mix < (next + 1) * 10_000
            &&& (alpha == 10_000 ==> next == price)
        }),
{
    let mix = price * alpha + previous * (10_000 - alpha);
    assert(mix >= 0) by (nonlinear_arith)
        requires
            price >= 0,
            previous >= 0,
            0 < alpha <= 10_000,
            mix == price * alpha + previous * (10_000 - alpha),
    ;
    vstd::arithmetic::div_mod::lemma_fundamental_div_mod(mix, 10_000);
    vstd::arithmetic::div_mod::lemma_mod_pos_bound(mix, 10_000);
    if alpha == 10_000 {
        assert(mix == price * 10_000) by (nonlinear_arith)
            requires
                alpha == 10_000,
                mix == price * alpha + previous * (10_000 - alpha),
        ;
    }
}

} // verus!

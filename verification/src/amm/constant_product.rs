use vstd::prelude::*;
use vstd::arithmetic::power2::*;
use vstd::arithmetic::div_mod::*;
use vstd::arithmetic::mul::*;
use vstd::bits::*;
use crate::error::ContractError;

verus! {

/// 2^64 as a mathematical integer.
pub open spec fn two_pow_64() -> int {
    0x1_0000_0000_0000_0000
}

/// 2^128 as a mathematical integer.
pub open spec fn two_pow_128() -> int {
    0x1_0000_0000_0000_0000_0000_0000_0000_0000int
}

/// 256-bit unsigned integer held as two machine words: `(low, high)`.
///
/// Holds the full product of two `u128` values before it is divided, so the
/// constant-product arithmetic never loses precision.
pub struct U256(pub u128, pub u128);

impl U256 {
    /// The number a `U256` stands for: `high * 2^128 + low`.
    pub open spec fn value(self) -> int {
        self.1 as int * two_pow_128() + self.0 as int
    }

    /// The number zero.
    pub fn zero() -> (r: U256)
        ensures
            r.value() == 0,
    {
        U256(0, 0)
    }

    /// The full 256-bit product of two `u128` values.
    pub fn mul(a: u128, b: u128) -> (r: U256)
        ensures
            r.value() == a as int * b as int,
    {
        let a_lo = a as u64;
        let a_hi = (a >> 64) as u64;
        let b_lo = b as u64;
        let b_hi = (b >> 64) as u64;
        proof {
            lemma_split_u128(a);
            lemma_split_u128(b);
            lemma_word_product_bound(a_lo as int, b_lo as int);
            lemma_word_product_bound(a_hi as int, b_lo as int);
            lemma_word_product_bound(a_lo as int, b_hi as int);
            lemma_word_product_bound(a_hi as int, b_hi as int);
        }
        let lo = (a_lo as u128) * (b_lo as u128);
        let cross1 = (a_hi as u128) * (b_lo as u128);
        let cross2 = (a_lo as u128) * (b_hi as u128);
        let hi = (a_hi as u128) * (b_hi as u128);

        // mid_sum = cross1 + cross2, which may need 129 bits.
        let mid: u128;
        let mid_carry: u128;
        if cross1 > u128::MAX - cross2 {
            mid = cross1 - (u128::MAX - cross2) - 1;
            mid_carry = 1;
        } else {
            mid = cross1 + cross2;
            mid_carry = 0;
        }
        assert(cross1 as int + cross2 as int == mid as int + mid_carry as int * two_pow_128());

        let mid_lo = mid << 64;
        let mid_hi = mid >> 64;
        proof {
            lemma_shift_split_u128(mid);
        }

        let lo2: u128;
        let carry1: u128;
        if lo > u128::MAX - mid_lo {
            lo2 = lo - (u128::MAX - mid_lo) - 1;
            carry1 = 1;
        } else {
            lo2 = lo + mid_lo;
            carry1 = 0;
        }
        assert(lo as int + mid_lo as int == lo2 as int + carry1 as int * two_pow_128());

        proof {
            lemma_mul_assemble(
                a_hi as int, a_lo as int, b_hi as int, b_lo as int,
                mid as int, mid_carry as int, mid_hi as int, mid_lo as int,
                lo2 as int, carry1 as int,
            );
            lemma_product_high_word_bound(
                a as int, b as int,
                hi as int + mid_hi as int + carry1 as int + mid_carry as int * two_pow_64(),
                lo2 as int,
            );
        }
        let hi2 = hi + mid_hi + carry1 + mid_carry * 0x1_0000_0000_0000_0000u128;
        U256(lo2, hi2)
    }

    /// Divide by a `u128`, returning `(quotient, remainder)`.
    ///
    /// Returns `None` when the divisor is zero or when the quotient does not
    /// fit in a `u128`.
    pub fn div_mod(&self, divisor: u128) -> (r: Option<(u128, u128)>)
        ensures
            divisor == 0 ==> r is None,
            divisor != 0 ==> (r is Some <==> self.value() / divisor as int <= u128::MAX),
            r matches Some(qr) ==> qr.0 as int == self.value() / divisor as int
                && qr.1 as int == self.value() % divisor as int,
    {
        if divisor == 0 {
            return None;
        }
        let d = divisor;
        let hi = self.1;
        let lo = self.0;

        proof {
            lemma_quotient_fits_iff(hi as int, lo as int, d as int);
        }
        if hi >= d {
            return None;
        }

        proof {
            lemma_pow2_128();
            assert(pow2(0) == 1) by { lemma2_to64(); }
            lemma_basic_div(lo as int, pow2(128) as int);
            assert(lo as int / pow2(128) as int == 0);
            assert(hi as int * pow2(0) == hi as int);
            assert(0 * pow2(128) == 0);
            assert(0 * d == 0);
        }
        let mut r = hi;
        let mut q = 0u128;
        let mut i: u32 = 128;
        let mut place: u128 = 0x8000_0000_0000_0000_0000_0000_0000_0000;
        let ghost mut qp: int = 0;
        proof {
            lemma_pow2_127();
        }
        while i > 0
            invariant
                0 <= i <= 128,
                d == divisor,
                0 < d,
                hi < d,
                r < d,
                hi == self.1,
                lo == self.0,
                i > 0 ==> place as int == pow2((i - 1) as nat),
                qp >= 0,
                q as int == qp * pow2(i as nat),
                qp * d + r == hi as int * pow2((128 - i) as nat) + lo as int / pow2(i as nat) as int,
            decreases i,
        {
            let j = i - 1;
            let bit = (lo >> j) & 1;
            let ghost r0 = r as int;
            let ghost qp0 = qp;
            let ghost q0 = q as int;
            proof {
                lemma_next_bit(lo, j);
                lemma_prefix_step(hi as int, lo as int, i as nat);
            }
            if r >= 0x8000_0000_0000_0000_0000_0000_0000_0000 {
                r = r - (d - r) + bit;
                proof { lemma_division_step(hi as int, lo as int, d as int, i as nat, qp0, r0, bit as int, 1, r as int); }
                proof { qp = 2 * qp0 + 1; }
                proof { lemma_step_quotient_bound(hi as int, lo as int, d as int, i as nat, qp, r as int); }
                assert(q0 + place as int == qp * pow2(j as nat)) by {
                    lemma_quotient_place(qp0, 1, i as nat);
                }
                q = q + place;
            } else {
                let t = 2 * r + bit;
                if t >= d {
                    r = t - d;
                    proof { lemma_division_step(hi as int, lo as int, d as int, i as nat, qp0, r0, bit as int, 1, r as int); }
                    proof { qp = 2 * qp0 + 1; }
                    proof { lemma_step_quotient_bound(hi as int, lo as int, d as int, i as nat, qp, r as int); }
                    assert(q0 + place as int == qp * pow2(j as nat)) by {
                        lemma_quotient_place(qp0, 1, i as nat);
                    }
                    q = q + place;
                } else {
                    r = t;
                    proof { lemma_division_step(hi as int, lo as int, d as int, i as nat, qp0, r0, bit as int, 0, r as int); }
                    proof { qp = 2 * qp0; }
                    assert(q0 == qp * pow2(j as nat)) by {
                        lemma_quotient_place(qp0, 0, i as nat);
                    }
                }
            }
            place = place / 2;
            i = j;
            proof {
                if i > 0 {
                    lemma_pow2_unfold(i as nat);
                }
            }
        }
        proof {
            assert(pow2(0) == 1) by { lemma2_to64(); }
            lemma_pow2_128();
            assert(lo as int / pow2(0) as int == lo as int);
            assert(i == 0);
            assert(q as int == qp * pow2(0));
            assert(qp * 1 == qp);
            assert(q as int == qp);
            assert(qp * d + r == self.value());
            lemma_fundamental_div_mod_converse(self.value(), d as int, qp, r as int);
        }
        Some((q, r))
    }
}

/// `floor(numerator * denominator / divisor)`, the exact quantity that
/// `mul_div` computes with a 256-bit intermediate.
pub open spec fn mul_div_value(numerator: int, denominator: int, divisor: int) -> int {
    numerator * denominator / divisor
}

/// Compute `numerator * denominator / divisor` with a full 256-bit
/// intermediate product. Rounds down (toward zero), which favors pool
/// reserves.
pub fn mul_div(numerator: u128, denominator: u128, divisor: u128) -> (r: Result<u128, ContractError>)
    ensures
        divisor == 0 ==> r == Err::<u128, ContractError>(ContractError::DivisionByZero),
        divisor != 0 && mul_div_value(numerator as int, denominator as int, divisor as int) <= u128::MAX
            ==> r == Ok::<u128, ContractError>(
                mul_div_value(numerator as int, denominator as int, divisor as int) as u128),
        divisor != 0 && mul_div_value(numerator as int, denominator as int, divisor as int) > u128::MAX
            ==> r == Err::<u128, ContractError>(ContractError::Overflow),
{
    if divisor == 0 {
        return Err(ContractError::DivisionByZero);
    }
    let product = U256::mul(numerator, denominator);
    match product.div_mod(divisor) {
        Some((quot, _rem)) => Ok(quot),
        None => Err(ContractError::Overflow),
    }
}

/// Output of a constant-product swap: `reserve_out * amount_in / (reserve_in + amount_in)`.
pub open spec fn swap_out_value(amount_in: int, reserve_in: int, reserve_out: int) -> int {
    reserve_out * amount_in / (reserve_in + amount_in)
}

/// The constant-product invariant holds across a swap: `k` does not decrease.
pub open spec fn invariant_holds(
    reserve_in_before: int,
    reserve_out_before: int,
    amount_in: int,
    amount_out: int,
) -> bool {
    (reserve_in_before + amount_in) * (reserve_out_before - amount_out)
        >= reserve_in_before * reserve_out_before
}

/// Compute the output amount for a constant-product swap.
///
/// Formula: `out = reserve_out * amount_in / (reserve_in + amount_in)`,
/// rounded down so that the pool's `k` never decreases.
pub fn compute_swap_out(amount_in: u128, reserve_in: u128, reserve_out: u128) -> (r: Result<u128, ContractError>)
    ensures
        (amount_in == 0 || reserve_in == 0 || reserve_out == 0)
            ==> r == Err::<u128, ContractError>(ContractError::InvalidInput),
        amount_in != 0 && reserve_in != 0 && reserve_out != 0 && reserve_in + amount_in > u128::MAX
            ==> r == Err::<u128, ContractError>(ContractError::Overflow),
        amount_in != 0 && reserve_in != 0 && reserve_out != 0 && reserve_in + amount_in <= u128::MAX
            ==> r == Ok::<u128, ContractError>(
                swap_out_value(amount_in as int, reserve_in as int, reserve_out as int) as u128),
        r matches Ok(out) ==> out < reserve_out
            && invariant_holds(reserve_in as int, reserve_out as int, amount_in as int, out as int),
{
    if amount_in == 0 || reserve_in == 0 || reserve_out == 0 {
        return Err(ContractError::InvalidInput);
    }
    let denominator = match reserve_in.checked_add(amount_in) {
        Some(v) => v,
        None => return Err(ContractError::Overflow),
    };
    proof {
        lemma_swap_out_properties(amount_in as int, reserve_in as int, reserve_out as int);
    }
    mul_div(reserve_out, amount_in, denominator)
}

/// Every swap output that `compute_swap_out` produces leaves the pool's
/// constant product `k` no smaller than before, and never drains the output
/// reserve.
pub proof fn law_swap_keeps_constant_product(amount_in: u128, reserve_in: u128, reserve_out: u128)
    requires
        amount_in > 0,
        reserve_in > 0,
        reserve_out > 0,
        reserve_in + amount_in <= u128::MAX,
    ensures
        0 <= swap_out_value(amount_in as int, reserve_in as int, reserve_out as int) < reserve_out,
        invariant_holds(
            reserve_in as int,
            reserve_out as int,
            amount_in as int,
            swap_out_value(amount_in as int, reserve_in as int, reserve_out as int),
        ),
{
    lemma_swap_out_properties(amount_in as int, reserve_in as int, reserve_out as int);
}

/// The swap output is the largest amount the constant product allows: it
/// keeps `k` (as `law_swap_keeps_constant_product` states), and one unit
/// more would not, since `out * (reserve_in + amount_in)` stays within
/// `reserve_out * amount_in` by less than `reserve_in + amount_in`.
pub proof fn law_swap_out_is_largest_fair_output(amount_in: int, reserve_in: int, reserve_out: int)
    requires
        amount_in > 0,
        reserve_in > 0,
        reserve_out > 0,
    ensures
        ({
            let out = swap_out_value(amount_in, reserve_in, reserve_out);
            let den = reserve_in + amount_in;
            &&& out * den <= reserve_out * amount_in
            &&& reserve_out * amount_in < (out + 1) * den
            &&& !invariant_holds(reserve_in, reserve_out, amount_in, out + 1)
        }),
{
    let den = reserve_in + amount_in;
    let num = reserve_out * amount_in;
    lemma_mul_strictly_positive(reserve_out, amount_in);
    lemma_fundamental_div_mod(num, den);
    lemma_mod_pos_bound(num, den);
    let out = num / den;
    assert(out * den <= num && num < (out + 1) * den) by (nonlinear_arith)
        requires
            num == den * out + num % den,
            0 <= num % den < den,
    ;
    assert(den * (reserve_out - (out + 1)) < reserve_in * reserve_out) by (nonlinear_arith)
        requires
            den == reserve_in + amount_in,
            num == reserve_out * amount_in,
            num < (out + 1) * den,
    ;
}

/// `mul_div` is the rounded-down quotient of the full product: times the
/// divisor it stays within the product, by less than the divisor.
pub proof fn law_mul_div_is_floor(numerator: int, denominator: int, divisor: int)
    requires
        numerator >= 0,
        denominator >= 0,
        divisor > 0,
    ensures
        ({
            let q = mul_div_value(numerator, denominator, divisor);
            &&& 0 <= q
            &&& q * divisor <= numerator * denominator
            &&& numerator * denominator < (q + 1) * divisor
        }),
{
    let x = numerator * denominator;
    lemma_mul_nonnegative(numerator, denominator);
    lemma_fundamental_div_mod(x, divisor);
    lemma_mod_pos_bound(x, divisor);
    lemma_div_pos_is_pos(x, divisor);
    let q = x / divisor;
    assert(q * divisor <= x && x < (q + 1) * divisor) by (nonlinear_arith)
        requires
            x == divisor * q + x % divisor,
            0 <= x % divisor < divisor,
    ;
}

proof fn lemma_swap_out_properties(amount_in: int, reserve_in: int, reserve_out: int)
    requires
        amount_in > 0,
        reserve_in > 0,
        reserve_out > 0,
    ensures
        0 <= swap_out_value(amount_in, reserve_in, reserve_out) < reserve_out,
        invariant_holds(reserve_in, reserve_out, amount_in, swap_out_value(amount_in, reserve_in, reserve_out)),
{
    let den = reserve_in + amount_in;
    let num = reserve_out * amount_in;
    let out = num / den;
    lemma_mul_strictly_positive(reserve_out, amount_in);
    lemma_fundamental_div_mod(num, den);
    lemma_mod_pos_bound(num, den);
    lemma_div_pos_is_pos(num, den);
    // den * out <= num = reserve_out * amount_in < reserve_out * den
    assert(reserve_out * amount_in < reserve_out * den) by (nonlinear_arith)
        requires
            reserve_out > 0,
            amount_in < den,
    ;
    assert(den * out <= num);
    assert(out < reserve_out) by (nonlinear_arith)
        requires
            den * out < reserve_out * den,
            den > 0,
    ;
    // (reserve_in + amount_in) * (reserve_out - out) = den * reserve_out - den * out
    //   >= den * reserve_out - reserve_out * amount_in = reserve_in * reserve_out
    assert(den * (reserve_out - out) == den * reserve_out - den * out) by (nonlinear_arith);
    assert(den * reserve_out - reserve_out * amount_in == reserve_in * reserve_out) by (nonlinear_arith)
        requires
            den == reserve_in + amount_in,
    ;
}

/// Compute the LP shares minted for a deposit:
/// `min(a * total_shares / reserve_a, b * total_shares / reserve_b)`, rounded
/// down to favor existing LPs.
pub fn compute_lp_shares(
    amount_a: u128,
    amount_b: u128,
    reserve_a: u128,
    reserve_b: u128,
    total_shares: u128,
) -> (r: Result<u128, ContractError>)
    ensures
        ({
            let sa = mul_div_value(amount_a as int, total_shares as int, reserve_a as int);
            let sb = mul_div_value(amount_b as int, total_shares as int, reserve_b as int);
            if amount_a == 0 || amount_b == 0 || total_shares == 0 || reserve_a == 0 || reserve_b == 0 {
                r == Err::<u128, ContractError>(ContractError::InvalidInput)
            } else if sa > u128::MAX || sb > u128::MAX {
                r == Err::<u128, ContractError>(ContractError::Overflow)
            } else {
                r == Ok::<u128, ContractError>(if sa <= sb { sa as u128 } else { sb as u128 })
            }
        }),
        r matches Ok(shares) ==> shares * reserve_a <= amount_a * total_shares
            && shares * reserve_b <= amount_b * total_shares,
{
    if amount_a == 0 || amount_b == 0 || total_shares == 0 {
        return Err(ContractError::InvalidInput);
    }
    if reserve_a == 0 || reserve_b == 0 {
        return Err(ContractError::InvalidInput);
    }
    let shares_a = match mul_div(amount_a, total_shares, reserve_a) {
        Ok(v) => v,
        Err(e) => return Err(e),
    };
    let shares_b = match mul_div(amount_b, total_shares, reserve_b) {
        Ok(v) => v,
        Err(e) => return Err(e),
    };
    proof {
        lemma_floor_times_divisor(amount_a as int * total_shares as int, reserve_a as int);
        lemma_floor_times_divisor(amount_b as int * total_shares as int, reserve_b as int);
        lemma_mul_nonnegative(amount_a as int, total_shares as int);
        lemma_mul_nonnegative(amount_b as int, total_shares as int);
        lemma_mul_inequality(
            (if shares_a <= shares_b { shares_a } else { shares_b }) as int, shares_a as int, reserve_a as int);
        lemma_mul_inequality(
            (if shares_a <= shares_b { shares_a } else { shares_b }) as int, shares_b as int, reserve_b as int);
    }
    if shares_a <= shares_b {
        Ok(shares_a)
    } else {
        Ok(shares_b)
    }
}

proof fn lemma_floor_times_divisor(x: int, d: int)
    requires
        x >= 0,
        d > 0,
    ensures
        (x / d) * d <= x,
        x / d >= 0,
{
    lemma_fundamental_div_mod(x, d);
    lemma_mod_pos_bound(x, d);
    lemma_div_pos_is_pos(x, d);
    lemma_mul_is_commutative(d, x / d);
}

/// Depositing and withdrawing at once never profits: burning the shares a
/// deposit mints, from the pool that deposit produced, returns at most the
/// amounts deposited.
pub proof fn law_liquidity_round_trip_never_profits(
    amount_a: int,
    amount_b: int,
    reserve_a: int,
    reserve_b: int,
    total_shares: int,
)
    requires
        amount_a > 0,
        amount_b > 0,
        reserve_a > 0,
        reserve_b > 0,
        total_shares > 0,
    ensures
        ({
            let sa = mul_div_value(amount_a, total_shares, reserve_a);
            let sb = mul_div_value(amount_b, total_shares, reserve_b);
            let shares = if sa <= sb { sa } else { sb };
            shares > 0 ==> {
                &&& mul_div_value(shares, reserve_a + amount_a, total_shares + shares) <= amount_a
                &&& mul_div_value(shares, reserve_b + amount_b, total_shares + shares) <= amount_b
            }
        }),
{
    let sa = mul_div_value(amount_a, total_shares, reserve_a);
    let sb = mul_div_value(amount_b, total_shares, reserve_b);
    let shares = if sa <= sb { sa } else { sb };
    if shares > 0 {
        lemma_mul_nonnegative(amount_a, total_shares);
        lemma_mul_nonnegative(amount_b, total_shares);
        lemma_floor_times_divisor(amount_a * total_shares, reserve_a);
        lemma_floor_times_divisor(amount_b * total_shares, reserve_b);
        lemma_round_trip_side(amount_a, reserve_a, total_shares, sa, shares);
        lemma_round_trip_side(amount_b, reserve_b, total_shares, sb, shares);
    }
}

proof fn lemma_round_trip_side(amount: int, reserve: int, total: int, minted_max: int, shares: int)
    requires
        amount > 0,
        reserve > 0,
        total > 0,
        0 < shares <= minted_max,
        minted_max * reserve <= amount * total,
    ensures
        mul_div_value(shares, reserve + amount, total + shares) <= amount,
{
    assert(shares * reserve <= amount * total) by (nonlinear_arith)
        requires
            0 < shares <= minted_max,
            reserve > 0,
            minted_max * reserve <= amount * total,
    ;
    assert(shares * (reserve + amount) <= amount * (total + shares)) by (nonlinear_arith)
        requires
            shares * reserve <= amount * total,
    ;
    assert(shares * (reserve + amount) >= 0) by (nonlinear_arith)
        requires
            shares > 0,
            reserve > 0,
            amount > 0,
    ;
    lemma_div_is_ordered(shares * (reserve + amount), amount * (total + shares), total + shares);
    lemma_div_multiples_vanish(amount, total + shares);
    lemma_mul_is_commutative(amount, total + shares);
}

/// Compute the amounts returned when burning `shares` LP tokens:
/// `(shares * reserve_a / total_shares, shares * reserve_b / total_shares)`,
/// rounded down to favor the pool.
pub fn compute_remove_liquidity(
    shares: u128,
    total_shares: u128,
    reserve_a: u128,
    reserve_b: u128,
) -> (r: Result<(u128, u128), ContractError>)
    ensures
        (shares == 0 || total_shares == 0 || shares > total_shares)
            ==> r == Err::<(u128, u128), ContractError>(ContractError::InvalidInput),
        (shares != 0 && total_shares != 0 && shares <= total_shares) ==> r == Ok::<(u128, u128), ContractError>((
            mul_div_value(shares as int, reserve_a as int, total_shares as int) as u128,
            mul_div_value(shares as int, reserve_b as int, total_shares as int) as u128,
        )),
        r matches Ok(ab) ==> ab.0 <= reserve_a && ab.1 <= reserve_b,
{
    if shares == 0 || total_shares == 0 {
        return Err(ContractError::InvalidInput);
    }
    if shares > total_shares {
        return Err(ContractError::InvalidInput);
    }
    proof {
        lemma_share_of_reserve(shares as int, total_shares as int, reserve_a as int);
        lemma_share_of_reserve(shares as int, total_shares as int, reserve_b as int);
    }
    let amount_a = match mul_div(shares, reserve_a, total_shares) {
        Ok(v) => v,
        Err(e) => return Err(e),
    };
    let amount_b = match mul_div(shares, reserve_b, total_shares) {
        Ok(v) => v,
        Err(e) => return Err(e),
    };
    Ok((amount_a, amount_b))
}

proof fn lemma_share_of_reserve(shares: int, total: int, reserve: int)
    requires
        0 < shares <= total,
        0 <= reserve,
    ensures
        0 <= shares * reserve / total <= reserve,
{
    lemma_mul_inequality(shares, total, reserve);
    lemma_mul_nonnegative(shares, reserve);
    lemma_div_is_ordered(shares * reserve, total * reserve, total);
    lemma_div_multiples_vanish(reserve, total);
    lemma_mul_is_commutative(total, reserve);
    lemma_div_pos_is_pos(shares * reserve, total);
}

/// Verify that `k_new >= k_old` across a swap, so that rounding always
/// favors the reserves.
pub fn assert_invariant_stable(
    reserve_in_before: u128,
    reserve_out_before: u128,
    amount_in: u128,
    amount_out: u128,
) -> (r: Result<(), ContractError>)
    ensures
        r is Ok <==> (reserve_in_before + amount_in <= u128::MAX && amount_out <= reserve_out_before
            && invariant_holds(reserve_in_before as int, reserve_out_before as int, amount_in as int, amount_out as int)),
        r matches Err(e) ==> e == ContractError::Overflow,
{
    let k_before = U256::mul(reserve_in_before, reserve_out_before);
    let reserve_in_after = match reserve_in_before.checked_add(amount_in) {
        Some(v) => v,
        None => return Err(ContractError::Overflow),
    };
    let reserve_out_after = match reserve_out_before.checked_sub(amount_out) {
        Some(v) => v,
        None => return Err(ContractError::Overflow),
    };
    let k_after = U256::mul(reserve_in_after, reserve_out_after);
    proof {
        lemma_u256_order(k_after, k_before);
    }
    if k_after.1 < k_before.1 || (k_after.1 == k_before.1 && k_after.0 < k_before.0) {
        return Err(ContractError::Overflow);
    }
    Ok(())
}

/// Comparing the high words first, then the low words, orders `U256` values
/// by the numbers they stand for.
proof fn lemma_u256_order(x: U256, y: U256)
    ensures
        (x.1 < y.1 || (x.1 == y.1 && x.0 < y.0)) <==> x.value() < y.value(),
{
    let b = two_pow_128();
    if x.1 < y.1 {
        assert(x.1 as int * b + b <= y.1 as int * b) by (nonlinear_arith)
            requires
                x.1 < y.1,
                b > 0,
        ;
    } else if x.1 > y.1 {
        assert(y.1 as int * b + b <= x.1 as int * b) by (nonlinear_arith)
            requires
                y.1 < x.1,
                b > 0,
        ;
    }
}

// ---------------------------------------------------------------------------
// Arithmetic lemmas behind `U256`.
// ---------------------------------------------------------------------------

proof fn lemma_pow2_128()
    ensures
        pow2(128) == two_pow_128(),
        pow2(64) == two_pow_64(),
{
    lemma2_to64();
    lemma_pow2_adds(64, 64);
}

proof fn lemma_pow2_127()
    ensures
        pow2(127) == 0x8000_0000_0000_0000_0000_0000_0000_0000,
{
    lemma_pow2_128();
    lemma_pow2_unfold(128);
}

/// A `u128` splits into its high and low 64-bit words.
proof fn lemma_split_u128(a: u128)
    ensures
        (a as u64) as int == a as int % two_pow_64(),
        ((a >> 64) as u64) as int == a as int / two_pow_64(),
        a as int == (a >> 64) as u64 as int * two_pow_64() + (a as u64) as int,
{
    assert((a as u64) as u128 == a % 0x1_0000_0000_0000_0000) by (bit_vector);
    assert((a >> 64u128) == a / 0x1_0000_0000_0000_0000) by (bit_vector);
    assert(a / 0x1_0000_0000_0000_0000 < 0x1_0000_0000_0000_0000) by (bit_vector);
    lemma_fundamental_div_mod(a as int, two_pow_64());
}

proof fn lemma_word_product_bound(x: int, y: int)
    requires
        0 <= x < two_pow_64(),
        0 <= y < two_pow_64(),
    ensures
        0 <= x * y <= (two_pow_64() - 1) * (two_pow_64() - 1),
{
    lemma_mul_upper_bound(x, two_pow_64() - 1, y, two_pow_64() - 1);
    lemma_mul_nonnegative(x, y);
}

proof fn lemma_shift_split_u128(m: u128)
    ensures
        (m << 64) as int == (m as int % two_pow_64()) * two_pow_64(),
        (m >> 64) as int == m as int / two_pow_64(),
        m as int == (m >> 64) as int * two_pow_64() + m as int % two_pow_64(),
{
    assert((m << 64u128) == (m % 0x1_0000_0000_0000_0000) * 0x1_0000_0000_0000_0000) by (bit_vector);
    assert((m >> 64u128) == m / 0x1_0000_0000_0000_0000) by (bit_vector);
    lemma_fundamental_div_mod(m as int, two_pow_64());
}

proof fn lemma_mul_assemble(
    a_hi: int, a_lo: int, b_hi: int, b_lo: int,
    mid: int, mid_carry: int, mid_hi: int, mid_lo: int,
    lo2: int, carry1: int,
)
    requires
        a_hi * b_lo + a_lo * b_hi == mid + mid_carry * two_pow_128(),
        mid_lo == (mid % two_pow_64()) * two_pow_64(),
        mid == mid_hi * two_pow_64() + mid % two_pow_64(),
        a_lo * b_lo + mid_lo == lo2 + carry1 * two_pow_128(),
    ensures
        (a_hi * two_pow_64() + a_lo) * (b_hi * two_pow_64() + b_lo)
            == (a_hi * b_hi + mid_hi + carry1 + mid_carry * two_pow_64()) * two_pow_128() + lo2,
{
    let b = two_pow_64();
    let mm = mid % two_pow_64();
    lemma_expand_two_words(a_hi, a_lo, b_hi, b_lo, b);
    assert(b * b == two_pow_128());
    assert((mid + mid_carry * two_pow_128()) * b == (mid_hi * b + mm) * b + mid_carry * b * two_pow_128())
        by (nonlinear_arith)
        requires
            mid == mid_hi * b + mm,
    ;
    assert((mid_hi * b + mm) * b == mid_hi * two_pow_128() + mm * b) by (nonlinear_arith)
        requires
            b * b == two_pow_128(),
    ;
    assert(a_hi * b_hi * (b * b) == a_hi * b_hi * two_pow_128());
    assert(mid_carry * b * two_pow_128() == mid_carry * two_pow_64() * two_pow_128());
    assert((a_hi * b_hi + mid_hi + carry1 + mid_carry * two_pow_64()) * two_pow_128()
        == a_hi * b_hi * two_pow_128() + mid_hi * two_pow_128() + carry1 * two_pow_128()
            + mid_carry * two_pow_64() * two_pow_128()) by (nonlinear_arith);
}

proof fn lemma_expand_two_words(x1: int, x0: int, y1: int, y0: int, b: int)
    ensures
        (x1 * b + x0) * (y1 * b + y0) == x1 * y1 * (b * b) + (x1 * y0 + x0 * y1) * b + x0 * y0,
{
    let yy = y1 * b + y0;
    lemma_mul_is_distributive_add_other_way(yy, x1 * b, x0);
    lemma_mul_is_distributive_add(x1 * b, y1 * b, y0);
    lemma_mul_is_distributive_add(x0, y1 * b, y0);
    assert(x1 * b * (y1 * b) == x1 * y1 * (b * b)) by (nonlinear_arith);
    assert(x1 * b * y0 == x1 * y0 * b) by (nonlinear_arith);
    assert(x0 * (y1 * b) == x0 * y1 * b) by (nonlinear_arith);
    lemma_mul_is_distributive_add_other_way(b, x1 * y0, x0 * y1);
}

proof fn lemma_product_high_word_bound(a: int, b: int, h: int, l: int)
    requires
        0 <= a < two_pow_128(),
        0 <= b < two_pow_128(),
        0 <= h,
        0 <= l,
        a * b == h * two_pow_128() + l,
    ensures
        h < two_pow_128(),
{
    if h >= two_pow_128() {
        assert(h * two_pow_128() >= two_pow_128() * two_pow_128()) by (nonlinear_arith)
            requires
                h >= two_pow_128(),
        ;
        assert(a * b < two_pow_128() * two_pow_128()) by (nonlinear_arith)
            requires
                0 <= a < two_pow_128(),
                0 <= b < two_pow_128(),
        ;
    }
}

/// The quotient of `hi * 2^128 + lo` by `d` fits in 128 bits exactly when `hi < d`.
proof fn lemma_quotient_fits_iff(hi: int, lo: int, d: int)
    requires
        0 <= hi < two_pow_128(),
        0 <= lo < two_pow_128(),
        0 < d < two_pow_128(),
    ensures
        (hi * two_pow_128() + lo) / d <= u128::MAX <==> hi < d,
{
    let v = hi * two_pow_128() + lo;
    if hi < d {
        assert(v < d * two_pow_128()) by (nonlinear_arith)
            requires
                hi < d,
                lo < two_pow_128(),
                v == hi * two_pow_128() + lo,
        ;
        lemma_div_strictly_bounded(v, d, two_pow_128());
    } else {
        assert(v >= d * two_pow_128()) by (nonlinear_arith)
            requires
                hi >= d,
                lo >= 0,
                v == hi * two_pow_128() + lo,
        ;
        lemma_div_is_ordered(d * two_pow_128(), v, d);
        lemma_div_multiples_vanish(two_pow_128(), d);
    }
}

proof fn lemma_div_strictly_bounded(x: int, a: int, b: int)
    requires
        a > 0,
        b > 0,
        0 <= x < a * b,
    ensures
        x / a < b,
{
    lemma_div_by_multiple(b, a);
    lemma_mul_is_commutative(a, b);
    lemma_div_by_multiple_is_strongly_ordered(x, a * b, b, a);
}

/// Bit `j` of `lo`, extracted with a shift and a mask.
proof fn lemma_next_bit(lo: u128, j: u32)
    requires
        j < 128,
    ensures
        ((lo >> j) & 1) as int == (lo as int / pow2(j as nat) as int) % 2,
        ((lo >> j) & 1) <= 1,
{
    lemma_u128_shr_is_div(lo, j as u128);
    let s = lo >> j;
    assert(s & 1 == s % 2) by (bit_vector);
    assert(lo >> j == lo >> (j as u128));
}

/// The prefix of `hi:lo` that is `i` bits short of the whole number grows by
/// one bit when `i` drops by one.
proof fn lemma_prefix_step(hi: int, lo: int, i: nat)
    requires
        0 < i <= 128,
        0 <= lo,
        0 <= hi,
    ensures
        hi * pow2((128 - (i - 1)) as nat) + lo / pow2((i - 1) as nat) as int
            == 2 * (hi * pow2((128 - i) as nat) + lo / pow2(i) as int)
                + (lo / pow2((i - 1) as nat) as int) % 2,
{
    let p = pow2((i - 1) as nat) as int;
    let big_l = lo / p;
    lemma_pow2_pos((i - 1) as nat);
    lemma_pow2_unfold(i);
    assert(pow2(i) as int == 2 * p);
    lemma_div_denominator(lo, p, 2);
    assert(p * 2 == 2 * p);
    assert(lo / pow2(i) as int == big_l / 2);
    lemma_fundamental_div_mod(big_l, 2);
    assert(big_l == 2 * (big_l / 2) + big_l % 2);
    let e = (128 - (i - 1)) as nat;
    lemma_pow2_unfold(e);
    assert((e - 1) as nat == (128 - i) as nat);
    let k = pow2((128 - i) as nat) as int;
    assert(pow2(e) as int == 2 * k);
    assert(hi * (2 * k) == 2 * (hi * k)) by (nonlinear_arith);
}

/// One long-division step keeps `qp * d + r` equal to the processed prefix.
proof fn lemma_division_step(
    hi: int, lo: int, d: int, i: nat, qp0: int, r0: int, bit: int, b: int, r1: int,
)
    requires
        0 < i <= 128,
        0 <= lo,
        0 <= hi,
        qp0 * d + r0 == hi * pow2((128 - i) as nat) + lo / pow2(i) as int,
        bit == (lo / pow2((i - 1) as nat) as int) % 2,
        r1 == 2 * r0 + bit - b * d,
    ensures
        (2 * qp0 + b) * d + r1
            == hi * pow2((128 - (i - 1)) as nat) + lo / pow2((i - 1) as nat) as int,
{
    lemma_prefix_step(hi, lo, i);
    assert((2 * qp0 + b) * d == 2 * (qp0 * d) + b * d) by (nonlinear_arith);
}

/// Adding the step's quotient bit at its place value.
proof fn lemma_quotient_place(qp0: int, b: int, i: nat)
    requires
        0 < i,
    ensures
        qp0 * pow2(i) + b * pow2((i - 1) as nat) == (2 * qp0 + b) * pow2((i - 1) as nat),
{
    lemma_pow2_unfold(i);
    let p = pow2((i - 1) as nat) as int;
    assert(qp0 * (2 * p) + b * p == (2 * qp0 + b) * p) by (nonlinear_arith);
}

/// After a long-division step the partial quotient still fits its place.
proof fn lemma_step_quotient_bound(hi: int, lo: int, d: int, i: nat, qp: int, r: int)
    requires
        0 < i <= 128,
        0 <= lo < two_pow_128(),
        0 <= hi < d,
        0 <= r,
        0 <= qp,
        qp * d + r == hi * pow2((128 - (i - 1)) as nat) + lo / pow2((i - 1) as nat) as int,
    ensures
        qp * pow2((i - 1) as nat) < two_pow_128(),
{
    let k = pow2((128 - (i - 1)) as nat) as int;
    let p = pow2((i - 1) as nat) as int;
    lemma_pow2_pos((i - 1) as nat);
    lemma_pow2_pos((128 - (i - 1)) as nat);
    lemma_pow2_adds((i - 1) as nat, (128 - (i - 1)) as nat);
    assert((i - 1) as nat + (128 - (i - 1)) as nat == 128);
    lemma_pow2_128();
    assert(p * k == two_pow_128());
    lemma_mul_is_commutative(p, k);
    lemma_div_strictly_bounded(lo, p, k);
    assert((hi + 1) * k <= d * k) by (nonlinear_arith)
        requires
            hi + 1 <= d,
            k > 0,
    ;
    assert(hi * k + k == (hi + 1) * k) by (nonlinear_arith);
    assert(qp * d < d * k);
    assert(qp < k) by (nonlinear_arith)
        requires
            qp * d < d * k,
            d > 0,
    ;
    assert(qp * p < k * p) by (nonlinear_arith)
        requires
            qp < k,
            p > 0,
    ;
}

} // verus!

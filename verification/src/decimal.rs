//! Fixed-point decimals with eight fractional digits.
//!
//! A quantity is an `i64` that counts hundred-millionths. Intermediate
//! products are taken in 128 bits, so nothing here overflows.

use vstd::arithmetic::div_mod::*;
use vstd::arithmetic::mul::*;
use vstd::prelude::*;

verus! {

/// The integer that stands for `1.0`.
pub const SCALE: i64 = 100_000_000;

/// Largest magnitude the engine's arithmetic accepts for a quantity
/// (it stands for one billion).
pub const MAX_RAW: i64 = 100_000_000_000_000_000;

/// Largest magnitude of a price that can be snapped to a tick.
pub const SNAP_LIMIT: i64 = 4_000_000_000_000_000_000;

/// Whether a quantity lies within the accepted magnitude.
pub open spec fn in_range(x: int) -> bool {
    -MAX_RAW <= x <= MAX_RAW
}

pub open spec fn abs_spec(x: int) -> int {
    if x < 0 {
        -x
    } else {
        x
    }
}

pub open spec fn min_spec(a: int, b: int) -> int {
    if a <= b {
        a
    } else {
        b
    }
}

pub open spec fn max_spec(a: int, b: int) -> int {
    if a >= b {
        a
    } else {
        b
    }
}

pub open spec fn clamp_spec(x: int, lo: int, hi: int) -> int {
    if x < lo {
        lo
    } else if x > hi {
        hi
    } else {
        x
    }
}

/// `n / d` rounded to the nearest integer, ties away from zero (`d > 0`).
pub open spec fn div_round(n: int, d: int) -> int {
    if n >= 0 {
        (2 * n + d) / (2 * d)
    } else {
        -((2 * (-n) + d) / (2 * d))
    }
}

/// `n / d` rounded toward zero (`d > 0`).
pub open spec fn div_trunc(n: int, d: int) -> int {
    if n >= 0 {
        n / d
    } else {
        -((-n) / d)
    }
}

/// A price moved to the nearest multiple of `tick`; unchanged where the
/// tick is not positive.
pub open spec fn snap_to_tick_spec(price: int, tick: int) -> int {
    if tick <= 0 {
        price
    } else {
        div_round(price, tick) * tick
    }
}

/// Quotient and remainder bracket the dividend.
pub proof fn lemma_div_bounds(n: int, d: int)
    requires
        d > 0,
    ensures
        (n / d) * d <= n < (n / d) * d + d,
        n >= 0 ==> n / d >= 0,
{
    lemma_fundamental_div_mod(n, d);
    lemma_mod_bound(n, d);
    lemma_mul_is_commutative(d, n / d);
    if n >= 0 {
        lemma_div_pos_is_pos(n, d);
    }
}

/// Flooring division is monotone in the dividend.
pub proof fn lemma_div_monotone(a: int, b: int, d: int)
    requires
        a <= b,
        d > 0,
    ensures
        a / d <= b / d,
{
    lemma_div_is_ordered(a, b, d);
}

/// A product of bounded non-negative factors is bounded by the product of
/// the bounds.
pub proof fn lemma_mul_bound(a: int, amax: int, b: int, bmax: int)
    requires
        0 <= a <= amax,
        0 <= b <= bmax,
    ensures
        0 <= a * b <= amax * bmax,
{
    lemma_mul_nonnegative(a, b);
    lemma_mul_upper_bound(a, amax, b, bmax);
}

/// A product is monotone in each non-negative factor.
pub proof fn lemma_mul_monotone(a1: int, a2: int, b1: int, b2: int)
    requires
        0 <= a1 <= a2,
        0 <= b1 <= b2,
    ensures
        a1 * b1 <= a2 * b2,
{
    lemma_mul_upper_bound(a1, a2, b1, b2);
}

/// Division toward zero is monotone in the dividend.
pub proof fn lemma_div_trunc_monotone(a: int, b: int, d: int)
    requires
        a <= b,
        d > 0,
    ensures
        div_trunc(a, d) <= div_trunc(b, d),
{
    if a >= 0 {
        lemma_div_monotone(a, b, d);
    } else if b < 0 {
        lemma_div_monotone(-b, -a, d);
    } else {
        lemma_div_bounds(-a, d);
        lemma_div_bounds(b, d);
    }
}

/// A quotient lies below a bound exactly when the dividend lies below the
/// bound's multiple.
pub proof fn lemma_div_lt_iff(n: int, d: int, c: int)
    requires
        d > 0,
    ensures
        n / d < c <==> n < c * d,
{
    lemma_div_bounds(n, d);
    if n / d < c {
        lemma_mul_inequality(n / d + 1, c, d);
        lemma_mul_is_distributive_add_other_way(d, n / d, 1);
    } else {
        lemma_mul_inequality(c, n / d, d);
    }
}

/// Rounding division by a positive divisor is monotone in the dividend.
pub proof fn lemma_div_round_monotone(a: int, b: int, d: int)
    requires
        a <= b,
        d > 0,
    ensures
        div_round(a, d) <= div_round(b, d),
{
    if a >= 0 {
        lemma_div_monotone(2 * a + d, 2 * b + d, 2 * d);
    } else if b < 0 {
        lemma_div_monotone(2 * (-b) + d, 2 * (-a) + d, 2 * d);
    } else {
        lemma_div_bounds(2 * (-a) + d, 2 * d);
        lemma_div_bounds(2 * b + d, 2 * d);
    }
}

/// The nearest multiple of the tick is at most half a tick away.
pub proof fn lemma_snap_within_half_tick(price: int, tick: int)
    requires
        tick > 0,
    ensures
        2 * abs_spec(snap_to_tick_spec(price, tick) - price) <= tick,
        snap_to_tick_spec(price, tick) % tick == 0,
        (price >= 0 ==> snap_to_tick_spec(price, tick) >= 0),
        (price <= 0 ==> snap_to_tick_spec(price, tick) <= 0),
{
    let m = abs_spec(price);
    let q = (2 * m + tick) / (2 * tick);
    lemma_div_bounds(2 * m + tick, 2 * tick);
    assert(q * (2 * tick) == 2 * (q * tick)) by (nonlinear_arith);
    assert((-q) * tick == -(q * tick)) by (nonlinear_arith);
    lemma_mod_multiples_basic(q, tick);
    lemma_mod_multiples_basic(-q, tick);
    assert(q * tick >= 0) by (nonlinear_arith)
        requires
            q >= 0,
            tick > 0,
    ;
    if price == 0 {
        lemma_basic_div(tick, 2 * tick);
    }
}

/// The least number of ticks that reach `x`, for a positive `x`.
pub open spec fn ticks_to_reach(x: int, tick: int) -> int {
    (x - 1) / tick + 1
}

/// A price that is not negative rounds to a tick strictly below `bound`
/// exactly when it lies more than half a tick under the first tick at or
/// above `bound`.
pub proof fn lemma_snap_below_iff(price: int, tick: int, bound: int)
    requires
        tick > 0,
        bound > 0,
    ensures
        snap_to_tick_spec(price, tick) < bound <==> 2 * price + tick < 2 * tick * ticks_to_reach(
            bound,
            tick,
        ),
{
    let c = ticks_to_reach(bound, tick);
    lemma_div_bounds(bound - 1, tick);
    assert(c >= 1);
    assert(2 * tick * c >= 2 * tick) by (nonlinear_arith)
        requires
            c >= 1,
            tick > 0,
    ;
    if price < 0 {
        lemma_snap_within_half_tick(price, tick);
    } else {
        let q = (2 * price + tick) / (2 * tick);
        assert(snap_to_tick_spec(price, tick) == q * tick);
        lemma_div_lt_iff(2 * price + tick, 2 * tick, c);
        assert(c * (2 * tick) == 2 * tick * c) by (nonlinear_arith);
        // q * tick < bound  <==>  q < c
        lemma_div_bounds(bound - 1, tick);
        if q < c {
            lemma_mul_inequality(q, c - 1, tick);
            assert((c - 1) * tick == ((bound - 1) / tick) * tick);
        } else {
            lemma_mul_inequality(c, q, tick);
            assert(c * tick == ((bound - 1) / tick) * tick + tick) by (nonlinear_arith)
                requires
                    c == (bound - 1) / tick + 1,
            ;
        }
    }
}

/// Snapping keeps the order of prices.
pub proof fn lemma_snap_monotone(low: int, high: int, tick: int)
    requires
        low <= high,
    ensures
        snap_to_tick_spec(low, tick) <= snap_to_tick_spec(high, tick),
{
    if tick > 0 {
        lemma_div_round_monotone(low, high, tick);
        lemma_mul_inequality(div_round(low, tick), div_round(high, tick), tick);
    }
}

/// `a * b / d`, rounded down, for unsigned factors.
pub fn mul_div_floor(a: u64, b: u64, d: u64) -> (r: u128)
    requires
        d > 0,
    ensures
        r == (a as int * b as int) / (d as int),
        r <= a as int * b as int,
{
    proof {
        lemma_mul_bound(a as int, u64::MAX as int, b as int, u64::MAX as int);
        lemma_div_bounds(a as int * b as int, d as int);
        lemma_div_nonincreasing(a as int * b as int, d as int);
    }
    let p: u128 = (a as u128) * (b as u128);
    p / (d as u128)
}

/// `a + b`, held at the ends of the `i64` range.
pub open spec fn sat_add_spec(a: int, b: int) -> int {
    clamp_spec(a + b, i64::MIN as int, i64::MAX as int)
}

/// Adds two quantities; a sum beyond the `i64` range stays at its end.
pub fn sat_add(a: i64, b: i64) -> (r: i64)
    ensures
        r == sat_add_spec(a as int, b as int),
{
    let s: i128 = a as i128 + b as i128;
    if s > i64::MAX as i128 {
        i64::MAX
    } else if s < i64::MIN as i128 {
        i64::MIN
    } else {
        s as i64
    }
}

/// `a - b`, held at the ends of the `i64` range.
pub open spec fn sat_sub_spec(a: int, b: int) -> int {
    clamp_spec(a - b, i64::MIN as int, i64::MAX as int)
}

/// Subtracts two quantities; a difference beyond the `i64` range stays at
/// its end.
pub fn sat_sub(a: i64, b: i64) -> (r: i64)
    ensures
        r == sat_sub_spec(a as int, b as int),
{
    let s: i128 = a as i128 - b as i128;
    if s > i64::MAX as i128 {
        i64::MAX
    } else if s < i64::MIN as i128 {
        i64::MIN
    } else {
        s as i64
    }
}

/// The product of two quantities, rounded toward zero and held at the ends
/// of the `i64` range.
pub open spec fn mul_sat_spec(a: int, b: int) -> int {
    clamp_spec(div_trunc(a * b, SCALE as int), i64::MIN as int, i64::MAX as int)
}

/// Multiplies two quantities, as `mul_sat_spec` says.
pub fn mul_sat(a: i64, b: i64) -> (r: i64)
    ensures
        r == mul_sat_spec(a as int, b as int),
{
    let x: u64 = abs_i64(a);
    let y: u64 = abs_i64(b);
    let q: u128 = mul_div_floor(x, y, SCALE as u64);
    let negative: bool = (a < 0) != (b < 0);
    proof {
        let ai = a as int;
        let bi = b as int;
        assert(abs_spec(ai) * abs_spec(bi) == abs_spec(ai * bi)) by (nonlinear_arith);
        assert((ai * bi < 0) ==> negative) by (nonlinear_arith)
            requires
                negative == ((ai < 0) != (bi < 0)),
        ;
        assert((ai * bi > 0) ==> !negative) by (nonlinear_arith)
            requires
                negative == ((ai < 0) != (bi < 0)),
        ;
        lemma_div_bounds(abs_spec(ai * bi), SCALE as int);
        if ai * bi == 0 {
            assert(q == 0);
        }
    }
    if negative {
        if q > 9_223_372_036_854_775_808u128 {
            i64::MIN
        } else if q == 9_223_372_036_854_775_808u128 {
            i64::MIN
        } else {
            -(q as i64)
        }
    } else {
        if q > i64::MAX as u128 {
            i64::MAX
        } else {
            q as i64
        }
    }
}

/// The quotient of two quantities for a positive divisor, rounded toward
/// zero and held at the ends of the `i64` range.
pub open spec fn div_sat_spec(a: int, b: int) -> int {
    clamp_spec(div_trunc(a * SCALE, b), i64::MIN as int, i64::MAX as int)
}

/// Divides a quantity by a positive quantity, as `div_sat_spec` says.
pub fn div_sat(a: i64, b: i64) -> (r: i64)
    requires
        b > 0,
    ensures
        r == div_sat_spec(a as int, b as int),
{
    let x: u64 = abs_i64(a);
    let q: u128 = mul_div_floor(x, SCALE as u64, b as u64);
    proof {
        let ai = a as int;
        assert(abs_spec(ai) * SCALE == abs_spec(ai * SCALE)) by (nonlinear_arith);
        assert(ai < 0 ==> ai * SCALE < 0) by (nonlinear_arith);
        assert(ai >= 0 ==> ai * SCALE >= 0) by (nonlinear_arith);
        lemma_div_bounds(abs_spec(ai * SCALE), b as int);
    }
    if a < 0 {
        if q >= 9_223_372_036_854_775_808u128 {
            i64::MIN
        } else {
            -(q as i64)
        }
    } else {
        if q > i64::MAX as u128 {
            i64::MAX
        } else {
            q as i64
        }
    }
}

/// The magnitude of a quantity.
pub fn abs_i64(x: i64) -> (r: u64)
    ensures
        r == abs_spec(x as int),
{
    if x >= 0 {
        x as u64
    } else if x == i64::MIN {
        9_223_372_036_854_775_808u64
    } else {
        (-x) as u64
    }
}

/// Snaps a price to the nearest multiple of the tick size, ties away from
/// zero. A tick that is not positive leaves the price as it is.
pub fn snap_to_tick(price: i64, tick_size: i64) -> (r: i64)
    requires
        -SNAP_LIMIT <= price <= SNAP_LIMIT,
        tick_size <= MAX_RAW,
    ensures
        r == snap_to_tick_spec(price as int, tick_size as int),
{
    if tick_size <= 0 {
        return price;
    }
    let m: u64 = abs_i64(price);
    let t: u64 = tick_size as u64;
    let q: u64 = (2 * m + t) / (2 * t);
    proof {
        lemma_snap_within_half_tick(price as int, tick_size as int);
        lemma_div_bounds(2 * m as int + t as int, 2 * t as int);
        assert(q as int * (2 * t as int) == 2 * (q as int * t as int)) by (nonlinear_arith);
        assert((-(q as int)) * (t as int) == -(q as int * t as int)) by (nonlinear_arith);
    }
    let s: u64 = q * t;
    if price >= 0 {
        s as i64
    } else {
        -(s as i64)
    }
}

} // verus!

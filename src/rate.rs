//! The interest-rate model: utilisation, the piecewise-linear borrow rate,
//! the deposit rate and time-based interest, all in fixed point.
//!
//! Rates and utilisation are fractions scaled by `BP` (so `BP` means 1.0 and a
//! rate is per year). Every division rounds down.

use vstd::prelude::*;
use vstd::arithmetic::div_mod::*;
use vstd::arithmetic::mul::*;

verus! {

/// The fixed-point unit: the value that stands for 1.0.
pub const BP: u64 = 1_000_000_000;

/// Seconds in a year, the period over which a rate applies.
pub const SECONDS_PER_YEAR: u64 = 31_556_926;

/// The largest borrow rate a curve may reach (1000.0 per year). It keeps the
/// interest on any `u64` amount over any `u64` span of seconds within `u128`.
pub const MAX_RATE: u64 = 1_000_000_000_000;

/// Constant configuration of a pool's rate curve and risk thresholds.
#[derive(Clone, Copy, Debug, PartialEq, Eq, Structural)]
pub struct PoolParams {
    pub r_base: u64,
    pub r_slope1: u64,
    pub r_slope2: u64,
    pub u_optimal: u64,
    pub reserve_factor: u64,
    pub liquidation_threshold: u64,
    pub health_factor_threshold: u64,
}

impl PoolParams {
    /// The curve is usable: the breakpoint lies strictly inside (0, 1), the
    /// reserve factor is a fraction and the top of the curve is bounded.
    pub open spec fn wf(&self) -> bool {
        &&& 0 < self.u_optimal < BP
        &&& self.reserve_factor <= BP
        &&& self.r_base + self.r_slope1 + self.r_slope2 <= MAX_RATE
    }
}

/// Share of the pool that is lent out, scaled by `BP`; zero for an empty pool.
pub open spec fn utilisation_of(borrowed: int, reserve: int) -> int {
    if borrowed + reserve == 0 {
        0
    } else {
        borrowed * BP / (borrowed + reserve)
    }
}

/// Borrow rate at utilisation `u`: `r_base + r_slope1 * u / u_optimal` below the
/// breakpoint, `r_base + r_slope1 + r_slope2 * (u - u_optimal) / (1 - u_optimal)`
/// at or above it.
pub open spec fn borrow_rate_of(p: PoolParams, u: int) -> int {
    if u < p.u_optimal {
        p.r_base + p.r_slope1 * u / (p.u_optimal as int)
    } else {
        p.r_base + p.r_slope1 + p.r_slope2 * (u - p.u_optimal) / (BP - p.u_optimal)
    }
}

/// Deposit rate at utilisation `u`: `borrow_rate(u) * u * (1 - reserve_factor)`.
pub open spec fn deposit_rate_of(p: PoolParams, u: int) -> int {
    borrow_rate_of(p, u) * u * (BP - p.reserve_factor) / (BP * BP)
}

/// Interest on `amount` over `elapsed` seconds at a yearly `rate`, rounded down.
pub open spec fn interest_of(amount: int, elapsed: int, rate: int) -> int {
    amount * rate * elapsed / (BP * SECONDS_PER_YEAR)
}

/// Utilisation of a pool that has lent `borrowed` and holds `reserve`.
pub fn compute_capital_utilisation(borrowed: u64, reserve: u64) -> (u: u64)
    ensures
        u == utilisation_of(borrowed as int, reserve as int),
        u <= BP,
{
    let total: u128 = borrowed as u128 + reserve as u128;
    if total == 0 {
        0
    } else {
        let scaled: u128 = borrowed as u128 * BP as u128;
        proof {
            lemma_mul_inequality(borrowed as int, total as int, BP as int);
            lemma_div_is_ordered(borrowed * BP, total * BP, total as int);
            lemma_div_by_multiple(BP as int, total as int);
            lemma_mul_is_commutative(BP as int, total as int);
        }
        (scaled / total) as u64
    }
}

/// The borrow rate of the curve `p` at utilisation `u`.
pub fn compute_borrow_rate(p: &PoolParams, u: u64) -> (r: u64)
    requires
        p.wf(),
        u <= BP,
    ensures
        r == borrow_rate_of(*p, u as int),
        r <= p.r_base + p.r_slope1 + p.r_slope2,
{
    proof {
        lemma_u64_product(p.r_slope1, u);
        lemma_u64_product(p.r_slope2, (u - p.u_optimal) as u64);
    }
    if u < p.u_optimal {
        let part: u128 = p.r_slope1 as u128 * u as u128 / p.u_optimal as u128;
        proof {
            lemma_mul_inequality(u as int, p.u_optimal as int, p.r_slope1 as int);
            lemma_mul_is_commutative(u as int, p.r_slope1 as int);
            lemma_div_is_ordered(p.r_slope1 * u, p.r_slope1 * p.u_optimal, p.u_optimal as int);
            lemma_div_by_multiple(p.r_slope1 as int, p.u_optimal as int);
        }
        p.r_base + part as u64
    } else {
        let span: u128 = (BP - p.u_optimal) as u128;
        let part: u128 = p.r_slope2 as u128 * (u - p.u_optimal) as u128 / span;
        proof {
            lemma_mul_inequality((u - p.u_optimal) as int, span as int, p.r_slope2 as int);
            lemma_mul_is_commutative((u - p.u_optimal) as int, p.r_slope2 as int);
            lemma_div_is_ordered(p.r_slope2 * (u - p.u_optimal), p.r_slope2 * span, span as int);
            lemma_div_by_multiple(p.r_slope2 as int, span as int);
        }
        p.r_base + p.r_slope1 + part as u64
    }
}

/// The deposit rate of the curve `p` at utilisation `u`.
pub fn compute_deposit_rate(p: &PoolParams, u: u64) -> (r: u64)
    requires
        p.wf(),
        u <= BP,
    ensures
        r == deposit_rate_of(*p, u as int),
        r <= borrow_rate_of(*p, u as int),
        r <= MAX_RATE,
{
    let br = compute_borrow_rate(p, u);
    proof {
        lemma_deposit_rate_bounded(*p, u as int);
        lemma_mul_inequality(br as int, MAX_RATE as int, u as int);
        lemma_mul_inequality((br * u) as int, (MAX_RATE * BP) as int, (BP - p.reserve_factor) as int);
        lemma_mul_inequality((BP - p.reserve_factor) as int, BP as int, (MAX_RATE * BP) as int);
    }
    let scaled: u128 = br as u128 * u as u128 * (BP - p.reserve_factor) as u128;
    (scaled / (BP as u128 * BP as u128)) as u64
}

/// Interest accrued on `amount` over `elapsed` seconds at the yearly `rate`,
/// rounded down.
pub fn compute_debt(amount: u64, elapsed: u64, rate: u64) -> (i: u128)
    requires
        rate <= MAX_RATE,
    ensures
        i == interest_of(amount as int, elapsed as int, rate as int),
{
    let d: u128 = 31_556_926_000_000_000;
    assert(d == BP * SECONDS_PER_YEAR);
    proof {
        lemma_mul_inequality(amount as int, u64::MAX as int, rate as int);
        lemma_mul_inequality(rate as int, MAX_RATE as int, u64::MAX as int);
    }
    let x: u128 = amount as u128 * rate as u128;
    let q: u128 = x / d;
    let rem: u128 = x % d;
    proof {
        lemma_fundamental_div_mod(x as int, d as int);
        assert(u64::MAX * MAX_RATE < d * 600_000_000_000_000);
        lemma_multiply_divide_lt(x as int, d as int, 600_000_000_000_000);
        lemma_mul_inequality(q as int, 600_000_000_000_000, elapsed as int);
        lemma_mul_inequality(elapsed as int, u64::MAX as int, 600_000_000_000_000);
        lemma_mul_inequality(rem as int, d as int, elapsed as int);
        lemma_mul_inequality(elapsed as int, u64::MAX as int, d as int);
        lemma_mul_is_commutative(rem as int, elapsed as int);
        lemma_mul_is_commutative(d as int, elapsed as int);
    }
    let whole: u128 = q * elapsed as u128;
    let frac: u128 = rem * elapsed as u128 / d;
    proof {
        lemma_div_is_ordered((rem * elapsed) as int, d * u64::MAX, d as int);
        lemma_div_by_multiple(u64::MAX as int, d as int);
        lemma_mul_is_commutative(d as int, u64::MAX as int);
        lemma_interest_split(x as int, elapsed as int, d as int, q as int, rem as int);
    }
    whole + frac
}

proof fn lemma_u64_product(a: u64, b: u64)
    ensures
        0 <= a * b <= u64::MAX * u64::MAX,
{
    lemma_mul_inequality(a as int, u64::MAX as int, b as int);
    lemma_mul_inequality(b as int, u64::MAX as int, u64::MAX as int);
    lemma_mul_is_commutative(a as int, b as int);
    lemma_mul_is_commutative(b as int, u64::MAX as int);
    lemma_mul_nonnegative(a as int, b as int);
}

/// `(q * d + rem) * e / d == q * e + rem * e / d`.
proof fn lemma_interest_split(x: int, e: int, d: int, q: int, rem: int)
    requires
        d > 0,
        e >= 0,
        x == d * q + rem,
        0 <= rem,
    ensures
        x * e / d == q * e + rem * e / d,
{
    lemma_mul_is_distributive_add_other_way(e, d * q, rem);
    lemma_mul_is_associative(d, q, e);
    lemma_mul_is_commutative(d, q * e);
    lemma_hoist_over_denominator(rem * e, q * e, d as nat);
}

/// The borrow rate never falls as utilisation rises.
pub proof fn lemma_borrow_rate_monotonic(p: PoolParams, u1: int, u2: int)
    requires
        p.wf(),
        0 <= u1 <= u2 <= BP,
    ensures
        borrow_rate_of(p, u1) <= borrow_rate_of(p, u2),
{
    let uo = p.u_optimal as int;
    let span = (BP - p.u_optimal) as int;
    if u2 < uo {
        lemma_mul_inequality(u1, u2, p.r_slope1 as int);
        lemma_mul_is_commutative(u1, p.r_slope1 as int);
        lemma_mul_is_commutative(u2, p.r_slope1 as int);
        lemma_div_is_ordered(p.r_slope1 * u1, p.r_slope1 * u2, uo);
    } else if u1 >= uo {
        lemma_mul_inequality(u1 - uo, u2 - uo, p.r_slope2 as int);
        lemma_mul_is_commutative(u1 - uo, p.r_slope2 as int);
        lemma_mul_is_commutative(u2 - uo, p.r_slope2 as int);
        lemma_div_is_ordered(p.r_slope2 * (u1 - uo), p.r_slope2 * (u2 - uo), span);
    } else {
        lemma_mul_inequality(u1, uo, p.r_slope1 as int);
        lemma_mul_is_commutative(u1, p.r_slope1 as int);
        lemma_div_is_ordered(p.r_slope1 * u1, p.r_slope1 * uo, uo);
        lemma_div_by_multiple(p.r_slope1 as int, uo);
        lemma_mul_nonnegative(p.r_slope2 as int, u2 - uo);
        lemma_div_pos_is_pos(p.r_slope2 * (u2 - uo), span);
    }
}

/// Utilisation lies between 0 and 1.
pub proof fn lemma_utilisation_bounded(borrowed: int, reserve: int)
    requires
        borrowed >= 0,
        reserve >= 0,
    ensures
        0 <= utilisation_of(borrowed, reserve) <= BP,
{
    let total = borrowed + reserve;
    if total != 0 {
        lemma_mul_inequality(borrowed, total, BP as int);
        lemma_mul_nonnegative(borrowed, BP as int);
        lemma_div_is_ordered(borrowed * BP, total * BP, total);
        lemma_div_by_multiple(BP as int, total);
        lemma_mul_is_commutative(BP as int, total);
        lemma_div_pos_is_pos(borrowed * BP, total);
    }
}

/// The borrow rate never exceeds the top of the curve.
pub proof fn lemma_borrow_rate_bounded(p: PoolParams, u: int)
    requires
        p.wf(),
        0 <= u <= BP,
    ensures
        0 <= borrow_rate_of(p, u) <= p.r_base + p.r_slope1 + p.r_slope2,
{
    lemma_borrow_rate_monotonic(p, u, BP as int);
    lemma_borrow_rate_monotonic(p, 0, u);
    lemma_div_by_multiple(p.r_slope2 as int, (BP - p.u_optimal) as int);
    lemma_mul_nonnegative(p.r_slope1 as int, 0);
}

/// The curve has no jump at the breakpoint: the lower segment, carried to
/// `u_optimal`, meets the upper segment's value there, `r_base + r_slope1`.
pub proof fn lemma_borrow_rate_continuous(p: PoolParams)
    requires
        p.wf(),
    ensures
        p.r_base + p.r_slope1 * p.u_optimal / (p.u_optimal as int)
            == borrow_rate_of(p, p.u_optimal as int),
        borrow_rate_of(p, p.u_optimal as int) == p.r_base + p.r_slope1,
{
    lemma_div_by_multiple(p.r_slope1 as int, p.u_optimal as int);
    assert(p.r_slope2 * 0int == 0);
}

/// The deposit rate never exceeds the borrow rate at the same utilisation.
pub proof fn lemma_deposit_rate_bounded(p: PoolParams, u: int)
    requires
        p.wf(),
        0 <= u <= BP,
    ensures
        0 <= deposit_rate_of(p, u) <= borrow_rate_of(p, u),
{
    let br = borrow_rate_of(p, u);
    let f = (BP - p.reserve_factor) as int;
    let b = BP as int;
    lemma_borrow_rate_monotonic(p, 0, u);
    lemma_mul_nonnegative(p.r_slope1 as int, 0);
    lemma_mul_inequality(u, b, br);
    lemma_mul_is_commutative(u, br);
    lemma_mul_is_commutative(b, br);
    lemma_mul_nonnegative(br, u);
    lemma_mul_inequality(f, b, br * u);
    lemma_mul_is_commutative(f, br * u);
    lemma_mul_is_commutative(b, br * u);
    lemma_mul_inequality(br * u, br * b, b);
    lemma_mul_is_associative(br, b, b);
    lemma_mul_nonnegative(br * u, f);
    lemma_div_is_ordered(br * u * f, br * (b * b), b * b);
    lemma_div_by_multiple(br, b * b);
    lemma_div_pos_is_pos(br * u * f, b * b);
}

} // verus!

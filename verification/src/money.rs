//! Amounts of money as whole numbers of ticks.
//!
//! A tick is one ten-thousandth of a dollar, so a price keeps two digits beyond the
//! cent. Prices per share are held in `i64`; sums over many positions in `i128`.

use vstd::prelude::*;

verus! {

/// Number of ticks in one dollar.
pub const TICKS_PER_DOLLAR: i64 = 10_000;

/// The largest price per share the ledger records, in ticks: 100,000 dollars.
pub const MAX_PRICE: i64 = 1_000_000_000;

/// The nearest whole number of cents to `ticks`, in ticks; a half rounds away from zero.
pub open spec fn round_to_cent(ticks: int) -> int {
    if ticks >= 0 {
        ((ticks + 50) / 100) * 100
    } else {
        -(((-ticks + 50) / 100) * 100)
    }
}

/// Rounding moves an amount by at most half a cent, lands on a whole cent, keeps the
/// sign, and leaves whole cents where they are.
pub proof fn lemma_round_to_cent(ticks: int)
    ensures
        round_to_cent(ticks) % 100 == 0,
        -50 <= round_to_cent(ticks) - ticks <= 50,
        ticks % 100 == 0 ==> round_to_cent(ticks) == ticks,
        round_to_cent(round_to_cent(ticks)) == round_to_cent(ticks),
        ticks >= 0 ==> round_to_cent(ticks) >= 0,
        ticks <= 0 ==> round_to_cent(ticks) <= 0,
{
}

/// Rounding never leaves a range whose ends are whole cents.
pub proof fn lemma_round_to_cent_within(ticks: int, bound: int)
    requires
        bound >= 0,
        bound % 100 == 0,
        -bound <= ticks <= bound,
    ensures
        -bound <= round_to_cent(ticks) <= bound,
{
}

/// Rounds an amount in ticks to the nearest whole cent.
pub fn round_ticks_to_cent(ticks: i64) -> (r: i64)
    requires
        -i64::MAX + 50 <= ticks <= i64::MAX - 50,
    ensures
        r == round_to_cent(ticks as int),
{
    if ticks >= 0 {
        ((ticks + 50) / 100) * 100
    } else {
        -(((-ticks + 50) / 100) * 100)
    }
}

/// `numerator / denominator` rounded to the nearest integer; a half rounds away from
/// zero. The denominator is positive.
pub open spec fn div_round(numerator: int, denominator: int) -> int {
    if numerator >= 0 {
        (2 * numerator + denominator) / (2 * denominator)
    } else {
        -((-2 * numerator + denominator) / (2 * denominator))
    }
}

/// A rounded quotient is no larger in size than any whole bound on the exact one.
pub proof fn lemma_div_round_bound(numerator: int, denominator: int, bound: int)
    requires
        denominator > 0,
        bound >= 0,
        -(bound * denominator) <= numerator <= bound * denominator,
    ensures
        -bound <= div_round(numerator, denominator) <= bound,
{
    let d = denominator;
    if numerator >= 0 {
        let n = numerator;
        assert((2 * n + d) / (2 * d) <= bound) by (nonlinear_arith)
            requires
                d > 0,
                bound >= 0,
                0 <= n <= bound * d,
        ;
        assert((2 * n + d) / (2 * d) >= 0) by (nonlinear_arith)
            requires
                d > 0,
                n >= 0,
        ;
    } else {
        let n = -numerator;
        assert(-2 * numerator == 2 * n);
        assert((2 * n + d) / (2 * d) <= bound) by (nonlinear_arith)
            requires
                d > 0,
                bound >= 0,
                0 <= n <= bound * d,
        ;
        assert((2 * n + d) / (2 * d) >= 0) by (nonlinear_arith)
            requires
                d > 0,
                n >= 0,
        ;
    }
}

/// A rounded quotient is at most a half away from the exact one.
pub proof fn lemma_div_round_error(numerator: int, denominator: int)
    requires
        denominator > 0,
    ensures
        -denominator <= 2 * denominator * div_round(numerator, denominator) - 2 * numerator
            <= denominator,
{
    let d = denominator;
    let m = if numerator >= 0 {
        numerator
    } else {
        -numerator
    };
    let q = (2 * m + d) / (2 * d);
    vstd::arithmetic::div_mod::lemma_fundamental_div_mod(2 * m + d, 2 * d);
    let r = (2 * m + d) % (2 * d);
    assert(0 <= r < 2 * d);
    assert(2 * m + d == (2 * d) * q + r);
    assert((2 * d) * q == 2 * d * q) by (nonlinear_arith);
    if numerator >= 0 {
        assert(div_round(numerator, d) == q);
    } else {
        assert(-2 * numerator == 2 * m);
        assert(div_round(numerator, d) == -q);
        assert(2 * d * (-q) == -(2 * d * q)) by (nonlinear_arith);
    }
}

/// `numerator / denominator` rounded to the nearest integer, a half away from zero.
pub fn divide_rounded(numerator: i128, denominator: i128) -> (r: i128)
    requires
        denominator > 0,
        2 * denominator <= i128::MAX,
        -(i128::MAX - denominator) <= 2 * numerator <= i128::MAX - denominator,
    ensures
        r == div_round(numerator as int, denominator as int),
{
    if numerator >= 0 {
        (2 * numerator + denominator) / (2 * denominator)
    } else {
        let size: i128 = -numerator;
        -((2 * size + denominator) / (2 * denominator))
    }
}

} // verus!

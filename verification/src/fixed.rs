//! 16.16 fixed-point scalars and the two integer divisions the
//! renderer needs: floor division (for the transform pipeline and the
//! viewport projection) and round-half-away-from-zero division (for
//! the scanline span boundaries).

use vstd::prelude::*;
use vstd::arithmetic::div_mod::{
    lemma_div_is_ordered, lemma_div_multiples_vanish, lemma_div_multiples_vanish_fancy,
    lemma_div_pos_is_pos,
};

verus! {

/// One unit of the 16.16 fixed-point scale: the integer that stands for 1.0.
pub const FP: i64 = 65536;

/// The integer that stands for 0.5.
pub const HALF: i64 = 32768;

/// `n / d` rounded to the nearest integer, halves away from zero.
/// Meaningful for `d > 0`.
pub open spec fn round_away(n: int, d: int) -> int {
    if n >= 0 {
        (2 * n + d) / (2 * d)
    } else {
        -((2 * (-n) + d) / (2 * d))
    }
}

/// Floor division of `n` by a positive divisor `d`, matching the
/// mathematical `/` of specifications on every sign of `n`.
pub fn div_floor(n: i64, d: i64) -> (q: i64)
    requires
        0 < d <= 0x2000_0000_0000_0000,
        -0x2000_0000_0000_0000 <= n <= 0x2000_0000_0000_0000,
    ensures
        q == n as int / d as int,
{
    if n >= 0 {
        let qq: u64 = (n as u64) / (d as u64);
        qq as i64
    } else {
        let m: u64 = (-n) as u64;
        let du: u64 = d as u64;
        let qq: u64 = (m + du - 1) / du;
        proof {
            lemma_floor_div_negative(-n as int, d as int);
        }
        -(qq as i64)
    }
}

/// For `m > 0`, `d > 0`: `(-m) / d == -((m + d - 1) / d)`, i.e. floor
/// division of a negative numerator is the negated ceiling division of
/// its magnitude.
proof fn lemma_floor_div_negative(m: int, d: int)
    requires
        0 < m,
        0 < d,
    ensures
        (-m) / d == -((m + d - 1) / d),
{
    let q = m / d;
    let r = m % d;
    vstd::arithmetic::div_mod::lemma_fundamental_div_mod(m, d);
    if r == 0 {
        assert(m == d * q);
        assert((-m) / d == -q) by {
            lemma_div_multiples_vanish(-q, d);
            assert(d * (-q) == -(d * q)) by (nonlinear_arith);
        }
        assert((m + d - 1) / d == q) by {
            lemma_div_multiples_vanish_fancy(q, d - 1, d);
        }
    } else {
        assert(m == d * q + r);
        assert((-m) / d == -q - 1) by {
            lemma_div_multiples_vanish_fancy(-q - 1, d - r, d);
            assert(d * (-q - 1) + (d - r) == -(d * q + r)) by (nonlinear_arith);
        }
        assert((m + d - 1) / d == q + 1) by {
            lemma_div_multiples_vanish_fancy(q + 1, r - 1, d);
            assert(d * (q + 1) + (r - 1) == d * q + r + d - 1) by (nonlinear_arith);
        }
    }
}

/// `n / d` rounded half away from zero, for a positive divisor.
pub fn div_round(n: i64, d: i64) -> (q: i64)
    requires
        0 < d <= 0x4000_0000,
        -0x1000_0000_0000_0000 <= n <= 0x1000_0000_0000_0000,
    ensures
        q == round_away(n as int, d as int),
{
    if n >= 0 {
        let qq: u64 = (2 * (n as u64) + (d as u64)) / (2 * (d as u64));
        qq as i64
    } else {
        let m: u64 = (-n) as u64;
        let qq: u64 = (2 * m + (d as u64)) / (2 * (d as u64));
        -(qq as i64)
    }
}

/// Rounding half away from zero is an odd function of the numerator.
pub proof fn lemma_round_away_neg(n: int, d: int)
    requires
        0 < d,
    ensures
        round_away(-n, d) == -round_away(n, d),
{
    if n == 0 {
        assert(round_away(0, d) == d / (2 * d));
        assert(d / (2 * d) == 0) by {
            vstd::arithmetic::div_mod::lemma_basic_div(d, 2 * d);
        }
    }
}

/// Rounding half away from zero never moves the numerator by more
/// than half the divisor, so it is monotone in the numerator.
pub proof fn lemma_round_away_monotone(n1: int, n2: int, d: int)
    requires
        0 < d,
        n1 <= n2,
    ensures
        round_away(n1, d) <= round_away(n2, d),
{
    if n1 >= 0 {
        lemma_div_is_ordered(2 * n1 + d, 2 * n2 + d, 2 * d);
    } else if n2 < 0 {
        lemma_div_is_ordered(2 * (-n2) + d, 2 * (-n1) + d, 2 * d);
    } else {
        lemma_div_pos_is_pos(2 * (-n1) + d, 2 * d);
        lemma_div_pos_is_pos(2 * n2 + d, 2 * d);
    }
}

/// A product of two factors is bounded by the product of their
/// magnitudes.
pub proof fn lemma_mul_abs_bound(a: int, b: int, am: int, bm: int)
    by (nonlinear_arith)
    requires
        -am <= a <= am,
        -bm <= b <= bm,
    ensures
        -(am * bm) <= a * b <= am * bm,
{
}

/// Floor division by a positive divisor is monotone, so a bounded
/// numerator gives a bounded quotient.
pub proof fn lemma_div_range(n: int, d: int, lo: int, hi: int)
    requires
        0 < d,
        lo <= n <= hi,
    ensures
        lo / d <= n / d <= hi / d,
{
    lemma_div_is_ordered(lo, n, d);
    lemma_div_is_ordered(n, hi, d);
}

/// A numerator between `0` and `m * d` rounds to a quotient between
/// `0` and `m`.
pub proof fn lemma_round_away_bound(n: int, d: int, m: int)
    requires
        0 < d,
        0 <= n <= m * d,
    ensures
        0 <= round_away(n, d) <= m,
{
    lemma_div_pos_is_pos(2 * n + d, 2 * d);
    assert(2 * n + d <= (2 * d) * m + d) by (nonlinear_arith)
        requires n <= m * d;
    assert(((2 * d) * m + d) / (2 * d) == m) by {
        lemma_div_multiples_vanish_fancy(m, d, 2 * d);
    }
    lemma_div_is_ordered(2 * n + d, (2 * d) * m + d, 2 * d);
}

} // verus!

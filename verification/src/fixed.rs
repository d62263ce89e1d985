//! Fixed-point numbers: an `i64` counts millionths, and every operation
//! saturates at the ends of the `i64` range.

use vstd::prelude::*;

verus! {

/// A fixed-point number, in millionths.
pub type Fixed = i64;

/// The fixed-point number one.
pub const UNIT: i64 = 1_000_000;

/// The fixed-point number one half.
pub const HALF: i64 = 500_000;

/// The nearest value of the `i64` range.
pub open spec fn sat(x: int) -> int {
    if x < i64::MIN as int {
        i64::MIN as int
    } else if x > i64::MAX as int {
        i64::MAX as int
    } else {
        x
    }
}

/// The quotient of `n` by a positive `d`, rounded toward zero.
pub open spec fn quot_pos(n: int, d: int) -> int
    recommends
        d > 0,
{
    if n >= 0 {
        n / d
    } else {
        -((-n) / d)
    }
}

/// The quotient of `n` by a non-zero `d`, rounded toward zero.
pub open spec fn quot(n: int, d: int) -> int
    recommends
        d != 0,
{
    if d < 0 {
        quot_pos(-n, -d)
    } else {
        quot_pos(n, d)
    }
}

/// The saturating sum.
pub open spec fn sum(a: int, b: int) -> int {
    sat(a + b)
}

/// The saturating difference.
pub open spec fn diff(a: int, b: int) -> int {
    sat(a - b)
}

/// The saturating fixed-point product, rounded toward zero.
pub open spec fn prod(a: int, b: int) -> int {
    sat(quot(a * b, UNIT as int))
}

/// The saturating fixed-point ratio by a non-zero `b`, rounded toward zero.
pub open spec fn ratio(a: int, b: int) -> int
    recommends
        b != 0,
{
    sat(quot(a * UNIT, b))
}

/// The saturating fixed-point ratio of a non-negative `a` by a positive `b`,
/// rounded up.
pub open spec fn ratio_up(a: int, b: int) -> int
    recommends
        a >= 0,
        b > 0,
{
    sat((a * UNIT + b - 1) / b)
}

/// The fixed-point number that stands for a count.
pub open spec fn of_count(n: int) -> int {
    sat(n * UNIT)
}

/// The count a fixed-point number truncates to: its whole part, and zero
/// for a negative number.
pub open spec fn whole(x: int) -> int {
    if x < 0 {
        0
    } else {
        x / (UNIT as int)
    }
}

/// The nearest value of `[0, 1]`.
pub open spec fn unit_clamp(x: int) -> int {
    if x > UNIT {
        UNIT as int
    } else if x < 0 {
        0
    } else {
        x
    }
}

/// The product of two `i64` values fits in an `i128`.
pub proof fn lemma_product_fits(a: int, b: int)
    requires
        i64::MIN <= a <= i64::MAX,
        i64::MIN <= b <= i64::MAX,
    ensures
        -0x4000_0000_0000_0000_0000_0000_0000_0000 <= a * b
            <= 0x4000_0000_0000_0000_0000_0000_0000_0000,
{
    assert(-0x4000_0000_0000_0000_0000_0000_0000_0000 <= a * b
        <= 0x4000_0000_0000_0000_0000_0000_0000_0000) by (nonlinear_arith)
        requires
            -0x8000_0000_0000_0000 <= a <= 0x8000_0000_0000_0000,
            -0x8000_0000_0000_0000 <= b <= 0x8000_0000_0000_0000,
    ;
}

/// The nearest `i64` to a wide integer.
pub fn narrow(x: i128) -> (r: i64)
    ensures
        r as int == sat(x as int),
{
    if x < i64::MIN as i128 {
        i64::MIN
    } else if x > i64::MAX as i128 {
        i64::MAX
    } else {
        x as i64
    }
}

/// Adds two fixed-point numbers.
pub fn fx_add(a: i64, b: i64) -> (r: i64)
    ensures
        r as int == sum(a as int, b as int),
{
    narrow(a as i128 + b as i128)
}

/// Subtracts `b` from `a`.
pub fn fx_sub(a: i64, b: i64) -> (r: i64)
    ensures
        r as int == diff(a as int, b as int),
{
    narrow(a as i128 - b as i128)
}

/// Multiplies two fixed-point numbers.
pub fn fx_mul(a: i64, b: i64) -> (r: i64)
    ensures
        r as int == prod(a as int, b as int),
{
    proof {
        lemma_product_fits(a as int, b as int);
    }
    let wide: i128 = (a as i128) * (b as i128);
    narrow(wide / (UNIT as i128))
}

/// Divides `a` by a non-zero `b`.
pub fn fx_div(a: i64, b: i64) -> (r: i64)
    requires
        b != 0,
    ensures
        r as int == ratio(a as int, b as int),
{
    proof {
        lemma_product_fits(a as int, UNIT as int);
    }
    let wide: i128 = (a as i128) * (UNIT as i128);
    if b > 0 {
        narrow(wide / (b as i128))
    } else {
        narrow((-wide) / (-(b as i128)))
    }
}

/// Divides a non-negative `a` by a positive `b`, rounding up.
pub fn fx_div_up(a: i64, b: i64) -> (r: i64)
    requires
        a >= 0,
        b > 0,
    ensures
        r as int == ratio_up(a as int, b as int),
{
    proof {
        lemma_product_fits(a as int, UNIT as int);
    }
    let wide: i128 = (a as i128) * (UNIT as i128) + (b as i128 - 1);
    narrow(wide / (b as i128))
}

/// The fixed-point number that stands for a count.
pub fn fx_from_count(n: usize) -> (r: i64)
    ensures
        r as int == of_count(n as int),
{
    fx_from_tally(n as u64)
}

/// The fixed-point number that stands for a count of any size.
pub fn fx_from_tally(n: u64) -> (r: i64)
    ensures
        r as int == of_count(n as int),
{
    if n > 9_223_372_036_854 {
        i64::MAX
    } else {
        (n as i64) * UNIT
    }
}

/// The count a fixed-point number truncates to.
pub fn fx_whole(x: i64) -> (r: u64)
    ensures
        r as int == whole(x as int),
{
    if x < 0 {
        0
    } else {
        (x / UNIT) as u64
    }
}

/// Clamps a fixed-point number into `[0, 1]`.
pub fn fx_unit_clamp(x: i64) -> (r: i64)
    ensures
        r as int == unit_clamp(x as int),
{
    if x > UNIT {
        UNIT
    } else if x < 0 {
        0
    } else {
        x
    }
}

} // verus!

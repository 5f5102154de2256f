//! Integer arithmetic that stops at the ends of the range.

use vstd::prelude::*;

verus! {

/// `x`, or the nearest end of the 64-bit range.
pub open spec fn clamp_i64(x: int) -> i64 {
    if x < i64::MIN {
        i64::MIN
    } else if x > i64::MAX {
        i64::MAX
    } else {
        x as i64
    }
}

/// `x`, or the largest 64-bit number.
pub open spec fn clamp_u64(x: int) -> u64 {
    if x > u64::MAX {
        u64::MAX
    } else {
        x as u64
    }
}

/// The larger of the two.
pub open spec fn max_int(a: int, b: int) -> int {
    if a < b {
        b
    } else {
        a
    }
}

/// `x`, or the nearest end of the 64-bit range.
pub fn to_i64(x: i128) -> (r: i64)
    ensures
        r == clamp_i64(x as int),
{
    if x < i64::MIN as i128 {
        i64::MIN
    } else if x > i64::MAX as i128 {
        i64::MAX
    } else {
        x as i64
    }
}

/// `a + b`, stopping at the ends of the range.
pub fn sat_add(a: i64, b: i64) -> (r: i64)
    ensures
        r == clamp_i64(a + b),
{
    to_i64(a as i128 + b as i128)
}

/// `a - b`, stopping at the ends of the range.
pub fn sat_sub(a: i64, b: i64) -> (r: i64)
    ensures
        r == clamp_i64(a - b),
{
    to_i64(a as i128 - b as i128)
}

/// `a`, or zero where it is negative.
pub fn at_least_zero(a: i64) -> (r: i64)
    ensures
        r == max_int(a as int, 0),
{
    if a < 0 {
        0
    } else {
        a
    }
}

/// `a + b`, stopping at the largest number.
pub fn usat_add(a: u64, b: u64) -> (r: u64)
    ensures
        r == clamp_u64(a + b),
{
    if a > u64::MAX - b {
        u64::MAX
    } else {
        a + b
    }
}

/// `a - b`, stopping at zero.
pub fn usat_sub(a: u64, b: u64) -> (r: u64)
    ensures
        r == max_int(a - b, 0),
{
    if a < b {
        0
    } else {
        a - b
    }
}

/// The larger of the two.
pub fn max_u64(a: u64, b: u64) -> (r: u64)
    ensures
        r == max_int(a as int, b as int),
{
    if a < b {
        b
    } else {
        a
    }
}

/// `n`, or the largest number a count can be.
pub open spec fn clamp_usize(n: nat) -> usize {
    if n > usize::MAX {
        usize::MAX
    } else {
        n as usize
    }
}

/// `a + b`, stopping at the largest count.
pub fn count_add(a: usize, b: usize) -> (r: usize)
    ensures
        r == clamp_usize((a + b) as nat),
{
    if a > usize::MAX - b {
        usize::MAX
    } else {
        a + b
    }
}

// ---------------------------------------------------------------------------
// Laws

/// Saturating arithmetic is exact where the result fits, and stops at the
/// nearer end of the range where it does not.
pub proof fn law_saturating_is_exact_within_range(a: i64, b: i64, sum: i64, difference: i64, wide: i128, narrow: i64)
    requires
        call_ensures(sat_add, (a, b), sum),
        call_ensures(sat_sub, (a, b), difference),
        call_ensures(to_i64, (wide,), narrow),
    ensures
        i64::MIN <= a + b <= i64::MAX ==> sum == a + b,
        a + b > i64::MAX ==> sum == i64::MAX,
        a + b < i64::MIN ==> sum == i64::MIN,
        i64::MIN <= a - b <= i64::MAX ==> difference == a - b,
        a - b > i64::MAX ==> difference == i64::MAX,
        a - b < i64::MIN ==> difference == i64::MIN,
        i64::MIN <= wide <= i64::MAX ==> narrow == wide,
        wide > i64::MAX ==> narrow == i64::MAX,
        wide < i64::MIN ==> narrow == i64::MIN,
{
}

/// The same of numbers that have no sign: a difference is never less than
/// none.
pub proof fn law_unsigned_saturating_is_exact_within_range(
    a: u64,
    b: u64,
    sum: u64,
    difference: u64,
    most: u64,
    m: usize,
    n: usize,
    count: usize,
    cents: i64,
    kept: i64,
)
    requires
        call_ensures(usat_add, (a, b), sum),
        call_ensures(usat_sub, (a, b), difference),
        call_ensures(max_u64, (a, b), most),
        call_ensures(count_add, (m, n), count),
        call_ensures(at_least_zero, (cents,), kept),
    ensures
        a + b <= u64::MAX ==> sum == a + b,
        a + b > u64::MAX ==> sum == u64::MAX,
        a >= b ==> difference == a - b,
        a < b ==> difference == 0,
        most >= a && most >= b && (most == a || most == b),
        m + n <= usize::MAX ==> count == m + n,
        m + n > usize::MAX ==> count == usize::MAX,
        cents >= 0 ==> kept == cents,
        cents < 0 ==> kept == 0,
{
}

} // verus!

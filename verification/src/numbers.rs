//! Arithmetic that stays in range.

use vstd::prelude::*;

verus! {

/// `n`, brought into the range of `i64`.
pub open spec fn saturated(n: int) -> int {
    if n > i64::MAX {
        i64::MAX as int
    } else if n < i64::MIN {
        i64::MIN as int
    } else {
        n
    }
}

/// Addition that stays in the range of `i64`.
pub fn add_saturating(a: i64, b: i64) -> (r: i64)
    ensures
        r == saturated(a + b),
{
    match a.checked_add(b) {
        Some(sum) => sum,
        None => if b < 0 {
            i64::MIN
        } else {
            i64::MAX
        },
    }
}

/// A point in time in milliseconds, as far as `i64` reaches.
pub fn milliseconds(seconds: i64) -> (r: i64)
    ensures
        r == saturated(seconds * 1000),
{
    match seconds.checked_mul(1000) {
        Some(ms) => ms,
        None => if seconds < 0 {
            i64::MIN
        } else {
            i64::MAX
        },
    }
}

/// Division by a thousand, towards zero.
pub open spec fn thousandth(n: i64) -> i64 {
    if n >= 0 {
        (n as int / 1000) as i64
    } else {
        (-((-n) / 1000)) as i64
    }
}

/// Milliseconds in whole seconds, cut towards zero.
pub fn whole_seconds(ms: i64) -> (r: i64)
    ensures
        r == thousandth(ms),
{
    ms / 1000
}

/// A count, as far as `u32` reaches.
pub open spec fn counted(n: int) -> int {
    if n > u32::MAX {
        u32::MAX as int
    } else {
        n
    }
}

/// A number is kept where it fits into 64 bits, and is otherwise the nearest
/// that does; a count likewise in 32 bits.
pub proof fn law_nearest_that_fits(n: int)
    ensures
        -0x8000_0000_0000_0000 <= n <= 0x7fff_ffff_ffff_ffff ==> saturated(n) == n,
        n > 0x7fff_ffff_ffff_ffff ==> saturated(n) == 0x7fff_ffff_ffff_ffff,
        n < -0x8000_0000_0000_0000 ==> saturated(n) == -0x8000_0000_0000_0000,
        n <= 0xffff_ffff ==> counted(n) == n,
        n > 0xffff_ffff ==> counted(n) == 0xffff_ffff,
{
}

/// Milliseconds are cut to whole seconds towards zero.
pub proof fn law_whole_seconds(n: i64)
    ensures
        n >= 0 ==> thousandth(n) * 1000 <= n < thousandth(n) * 1000 + 1000,
        n <= 0 ==> thousandth(n) * 1000 - 1000 < n <= thousandth(n) * 1000,
{
}

} // verus!

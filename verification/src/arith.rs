//! Integer division that rounds toward zero, and narrowing to 32 bits.

use vstd::prelude::*;

verus! {

/// The quotient of `a` by a positive `b`, rounded toward zero.
pub open spec fn trunc_div(a: int, b: int) -> int {
    if a >= 0 {
        a / b
    } else {
        -((-a) / b)
    }
}

/// What `trunc_div` leaves over: it has the sign of `a`.
pub open spec fn trunc_rem(a: int, b: int) -> int {
    a - b * trunc_div(a, b)
}

/// The low 32 bits of `x`, read as an unsigned number.
pub open spec fn low_u32(x: int) -> u32 {
    (x % 0x1_0000_0000) as u32
}

/// The low 32 bits of `x`, read as two's complement.
pub open spec fn low_i32(x: int) -> i32 {
    let m = x % 0x1_0000_0000;
    if m >= 0x8000_0000 {
        (m - 0x1_0000_0000) as i32
    } else {
        m as i32
    }
}

/// The low 32 bits of `x`, read as an unsigned number.
pub fn narrow_u32(x: i64) -> (r: u32)
    ensures
        r == low_u32(x as int),
{
    let m: i64 = x % 0x1_0000_0000;
    if m < 0 {
        (m + 0x1_0000_0000) as u32
    } else {
        m as u32
    }
}

/// The low 32 bits of `x`, read as two's complement.
pub fn narrow_i32(x: u64) -> (r: i32)
    ensures
        r == low_i32(x as int),
{
    let m: u64 = x % 0x1_0000_0000;
    if m >= 0x8000_0000 {
        (m as i64 - 0x1_0000_0000) as i32
    } else {
        m as i32
    }
}

} // verus!

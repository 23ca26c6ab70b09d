//! Bit and saturating integer helpers with their mathematical meaning stated.

use vstd::prelude::*;

verus! {

/// Number of set bits of `x`.
pub open spec fn popcount(x: u64) -> nat
    decreases x,
{
    if x == 0 {
        0
    } else {
        proof {
            assert(x != 0 ==> x >> 1u64 < x) by (bit_vector);
        }
        ((x & 1) as nat) + popcount(x >> 1u64)
    }
}

/// Counts the set bits of `x`.
pub fn count_ones_u64(x: u64) -> (c: u32)
    ensures
        c == popcount(x),
        c <= 64,
{
    let mut v: u64 = x;
    let mut c: u32 = 0;
    let mut steps: u64 = 0;
    assert(x <= (0xffff_ffff_ffff_ffffu64 >> 0u64)) by (bit_vector);
    while v != 0
        invariant
            c + popcount(v) == popcount(x),
            steps <= 64,
            c <= steps,
            steps < 64 ==> v <= (0xffff_ffff_ffff_ffffu64 >> steps),
            steps == 64 ==> v == 0,
        decreases v,
    {
        assert(v != 0 ==> v >> 1u64 < v) by (bit_vector);
        assert((v & 1) <= 1) by (bit_vector);
        assert(v != 0 && steps < 64 && v <= (0xffff_ffff_ffff_ffffu64 >> steps) ==> (steps + 1
            < 64 ==> (v >> 1u64) <= (0xffff_ffff_ffff_ffffu64 >> ((steps + 1) as u64))) && (steps + 1
            == 64 ==> (v >> 1u64) == 0)) by (bit_vector);
        let bit: u32 = (v & 1) as u32;
        c = c + bit;
        v = v >> 1;
        steps = steps + 1;
    }
    c
}

/// `x` rotated left by `k` bits.
pub open spec fn rotl64(x: u64, k: u32) -> u64 {
    if k % 64 == 0 {
        x
    } else {
        (x << ((k % 64) as u64)) | (x >> ((64 - k % 64) as u64))
    }
}

/// Rotates `x` left by `k` bits.
pub fn rotate_left_u64(x: u64, k: u32) -> (r: u64)
    ensures
        r == rotl64(x, k),
{
    let s: u32 = k % 64;
    if s == 0 {
        x
    } else {
        (x << (s as u64)) | (x >> ((64 - s) as u64))
    }
}

/// `a * b`, saturated at `u32::MAX`.
pub open spec fn sat_mul_u32(a: u32, b: u32) -> u32 {
    if a * b > u32::MAX {
        u32::MAX
    } else {
        (a * b) as u32
    }
}

/// Multiplies, saturating at `u32::MAX`.
pub fn saturating_mul_u32(a: u32, b: u32) -> (r: u32)
    ensures
        r == sat_mul_u32(a, b),
{
    match a.checked_mul(b) {
        Some(v) => v,
        None => u32::MAX,
    }
}

/// `a + b`, saturated at `u32::MAX`.
pub open spec fn sat_add_u32(a: u32, b: u32) -> u32 {
    if a + b > u32::MAX {
        u32::MAX
    } else {
        (a + b) as u32
    }
}

/// `a - b`, saturated at zero.
pub open spec fn sat_sub_u32(a: u32, b: u32) -> u32 {
    if a < b {
        0
    } else {
        (a - b) as u32
    }
}

/// `a + b`, saturated at `u64::MAX`.
pub open spec fn sat_add_u64(a: u64, b: u64) -> u64 {
    if a + b > u64::MAX {
        u64::MAX
    } else {
        (a + b) as u64
    }
}

/// `a - b`, saturated at zero.
pub open spec fn sat_sub_u64(a: u64, b: u64) -> u64 {
    if a < b {
        0
    } else {
        (a - b) as u64
    }
}

pub open spec fn min_u32(a: u32, b: u32) -> u32 {
    if a <= b {
        a
    } else {
        b
    }
}

pub open spec fn max_u32(a: u32, b: u32) -> u32 {
    if a >= b {
        a
    } else {
        b
    }
}

} // verus!

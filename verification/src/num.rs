//! Fixed-width integer arithmetic as mathematical functions: wrapping,
//! two's-complement reinterpretation, and truncating division.
//!
//! The decode recipes reinterpret unsigned bit patterns as signed values and
//! perform arithmetic that the on-disk format documents as wrapping, so the
//! contracts throughout the crate are phrased over these spec functions.
use vstd::prelude::*;

verus! {

use vstd::arithmetic::div_mod::{
    lemma_add_mod_noop_right,
    lemma_div_is_ordered,
    lemma_div_is_ordered_by_denominator,
    lemma_mod_add_multiples_vanish,
    lemma_mod_bound,
    lemma_mod_mod,
    lemma_mod_multiples_vanish,
    lemma_small_mod,
};

/// The value of the low 64 bits of `x`, read as a two's-complement `i64`.
pub open spec fn wrap64(x: int) -> int {
    let r = x % 0x1_0000_0000_0000_0000;
    if r >= 0x8000_0000_0000_0000 {
        r - 0x1_0000_0000_0000_0000
    } else {
        r
    }
}

/// An unsigned 64-bit value reinterpreted as a two's-complement `i64`.
pub open spec fn signed64(n: int) -> int {
    if n >= 0x8000_0000_0000_0000 {
        n - 0x1_0000_0000_0000_0000
    } else {
        n
    }
}

/// An unsigned 32-bit value reinterpreted as a two's-complement `i32`.
pub open spec fn signed32(n: int) -> int {
    if n >= 0x8000_0000 {
        n - 0x1_0000_0000
    } else {
        n
    }
}

/// An unsigned 128-bit value reinterpreted as a two's-complement `i128`.
pub open spec fn signed128(n: int) -> int {
    if n >= 0x8000_0000_0000_0000_0000_0000_0000_0000 {
        n - 0x1_0000_0000_0000_0000_0000_0000_0000_0000
    } else {
        n
    }
}

/// An unsigned 16-bit value reinterpreted as a two's-complement `i16`.
pub open spec fn signed16(n: int) -> int {
    if n >= 0x8000 {
        n - 0x1_0000
    } else {
        n
    }
}

/// An unsigned 8-bit value reinterpreted as a two's-complement `i8`.
pub open spec fn signed8(n: int) -> int {
    if n >= 0x80 {
        n - 0x100
    } else {
        n
    }
}

/// What an `as u8` cast of any integer yields.
pub open spec fn as_u8(x: int) -> int {
    x % 0x100
}

/// What an `as u16` cast of any integer yields.
pub open spec fn as_u16(x: int) -> int {
    x % 0x1_0000
}

/// What an `as u32` cast of any integer yields.
pub open spec fn as_u32(x: int) -> int {
    x % 0x1_0000_0000
}

/// What an `as u64` cast of any integer yields.
pub open spec fn as_u64(x: int) -> int {
    x % 0x1_0000_0000_0000_0000
}

/// What an `as i8` cast of any integer yields.
pub open spec fn as_i8(x: int) -> int {
    signed8(as_u8(x))
}

/// What an `as i16` cast of any integer yields.
pub open spec fn as_i16(x: int) -> int {
    signed16(as_u16(x))
}

/// Truncating (round-toward-zero) division, as `/` behaves on `i64`;
/// it agrees with euclidean division for a nonnegative dividend.
pub open spec fn div_trunc(a: int, b: int) -> int
    recommends
        b > 0,
{
    if a >= 0 {
        a / b
    } else {
        -((-a) / b)
    }
}

/// A value already in `i64` range is unchanged by wrapping.
pub proof fn lemma_wrap64_small(x: int)
    requires
        -0x8000_0000_0000_0000 <= x < 0x8000_0000_0000_0000,
    ensures
        wrap64(x) == x,
{
    let m = 0x1_0000_0000_0000_0000int;
    if x >= 0 {
        lemma_small_mod(x as nat, m as nat);
    } else {
        lemma_mod_add_multiples_vanish(x, m);
        lemma_small_mod((x + m) as nat, m as nat);
    }
}

/// Wrapping an addend before the sum does not change the wrapped sum.
pub proof fn lemma_wrap64_add(a: int, b: int)
    ensures
        wrap64(wrap64(a) + b) == wrap64(a + b),
{
    let m = 0x1_0000_0000_0000_0000int;
    let r = a % m;
    lemma_mod_bound(a, m);
    if wrap64(a) == r {
        lemma_add_mod_noop_right(b, a, m);
        assert((b + a % m) % m == (b + a) % m);
        assert(wrap64(a) + b == b + a % m);
        assert(a + b == b + a);
    } else {
        // wrap64(a) == r - m
        lemma_mod_multiples_vanish(-1, r + b, m);
        assert(m * -1 + (r + b) == wrap64(a) + b);
        lemma_add_mod_noop_right(b, a, m);
    }
}

/// Reinterprets a `u64` bit pattern as the `i64` with the same bits.
pub fn signed_from_u64(x: u64) -> (r: i64)
    ensures
        r as int == signed64(x as int),
{
    if x >= 0x8000_0000_0000_0000 {
        let d: u64 = x - 0x8000_0000_0000_0000;
        i64::MIN + (d as i64)
    } else {
        x as i64
    }
}

/// Reinterprets a `u32` bit pattern as the `i32` with the same bits.
pub fn signed_from_u32(x: u32) -> (r: i32)
    ensures
        r as int == signed32(x as int),
{
    if x >= 0x8000_0000 {
        let d: u32 = x - 0x8000_0000;
        i32::MIN + (d as i32)
    } else {
        x as i32
    }
}

/// Reinterprets a `u128` bit pattern as the `i128` with the same bits.
pub fn signed_from_u128(x: u128) -> (r: i128)
    ensures
        r as int == signed128(x as int),
{
    if x >= 0x8000_0000_0000_0000_0000_0000_0000_0000 {
        let d: u128 = x - 0x8000_0000_0000_0000_0000_0000_0000_0000;
        i128::MIN + (d as i128)
    } else {
        x as i128
    }
}

/// Reinterprets an `i64` as the `u64` with the same bits.
pub fn unsigned_from_i64(x: i64) -> (r: u64)
    ensures
        r as int == as_u64(x as int),
{
    proof {
        let m = 0x1_0000_0000_0000_0000int;
        if x < 0 {
            lemma_mod_add_multiples_vanish(x as int, m);
            lemma_small_mod((x + m) as nat, m as nat);
        } else {
            lemma_small_mod(x as nat, m as nat);
        }
    }
    if x >= 0 {
        x as u64
    } else {
        let d: i64 = -(x + 1);
        u64::MAX - (d as u64)
    }
}

/// Reinterprets an `i32` as the `u32` with the same bits.
pub fn unsigned_from_i32(x: i32) -> (r: u32)
    ensures
        r as int == as_u32(x as int),
{
    proof {
        let m = 0x1_0000_0000int;
        if x < 0 {
            lemma_mod_add_multiples_vanish(x as int, m);
            lemma_small_mod((x + m) as nat, m as nat);
        } else {
            lemma_small_mod(x as nat, m as nat);
        }
    }
    if x >= 0 {
        x as u32
    } else {
        let d: i32 = -(x + 1);
        u32::MAX - (d as u32)
    }
}

/// Truncating division on `i64`, defined for every dividend when the divisor
/// is positive.
pub fn div_trunc_i64(a: i64, b: i64) -> (r: i64)
    requires
        b > 0,
    ensures
        r as int == div_trunc(a as int, b as int),
{
    if a >= 0 {
        proof {
            lemma_div_is_ordered(a as int, i64::MAX as int, b as int);
            vstd::arithmetic::div_mod::lemma_div_pos_is_pos(a as int, b as int);
            lemma_div_is_ordered(0, a as int, b as int);
        }
        let r: i64 = a / b;
        assert(r as int == div_trunc(a as int, b as int));
        r
    } else if a == i64::MIN {
        if b == 1 {
            assert(div_trunc(a as int, b as int) == a as int) by {
                vstd::arithmetic::div_mod::lemma_div_basics(-(a as int));
            };
            a
        } else {
            let nu: u64 = 0x8000_0000_0000_0000;
            let q: u64 = nu / (b as u64);
            proof {
                lemma_div_is_ordered_by_denominator(nu as int, 2, b as int);
                vstd::arithmetic::div_mod::lemma_div_pos_is_pos(nu as int, b as int);
            }
            let r: i64 = -(q as i64);
            assert(r as int == div_trunc(a as int, b as int));
            r
        }
    } else {
        let neg: i64 = -a;
        proof {
            lemma_div_is_ordered(neg as int, i64::MAX as int, b as int);
            vstd::arithmetic::div_mod::lemma_div_pos_is_pos(neg as int, b as int);
            lemma_div_is_ordered(0, neg as int, b as int);
        }
        let r: i64 = -(neg / b);
        assert(r as int == div_trunc(a as int, b as int));
        r
    }
}

} // verus!

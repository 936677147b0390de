//! Per-value transcoders for the multi-step decode recipes: big-endian
//! sign-extended extraction into 128- and 256-bit integers, little-endian
//! field readers, the legacy 12-byte interval layout, and half-precision
//! float widening.
use vstd::prelude::*;

verus! {

use crate::bytes::{
    be_sint,
    be_uint,
    le_uint,
    lemma_be_sint_range,
    lemma_be_sint_take_step,
    lemma_be_uint_bounds,
    lemma_be_uint_split,
    lemma_be_uint_take_step,
    lemma_le_uint_bounds,
    lemma_le_uint_skip_step,
    lemma_pow256_mul,
    lemma_pow256_pos,
    lemma_pow256_values,
    pow256,
};
use vstd::arithmetic::power2::pow2;
use crate::num::{signed128, signed32, signed64, signed_from_u128, signed_from_u32, signed_from_u64};

/// A 256-bit signed integer as two limbs: `value == hi * 2^128 + lo`.
#[derive(Clone, Copy, Debug, PartialEq, Eq, Structural)]
pub struct I256 {
    pub hi: i128,
    pub lo: u128,
}

impl I256 {
    /// The mathematical value of the two limbs.
    pub open spec fn value(self) -> int {
        self.hi * 0x1_0000_0000_0000_0000_0000_0000_0000_0000 + self.lo
    }
}

/// A day-time interval: whole days plus milliseconds, as the in-memory
/// layout keeps them.
#[derive(Clone, Copy, Debug, PartialEq, Eq, Structural)]
pub struct DaysMs {
    pub days: i32,
    pub milliseconds: i32,
}

/// The little-endian two's-complement `i32` reading of a 4-byte field.
pub open spec fn le_i32(s: Seq<u8>) -> int {
    signed32(le_uint(s))
}

/// The little-endian two's-complement `i64` reading of an 8-byte field.
pub open spec fn le_i64(s: Seq<u8>) -> int {
    signed64(le_uint(s))
}

/// The little-endian two's-complement `i128` reading of a 16-byte field.
pub open spec fn le_i128(s: Seq<u8>) -> int {
    signed128(le_uint(s))
}

/// Sign-extends an `i128` to the 256-bit limb representation.
pub fn i256_from_i128(x: i128) -> (r: I256)
    ensures
        r.value() == x as int,
        r == i256_of_i128(x),
{
    if x >= 0 {
        I256 { hi: 0, lo: x as u128 }
    } else {
        let d: i128 = -(x + 1);
        I256 { hi: -1, lo: u128::MAX - (d as u128) }
    }
}

/// Reads `len <= 16` bytes at `off` as a little-endian unsigned integer.
#[verifier::loop_isolation(false)]
pub fn read_le_uint(buf: &[u8], off: usize, len: usize) -> (r: u128)
    requires
        off + len <= buf@.len(),
        len <= 16,
    ensures
        r as int == le_uint(buf@.subrange(off as int, (off + len) as int)),
{
    let ghost sub = buf@.subrange(off as int, (off + len) as int);
    let buf_len: usize = buf.len();
    proof {
        lemma_pow256_values();
    }
    let mut acc: u128 = 0;
    let mut j: usize = len;
    while j > 0
        invariant
            j <= len,
            len <= 16,
            off + len <= buf@.len(),
            sub == buf@.subrange(off as int, (off + len) as int),
            acc as int == le_uint(sub.skip(j as int)),
            pow256(16) == 0x1_0000_0000_0000_0000_0000_0000_0000_0000,
        decreases j,
    {
        proof {
            lemma_le_uint_bounds(sub.skip(j as int - 1));
            lemma_le_uint_skip_step(sub, j as int - 1);
            lemma_pow256_pos((16 - (len - j + 1)) as nat);
            lemma_pow256_mul((len - j + 1) as nat, (16 - (len - j + 1)) as nat);
            assert(pow256((len - j + 1) as nat) * pow256((16 - (len - j + 1)) as nat) == pow256(
                16,
            ));
            assert(pow256((len - j + 1) as nat) <= pow256(16)) by (nonlinear_arith)
                requires
                    pow256((len - j + 1) as nat) * pow256((16 - (len - j + 1)) as nat) == pow256(
                        16,
                    ),
                    pow256((16 - (len - j + 1)) as nat) >= 1,
                    pow256((len - j + 1) as nat) >= 0,
            ;
            lemma_pow256_pos((len - j + 1) as nat);
        }
        j = j - 1;
        let b: u8 = buf[off + j];
        proof {
            assert(sub.skip(j as int)[0] == sub[j as int]);
            assert(sub[j as int] == buf@[(off + j) as int]);
        }
        acc = acc * 256 + (b as u128);
    }
    proof {
        assert(sub.skip(0) =~= sub);
    }
    acc
}

/// Reads a 4-byte little-endian field at `off` as an `i32`.
pub fn read_le_i32(buf: &[u8], off: usize) -> (r: i32)
    requires
        off + 4 <= buf@.len(),
    ensures
        r as int == le_i32(buf@.subrange(off as int, off + 4)),
{
    let v: u128 = read_le_uint(buf, off, 4);
    proof {
        lemma_le_uint_bounds(buf@.subrange(off as int, off + 4));
        lemma_pow256_values();
    }
    signed_from_u32(v as u32)
}

/// Reads a 4-byte little-endian field at `off` as a `u32` bit pattern.
pub fn read_le_u32(buf: &[u8], off: usize) -> (r: u32)
    requires
        off + 4 <= buf@.len(),
    ensures
        r as int == le_uint(buf@.subrange(off as int, off + 4)),
{
    let v: u128 = read_le_uint(buf, off, 4);
    proof {
        lemma_le_uint_bounds(buf@.subrange(off as int, off + 4));
        lemma_pow256_values();
    }
    v as u32
}

/// Reads an 8-byte little-endian field at `off` as an `i64`.
pub fn read_le_i64(buf: &[u8], off: usize) -> (r: i64)
    requires
        off + 8 <= buf@.len(),
    ensures
        r as int == le_i64(buf@.subrange(off as int, off + 8)),
{
    let v: u128 = read_le_uint(buf, off, 8);
    proof {
        lemma_le_uint_bounds(buf@.subrange(off as int, off + 8));
        lemma_pow256_values();
    }
    signed_from_u64(v as u64)
}

/// Reads an 8-byte little-endian field at `off` as a `u64` bit pattern.
pub fn read_le_u64(buf: &[u8], off: usize) -> (r: u64)
    requires
        off + 8 <= buf@.len(),
    ensures
        r as int == le_uint(buf@.subrange(off as int, off + 8)),
{
    let v: u128 = read_le_uint(buf, off, 8);
    proof {
        lemma_le_uint_bounds(buf@.subrange(off as int, off + 8));
        lemma_pow256_values();
    }
    v as u64
}

/// The first `n` bytes of a fixed-length field read as a big-endian
/// two's-complement integer, sign-extended to 128 bits.
#[verifier::loop_isolation(false)]
pub fn convert_i128(value: &[u8], n: usize) -> (r: i128)
    requires
        value@.len() == n,
        n <= 16,
    ensures
        r as int == be_sint(value@),
{
    proof {
        lemma_pow256_values();
    }
    if n == 0 {
        return 0;
    }
    let mut acc: i128 = if value[0] >= 0x80 {
        -1
    } else {
        0
    };
    let mut j: usize = 0;
    while j < n
        invariant
            j <= n,
            n <= 16,
            value@.len() == n,
            n >= 1,
            pow256(16) == 0x1_0000_0000_0000_0000_0000_0000_0000_0000,
            j >= 1 ==> acc as int == be_sint(value@.take(j as int)),
            j == 0 ==> acc as int == (if value@[0] >= 0x80 {
                -1int
            } else {
                0int
            }),
        decreases n - j,
    {
        let b: u8 = value[j];
        proof {
            if j >= 1 {
                lemma_be_sint_take_step(value@, j as int);
                lemma_be_sint_range(value@.take(j as int));
                lemma_be_sint_range(value@.take(j as int + 1));
                lemma_pow256_pos((16 - (j + 1)) as nat);
                lemma_pow256_mul((j + 1) as nat, (16 - (j + 1)) as nat);
                assert(pow256((j + 1) as nat) <= pow256(16)) by (nonlinear_arith)
                    requires
                        pow256((j + 1) as nat) * pow256((16 - (j + 1)) as nat) == pow256(16),
                        pow256((16 - (j + 1)) as nat) >= 1,
                        pow256((j + 1) as nat) >= 0,
                ;
                assert(value@.take(j as int)[0] == value@[0]);
                assert(value@.take(j as int + 1)[0] == value@[0]);
            } else {
                let t1 = value@.take(1);
                assert(t1.drop_last() =~= Seq::<u8>::empty());
                assert(t1.last() == value@[0]);
                assert(be_uint(Seq::<u8>::empty()) == 0);
                assert(be_uint(t1) == value@[0]);
                assert(t1[0] == value@[0]);
            }
        }
        acc = acc * 256 + (b as i128);
        j = j + 1;
    }
    proof {
        assert(value@.take(n as int) =~= value@);
    }
    acc
}

/// The first 16 bytes of a fixed-length field read as a big-endian unsigned
/// integer (an intermediate limb for 256-bit extraction).
#[verifier::loop_isolation(false)]
fn read_be_u128_at(buf: &[u8], off: usize) -> (r: u128)
    requires
        off + 16 <= buf@.len(),
    ensures
        r as int == be_uint(buf@.subrange(off as int, off + 16)),
{
    let ghost sub = buf@.subrange(off as int, off + 16);
    let buf_len: usize = buf.len();
    proof {
        lemma_pow256_values();
    }
    let mut acc: u128 = 0;
    let mut j: usize = 0;
    while j < 16
        invariant
            j <= 16,
            off + 16 <= buf@.len(),
            sub == buf@.subrange(off as int, off + 16),
            acc as int == be_uint(sub.take(j as int)),
            pow256(16) == 0x1_0000_0000_0000_0000_0000_0000_0000_0000,
        decreases 16 - j,
    {
        let b: u8 = buf[off + j];
        proof {
            lemma_be_uint_take_step(sub, j as int);
            lemma_be_uint_bounds(sub.take(j as int));
            lemma_be_uint_bounds(sub.take(j as int + 1));
            lemma_pow256_pos((16 - (j + 1)) as nat);
            lemma_pow256_mul((j + 1) as nat, (16 - (j + 1)) as nat);
            assert(pow256((j + 1) as nat) <= pow256(16)) by (nonlinear_arith)
                requires
                    pow256((j + 1) as nat) * pow256((16 - (j + 1)) as nat) == pow256(16),
                    pow256((16 - (j + 1)) as nat) >= 1,
                    pow256((j + 1) as nat) >= 0,
            ;
            assert(sub[j as int] == buf@[(off + j) as int]);
        }
        acc = acc * 256 + (b as u128);
        j = j + 1;
    }
    proof {
        assert(sub.take(16) =~= sub);
    }
    acc
}

/// A fixed-length field of up to 32 bytes read as a big-endian
/// two's-complement integer, sign-extended to 256 bits.
pub fn convert_i256(value: &[u8]) -> (r: I256)
    requires
        value@.len() <= 32,
    ensures
        r.value() == be_sint(value@),
{
    let n: usize = value.len();
    if n <= 16 {
        let x: i128 = convert_i128(value, n);
        i256_from_i128(x)
    } else {
        let k: usize = n - 16;
        let hi: i128 = convert_i128(&value[0..k], k);
        let lo: u128 = read_be_u128_at(value, k);
        proof {
            let s = value@;
            assert(s.subrange(0, k as int) =~= s.take(k as int));
            assert(s.subrange(k as int, k as int + 16) =~= s.skip(k as int));
            lemma_be_uint_split(s, k as int);
            lemma_pow256_values();
            lemma_pow256_mul(k as nat, 16);
            // The sign term of the whole field is the sign term of the high
            // limb, shifted by the low limb's width.
            assert(pow256(s.len()) == pow256(k as nat)
                * 0x1_0000_0000_0000_0000_0000_0000_0000_0000);
            assert(s[0] == s.take(k as int)[0]);
            if s[0] >= 0x80 {
                assert((be_uint(s.take(k as int)) - pow256(k as nat))
                    * 0x1_0000_0000_0000_0000_0000_0000_0000_0000 == be_uint(s.take(k as int))
                    * 0x1_0000_0000_0000_0000_0000_0000_0000_0000 - pow256(k as nat)
                    * 0x1_0000_0000_0000_0000_0000_0000_0000_0000) by (nonlinear_arith);
            }
        }
        I256 { hi, lo }
    }
}

/// The months count of a 12-byte year-month interval field: its first four
/// bytes, little-endian.
pub fn convert_year_month(value: &[u8]) -> (r: i32)
    requires
        value@.len() == 12,
    ensures
        r as int == le_i32(value@.subrange(0, 4)),
{
    read_le_i32(value, 0)
}

/// The (days, milliseconds) pair of a 12-byte day-time interval field:
/// bytes 4..8 and 8..12, little-endian; the leading four bytes are the
/// unused months word of the legacy layout.
pub fn convert_days_ms(value: &[u8]) -> (r: DaysMs)
    requires
        value@.len() == 12,
    ensures
        r.days as int == le_i32(value@.subrange(4, 8)),
        r.milliseconds as int == le_i32(value@.subrange(8, 12)),
{
    let days: i32 = read_le_i32(value, 4);
    let milliseconds: i32 = read_le_i32(value, 8);
    DaysMs { days, milliseconds }
}

/// A 16-byte field reinterpreted in place as an `i128`: the little-endian
/// in-memory layout read back whole.
pub fn convert_i128_le(value: &[u8]) -> (r: i128)
    requires
        value@.len() == 16,
    ensures
        r as int == le_i128(value@),
{
    let v: u128 = read_le_uint(value, 0, 16);
    proof {
        assert(value@.subrange(0, 16) =~= value@);
        lemma_le_uint_bounds(value@);
        lemma_pow256_values();
    }
    signed_from_u128(v)
}


/// Normalizes a half-precision subnormal mantissa: doubles `m` until its
/// eleventh bit is set, lowering the exponent alongside; returns the
/// remaining 10-bit mantissa and the exponent.
pub open spec fn f16_norm(m: int, e: int) -> (int, int)
    decreases (if m >= 0x400 { 0int } else { 0x400 - m })
        when 1 <= m
{
    if m >= 0x400 {
        (m - 0x400, e)
    } else {
        f16_norm(2 * m, e - 1)
    }
}

/// The 32-bit float bit pattern a half-precision bit pattern widens to:
/// sign preserved, exponent rebased from excess-15 to excess-127, mantissa
/// shifted up 13 bits; subnormals are normalized, infinities and NaNs map to
/// the all-ones exponent with the payload kept.
pub open spec fn f16_widen(bits: u16) -> int {
    let s = bits / 0x8000;
    let e = (bits / 0x400) % 0x20;
    let f = bits % 0x400;
    if e == 0 && f == 0 {
        s * 0x8000_0000
    } else if e == 0 {
        let p = f16_norm(f as int, 113);
        s * 0x8000_0000 + p.1 * 0x80_0000 + p.0 * 0x2000
    } else if e == 0x1F {
        s * 0x8000_0000 + 0xFF * 0x80_0000 + f * 0x2000
    } else {
        s * 0x8000_0000 + (e + 112) * 0x80_0000 + f * 0x2000
    }
}

/// The widening of a 2-byte little-endian half-precision field.
pub open spec fn f16_widen_bytes(s: Seq<u8>) -> int {
    f16_widen(le_uint(s) as u16)
}

/// Widens a half-precision bit pattern to the 32-bit float bit pattern with
/// the same value (exact: every binary16 value is a binary32 value).
#[verifier::loop_isolation(false)]
pub fn f16_to_f32_bits(bits: u16) -> (r: u32)
    ensures
        r as int == f16_widen(bits),
{
    let s: u32 = (bits / 0x8000) as u32;
    let e: u32 = ((bits / 0x400) % 0x20) as u32;
    let f: u32 = (bits % 0x400) as u32;
    if e == 0 && f == 0 {
        s * 0x8000_0000
    } else if e == 0 {
        let mut m: u32 = f;
        let mut ex: u32 = 113;
        proof {
            vstd::arithmetic::power2::lemma2_to64();
            assert(m as int == f as int * pow2(0));
        }
        while m < 0x400
            invariant
                1 <= m < 0x800,
                103 <= ex <= 113,
                f16_norm(f as int, 113) == f16_norm(m as int, ex as int),
                m as int == f as int * pow2((113 - ex) as nat),
            decreases (if m >= 0x400 { 0int } else { 0x400 - m }),
        {
            proof {
                let k = (113 - ex) as nat;
                assert(pow2(k) <= m as int) by (nonlinear_arith)
                    requires
                        m as int == f as int * pow2(k),
                        f >= 1,
                        pow2(k) >= 0,
                ;
                if ex <= 103 {
                    vstd::arithmetic::power2::lemma_pow2_strictly_increases(9, k);
                    assert(false);
                }
                vstd::arithmetic::power2::lemma_pow2_unfold((114 - ex) as nat);
                assert(2 * (f as int * pow2(k)) == f as int * (2 * pow2(k))) by (nonlinear_arith);
            }
            m = m * 2;
            ex = ex - 1;
        }
        s * 0x8000_0000 + ex * 0x80_0000 + (m - 0x400) * 0x2000
    } else if e == 0x1F {
        s * 0x8000_0000 + 0xFF * 0x80_0000 + f * 0x2000
    } else {
        s * 0x8000_0000 + (e + 112) * 0x80_0000 + f * 0x2000
    }
}

/// Widens the half-precision value held by a 2-byte little-endian field.
pub fn convert_f16(value: &[u8]) -> (r: u32)
    requires
        value@.len() == 2,
    ensures
        r as int == f16_widen_bytes(value@),
{
    let bits: u16 = (value[0] as u16) + 0x100 * (value[1] as u16);
    proof {
        let s = value@;
        assert(s.drop_first() =~= seq![s[1]]);
        assert(s.drop_first().drop_first() =~= Seq::<u8>::empty());
        assert(le_uint(Seq::<u8>::empty()) == 0);
        assert(le_uint(s.drop_first()) == s[1]);
        assert(le_uint(s) == s[0] + 256 * s[1]);
    }
    f16_to_f32_bits(bits)
}


/// The 256-bit limb pair a 128-bit value sign-extends to.
pub open spec fn i256_of_i128(x: i128) -> I256 {
    if x >= 0 {
        I256 { hi: 0, lo: x as u128 }
    } else {
        I256 { hi: -1i128, lo: (x + 0x1_0000_0000_0000_0000_0000_0000_0000_0000int) as u128 }
    }
}

/// The 256-bit limb pair of any value in 256-bit signed range.
pub open spec fn i256_of_int(x: int) -> I256 {
    I256 {
        hi: (x / 0x1_0000_0000_0000_0000_0000_0000_0000_0000int) as i128,
        lo: (x % 0x1_0000_0000_0000_0000_0000_0000_0000_0000int) as u128,
    }
}

/// Two limb pairs with the same value are the same pair.
pub proof fn lemma_i256_unique(a: I256, b: I256)
    requires
        a.value() == b.value(),
    ensures
        a == b,
{
    let m = 0x1_0000_0000_0000_0000_0000_0000_0000_0000int;
    vstd::arithmetic::div_mod::lemma_fundamental_div_mod_converse(
        a.value(),
        m,
        a.hi as int,
        a.lo as int,
    );
    vstd::arithmetic::div_mod::lemma_fundamental_div_mod_converse(
        b.value(),
        m,
        b.hi as int,
        b.lo as int,
    );
}

/// A value in 256-bit signed range reads back from its limb pair.
pub proof fn lemma_i256_of_int_value(x: int)
    requires
        -0x8000_0000_0000_0000_0000_0000_0000_0000_0000_0000_0000_0000_0000_0000_0000_0000int <= x
            < 0x8000_0000_0000_0000_0000_0000_0000_0000_0000_0000_0000_0000_0000_0000_0000_0000int,
    ensures
        i256_of_int(x).value() == x,
{
    let m = 0x1_0000_0000_0000_0000_0000_0000_0000_0000int;
    vstd::arithmetic::div_mod::lemma_fundamental_div_mod(x, m);
    vstd::arithmetic::div_mod::lemma_mod_bound(x, m);
    assert(x / m >= -0x8000_0000_0000_0000_0000_0000_0000_0000) by {
        vstd::arithmetic::div_mod::lemma_div_is_ordered(
            -0x8000_0000_0000_0000_0000_0000_0000_0000_0000_0000_0000_0000_0000_0000_0000_0000int,
            x,
            m,
        );
    };
    assert(x / m < 0x8000_0000_0000_0000_0000_0000_0000_0000) by {
        vstd::arithmetic::div_mod::lemma_div_is_ordered(
            x,
            0x8000_0000_0000_0000_0000_0000_0000_0000_0000_0000_0000_0000_0000_0000_0000_0000int - 1,
            m,
        );
    };
}

/// What an `as u8` cast makes of an `i32`.
pub open spec fn u8_of_i32(v: i32) -> u8 {
    crate::num::as_u8(v as int) as u8
}

/// What an `as u16` cast makes of an `i32`.
pub open spec fn u16_of_i32(v: i32) -> u16 {
    crate::num::as_u16(v as int) as u16
}

/// What an `as u32` cast makes of an `i32`.
pub open spec fn u32_of_i32(v: i32) -> u32 {
    crate::num::as_u32(v as int) as u32
}

/// What an `as i8` cast makes of an `i32`.
pub open spec fn i8_of_i32(v: i32) -> i8 {
    crate::num::as_i8(v as int) as i8
}

/// What an `as i16` cast makes of an `i32`.
pub open spec fn i16_of_i32(v: i32) -> i16 {
    crate::num::as_i16(v as int) as i16
}

/// What an `as u32` cast makes of an `i64`.
pub open spec fn u32_of_i64(v: i64) -> u32 {
    crate::num::as_u32(v as int) as u32
}

/// What an `as u64` cast makes of an `i64`.
pub open spec fn u64_of_i64(v: i64) -> u64 {
    crate::num::as_u64(v as int) as u64
}

/// Narrowing casts, computed arithmetically so their contracts are exact.
pub fn cast_u8_of_i32(v: i32) -> (r: u8)
    ensures
        r == u8_of_i32(v),
{
    let u: u32 = crate::num::unsigned_from_i32(v);
    proof {
        vstd::arithmetic::div_mod::lemma_mod_mod(v as int, 0x100, 0x100_0000);
    }
    (u % 0x100) as u8
}

pub fn cast_u16_of_i32(v: i32) -> (r: u16)
    ensures
        r == u16_of_i32(v),
{
    let u: u32 = crate::num::unsigned_from_i32(v);
    proof {
        vstd::arithmetic::div_mod::lemma_mod_mod(v as int, 0x1_0000, 0x1_0000);
    }
    (u % 0x1_0000) as u16
}

pub fn cast_u32_of_i32(v: i32) -> (r: u32)
    ensures
        r == u32_of_i32(v),
{
    crate::num::unsigned_from_i32(v)
}

pub fn cast_i8_of_i32(v: i32) -> (r: i8)
    ensures
        r == i8_of_i32(v),
{
    let u: u32 = crate::num::unsigned_from_i32(v);
    proof {
        vstd::arithmetic::div_mod::lemma_mod_mod(v as int, 0x100, 0x100_0000);
    }
    let m: u32 = u % 0x100;
    if m >= 0x80 {
        let d: u32 = m - 0x80;
        i8::MIN + (d as i8)
    } else {
        m as i8
    }
}

pub fn cast_i16_of_i32(v: i32) -> (r: i16)
    ensures
        r == i16_of_i32(v),
{
    let u: u32 = crate::num::unsigned_from_i32(v);
    proof {
        vstd::arithmetic::div_mod::lemma_mod_mod(v as int, 0x1_0000, 0x1_0000);
    }
    let m: u32 = u % 0x1_0000;
    if m >= 0x8000 {
        let d: u32 = m - 0x8000;
        i16::MIN + (d as i16)
    } else {
        m as i16
    }
}

pub fn cast_u32_of_i64(v: i64) -> (r: u32)
    ensures
        r == u32_of_i64(v),
{
    let u: u64 = crate::num::unsigned_from_i64(v);
    proof {
        vstd::arithmetic::div_mod::lemma_mod_mod(
            v as int,
            0x1_0000_0000,
            0x1_0000_0000,
        );
    }
    (u % 0x1_0000_0000) as u32
}

pub fn cast_u64_of_i64(v: i64) -> (r: u64)
    ensures
        r == u64_of_i64(v),
{
    crate::num::unsigned_from_i64(v)
}

/// What the days-to-milliseconds widening makes of an `i32` day count.
pub open spec fn date64_of_i32(v: i32) -> i64 {
    (v * 86_400_000) as i64
}

/// Widens a day count to epoch milliseconds; this cannot overflow.
pub fn cast_date64_of_i32(v: i32) -> (r: i64)
    ensures
        r == date64_of_i32(v),
{
    (v as i64) * 86_400_000
}

/// What the wrapping timestamp rescale makes of an `i64`.
pub open spec fn mul_wrap_of_i64(v: i64, a: i64) -> i64 {
    crate::num::wrap64(v as int * a as int) as i64
}

/// Rescales a timestamp by a multiplier, wrapping on overflow as the
/// reference decoders do.
pub fn cast_mul_wrap_i64(v: i64, a: i64) -> (r: i64)
    ensures
        r == mul_wrap_of_i64(v, a),
{
    let r: i64 = v.wrapping_mul(a);
    proof {
        vstd::arithmetic::div_mod::lemma_mod_bound(v as int * a as int, 0x1_0000_0000_0000_0000);
    }
    r
}

/// What the truncating timestamp rescale makes of an `i64`.
pub open spec fn div_trunc_of_i64(v: i64, a: i64) -> i64 {
    crate::num::div_trunc(v as int, a as int) as i64
}

} // verus!

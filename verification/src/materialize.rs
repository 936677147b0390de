//! Turning filtered rows into the final typed array data: one fill pass per
//! strategy, with the type's zero standing in each null slot.
use vstd::prelude::*;

verus! {

use crate::convert::{
    DaysMs,
    I256,
    convert_days_ms,
    convert_f16,
    convert_i128,
    convert_i128_le,
    convert_i256,
    convert_year_month,
    cast_date64_of_i32,
    cast_i16_of_i32,
    cast_i8_of_i32,
    cast_mul_wrap_i64,
    cast_u16_of_i32,
    cast_u32_of_i32,
    cast_u32_of_i64,
    cast_u64_of_i64,
    cast_u8_of_i32,
    date64_of_i32,
    div_trunc_of_i64,
    f16_widen_bytes,
    i16_of_i32,
    i256_from_i128,
    i256_of_i128,
    i256_of_int,
    i8_of_i32,
    le_i128,
    le_i32,
    mul_wrap_of_i64,
    u16_of_i32,
    u32_of_i32,
    u32_of_i64,
    u64_of_i64,
    u8_of_i32,
    lemma_i256_of_int_value,
    lemma_i256_unique,
};
use crate::bytes::{be_sint, pow256};
use crate::num::div_trunc_i64;
use crate::output::{ArrayData, DataV, data_view, dict_keys_view, dict_keys_width};
use crate::types::DecodeError;
use crate::temporal::{int96_ms, int96_ns, int96_s, int96_to_i64_ms, int96_to_i64_ns,
    int96_to_i64_s, int96_to_i64_us, int96_us};
use crate::types::{IntegerType, TimeUnit};
use crate::collect::byte_row_view;

/// Each row's value through `f`, with `zero` standing in the null slots.
pub open spec fn fill_map<E, U>(rows: Seq<Option<E>>, f: spec_fn(E) -> U, zero: U) -> Seq<U> {
    Seq::new(
        rows.len(),
        |i: int|
            match rows[i] {
                Some(v) => f(v),
                None => zero,
            },
    )
}

/// Identity `i32` values.
#[verifier::loop_isolation(false)]
pub fn mat_i32_unit(rows: &Vec<Option<i32>>) -> (d: ArrayData)
    ensures
        data_view(d) == DataV::I32(fill_map(rows@, (|v: i32| v), 0i32)),
{
    let ghost fm = fill_map(rows@, (|v: i32| v), 0i32);
    let n: usize = rows.len();
    let mut out: Vec<i32> = Vec::new();
    let mut i: usize = 0;
    while i < n
        invariant
            i <= n,
            out@.len() == i,
            forall|k: int| 0 <= k < i ==> out@[k] == fm[k],
        decreases n - i,
    {
        let v: i32 = match rows[i] {
            Some(x) => x,
            None => 0i32,
        };
        out.push(v);
        i = i + 1;
    }
    proof {
        assert(out@ =~= fm);
    }
    ArrayData::Int32(out)
}

/// `i32` cast to `u8` (truncating).
#[verifier::loop_isolation(false)]
pub fn mat_i32_u8(rows: &Vec<Option<i32>>) -> (d: ArrayData)
    ensures
        data_view(d) == DataV::U8(fill_map(rows@, (|v: i32| u8_of_i32(v)), 0u8)),
{
    let ghost fm = fill_map(rows@, (|v: i32| u8_of_i32(v)), 0u8);
    let n: usize = rows.len();
    let mut out: Vec<u8> = Vec::new();
    let mut i: usize = 0;
    while i < n
        invariant
            i <= n,
            out@.len() == i,
            forall|k: int| 0 <= k < i ==> out@[k] == fm[k],
        decreases n - i,
    {
        let v: u8 = match rows[i] {
            Some(x) => cast_u8_of_i32(x),
            None => 0u8,
        };
        out.push(v);
        i = i + 1;
    }
    proof {
        assert(out@ =~= fm);
    }
    ArrayData::UInt8(out)
}

/// `i32` cast to `u16` (truncating).
#[verifier::loop_isolation(false)]
pub fn mat_i32_u16(rows: &Vec<Option<i32>>) -> (d: ArrayData)
    ensures
        data_view(d) == DataV::U16(fill_map(rows@, (|v: i32| u16_of_i32(v)), 0u16)),
{
    let ghost fm = fill_map(rows@, (|v: i32| u16_of_i32(v)), 0u16);
    let n: usize = rows.len();
    let mut out: Vec<u16> = Vec::new();
    let mut i: usize = 0;
    while i < n
        invariant
            i <= n,
            out@.len() == i,
            forall|k: int| 0 <= k < i ==> out@[k] == fm[k],
        decreases n - i,
    {
        let v: u16 = match rows[i] {
            Some(x) => cast_u16_of_i32(x),
            None => 0u16,
        };
        out.push(v);
        i = i + 1;
    }
    proof {
        assert(out@ =~= fm);
    }
    ArrayData::UInt16(out)
}

/// `i32` cast to `u32` (reinterpreting).
#[verifier::loop_isolation(false)]
pub fn mat_i32_u32(rows: &Vec<Option<i32>>) -> (d: ArrayData)
    ensures
        data_view(d) == DataV::U32(fill_map(rows@, (|v: i32| u32_of_i32(v)), 0u32)),
{
    let ghost fm = fill_map(rows@, (|v: i32| u32_of_i32(v)), 0u32);
    let n: usize = rows.len();
    let mut out: Vec<u32> = Vec::new();
    let mut i: usize = 0;
    while i < n
        invariant
            i <= n,
            out@.len() == i,
            forall|k: int| 0 <= k < i ==> out@[k] == fm[k],
        decreases n - i,
    {
        let v: u32 = match rows[i] {
            Some(x) => cast_u32_of_i32(x),
            None => 0u32,
        };
        out.push(v);
        i = i + 1;
    }
    proof {
        assert(out@ =~= fm);
    }
    ArrayData::UInt32(out)
}

/// `i32` cast to `i8` (truncating).
#[verifier::loop_isolation(false)]
pub fn mat_i32_i8(rows: &Vec<Option<i32>>) -> (d: ArrayData)
    ensures
        data_view(d) == DataV::I8(fill_map(rows@, (|v: i32| i8_of_i32(v)), 0i8)),
{
    let ghost fm = fill_map(rows@, (|v: i32| i8_of_i32(v)), 0i8);
    let n: usize = rows.len();
    let mut out: Vec<i8> = Vec::new();
    let mut i: usize = 0;
    while i < n
        invariant
            i <= n,
            out@.len() == i,
            forall|k: int| 0 <= k < i ==> out@[k] == fm[k],
        decreases n - i,
    {
        let v: i8 = match rows[i] {
            Some(x) => cast_i8_of_i32(x),
            None => 0i8,
        };
        out.push(v);
        i = i + 1;
    }
    proof {
        assert(out@ =~= fm);
    }
    ArrayData::Int8(out)
}

/// `i32` cast to `i16` (truncating).
#[verifier::loop_isolation(false)]
pub fn mat_i32_i16(rows: &Vec<Option<i32>>) -> (d: ArrayData)
    ensures
        data_view(d) == DataV::I16(fill_map(rows@, (|v: i32| i16_of_i32(v)), 0i16)),
{
    let ghost fm = fill_map(rows@, (|v: i32| i16_of_i32(v)), 0i16);
    let n: usize = rows.len();
    let mut out: Vec<i16> = Vec::new();
    let mut i: usize = 0;
    while i < n
        invariant
            i <= n,
            out@.len() == i,
            forall|k: int| 0 <= k < i ==> out@[k] == fm[k],
        decreases n - i,
    {
        let v: i16 = match rows[i] {
            Some(x) => cast_i16_of_i32(x),
            None => 0i16,
        };
        out.push(v);
        i = i + 1;
    }
    proof {
        assert(out@ =~= fm);
    }
    ArrayData::Int16(out)
}

/// `i32` widened to a 128-bit decimal.
#[verifier::loop_isolation(false)]
pub fn mat_i32_dec128(rows: &Vec<Option<i32>>) -> (d: ArrayData)
    ensures
        data_view(d) == DataV::I128(fill_map(rows@, (|v: i32| v as i128), 0i128)),
{
    let ghost fm = fill_map(rows@, (|v: i32| v as i128), 0i128);
    let n: usize = rows.len();
    let mut out: Vec<i128> = Vec::new();
    let mut i: usize = 0;
    while i < n
        invariant
            i <= n,
            out@.len() == i,
            forall|k: int| 0 <= k < i ==> out@[k] == fm[k],
        decreases n - i,
    {
        let v: i128 = match rows[i] {
            Some(x) => x as i128,
            None => 0i128,
        };
        out.push(v);
        i = i + 1;
    }
    proof {
        assert(out@ =~= fm);
    }
    ArrayData::Int128(out)
}

/// `i32` widened to a 256-bit decimal.
#[verifier::loop_isolation(false)]
pub fn mat_i32_dec256(rows: &Vec<Option<i32>>) -> (d: ArrayData)
    ensures
        data_view(d) == DataV::I256(fill_map(rows@, (|v: i32| i256_of_i128(v as i128)), (I256 { hi: 0, lo: 0 }))),
{
    let ghost fm = fill_map(rows@, (|v: i32| i256_of_i128(v as i128)), (I256 { hi: 0, lo: 0 }));
    let n: usize = rows.len();
    let mut out: Vec<I256> = Vec::new();
    let mut i: usize = 0;
    while i < n
        invariant
            i <= n,
            out@.len() == i,
            forall|k: int| 0 <= k < i ==> out@[k] == fm[k],
        decreases n - i,
    {
        let v: I256 = match rows[i] {
            Some(x) => i256_from_i128(x as i128),
            None => (I256 { hi: 0, lo: 0 }),
        };
        out.push(v);
        i = i + 1;
    }
    proof {
        assert(out@ =~= fm);
    }
    ArrayData::Int256(out)
}

/// `i32` days widened to epoch milliseconds.
#[verifier::loop_isolation(false)]
pub fn mat_i32_date64(rows: &Vec<Option<i32>>) -> (d: ArrayData)
    ensures
        data_view(d) == DataV::I64(fill_map(rows@, (|v: i32| date64_of_i32(v)), 0i64)),
{
    let ghost fm = fill_map(rows@, (|v: i32| date64_of_i32(v)), 0i64);
    let n: usize = rows.len();
    let mut out: Vec<i64> = Vec::new();
    let mut i: usize = 0;
    while i < n
        invariant
            i <= n,
            out@.len() == i,
            forall|k: int| 0 <= k < i ==> out@[k] == fm[k],
        decreases n - i,
    {
        let v: i64 = match rows[i] {
            Some(x) => cast_date64_of_i32(x),
            None => 0i64,
        };
        out.push(v);
        i = i + 1;
    }
    proof {
        assert(out@ =~= fm);
    }
    ArrayData::Int64(out)
}

/// Identity `i64` values.
#[verifier::loop_isolation(false)]
pub fn mat_i64_unit(rows: &Vec<Option<i64>>) -> (d: ArrayData)
    ensures
        data_view(d) == DataV::I64(fill_map(rows@, (|v: i64| v), 0i64)),
{
    let ghost fm = fill_map(rows@, (|v: i64| v), 0i64);
    let n: usize = rows.len();
    let mut out: Vec<i64> = Vec::new();
    let mut i: usize = 0;
    while i < n
        invariant
            i <= n,
            out@.len() == i,
            forall|k: int| 0 <= k < i ==> out@[k] == fm[k],
        decreases n - i,
    {
        let v: i64 = match rows[i] {
            Some(x) => x,
            None => 0i64,
        };
        out.push(v);
        i = i + 1;
    }
    proof {
        assert(out@ =~= fm);
    }
    ArrayData::Int64(out)
}

/// `i64` cast to `u32` (truncating).
#[verifier::loop_isolation(false)]
pub fn mat_i64_u32(rows: &Vec<Option<i64>>) -> (d: ArrayData)
    ensures
        data_view(d) == DataV::U32(fill_map(rows@, (|v: i64| u32_of_i64(v)), 0u32)),
{
    let ghost fm = fill_map(rows@, (|v: i64| u32_of_i64(v)), 0u32);
    let n: usize = rows.len();
    let mut out: Vec<u32> = Vec::new();
    let mut i: usize = 0;
    while i < n
        invariant
            i <= n,
            out@.len() == i,
            forall|k: int| 0 <= k < i ==> out@[k] == fm[k],
        decreases n - i,
    {
        let v: u32 = match rows[i] {
            Some(x) => cast_u32_of_i64(x),
            None => 0u32,
        };
        out.push(v);
        i = i + 1;
    }
    proof {
        assert(out@ =~= fm);
    }
    ArrayData::UInt32(out)
}

/// `i64` cast to `u64` (reinterpreting).
#[verifier::loop_isolation(false)]
pub fn mat_i64_u64(rows: &Vec<Option<i64>>) -> (d: ArrayData)
    ensures
        data_view(d) == DataV::U64(fill_map(rows@, (|v: i64| u64_of_i64(v)), 0u64)),
{
    let ghost fm = fill_map(rows@, (|v: i64| u64_of_i64(v)), 0u64);
    let n: usize = rows.len();
    let mut out: Vec<u64> = Vec::new();
    let mut i: usize = 0;
    while i < n
        invariant
            i <= n,
            out@.len() == i,
            forall|k: int| 0 <= k < i ==> out@[k] == fm[k],
        decreases n - i,
    {
        let v: u64 = match rows[i] {
            Some(x) => cast_u64_of_i64(x),
            None => 0u64,
        };
        out.push(v);
        i = i + 1;
    }
    proof {
        assert(out@ =~= fm);
    }
    ArrayData::UInt64(out)
}

/// `i64` widened to a 128-bit decimal.
#[verifier::loop_isolation(false)]
pub fn mat_i64_dec128(rows: &Vec<Option<i64>>) -> (d: ArrayData)
    ensures
        data_view(d) == DataV::I128(fill_map(rows@, (|v: i64| v as i128), 0i128)),
{
    let ghost fm = fill_map(rows@, (|v: i64| v as i128), 0i128);
    let n: usize = rows.len();
    let mut out: Vec<i128> = Vec::new();
    let mut i: usize = 0;
    while i < n
        invariant
            i <= n,
            out@.len() == i,
            forall|k: int| 0 <= k < i ==> out@[k] == fm[k],
        decreases n - i,
    {
        let v: i128 = match rows[i] {
            Some(x) => x as i128,
            None => 0i128,
        };
        out.push(v);
        i = i + 1;
    }
    proof {
        assert(out@ =~= fm);
    }
    ArrayData::Int128(out)
}

/// `i64` widened to a 256-bit decimal.
#[verifier::loop_isolation(false)]
pub fn mat_i64_dec256(rows: &Vec<Option<i64>>) -> (d: ArrayData)
    ensures
        data_view(d) == DataV::I256(fill_map(rows@, (|v: i64| i256_of_i128(v as i128)), (I256 { hi: 0, lo: 0 }))),
{
    let ghost fm = fill_map(rows@, (|v: i64| i256_of_i128(v as i128)), (I256 { hi: 0, lo: 0 }));
    let n: usize = rows.len();
    let mut out: Vec<I256> = Vec::new();
    let mut i: usize = 0;
    while i < n
        invariant
            i <= n,
            out@.len() == i,
            forall|k: int| 0 <= k < i ==> out@[k] == fm[k],
        decreases n - i,
    {
        let v: I256 = match rows[i] {
            Some(x) => i256_from_i128(x as i128),
            None => (I256 { hi: 0, lo: 0 }),
        };
        out.push(v);
        i = i + 1;
    }
    proof {
        assert(out@ =~= fm);
    }
    ArrayData::Int256(out)
}

/// Identity boolean values.
#[verifier::loop_isolation(false)]
pub fn mat_bool(rows: &Vec<Option<bool>>) -> (d: ArrayData)
    ensures
        data_view(d) == DataV::Bool(fill_map(rows@, (|v: bool| v), false)),
{
    let ghost fm = fill_map(rows@, (|v: bool| v), false);
    let n: usize = rows.len();
    let mut out: Vec<bool> = Vec::new();
    let mut i: usize = 0;
    while i < n
        invariant
            i <= n,
            out@.len() == i,
            forall|k: int| 0 <= k < i ==> out@[k] == fm[k],
        decreases n - i,
    {
        let v: bool = match rows[i] {
            Some(x) => x,
            None => false,
        };
        out.push(v);
        i = i + 1;
    }
    proof {
        assert(out@ =~= fm);
    }
    ArrayData::Boolean(out)
}

/// Identity 32-bit float patterns.
#[verifier::loop_isolation(false)]
pub fn mat_f32(rows: &Vec<Option<u32>>) -> (d: ArrayData)
    ensures
        data_view(d) == DataV::F32Bits(fill_map(rows@, (|v: u32| v), 0u32)),
{
    let ghost fm = fill_map(rows@, (|v: u32| v), 0u32);
    let n: usize = rows.len();
    let mut out: Vec<u32> = Vec::new();
    let mut i: usize = 0;
    while i < n
        invariant
            i <= n,
            out@.len() == i,
            forall|k: int| 0 <= k < i ==> out@[k] == fm[k],
        decreases n - i,
    {
        let v: u32 = match rows[i] {
            Some(x) => x,
            None => 0u32,
        };
        out.push(v);
        i = i + 1;
    }
    proof {
        assert(out@ =~= fm);
    }
    ArrayData::Float32Bits(out)
}

/// Identity 64-bit float patterns.
#[verifier::loop_isolation(false)]
pub fn mat_f64(rows: &Vec<Option<u64>>) -> (d: ArrayData)
    ensures
        data_view(d) == DataV::F64Bits(fill_map(rows@, (|v: u64| v), 0u64)),
{
    let ghost fm = fill_map(rows@, (|v: u64| v), 0u64);
    let n: usize = rows.len();
    let mut out: Vec<u64> = Vec::new();
    let mut i: usize = 0;
    while i < n
        invariant
            i <= n,
            out@.len() == i,
            forall|k: int| 0 <= k < i ==> out@[k] == fm[k],
        decreases n - i,
    {
        let v: u64 = match rows[i] {
            Some(x) => x,
            None => 0u64,
        };
        out.push(v);
        i = i + 1;
    }
    proof {
        assert(out@ =~= fm);
    }
    ArrayData::Float64Bits(out)
}

/// Timestamp rescale by a wrapping multiplier.
#[verifier::loop_isolation(false)]
pub fn mat_i64_mul(rows: &Vec<Option<i64>>, a: i64) -> (d: ArrayData)
    ensures
        data_view(d) == DataV::I64(fill_map(rows@, (|v: i64| mul_wrap_of_i64(v, a)), 0i64)),
{
    let ghost fm = fill_map(rows@, (|v: i64| mul_wrap_of_i64(v, a)), 0i64);
    let n: usize = rows.len();
    let mut out: Vec<i64> = Vec::new();
    let mut i: usize = 0;
    while i < n
        invariant
            i <= n,
            out@.len() == i,
            forall|k: int| 0 <= k < i ==> out@[k] == fm[k],
        decreases n - i,
    {
        let v: i64 = match rows[i] {
            Some(x) => cast_mul_wrap_i64(x, a),
            None => 0i64,
        };
        out.push(v);
        i = i + 1;
    }
    proof {
        assert(out@ =~= fm);
    }
    ArrayData::Int64(out)
}

/// Timestamp rescale by a truncating divisor.
#[verifier::loop_isolation(false)]
pub fn mat_i64_div(rows: &Vec<Option<i64>>, a: i64) -> (d: ArrayData)
    requires
        a > 0,
    ensures
        data_view(d) == DataV::I64(fill_map(rows@, (|v: i64| div_trunc_of_i64(v, a)), 0i64)),
{
    let ghost fm = fill_map(rows@, (|v: i64| div_trunc_of_i64(v, a)), 0i64);
    let n: usize = rows.len();
    let mut out: Vec<i64> = Vec::new();
    let mut i: usize = 0;
    while i < n
        invariant
            i <= n,
            out@.len() == i,
            forall|k: int| 0 <= k < i ==> out@[k] == fm[k],
        decreases n - i,
    {
        let v: i64 = match rows[i] {
            Some(x) => div_trunc_i64(x, a),
            None => 0i64,
        };
        out.push(v);
        i = i + 1;
    }
    proof {
        assert(out@ =~= fm);
    }
    ArrayData::Int64(out)
}

/// What a 96-bit timestamp decodes to at the requested unit.
pub open spec fn int96_value(t: (u32, u32, u32), unit: TimeUnit) -> int {
    match unit {
        TimeUnit::Nanosecond => int96_ns(t.0, t.1, t.2),
        TimeUnit::Microsecond => int96_us(t.0, t.1, t.2),
        TimeUnit::Millisecond => int96_ms(t.0, t.1, t.2),
        TimeUnit::Second => int96_s(t.0, t.1, t.2),
    }
}

/// Legacy 96-bit timestamps decoded at the requested unit.
#[verifier::loop_isolation(false)]
pub fn mat_int96(rows: &Vec<Option<(u32, u32, u32)>>, unit: TimeUnit) -> (d: ArrayData)
    ensures
        data_view(d) == DataV::I64(
            fill_map(rows@, (|t: (u32, u32, u32)| int96_value(t, unit) as i64), 0i64),
        ),
{
    let ghost fm = fill_map(rows@, (|t: (u32, u32, u32)| int96_value(t, unit) as i64), 0i64);
    let n: usize = rows.len();
    let mut out: Vec<i64> = Vec::new();
    let mut i: usize = 0;
    while i < n
        invariant
            i <= n,
            out@.len() == i,
            forall|k: int| 0 <= k < i ==> out@[k] == fm[k],
        decreases n - i,
    {
        let v: i64 = match rows[i] {
            Some(t) => {
                match unit {
                    TimeUnit::Nanosecond => int96_to_i64_ns([t.0, t.1, t.2]),
                    TimeUnit::Microsecond => int96_to_i64_us([t.0, t.1, t.2]),
                    TimeUnit::Millisecond => int96_to_i64_ms([t.0, t.1, t.2]),
                    TimeUnit::Second => int96_to_i64_s([t.0, t.1, t.2]),
                }
            },
            None => 0i64,
        };
        out.push(v);
        i = i + 1;
    }
    proof {
        assert(out@ =~= fm);
    }
    ArrayData::Int64(out)
}


/// Whether every present byte row has exactly `width` bytes.
pub open spec fn rows_width_ok(rows: Seq<Option<Vec<u8>>>, width: nat) -> bool {
    forall|i: int|
        0 <= i < rows.len() && (#[trigger] rows[i]) is Some ==> rows[i]->0@.len() == width
}

/// A big-endian signed reading of at most 16 bytes fits an `i128`.
pub proof fn lemma_be_sint_i128_range(b: Seq<u8>)
    requires
        b.len() <= 16,
    ensures
        -0x8000_0000_0000_0000_0000_0000_0000_0000 <= be_sint(b)
            < 0x8000_0000_0000_0000_0000_0000_0000_0000,
{
    crate::bytes::lemma_pow256_values();
    if b.len() == 0 {
    } else {
        crate::bytes::lemma_be_sint_range(b);
        crate::bytes::lemma_pow256_pos((16 - b.len()) as nat);
        crate::bytes::lemma_pow256_mul(b.len(), (16 - b.len()) as nat);
        assert(pow256(b.len()) <= pow256(16)) by (nonlinear_arith)
            requires
                pow256(b.len()) * pow256((16 - b.len()) as nat) == pow256(16),
                pow256((16 - b.len()) as nat) >= 1,
                pow256(b.len()) >= 0,
        ;
    }
}

/// A big-endian signed reading of at most 32 bytes fits 256 bits.
pub proof fn lemma_be_sint_i256_range(b: Seq<u8>)
    requires
        b.len() <= 32,
    ensures
        -0x8000_0000_0000_0000_0000_0000_0000_0000_0000_0000_0000_0000_0000_0000_0000_0000int
            <= be_sint(b)
            < 0x8000_0000_0000_0000_0000_0000_0000_0000_0000_0000_0000_0000_0000_0000_0000_0000int,
{
    crate::bytes::lemma_pow256_values();
    proof_pow256_32();
    if b.len() == 0 {
    } else {
        crate::bytes::lemma_be_sint_range(b);
        crate::bytes::lemma_pow256_pos((32 - b.len()) as nat);
        crate::bytes::lemma_pow256_mul(b.len(), (32 - b.len()) as nat);
        assert(pow256(b.len()) <= pow256(32)) by (nonlinear_arith)
            requires
                pow256(b.len()) * pow256((32 - b.len()) as nat) == pow256(32),
                pow256((32 - b.len()) as nat) >= 1,
                pow256(b.len()) >= 0,
        ;
    }
}

/// The power of 256 at the widest decimal field.
proof fn proof_pow256_32()
    ensures
        pow256(32)
            == 0x1_0000_0000_0000_0000_0000_0000_0000_0000_0000_0000_0000_0000_0000_0000_0000_0000int,
{
    crate::bytes::lemma_pow256_values();
    crate::bytes::lemma_pow256_mul(16, 16);
}

/// 12-byte year-month intervals: months from the first four bytes.
#[verifier::loop_isolation(false)]
pub fn mat_year_month(rows: &Vec<Option<Vec<u8>>>) -> (d: ArrayData)
    requires
        rows_width_ok(rows@, 12),
    ensures
        data_view(d) == DataV::I32(
            fill_map(
                crate::collect::byte_rows_view(rows@),
                (|b: Seq<u8>| le_i32(b.subrange(0, 4)) as i32),
                0i32,
            ),
        ),
{
    let ghost fm = fill_map(
        crate::collect::byte_rows_view(rows@),
        (|b: Seq<u8>| le_i32(b.subrange(0, 4)) as i32),
        0i32,
    );
    let n: usize = rows.len();
    let mut out: Vec<i32> = Vec::new();
    let mut i: usize = 0;
    while i < n
        invariant
            i <= n,
            out@.len() == i,
            forall|k: int| 0 <= k < i ==> out@[k] == fm[k],
        decreases n - i,
    {
        let v: i32 = match &rows[i] {
            Some(x) => convert_year_month(x.as_slice()),
            None => 0i32,
        };
        out.push(v);
        i = i + 1;
    }
    proof {
        assert(out@ =~= fm);
    }
    ArrayData::Int32(out)
}

/// 12-byte day-time intervals: the (days, milliseconds) pair.
#[verifier::loop_isolation(false)]
pub fn mat_day_time(rows: &Vec<Option<Vec<u8>>>) -> (d: ArrayData)
    requires
        rows_width_ok(rows@, 12),
    ensures
        data_view(d) == DataV::DaysMs(
            fill_map(
                crate::collect::byte_rows_view(rows@),
                (|b: Seq<u8>|
                    (DaysMs {
                        days: le_i32(b.subrange(4, 8)) as i32,
                        milliseconds: le_i32(b.subrange(8, 12)) as i32,
                    })),
                (DaysMs { days: 0, milliseconds: 0 }),
            ),
        ),
{
    let ghost fm = fill_map(
        crate::collect::byte_rows_view(rows@),
        (|b: Seq<u8>|
            (DaysMs {
                days: le_i32(b.subrange(4, 8)) as i32,
                milliseconds: le_i32(b.subrange(8, 12)) as i32,
            })),
        (DaysMs { days: 0, milliseconds: 0 }),
    );
    let n: usize = rows.len();
    let mut out: Vec<DaysMs> = Vec::new();
    let mut i: usize = 0;
    while i < n
        invariant
            i <= n,
            out@.len() == i,
            forall|k: int| 0 <= k < i ==> out@[k] == fm[k],
        decreases n - i,
    {
        let v: DaysMs = match &rows[i] {
            Some(x) => convert_days_ms(x.as_slice()),
            None => DaysMs { days: 0, milliseconds: 0 },
        };
        out.push(v);
        i = i + 1;
    }
    proof {
        assert(out@ =~= fm);
    }
    ArrayData::DaysMs(out)
}

/// 16-byte fields reinterpreted in place as `i128`.
#[verifier::loop_isolation(false)]
pub fn mat_int128_le(rows: &Vec<Option<Vec<u8>>>) -> (d: ArrayData)
    requires
        rows_width_ok(rows@, 16),
    ensures
        data_view(d) == DataV::I128(
            fill_map(
                crate::collect::byte_rows_view(rows@),
                (|b: Seq<u8>| le_i128(b) as i128),
                0i128,
            ),
        ),
{
    let ghost fm = fill_map(
        crate::collect::byte_rows_view(rows@),
        (|b: Seq<u8>| le_i128(b) as i128),
        0i128,
    );
    let n: usize = rows.len();
    let mut out: Vec<i128> = Vec::new();
    let mut i: usize = 0;
    while i < n
        invariant
            i <= n,
            out@.len() == i,
            forall|k: int| 0 <= k < i ==> out@[k] == fm[k],
        decreases n - i,
    {
        let v: i128 = match &rows[i] {
            Some(x) => convert_i128_le(x.as_slice()),
            None => 0i128,
        };
        out.push(v);
        i = i + 1;
    }
    proof {
        assert(out@ =~= fm);
    }
    ArrayData::Int128(out)
}

/// Big-endian sign-extended extraction into 128-bit decimals.
#[verifier::loop_isolation(false)]
pub fn mat_dec128(rows: &Vec<Option<Vec<u8>>>, width: usize) -> (d: ArrayData)
    requires
        rows_width_ok(rows@, width as nat),
        width <= 16,
    ensures
        data_view(d) == DataV::I128(
            fill_map(
                crate::collect::byte_rows_view(rows@),
                (|b: Seq<u8>| be_sint(b) as i128),
                0i128,
            ),
        ),
{
    let ghost fm = fill_map(
        crate::collect::byte_rows_view(rows@),
        (|b: Seq<u8>| be_sint(b) as i128),
        0i128,
    );
    let n: usize = rows.len();
    let mut out: Vec<i128> = Vec::new();
    let mut i: usize = 0;
    while i < n
        invariant
            i <= n,
            out@.len() == i,
            forall|k: int| 0 <= k < i ==> out@[k] == fm[k],
        decreases n - i,
    {
        let v: i128 = match &rows[i] {
            Some(x) => {
                proof {
                    lemma_be_sint_i128_range(x@);
                }
                let l: usize = x.len();
                convert_i128(x.as_slice(), l)
            },
            None => 0i128,
        };
        out.push(v);
        i = i + 1;
    }
    proof {
        assert(out@ =~= fm);
    }
    ArrayData::Int128(out)
}

/// Big-endian sign-extended extraction into 256-bit decimals.
#[verifier::loop_isolation(false)]
pub fn mat_dec256(rows: &Vec<Option<Vec<u8>>>, width: usize) -> (d: ArrayData)
    requires
        rows_width_ok(rows@, width as nat),
        width <= 32,
    ensures
        data_view(d) == DataV::I256(
            fill_map(
                crate::collect::byte_rows_view(rows@),
                (|b: Seq<u8>| i256_of_int(be_sint(b))),
                (I256 { hi: 0, lo: 0 }),
            ),
        ),
{
    let ghost fm = fill_map(
        crate::collect::byte_rows_view(rows@),
        (|b: Seq<u8>| i256_of_int(be_sint(b))),
        (I256 { hi: 0, lo: 0 }),
    );
    let n: usize = rows.len();
    let mut out: Vec<I256> = Vec::new();
    let mut i: usize = 0;
    while i < n
        invariant
            i <= n,
            out@.len() == i,
            forall|k: int| 0 <= k < i ==> out@[k] == fm[k],
        decreases n - i,
    {
        let v: I256 = match &rows[i] {
            Some(x) => {
                let r = convert_i256(x.as_slice());
                proof {
                    lemma_be_sint_i256_range(x@);
                    lemma_i256_of_int_value(be_sint(x@));
                    lemma_i256_unique(r, i256_of_int(be_sint(x@)));
                }
                r
            },
            None => I256 { hi: 0, lo: 0 },
        };
        out.push(v);
        i = i + 1;
    }
    proof {
        assert(out@ =~= fm);
    }
    ArrayData::Int256(out)
}

/// 2-byte half-precision fields widened to 32-bit float patterns.
#[verifier::loop_isolation(false)]
pub fn mat_half(rows: &Vec<Option<Vec<u8>>>) -> (d: ArrayData)
    requires
        rows_width_ok(rows@, 2),
    ensures
        data_view(d) == DataV::F32Bits(
            fill_map(
                crate::collect::byte_rows_view(rows@),
                (|b: Seq<u8>| f16_widen_bytes(b) as u32),
                0u32,
            ),
        ),
{
    let ghost fm = fill_map(
        crate::collect::byte_rows_view(rows@),
        (|b: Seq<u8>| f16_widen_bytes(b) as u32),
        0u32,
    );
    let n: usize = rows.len();
    let mut out: Vec<u32> = Vec::new();
    let mut i: usize = 0;
    while i < n
        invariant
            i <= n,
            out@.len() == i,
            forall|k: int| 0 <= k < i ==> out@[k] == fm[k],
        decreases n - i,
    {
        let v: u32 = match &rows[i] {
            Some(x) => convert_f16(x.as_slice()),
            None => 0u32,
        };
        out.push(v);
        i = i + 1;
    }
    proof {
        assert(out@ =~= fm);
    }
    ArrayData::Float32Bits(out)
}

/// Variable-length values kept as they are; null slots hold empty fields.
#[verifier::loop_isolation(false)]
pub fn mat_binview(rows: Vec<Option<Vec<u8>>>) -> (d: ArrayData)
    ensures
        data_view(d) == DataV::VarBin(
            fill_map(crate::collect::byte_rows_view(rows@), (|b: Seq<u8>| b), Seq::<u8>::empty()),
        ),
{
    let ghost fm = fill_map(
        crate::collect::byte_rows_view(rows@),
        (|b: Seq<u8>| b),
        Seq::<u8>::empty(),
    );
    let n: usize = rows.len();
    let mut rest = rows;
    let ghost orig = rest@;
    let mut out: Vec<Vec<u8>> = Vec::new();
    let mut i: usize = 0;
    while i < n
        invariant
            i <= n,
            rest@ == orig.skip(i as int),
            out@.len() == i,
            forall|k: int| 0 <= k < i ==> (#[trigger] out@[k])@ == fm[k],
        decreases n - i,
    {
        proof {
            assert(orig.skip(i as int)[0] == orig[i as int]);
            assert(orig.skip(i as int).skip(1) =~= orig.skip(i as int + 1));
        }
        let v: Vec<u8> = match rest.remove(0) {
            Some(x) => x,
            None => Vec::new(),
        };
        out.push(v);
        i = i + 1;
    }
    proof {
        assert(out.deep_view() =~= fm) by {
            assert(forall|k: int|
                0 <= k < out@.len() ==> (#[trigger] out.deep_view()[k]) =~= out@[k]@);
        }
    }
    ArrayData::VarBinary(out)
}

/// What a fixed-size binary array flattens to: `width` bytes per row, zeros
/// in the null slots.
pub open spec fn flatten_fixed(rows: Seq<Option<Seq<u8>>>, width: nat) -> Seq<u8> {
    Seq::new(
        rows.len() * width,
        |i: int|
            match rows[i / width as int] {
                Some(b) => b[i % width as int],
                None => 0u8,
            },
    )
}

/// Identity copy of fixed-length fields into one flat buffer.
#[verifier::loop_isolation(false)]
pub fn mat_fixed_binary(rows: &Vec<Option<Vec<u8>>>, width: usize) -> (d: ArrayData)
    requires
        rows_width_ok(rows@, width as nat),
    ensures
        data_view(d) == DataV::Fixed(
            width as nat,
            flatten_fixed(crate::collect::byte_rows_view(rows@), width as nat),
        ),
{
    let ghost fm = flatten_fixed(crate::collect::byte_rows_view(rows@), width as nat);
    let n: usize = rows.len();
    let mut out: Vec<u8> = Vec::new();
    let mut i: usize = 0;
    while i < n
        invariant
            i <= n,
            out@.len() == i * width,
            forall|k: int| 0 <= k < i * width ==> out@[k] == fm[k],
        decreases n - i,
    {
        proof {
            assert(i * width + width == (i + 1) * width) by (nonlinear_arith);
            assert((i + 1) * width <= n * width) by (nonlinear_arith)
                requires
                    i + 1 <= n,
                    width >= 0,
            ;
        }
        let mut k: usize = 0;
        while k < width
            invariant
                k <= width,
                out@.len() == i * width + k,
                forall|q: int| 0 <= q < i * width + k ==> out@[q] == fm[q],
            decreases width - k,
        {
            let b: u8 = match &rows[i] {
                Some(x) => x[k],
                None => 0u8,
            };
            proof {
                vstd::arithmetic::div_mod::lemma_fundamental_div_mod_converse(
                    i * width + k,
                    width as int,
                    i as int,
                    k as int,
                );
            }
            out.push(b);
            k = k + 1;
        }
        i = i + 1;
    }
    proof {
        assert(out@ =~= fm);
    }
    ArrayData::FixedSizeBinary(width, out)
}


/// The values present in a row sequence, in row order.
pub open spec fn present<E>(rows: Seq<Option<E>>) -> Seq<E>
    decreases rows.len(),
{
    if rows.len() == 0 {
        Seq::empty()
    } else {
        present(rows.drop_last()) + (if rows.last() is Some {
            seq![rows.last()->0]
        } else {
            Seq::empty()
        })
    }
}

/// The dictionary of a value sequence: the distinct values in order of
/// first appearance.
pub open spec fn spec_dict(values: Seq<Seq<u8>>) -> Seq<Seq<u8>>
    decreases values.len(),
{
    if values.len() == 0 {
        Seq::empty()
    } else {
        let d = spec_dict(values.drop_last());
        if d.contains(values.last()) {
            d
        } else {
            d.push(values.last())
        }
    }
}

/// The index of the first occurrence of `v` in `d`, or `d.len()` when
/// absent.
pub open spec fn dict_index(d: Seq<Seq<u8>>, v: Seq<u8>) -> int
    decreases d.len(),
{
    if d.len() == 0 {
        0
    } else if d[0] == v {
        0
    } else {
        1 + dict_index(d.skip(1), v)
    }
}

/// How many distinct values a dictionary key type can index: the count of
/// nonnegative values of the width.
pub open spec fn key_capacity(k: IntegerType) -> nat {
    match k {
        IntegerType::Int8 => 0x80,
        IntegerType::Int16 => 0x8000,
        IntegerType::Int32 => 0x8000_0000,
        IntegerType::Int64 => 0x8000_0000_0000_0000,
        IntegerType::UInt8 => 0x100,
        IntegerType::UInt16 => 0x1_0000,
        IntegerType::UInt32 => 0x1_0000_0000,
        IntegerType::UInt64 => 0x1_0000_0000_0000_0000,
    }
}

pub proof fn lemma_dict_index_of(d: Seq<Seq<u8>>, v: Seq<u8>)
    requires
        d.contains(v),
    ensures
        0 <= dict_index(d, v) < d.len(),
        d[dict_index(d, v)] == v,
    decreases d.len(),
{
    if d[0] == v {
    } else {
        let i = choose|i: int| 0 <= i < d.len() && d[i] == v;
        assert(d.skip(1)[i - 1] == v);
        assert(d.skip(1).contains(v));
        lemma_dict_index_of(d.skip(1), v);
    }
}

pub proof fn lemma_dict_index_not_found(d: Seq<Seq<u8>>, v: Seq<u8>)
    requires
        !d.contains(v),
    ensures
        dict_index(d, v) == d.len(),
    decreases d.len(),
{
    if d.len() > 0 {
        assert(d[0] != v);
        assert forall|i: int| 0 <= i < d.skip(1).len() implies d.skip(1)[i] != v by {
            assert(d.skip(1)[i] == d[i + 1]);
        }
        assert(!d.skip(1).contains(v));
        lemma_dict_index_not_found(d.skip(1), v);
    }
}

/// Extending a dictionary does not move the entries already in it.
pub proof fn lemma_dict_index_push(d: Seq<Seq<u8>>, v: Seq<u8>, x: Seq<u8>)
    requires
        d.contains(v),
    ensures
        dict_index(d.push(x), v) == dict_index(d, v),
    decreases d.len(),
{
    assert(d.push(x)[0] == d[0]);
    if d[0] == v {
    } else {
        let i = choose|i: int| 0 <= i < d.len() && d[i] == v;
        assert(d.skip(1)[i - 1] == v);
        assert(d.skip(1).contains(v));
        assert(d.push(x).skip(1) =~= d.skip(1).push(x));
        lemma_dict_index_push(d.skip(1), v, x);
    }
}

/// A value appended to a dictionary that lacks it lands at the old length.
pub proof fn lemma_dict_index_push_self(d: Seq<Seq<u8>>, v: Seq<u8>)
    requires
        !d.contains(v),
    ensures
        dict_index(d.push(v), v) == d.len(),
    decreases d.len(),
{
    if d.len() == 0 {
        assert(d.push(v)[0] == v);
    } else {
        assert(d[0] != v);
        assert(d.push(v)[0] == d[0]);
        assert forall|i: int| 0 <= i < d.skip(1).len() implies d.skip(1)[i] != v by {
            assert(d.skip(1)[i] == d[i + 1]);
        }
        assert(!d.skip(1).contains(v));
        assert(d.push(v).skip(1) =~= d.skip(1).push(v));
        lemma_dict_index_push_self(d.skip(1), v);
    }
}

/// The first match in a dictionary is the dictionary index.
pub proof fn lemma_dict_first_match(d: Seq<Seq<u8>>, v: Seq<u8>, j: int)
    requires
        0 <= j < d.len(),
        forall|q: int| 0 <= q < j ==> d[q] != v,
        d[j] == v,
    ensures
        dict_index(d, v) == j,
    decreases j,
{
    if j == 0 {
    } else {
        assert(d[0] != v);
        assert forall|q: int| 0 <= q < j - 1 implies d.skip(1)[q] != v by {
            assert(d.skip(1)[q] == d[q + 1]);
        }
        assert(d.skip(1)[j - 1] == v);
        lemma_dict_first_match(d.skip(1), v, j - 1);
    }
}

/// The first index of `v` in the dictionary, or the dictionary's length when
/// it is absent.
#[verifier::loop_isolation(false)]
fn find_in_dict(dict: &Vec<Vec<u8>>, v: &Vec<u8>) -> (r: usize)
    ensures
        r as int == dict_index(dict.deep_view(), v@),
        r <= dict@.len(),
{
    let ghost dd = dict.deep_view();
    let n: usize = dict.len();
    proof {
        assert(dd.len() == n);
    }
    let mut j: usize = 0;
    while j < n
        invariant
            j <= n,
            forall|q: int| 0 <= q < j ==> dd[q] != v@,
        decreases n - j,
    {
        proof {
            assert(dd[j as int] =~= dict@[j as int]@);
        }
        if &dict[j] == v {
            proof {
                assert(dict@[j as int]@ == v@);
                lemma_dict_first_match(dd, v@, j as int);
            }
            return j;
        }
        proof {
            assert(dict@[j as int]@ != v@);
        }
        j = j + 1;
    }
    proof {
        assert forall|q: int| 0 <= q < dd.len() implies dd[q] != v@ by {}
        assert(!dd.contains(v@));
        lemma_dict_index_not_found(dd, v@);
    }
    n
}

/// Builds the first-appearance dictionary of the present values and one key
/// per row; null rows key to zero.
#[verifier::loop_isolation(false)]
pub fn build_dict(rows: &Vec<Option<Vec<u8>>>) -> (r: (Vec<Vec<u8>>, Vec<usize>))
    ensures
        ({
            let view = crate::collect::byte_rows_view(rows@);
            let dict = spec_dict(present(view));
            &&& r.0.deep_view() == dict
            &&& r.1@.len() == rows@.len()
            &&& forall|k: int|
                0 <= k < rows@.len() ==> (#[trigger] r.1@[k]) as int == (match view[k] {
                    Some(b) => dict_index(dict, b),
                    None => 0,
                })
        }),
{
    let ghost view = crate::collect::byte_rows_view(rows@);
    let n: usize = rows.len();
    let mut dict: Vec<Vec<u8>> = Vec::new();
    let mut keys: Vec<usize> = Vec::new();
    let mut i: usize = 0;
    proof {
        assert(view.take(0) =~= Seq::<Option<Seq<u8>>>::empty());
        assert(present(view.take(0)) =~= Seq::<Seq<u8>>::empty());
        assert(dict.deep_view() =~= spec_dict(present(view.take(0))));
    }
    while i < n
        invariant
            i <= n,
            view == crate::collect::byte_rows_view(rows@),
            dict.deep_view() == spec_dict(present(view.take(i as int))),
            keys@.len() == i,
            forall|k: int|
                0 <= k < i ==> (#[trigger] keys@[k]) as int == (match view[k] {
                    Some(b) => dict_index(dict.deep_view(), b),
                    None => 0,
                }),
            forall|k: int|
                0 <= k < i && view[k] is Some ==> dict.deep_view().contains(
                    #[trigger] view[k]->0,
                ),
        decreases n - i,
    {
        let ghost dd = dict.deep_view();
        proof {
            assert(view.take(i as int + 1).drop_last() =~= view.take(i as int));
            assert(view.take(i as int + 1).last() == view[i as int]);
        }
        match &rows[i] {
            Some(v) => {
                proof {
                    assert(view[i as int] == byte_row_view(rows@[i as int]));
                    assert(view[i as int]->0 == v@);
                }
                let idx: usize = find_in_dict(&dict, v);
                if idx < dict.len() {
                    proof {
                        assert(dd.contains(v@)) by {
                            if !dd.contains(v@) {
                                lemma_dict_index_not_found(dd, v@);
                            }
                        }
                        lemma_dict_index_of(dd, v@);
                        assert(present(view.take(i as int + 1)) =~= present(view.take(i as int))
                            + seq![v@]);
                        assert(spec_dict(present(view.take(i as int + 1))) == dd) by {
                            assert(present(view.take(i as int + 1)).drop_last() =~= present(
                                view.take(i as int),
                            ));
                            assert(present(view.take(i as int + 1)).last() == v@);
                        }
                        assert(dict.deep_view().contains(view[i as int]->0));
                    }
                    keys.push(idx);
                } else {
                    proof {
                        assert(!dd.contains(v@)) by {
                            if dd.contains(v@) {
                                lemma_dict_index_of(dd, v@);
                            }
                        }
                        lemma_dict_index_push_self(dd, v@);
                        assert(present(view.take(i as int + 1)) =~= present(view.take(i as int))
                            + seq![v@]);
                        assert(present(view.take(i as int + 1)).drop_last() =~= present(
                            view.take(i as int),
                        ));
                        assert(present(view.take(i as int + 1)).last() == v@);
                    }
                    let copy: Vec<u8> = clone_bytes(v);
                    let ghost old_dict = dict@;
                    dict.push(copy);
                    proof {
                        assert(dict.deep_view() =~= dd.push(v@)) by {
                            assert(dict@ =~= old_dict.push(copy));
                            assert forall|k: int| 0 <= k < dd.len() implies #[trigger] dict.deep_view()[k]
                                == dd[k] by {
                                assert(dict@[k] == old_dict[k]);
                            }
                            assert(dict.deep_view()[dd.len() as int] =~= copy@);
                        }
                        assert(spec_dict(present(view.take(i as int + 1))) == dd.push(v@));
                        assert forall|k: int|
                            0 <= k < i && view[k] is Some implies (#[trigger] keys@[k]) as int
                            == dict_index(dict.deep_view(), view[k]->0) by {
                            lemma_dict_index_push(dd, view[k]->0, v@);
                        }
                        assert forall|k: int|
                            0 <= k < i + 1 && view[k] is Some implies dict.deep_view().contains(
                            #[trigger] view[k]->0,
                        ) by {
                            if k < i {
                                let q = choose|q: int|
                                    0 <= q < dd.len() && dd[q] == view[k]->0;
                                assert(dict.deep_view()[q] == dd[q]);
                            } else {
                                assert(dict.deep_view()[dd.len() as int] == v@);
                            }
                        }
                    }
                    keys.push(idx);
                }
            },
            None => {
                proof {
                    assert(view[i as int] == byte_row_view(rows@[i as int]));
                    assert(view[i as int] is None);
                    assert(present(view.take(i as int + 1)) =~= present(view.take(i as int)));
                }
                keys.push(0);
            },
        }
        i = i + 1;
    }
    proof {
        assert(view.take(n as int) =~= view);
    }
    (dict, keys)
}

/// A plain copy of a byte field.
fn clone_bytes(v: &Vec<u8>) -> (r: Vec<u8>)
    ensures
        r@ == v@,
{
    let r = v.clone();
    proof {
        assert(r@ =~= v@);
    }
    r
}


/// The dictionary holds exactly the values that occur.
pub proof fn lemma_spec_dict_contains(values: Seq<Seq<u8>>, v: Seq<u8>)
    ensures
        spec_dict(values).contains(v) <==> values.contains(v),
    decreases values.len(),
{
    if values.len() == 0 {
    } else {
        lemma_spec_dict_contains(values.drop_last(), v);
        let d = spec_dict(values.drop_last());
        if values.contains(v) {
            let i = choose|i: int| 0 <= i < values.len() && values[i] == v;
            if i < values.len() - 1 {
                assert(values.drop_last()[i] == v);
                assert(values.drop_last().contains(v));
                if !d.contains(values.last()) {
                    let q = choose|q: int| 0 <= q < d.len() && d[q] == v;
                    assert(d.push(values.last())[q] == v);
                }
            } else {
                if d.contains(values.last()) {
                } else {
                    assert(d.push(values.last()).last() == v);
                }
            }
        } else {
            assert(!values.drop_last().contains(v)) by {
                if values.drop_last().contains(v) {
                    let q = choose|q: int|
                        0 <= q < values.drop_last().len() && values.drop_last()[q] == v;
                    assert(values[q] == v);
                }
            }
            if !d.contains(values.last()) {
                assert forall|q: int|
                    0 <= q < d.push(values.last()).len() implies d.push(values.last())[q]
                    != v by {
                    if q < d.len() {
                        assert(d.push(values.last())[q] == d[q]);
                        if d[q] == v {
                            assert(d.contains(v));
                        }
                    } else {
                        assert(values.last() != v);
                    }
                }
            } else {
                if d.contains(v) {
                }
            }
        }
    }
}

/// Every present value occurs in the present-value sequence.
pub proof fn lemma_present_contains(rows: Seq<Option<Seq<u8>>>, k: int)
    requires
        0 <= k < rows.len(),
        rows[k] is Some,
    ensures
        present(rows).contains(rows[k]->0),
    decreases rows.len(),
{
    if k == rows.len() - 1 {
        assert(present(rows).last() == rows[k]->0);
    } else {
        lemma_present_contains(rows.drop_last(), k);
        let pre = present(rows.drop_last());
        let q = choose|q: int| 0 <= q < pre.len() && pre[q] == rows.drop_last()[k]->0;
        assert(present(rows)[q] == rows[k]->0);
    }
}

/// Builds the dictionary array at the declared key width: the distinct
/// values in first-appearance order, one key per row, zero at null rows.
/// More distinct values than the key type can index is a structural error.
#[verifier::loop_isolation(false)]
pub fn mat_dict(rows: &Vec<Option<Vec<u8>>>, key_type: IntegerType) -> (r: Result<
    ArrayData,
    DecodeError,
>)
    ensures
        ({
            let view = crate::collect::byte_rows_view(rows@);
            let dict = spec_dict(present(view));
            &&& (r is Ok <==> dict.len() <= key_capacity(key_type))
            &&& (r is Err ==> r->Err_0 == DecodeError::Malformed)
            &&& (r is Ok ==> data_view(r->Ok_0) == DataV::Dict(
                key_type,
                fill_map(view, (|b: Seq<u8>| dict_index(dict, b) as nat), 0nat),
                dict,
            ))
        }),
{
    let ghost view = crate::collect::byte_rows_view(rows@);
    let pair = build_dict(rows);
    let dict = pair.0;
    let keys = pair.1;
    let ghost dd = spec_dict(present(view));
    let dlen: usize = dict.len();
    proof {
        assert(dd.len() == dlen);
        assert forall|k: int| 0 <= k < keys@.len() implies (#[trigger] keys@[k]) < dlen || keys@[k]
            == 0 by {
            if view[k] is Some {
                lemma_present_contains(view, k);
                lemma_spec_dict_contains(present(view), view[k]->0);
                lemma_dict_index_of(dd, view[k]->0);
            }
        }
    }
    let n: usize = keys.len();
    match key_type {
        IntegerType::Int8 => {
            if dlen > 0x80 {
                return Err(DecodeError::Malformed);
            }
            let mut out: Vec<i8> = Vec::new();
            let mut i: usize = 0;
            while i < n
                invariant
                    i <= n,
                    out@.len() == i,
                    forall|k: int| 0 <= k < i ==> (#[trigger] out@[k]) as int == keys@[k] as int,
                decreases n - i,
            {
                out.push(keys[i] as i8);
                i = i + 1;
            }
            let d = ArrayData::Dictionary(crate::output::DictKeys::I8(out), dict);
            proof {
                assert(dict_keys_view(d->Dictionary_0) =~= fill_map(
                    view,
                    (|b: Seq<u8>| dict_index(dd, b) as nat),
                    0nat,
                ));
                assert(d->Dictionary_1.deep_view() == dd);
            }
            Ok(d)
        },
        IntegerType::Int16 => {
            if dlen > 0x8000 {
                return Err(DecodeError::Malformed);
            }
            let mut out: Vec<i16> = Vec::new();
            let mut i: usize = 0;
            while i < n
                invariant
                    i <= n,
                    out@.len() == i,
                    forall|k: int| 0 <= k < i ==> (#[trigger] out@[k]) as int == keys@[k] as int,
                decreases n - i,
            {
                out.push(keys[i] as i16);
                i = i + 1;
            }
            let d = ArrayData::Dictionary(crate::output::DictKeys::I16(out), dict);
            proof {
                assert(dict_keys_view(d->Dictionary_0) =~= fill_map(
                    view,
                    (|b: Seq<u8>| dict_index(dd, b) as nat),
                    0nat,
                ));
                assert(d->Dictionary_1.deep_view() == dd);
            }
            Ok(d)
        },
        IntegerType::Int32 => {
            if (dlen as u64) > 0x8000_0000u64 {
                return Err(DecodeError::Malformed);
            }
            let mut out: Vec<i32> = Vec::new();
            let mut i: usize = 0;
            while i < n
                invariant
                    i <= n,
                    out@.len() == i,
                    forall|k: int| 0 <= k < i ==> (#[trigger] out@[k]) as int == keys@[k] as int,
                decreases n - i,
            {
                out.push(keys[i] as i32);
                i = i + 1;
            }
            let d = ArrayData::Dictionary(crate::output::DictKeys::I32(out), dict);
            proof {
                assert(dict_keys_view(d->Dictionary_0) =~= fill_map(
                    view,
                    (|b: Seq<u8>| dict_index(dd, b) as nat),
                    0nat,
                ));
                assert(d->Dictionary_1.deep_view() == dd);
            }
            Ok(d)
        },
        IntegerType::Int64 => {
            if (dlen as u64) > 0x8000_0000_0000_0000u64 {
                return Err(DecodeError::Malformed);
            }
            let mut out: Vec<i64> = Vec::new();
            let mut i: usize = 0;
            while i < n
                invariant
                    i <= n,
                    out@.len() == i,
                    forall|k: int| 0 <= k < i ==> (#[trigger] out@[k]) as int == keys@[k] as int,
                decreases n - i,
            {
                out.push(keys[i] as i64);
                i = i + 1;
            }
            let d = ArrayData::Dictionary(crate::output::DictKeys::I64(out), dict);
            proof {
                assert(dict_keys_view(d->Dictionary_0) =~= fill_map(
                    view,
                    (|b: Seq<u8>| dict_index(dd, b) as nat),
                    0nat,
                ));
                assert(d->Dictionary_1.deep_view() == dd);
            }
            Ok(d)
        },
        IntegerType::UInt8 => {
            if dlen > 0x100 {
                return Err(DecodeError::Malformed);
            }
            let mut out: Vec<u8> = Vec::new();
            let mut i: usize = 0;
            while i < n
                invariant
                    i <= n,
                    out@.len() == i,
                    forall|k: int| 0 <= k < i ==> (#[trigger] out@[k]) as int == keys@[k] as int,
                decreases n - i,
            {
                out.push(keys[i] as u8);
                i = i + 1;
            }
            let d = ArrayData::Dictionary(crate::output::DictKeys::U8(out), dict);
            proof {
                assert(dict_keys_view(d->Dictionary_0) =~= fill_map(
                    view,
                    (|b: Seq<u8>| dict_index(dd, b) as nat),
                    0nat,
                ));
                assert(d->Dictionary_1.deep_view() == dd);
            }
            Ok(d)
        },
        IntegerType::UInt16 => {
            if dlen > 0x1_0000 {
                return Err(DecodeError::Malformed);
            }
            let mut out: Vec<u16> = Vec::new();
            let mut i: usize = 0;
            while i < n
                invariant
                    i <= n,
                    out@.len() == i,
                    forall|k: int| 0 <= k < i ==> (#[trigger] out@[k]) as int == keys@[k] as int,
                decreases n - i,
            {
                out.push(keys[i] as u16);
                i = i + 1;
            }
            let d = ArrayData::Dictionary(crate::output::DictKeys::U16(out), dict);
            proof {
                assert(dict_keys_view(d->Dictionary_0) =~= fill_map(
                    view,
                    (|b: Seq<u8>| dict_index(dd, b) as nat),
                    0nat,
                ));
                assert(d->Dictionary_1.deep_view() == dd);
            }
            Ok(d)
        },
        IntegerType::UInt32 => {
            if (dlen as u64) > 0x1_0000_0000u64 {
                return Err(DecodeError::Malformed);
            }
            let mut out: Vec<u32> = Vec::new();
            let mut i: usize = 0;
            while i < n
                invariant
                    i <= n,
                    out@.len() == i,
                    forall|k: int| 0 <= k < i ==> (#[trigger] out@[k]) as int == keys@[k] as int,
                decreases n - i,
            {
                out.push(keys[i] as u32);
                i = i + 1;
            }
            let d = ArrayData::Dictionary(crate::output::DictKeys::U32(out), dict);
            proof {
                assert(dict_keys_view(d->Dictionary_0) =~= fill_map(
                    view,
                    (|b: Seq<u8>| dict_index(dd, b) as nat),
                    0nat,
                ));
                assert(d->Dictionary_1.deep_view() == dd);
            }
            Ok(d)
        },
        IntegerType::UInt64 => {
            let wide: u64 = dlen as u64;
            proof {
                assert(wide as int == dlen as int);
            }
            let mut out: Vec<u64> = Vec::new();
            let mut i: usize = 0;
            while i < n
                invariant
                    i <= n,
                    out@.len() == i,
                    forall|k: int| 0 <= k < i ==> (#[trigger] out@[k]) as int == keys@[k] as int,
                decreases n - i,
            {
                out.push(keys[i] as u64);
                i = i + 1;
            }
            let d = ArrayData::Dictionary(crate::output::DictKeys::U64(out), dict);
            proof {
                assert(dict_keys_view(d->Dictionary_0) =~= fill_map(
                    view,
                    (|b: Seq<u8>| dict_index(dd, b) as nat),
                    0nat,
                ));
                assert(d->Dictionary_1.deep_view() == dd);
            }
            Ok(d)
        },
    }
}

} // verus!

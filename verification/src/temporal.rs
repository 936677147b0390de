//! Temporal decode helpers: the legacy 96-bit timestamp encoding and
//! reconciliation of on-disk and requested time units.
//!
//! A 96-bit timestamp is three little-endian `u32` words `(low, mid, day)`:
//! the first two concatenate to a signed 64-bit count of nanoseconds within
//! the day, the third is a Julian day number.  Converting to an epoch-based
//! timestamp subtracts the Julian day of 1970-01-01 and rescales.  As in the
//! on-disk format's reference decoders, the final scaling arithmetic wraps on
//! overflow; the contracts say so through `wrap64`.
use vstd::prelude::*;

verus! {

use crate::num::{
    div_trunc,
    div_trunc_i64,
    signed64,
    signed_from_u64,
    wrap64,
    lemma_wrap64_add,
};
use crate::types::{ParquetTimeUnit, PrimitiveLogicalType, TimeUnit};

pub const JULIAN_DAY_OF_EPOCH: i64 = 2_440_588;

pub const SECONDS_PER_DAY: i64 = 86_400;

/// The signed 64-bit intra-day count held by the two low words.
pub open spec fn int96_subsecond(lo: u32, mid: u32) -> int {
    signed64(mid * 0x1_0000_0000 + lo)
}

/// Seconds between the start of Julian day `day` and the epoch.
pub open spec fn epoch_day_seconds(day: u32) -> int {
    (day - JULIAN_DAY_OF_EPOCH) * SECONDS_PER_DAY
}

/// The nanosecond timestamp a 96-bit value decodes to (wrapping).
pub open spec fn int96_ns(lo: u32, mid: u32, day: u32) -> int {
    wrap64(epoch_day_seconds(day) * 1_000_000_000 + int96_subsecond(lo, mid))
}

/// The microsecond timestamp a 96-bit value decodes to (wrapping).
pub open spec fn int96_us(lo: u32, mid: u32, day: u32) -> int {
    wrap64(epoch_day_seconds(day) * 1_000_000 + div_trunc(int96_subsecond(lo, mid), 1_000))
}

/// The millisecond timestamp a 96-bit value decodes to (wrapping).
pub open spec fn int96_ms(lo: u32, mid: u32, day: u32) -> int {
    wrap64(epoch_day_seconds(day) * 1_000 + div_trunc(int96_subsecond(lo, mid), 1_000_000))
}

/// The second timestamp a 96-bit value decodes to; this one cannot wrap.
pub open spec fn int96_s(lo: u32, mid: u32, day: u32) -> int {
    epoch_day_seconds(day) + div_trunc(int96_subsecond(lo, mid), 1_000_000_000)
}

/// Concatenates the two low words into the signed intra-day count.
fn int96_subsecond_exec(lo: u32, mid: u32) -> (r: i64)
    ensures
        r as int == int96_subsecond(lo, mid),
{
    let concat: u64 = (mid as u64) * 0x1_0000_0000 + (lo as u64);
    signed_from_u64(concat)
}

/// Seconds from the epoch to the start of Julian day `day`.
fn epoch_day_seconds_exec(day: u32) -> (r: i64)
    ensures
        r as int == epoch_day_seconds(day),
{
    ((day as i64) - JULIAN_DAY_OF_EPOCH) * SECONDS_PER_DAY
}

/// Decodes a 96-bit on-disk timestamp to nanoseconds since the epoch.
pub fn int96_to_i64_ns(value: [u32; 3]) -> (r: i64)
    ensures
        r as int == int96_ns(value@[0], value@[1], value@[2]),
{
    let sub: i64 = int96_subsecond_exec(value[0], value[1]);
    let seconds: i64 = epoch_day_seconds_exec(value[2]);
    let scaled: i64 = seconds.wrapping_mul(1_000_000_000);
    let r: i64 = scaled.wrapping_add(sub);
    proof {
        lemma_wrap64_add(seconds as int * 1_000_000_000, sub as int);
    }
    r
}

/// Decodes a 96-bit on-disk timestamp to microseconds since the epoch.
pub fn int96_to_i64_us(value: [u32; 3]) -> (r: i64)
    ensures
        r as int == int96_us(value@[0], value@[1], value@[2]),
{
    let sub: i64 = int96_subsecond_exec(value[0], value[1]);
    let microseconds: i64 = div_trunc_i64(sub, 1_000);
    let seconds: i64 = epoch_day_seconds_exec(value[2]);
    let scaled: i64 = seconds.wrapping_mul(1_000_000);
    let r: i64 = scaled.wrapping_add(microseconds);
    proof {
        lemma_wrap64_add(seconds as int * 1_000_000, microseconds as int);
    }
    r
}

/// Decodes a 96-bit on-disk timestamp to milliseconds since the epoch.
pub fn int96_to_i64_ms(value: [u32; 3]) -> (r: i64)
    ensures
        r as int == int96_ms(value@[0], value@[1], value@[2]),
{
    let sub: i64 = int96_subsecond_exec(value[0], value[1]);
    let milliseconds: i64 = div_trunc_i64(sub, 1_000_000);
    let seconds: i64 = epoch_day_seconds_exec(value[2]);
    let scaled: i64 = seconds.wrapping_mul(1_000);
    let r: i64 = scaled.wrapping_add(milliseconds);
    proof {
        lemma_wrap64_add(seconds as int * 1_000, milliseconds as int);
    }
    r
}

/// Decodes a 96-bit on-disk timestamp to seconds since the epoch.
pub fn int96_to_i64_s(value: [u32; 3]) -> (r: i64)
    ensures
        r as int == int96_s(value@[0], value@[1], value@[2]),
{
    let sub: i64 = int96_subsecond_exec(value[0], value[1]);
    let seconds: i64 = div_trunc_i64(sub, 1_000_000_000);
    let day_seconds: i64 = epoch_day_seconds_exec(value[2]);
    day_seconds + seconds
}

/// The factor between the on-disk time unit and the requested one.
/// `(f, true)` means multiply each stored value by `f`; `(f, false)` means
/// divide by `f` (truncating).  A column without a timestamp annotation is
/// taken as already being in the requested unit.
pub open spec fn spec_unify_timestamp_unit(
    logical_type: Option<PrimitiveLogicalType>,
    time_unit: TimeUnit,
) -> (i64, bool) {
    match logical_type {
        Some(PrimitiveLogicalType::Timestamp { unit, is_adjusted_to_utc: _ }) => match (
            unit,
            time_unit,
        ) {
            (ParquetTimeUnit::Milliseconds, TimeUnit::Millisecond) => (1, true),
            (ParquetTimeUnit::Microseconds, TimeUnit::Microsecond) => (1, true),
            (ParquetTimeUnit::Nanoseconds, TimeUnit::Nanosecond) => (1, true),
            (ParquetTimeUnit::Milliseconds, TimeUnit::Second) => (1_000, false),
            (ParquetTimeUnit::Microseconds, TimeUnit::Millisecond) => (1_000, false),
            (ParquetTimeUnit::Nanoseconds, TimeUnit::Microsecond) => (1_000, false),
            (ParquetTimeUnit::Microseconds, TimeUnit::Second) => (1_000_000, false),
            (ParquetTimeUnit::Nanoseconds, TimeUnit::Millisecond) => (1_000_000, false),
            (ParquetTimeUnit::Nanoseconds, TimeUnit::Second) => (1_000_000_000, false),
            (ParquetTimeUnit::Milliseconds, TimeUnit::Microsecond) => (1_000, true),
            (ParquetTimeUnit::Microseconds, TimeUnit::Nanosecond) => (1_000, true),
            (ParquetTimeUnit::Milliseconds, TimeUnit::Nanosecond) => (1_000_000, true),
        },
        _ => (1, true),
    }
}

/// Reconciles the on-disk time unit with the requested in-memory unit,
/// returning the factor and whether it multiplies or divides.
pub fn unify_timestamp_unit(
    logical_type: &Option<PrimitiveLogicalType>,
    time_unit: TimeUnit,
) -> (r: (i64, bool))
    ensures
        r == spec_unify_timestamp_unit(*logical_type, time_unit),
{
    if let Some(PrimitiveLogicalType::Timestamp { unit, is_adjusted_to_utc: _ }) = logical_type {
        match (unit, time_unit) {
            (ParquetTimeUnit::Milliseconds, TimeUnit::Millisecond) => (1, true),
            (ParquetTimeUnit::Microseconds, TimeUnit::Microsecond) => (1, true),
            (ParquetTimeUnit::Nanoseconds, TimeUnit::Nanosecond) => (1, true),
            (ParquetTimeUnit::Milliseconds, TimeUnit::Second) => (1_000, false),
            (ParquetTimeUnit::Microseconds, TimeUnit::Millisecond) => (1_000, false),
            (ParquetTimeUnit::Nanoseconds, TimeUnit::Microsecond) => (1_000, false),
            (ParquetTimeUnit::Microseconds, TimeUnit::Second) => (1_000_000, false),
            (ParquetTimeUnit::Nanoseconds, TimeUnit::Millisecond) => (1_000_000, false),
            (ParquetTimeUnit::Nanoseconds, TimeUnit::Second) => (1_000_000_000, false),
            (ParquetTimeUnit::Milliseconds, TimeUnit::Microsecond) => (1_000, true),
            (ParquetTimeUnit::Microseconds, TimeUnit::Nanosecond) => (1_000, true),
            (ParquetTimeUnit::Milliseconds, TimeUnit::Nanosecond) => (1_000_000, true),
        }
    } else {
        (1, true)
    }
}

} // verus!

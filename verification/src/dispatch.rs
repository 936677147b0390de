//! The type-compatibility matrix: maps a (physical type, logical dtype)
//! pair, plus the field metadata, to the decode strategy that materializes
//! it, or to nothing when the conversion is unsupported.
//!
//! The matrix is a fixed table: selection is a pure function of the declared
//! types and the presence of an enum/categorical metadata marker, so the
//! same triple always selects the same strategy.
use vstd::prelude::*;

verus! {

use crate::temporal::spec_unify_timestamp_unit;
use crate::temporal::unify_timestamp_unit;
use crate::types::{
    IntegerType,
    IntervalUnit,
    LogicalDType,
    PhysicalType,
    PrimitiveLogicalType,
    PrimitiveType,
    TimeUnit,
};

/// How a decoded `i32` becomes the requested logical value.
#[derive(Clone, Copy, Debug, PartialEq, Eq, Structural)]
pub enum Int32Kind {
    /// Keep the value: `Int32`, `Date32`, `Time32`.
    Unit,
    ToU8,
    ToU16,
    ToU32,
    ToI8,
    ToI16,
    /// Widen to a 128-bit decimal.
    ToDec128,
    /// Widen to a 256-bit decimal.
    ToDec256,
    /// Days to milliseconds: multiply by 86 400 000.
    ToDate64,
}

/// How a decoded `i64` becomes the requested logical value.
#[derive(Clone, Copy, Debug, PartialEq, Eq, Structural)]
pub enum Int64Kind {
    /// Keep the value: `Int64`, `Time64`, `Duration`, `Date64`, and
    /// timestamps already in the requested unit.
    Unit,
    ToU32,
    ToU64,
    ToDec128,
    ToDec256,
    /// Timestamp unit refinement: multiply by the factor (wrapping).
    Mul(i64),
    /// Timestamp unit coarsening: divide by the factor (truncating).
    Div(i64),
}

/// How a fixed-length byte field becomes the requested logical value.
#[derive(Clone, Copy, Debug, PartialEq, Eq, Structural)]
pub enum FixedKind {
    /// Identity copy into a fixed-size binary array.
    Binary,
    /// 12-byte interval: months in the first four bytes, little-endian.
    YearMonth,
    /// 12-byte interval: (days, milliseconds) in the last eight bytes.
    DayTime,
    /// 16-byte field reinterpreted in place as an `i128`.
    Int128Le,
    /// Big-endian sign-extended extraction into a 128-bit decimal.
    Dec128,
    /// Big-endian sign-extended extraction into a 256-bit decimal.
    Dec256,
    /// 2-byte half-precision float widened to 32 bits.
    Half,
}

/// A decode strategy: one entry of the compatibility matrix.
#[derive(Clone, Copy, Debug, PartialEq, Eq, Structural)]
pub enum DecodeStrategy {
    /// The requested dtype is `Null`: no values, whatever the physical type.
    Null,
    Boolean,
    Int32(Int32Kind),
    Int64(Int64Kind),
    /// Legacy 96-bit timestamps, decoded straight to the requested unit.
    Int96Timestamp(TimeUnit),
    Float32,
    Float64,
    /// Fixed-length byte fields of the declared size, then the second pass.
    Fixed(usize, FixedKind),
    /// Variable-length byte fields, marked as UTF-8 when the target says so.
    BinView { is_string: bool },
    /// Dictionary with an enum/categorical marker: keys of the declared
    /// width against a dictionary of the distinct values.
    CategoricalKey(IntegerType),
    /// Dictionary without a marker: decode plain strings, then cast to the
    /// dictionary representation at the declared key width.
    StringThenCast(IntegerType),
}

/// The dtypes the engine accepts at all: plain (non-view, non-large)
/// binary/UTF-8 targets never reach a decode, and a dictionary's value type
/// is always the UTF-8 view type.
pub open spec fn dtype_shape_allowed(dtype: LogicalDType) -> bool {
    match dtype {
        LogicalDType::Binary => false,
        LogicalDType::Utf8 => false,
        LogicalDType::Dictionary(_, v, _) => *v == LogicalDType::Utf8View,
        _ => true,
    }
}

/// Whether a dictionary key type is one of the categorical key widths.
pub open spec fn spec_is_categorical_key(k: IntegerType) -> bool {
    k == IntegerType::UInt8 || k == IntegerType::UInt16 || k == IntegerType::UInt32
}

/// The strategy the Int64/Int96 timestamp recipe selects.
pub open spec fn spec_timestamp_strategy(
    physical: PhysicalType,
    logical: Option<PrimitiveLogicalType>,
    time_unit: TimeUnit,
) -> Option<DecodeStrategy> {
    if physical == PhysicalType::Int96 {
        Some(DecodeStrategy::Int96Timestamp(time_unit))
    } else if physical != PhysicalType::Int64 {
        None
    } else {
        let fm = spec_unify_timestamp_unit(logical, time_unit);
        if fm.0 == 1 {
            Some(DecodeStrategy::Int64(Int64Kind::Unit))
        } else if fm.1 {
            Some(DecodeStrategy::Int64(Int64Kind::Mul(fm.0)))
        } else {
            Some(DecodeStrategy::Int64(Int64Kind::Div(fm.0)))
        }
    }
}

/// The compatibility matrix.  `None` is an unsupported conversion; the
/// caller reports it with both type descriptors.
pub open spec fn spec_select_strategy(
    physical: PhysicalType,
    logical: Option<PrimitiveLogicalType>,
    dtype: LogicalDType,
    has_marker: bool,
) -> Option<DecodeStrategy> {
    match (physical, dtype) {
        (_, LogicalDType::Null) => Some(DecodeStrategy::Null),
        (_, LogicalDType::Dictionary(key_type, _, _)) => {
            if has_marker && spec_is_categorical_key(key_type) {
                Some(DecodeStrategy::CategoricalKey(key_type))
            } else if has_marker {
                None
            } else {
                Some(DecodeStrategy::StringThenCast(key_type))
            }
        },
        (PhysicalType::Boolean, LogicalDType::Boolean) => Some(DecodeStrategy::Boolean),
        (PhysicalType::Int32, LogicalDType::UInt8) => Some(
            DecodeStrategy::Int32(Int32Kind::ToU8),
        ),
        (PhysicalType::Int32, LogicalDType::UInt16) => Some(
            DecodeStrategy::Int32(Int32Kind::ToU16),
        ),
        (PhysicalType::Int32, LogicalDType::UInt32) => Some(
            DecodeStrategy::Int32(Int32Kind::ToU32),
        ),
        (PhysicalType::Int32, LogicalDType::Int8) => Some(DecodeStrategy::Int32(Int32Kind::ToI8)),
        (PhysicalType::Int32, LogicalDType::Int16) => Some(
            DecodeStrategy::Int32(Int32Kind::ToI16),
        ),
        (PhysicalType::Int32, LogicalDType::Int32) => Some(DecodeStrategy::Int32(Int32Kind::Unit)),
        (PhysicalType::Int32, LogicalDType::Date32) => Some(DecodeStrategy::Int32(Int32Kind::Unit)),
        (PhysicalType::Int32, LogicalDType::Time32(_)) => Some(
            DecodeStrategy::Int32(Int32Kind::Unit),
        ),
        (PhysicalType::Int32, LogicalDType::Decimal(_, _)) => Some(
            DecodeStrategy::Int32(Int32Kind::ToDec128),
        ),
        (PhysicalType::Int32, LogicalDType::Decimal256(_, _)) => Some(
            DecodeStrategy::Int32(Int32Kind::ToDec256),
        ),
        (PhysicalType::Int32, LogicalDType::Date64) => Some(
            DecodeStrategy::Int32(Int32Kind::ToDate64),
        ),
        (PhysicalType::Int64, LogicalDType::UInt32) => Some(
            DecodeStrategy::Int64(Int64Kind::ToU32),
        ),
        (PhysicalType::Int64, LogicalDType::UInt64) => Some(
            DecodeStrategy::Int64(Int64Kind::ToU64),
        ),
        (PhysicalType::Int64, LogicalDType::Int64) => Some(DecodeStrategy::Int64(Int64Kind::Unit)),
        (PhysicalType::Int64, LogicalDType::Time64(_)) => Some(
            DecodeStrategy::Int64(Int64Kind::Unit),
        ),
        (PhysicalType::Int64, LogicalDType::Duration(_)) => Some(
            DecodeStrategy::Int64(Int64Kind::Unit),
        ),
        (PhysicalType::Int64, LogicalDType::Date64) => Some(DecodeStrategy::Int64(Int64Kind::Unit)),
        (PhysicalType::Int64, LogicalDType::Decimal(_, _)) => Some(
            DecodeStrategy::Int64(Int64Kind::ToDec128),
        ),
        (PhysicalType::Int64, LogicalDType::Decimal256(_, _)) => Some(
            DecodeStrategy::Int64(Int64Kind::ToDec256),
        ),
        (_, LogicalDType::Timestamp(time_unit, _)) => {
            if physical == PhysicalType::Int64 || physical == PhysicalType::Int96 {
                spec_timestamp_strategy(physical, logical, time_unit)
            } else {
                None
            }
        },
        (PhysicalType::Float, LogicalDType::Float32) => Some(DecodeStrategy::Float32),
        (PhysicalType::Double, LogicalDType::Float64) => Some(DecodeStrategy::Float64),
        (PhysicalType::FixedLenByteArray(_), LogicalDType::FixedSizeBinary(size)) => Some(
            DecodeStrategy::Fixed(size, FixedKind::Binary),
        ),
        (
            PhysicalType::FixedLenByteArray(12),
            LogicalDType::Interval(IntervalUnit::YearMonth),
        ) => Some(DecodeStrategy::Fixed(12, FixedKind::YearMonth)),
        (PhysicalType::FixedLenByteArray(12), LogicalDType::Interval(IntervalUnit::DayTime)) => Some(
            DecodeStrategy::Fixed(12, FixedKind::DayTime),
        ),
        (PhysicalType::FixedLenByteArray(16), LogicalDType::Int128) => Some(
            DecodeStrategy::Fixed(16, FixedKind::Int128Le),
        ),
        (PhysicalType::FixedLenByteArray(n), LogicalDType::Decimal(_, _)) => {
            if n > 16 {
                None
            } else {
                Some(DecodeStrategy::Fixed(n, FixedKind::Dec128))
            }
        },
        (PhysicalType::FixedLenByteArray(n), LogicalDType::Decimal256(_, _)) => {
            if n > 32 {
                None
            } else {
                Some(DecodeStrategy::Fixed(n, FixedKind::Dec256))
            }
        },
        (PhysicalType::FixedLenByteArray(2), LogicalDType::Float32) => Some(
            DecodeStrategy::Fixed(2, FixedKind::Half),
        ),
        (PhysicalType::ByteArray, LogicalDType::LargeBinary) => Some(
            DecodeStrategy::BinView { is_string: false },
        ),
        (PhysicalType::ByteArray, LogicalDType::LargeUtf8) => Some(
            (DecodeStrategy::BinView { is_string: true }),
        ),
        (PhysicalType::ByteArray, LogicalDType::BinaryView) => Some(
            (DecodeStrategy::BinView { is_string: false }),
        ),
        (PhysicalType::ByteArray, LogicalDType::Utf8View) => Some(
            (DecodeStrategy::BinView { is_string: true }),
        ),
        _ => None,
    }
}

/// Selects the decode strategy for a column, or nothing when the matrix has
/// no entry for the pair.
pub fn select_strategy(type_: &PrimitiveType, dtype: &LogicalDType, has_marker: bool) -> (r: Option<
    DecodeStrategy,
>)
    requires
        dtype_shape_allowed(*dtype),
    ensures
        r == spec_select_strategy(type_.physical_type, type_.logical_type, *dtype, has_marker),
{
    let physical = type_.physical_type;
    match (physical, dtype) {
        (_, LogicalDType::Null) => Some(DecodeStrategy::Null),
        (_, LogicalDType::Dictionary(key_type, _, _)) => {
            let categorical_key = match key_type {
                IntegerType::UInt8 => true,
                IntegerType::UInt16 => true,
                IntegerType::UInt32 => true,
                _ => false,
            };
            if has_marker && categorical_key {
                Some(DecodeStrategy::CategoricalKey(*key_type))
            } else if has_marker {
                None
            } else {
                Some(DecodeStrategy::StringThenCast(*key_type))
            }
        },
        (PhysicalType::Boolean, LogicalDType::Boolean) => Some(DecodeStrategy::Boolean),
        (PhysicalType::Int32, LogicalDType::UInt8) => Some(
            DecodeStrategy::Int32(Int32Kind::ToU8),
        ),
        (PhysicalType::Int32, LogicalDType::UInt16) => Some(
            DecodeStrategy::Int32(Int32Kind::ToU16),
        ),
        (PhysicalType::Int32, LogicalDType::UInt32) => Some(
            DecodeStrategy::Int32(Int32Kind::ToU32),
        ),
        (PhysicalType::Int32, LogicalDType::Int8) => Some(DecodeStrategy::Int32(Int32Kind::ToI8)),
        (PhysicalType::Int32, LogicalDType::Int16) => Some(
            DecodeStrategy::Int32(Int32Kind::ToI16),
        ),
        (PhysicalType::Int32, LogicalDType::Int32) => Some(DecodeStrategy::Int32(Int32Kind::Unit)),
        (PhysicalType::Int32, LogicalDType::Date32) => Some(DecodeStrategy::Int32(Int32Kind::Unit)),
        (PhysicalType::Int32, LogicalDType::Time32(_)) => Some(
            DecodeStrategy::Int32(Int32Kind::Unit),
        ),
        (PhysicalType::Int32, LogicalDType::Decimal(_, _)) => Some(
            DecodeStrategy::Int32(Int32Kind::ToDec128),
        ),
        (PhysicalType::Int32, LogicalDType::Decimal256(_, _)) => Some(
            DecodeStrategy::Int32(Int32Kind::ToDec256),
        ),
        (PhysicalType::Int32, LogicalDType::Date64) => Some(
            DecodeStrategy::Int32(Int32Kind::ToDate64),
        ),
        (PhysicalType::Int64, LogicalDType::UInt32) => Some(
            DecodeStrategy::Int64(Int64Kind::ToU32),
        ),
        (PhysicalType::Int64, LogicalDType::UInt64) => Some(
            DecodeStrategy::Int64(Int64Kind::ToU64),
        ),
        (PhysicalType::Int64, LogicalDType::Int64) => Some(DecodeStrategy::Int64(Int64Kind::Unit)),
        (PhysicalType::Int64, LogicalDType::Time64(_)) => Some(
            DecodeStrategy::Int64(Int64Kind::Unit),
        ),
        (PhysicalType::Int64, LogicalDType::Duration(_)) => Some(
            DecodeStrategy::Int64(Int64Kind::Unit),
        ),
        (PhysicalType::Int64, LogicalDType::Date64) => Some(DecodeStrategy::Int64(Int64Kind::Unit)),
        (PhysicalType::Int64, LogicalDType::Decimal(_, _)) => Some(
            DecodeStrategy::Int64(Int64Kind::ToDec128),
        ),
        (PhysicalType::Int64, LogicalDType::Decimal256(_, _)) => Some(
            DecodeStrategy::Int64(Int64Kind::ToDec256),
        ),
        (_, LogicalDType::Timestamp(time_unit, _)) => {
            if physical == PhysicalType::Int64 || physical == PhysicalType::Int96 {
                timestamp_strategy(physical, &type_.logical_type, *time_unit)
            } else {
                None
            }
        },
        (PhysicalType::Float, LogicalDType::Float32) => Some(DecodeStrategy::Float32),
        (PhysicalType::Double, LogicalDType::Float64) => Some(DecodeStrategy::Float64),
        (PhysicalType::FixedLenByteArray(_), LogicalDType::FixedSizeBinary(size)) => Some(
            DecodeStrategy::Fixed(*size, FixedKind::Binary),
        ),
        (
            PhysicalType::FixedLenByteArray(12),
            LogicalDType::Interval(IntervalUnit::YearMonth),
        ) => Some(DecodeStrategy::Fixed(12, FixedKind::YearMonth)),
        (PhysicalType::FixedLenByteArray(12), LogicalDType::Interval(IntervalUnit::DayTime)) => Some(
            DecodeStrategy::Fixed(12, FixedKind::DayTime),
        ),
        (PhysicalType::FixedLenByteArray(16), LogicalDType::Int128) => Some(
            DecodeStrategy::Fixed(16, FixedKind::Int128Le),
        ),
        (PhysicalType::FixedLenByteArray(n), LogicalDType::Decimal(_, _)) => {
            if n > 16 {
                None
            } else {
                Some(DecodeStrategy::Fixed(n, FixedKind::Dec128))
            }
        },
        (PhysicalType::FixedLenByteArray(n), LogicalDType::Decimal256(_, _)) => {
            if n > 32 {
                None
            } else {
                Some(DecodeStrategy::Fixed(n, FixedKind::Dec256))
            }
        },
        (PhysicalType::FixedLenByteArray(2), LogicalDType::Float32) => Some(
            DecodeStrategy::Fixed(2, FixedKind::Half),
        ),
        (PhysicalType::ByteArray, LogicalDType::LargeBinary) => Some(
            (DecodeStrategy::BinView { is_string: false }),
        ),
        (PhysicalType::ByteArray, LogicalDType::LargeUtf8) => Some(
            (DecodeStrategy::BinView { is_string: true }),
        ),
        (PhysicalType::ByteArray, LogicalDType::BinaryView) => Some(
            (DecodeStrategy::BinView { is_string: false }),
        ),
        (PhysicalType::ByteArray, LogicalDType::Utf8View) => Some(
            (DecodeStrategy::BinView { is_string: true }),
        ),
        _ => None,
    }
}

/// Selects the strategy for a timestamp column: 96-bit values decode by
/// unit directly; 64-bit values scale by the unified unit factor; nothing
/// else can decode to a timestamp.
pub fn timestamp_strategy(
    physical: PhysicalType,
    logical_type: &Option<PrimitiveLogicalType>,
    time_unit: TimeUnit,
) -> (r: Option<DecodeStrategy>)
    ensures
        r == spec_timestamp_strategy(physical, *logical_type, time_unit),
{
    if physical == PhysicalType::Int96 {
        return Some(DecodeStrategy::Int96Timestamp(time_unit));
    }
    if physical != PhysicalType::Int64 {
        return None;
    }
    let fm = unify_timestamp_unit(logical_type, time_unit);
    let factor: i64 = fm.0;
    let is_multiplier: bool = fm.1;
    if factor == 1 {
        Some(DecodeStrategy::Int64(Int64Kind::Unit))
    } else if is_multiplier {
        Some(DecodeStrategy::Int64(Int64Kind::Mul(factor)))
    } else {
        Some(DecodeStrategy::Int64(Int64Kind::Div(factor)))
    }
}


/// The size and factor invariants every strategy the matrix selects obeys.
pub open spec fn strategy_wf(s: DecodeStrategy) -> bool {
    match s {
        DecodeStrategy::Fixed(size, kind) => match kind {
            FixedKind::Binary => true,
            FixedKind::YearMonth => size == 12,
            FixedKind::DayTime => size == 12,
            FixedKind::Int128Le => size == 16,
            FixedKind::Dec128 => size <= 16,
            FixedKind::Dec256 => size <= 32,
            FixedKind::Half => size == 2,
        },
        DecodeStrategy::Int64(Int64Kind::Div(a)) => a == 1_000 || a == 1_000_000 || a
            == 1_000_000_000,
        DecodeStrategy::CategoricalKey(k) => spec_is_categorical_key(k),
        _ => true,
    }
}

/// Every strategy the matrix hands out is well formed.
pub proof fn lemma_strategy_wf(
    physical: PhysicalType,
    logical: Option<PrimitiveLogicalType>,
    dtype: LogicalDType,
    has_marker: bool,
)
    ensures
        spec_select_strategy(physical, logical, dtype, has_marker) is Some ==> strategy_wf(
            spec_select_strategy(physical, logical, dtype, has_marker)->0,
        ),
{
}

} // verus!

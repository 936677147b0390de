use pagedec::convert::{
    convert_days_ms, convert_f16, convert_i128, convert_i128_le, convert_i256, convert_year_month,
    f16_to_f32_bits, i256_from_i128, I256,
};
use pagedec::dispatch::{
    select_strategy, DecodeStrategy, FixedKind, Int32Kind, Int64Kind,
};
use pagedec::temporal::{
    int96_to_i64_ms, int96_to_i64_ns, int96_to_i64_s, int96_to_i64_us, unify_timestamp_unit,
};
use pagedec::types::{
    has_enum_marker, IntegerType, IntervalUnit, LogicalDType, ParquetTimeUnit, PhysicalType,
    PrimitiveLogicalType, PrimitiveType, TimeUnit,
};

#[test]
fn int96_epoch_day_decodes_to_zero_at_every_unit() {
    let v = [0u32, 0u32, 2_440_588u32];
    assert_eq!(int96_to_i64_ns(v), 0);
    assert_eq!(int96_to_i64_us(v), 0);
    assert_eq!(int96_to_i64_ms(v), 0);
    assert_eq!(int96_to_i64_s(v), 0);
}

#[test]
fn int96_one_day_after_epoch() {
    let v = [0u32, 0u32, 2_440_589u32];
    assert_eq!(int96_to_i64_s(v), 86_400);
    assert_eq!(int96_to_i64_ms(v), 86_400_000);
    assert_eq!(int96_to_i64_us(v), 86_400_000_000);
    assert_eq!(int96_to_i64_ns(v), 86_400_000_000_000);
}

#[test]
fn int96_subsecond_division_truncates() {
    // 1500 nanoseconds within the epoch day.
    let v = [1500u32, 0u32, 2_440_588u32];
    assert_eq!(int96_to_i64_ns(v), 1500);
    assert_eq!(int96_to_i64_us(v), 1);
    assert_eq!(int96_to_i64_ms(v), 0);
    assert_eq!(int96_to_i64_s(v), 0);
}

#[test]
fn unify_covers_the_unit_pairs() {
    let ts = |unit| {
        Some(PrimitiveLogicalType::Timestamp {
            unit,
            is_adjusted_to_utc: false,
        })
    };
    assert_eq!(
        unify_timestamp_unit(&ts(ParquetTimeUnit::Milliseconds), TimeUnit::Millisecond),
        (1, true)
    );
    assert_eq!(
        unify_timestamp_unit(&ts(ParquetTimeUnit::Milliseconds), TimeUnit::Microsecond),
        (1_000, true)
    );
    assert_eq!(
        unify_timestamp_unit(&ts(ParquetTimeUnit::Milliseconds), TimeUnit::Nanosecond),
        (1_000_000, true)
    );
    assert_eq!(
        unify_timestamp_unit(&ts(ParquetTimeUnit::Milliseconds), TimeUnit::Second),
        (1_000, false)
    );
    assert_eq!(
        unify_timestamp_unit(&ts(ParquetTimeUnit::Nanoseconds), TimeUnit::Millisecond),
        (1_000_000, false)
    );
    assert_eq!(
        unify_timestamp_unit(&ts(ParquetTimeUnit::Nanoseconds), TimeUnit::Second),
        (1_000_000_000, false)
    );
    assert_eq!(unify_timestamp_unit(&None, TimeUnit::Second), (1, true));
    assert_eq!(
        unify_timestamp_unit(&Some(PrimitiveLogicalType::String), TimeUnit::Second),
        (1, true)
    );
}

#[test]
fn decimal_extraction_sign_extends() {
    // A 4-byte field of all set bits is minus one, not 4294967295.
    let b = [0xffu8, 0xff, 0xff, 0xff];
    assert_eq!(convert_i128(&b, 4), -1);
}

#[test]
fn decimal_extraction_small_fields() {
    assert_eq!(convert_i128(&[0x7f, 0xff], 2), 32767);
    assert_eq!(convert_i128(&[0x80, 0x00], 2), -32768);
    assert_eq!(convert_i128(&[0x01], 1), 1);
    assert_eq!(convert_i128(&[], 0), 0);
    let sixteen = [
        0x80u8, 0, 0, 0, 0, 0, 0, 0, 0, 0, 0, 0, 0, 0, 0, 0,
    ];
    assert_eq!(convert_i128(&sixteen, 16), i128::MIN);
}

#[test]
fn decimal256_extraction() {
    // 17-byte field: 0x01 followed by sixteen 0x00 bytes is 2^128.
    let mut b = vec![0u8; 17];
    b[0] = 0x01;
    let r = convert_i256(&b);
    assert_eq!(r, I256 { hi: 1, lo: 0 });
    // All set bytes are minus one at any width.
    let r = convert_i256(&vec![0xffu8; 20]);
    assert_eq!(r, I256 { hi: -1, lo: u128::MAX });
    // Small widths go through the 128-bit path.
    let r = convert_i256(&[0xff, 0xff]);
    assert_eq!(r, i256_from_i128(-1));
}

#[test]
fn int128_little_endian_reinterpretation() {
    let x: i128 = -123_456_789_012_345;
    let b = x.to_le_bytes();
    assert_eq!(convert_i128_le(&b), x);
}

#[test]
fn interval_fields_decode() {
    let mut b = vec![0u8; 12];
    b[0..4].copy_from_slice(&15i32.to_le_bytes());
    b[4..8].copy_from_slice(&7i32.to_le_bytes());
    b[8..12].copy_from_slice(&(-250i32).to_le_bytes());
    assert_eq!(convert_year_month(&b), 15);
    let dm = convert_days_ms(&b);
    assert_eq!(dm.days, 7);
    assert_eq!(dm.milliseconds, -250);
}

#[test]
fn half_precision_widens_exactly() {
    assert_eq!(f32::from_bits(f16_to_f32_bits(0x3C00)), 1.0f32);
    assert_eq!(f32::from_bits(f16_to_f32_bits(0xC000)), -2.0f32);
    assert_eq!(f32::from_bits(f16_to_f32_bits(0x0000)), 0.0f32);
    assert_eq!(f16_to_f32_bits(0x8000), 0x8000_0000);
    // Smallest subnormal: 2^-24.
    assert_eq!(f32::from_bits(f16_to_f32_bits(0x0001)), 5.9604645e-8f32);
    // Largest subnormal.
    assert_eq!(f32::from_bits(f16_to_f32_bits(0x03FF)), 6.097555e-5f32);
    // Infinities and NaN payloads.
    assert_eq!(f16_to_f32_bits(0x7C00), 0x7F80_0000);
    assert_eq!(f16_to_f32_bits(0xFC00), 0xFF80_0000);
    assert!(f32::from_bits(f16_to_f32_bits(0x7E00)).is_nan());
    // Largest finite value 65504.
    assert_eq!(f32::from_bits(f16_to_f32_bits(0x7BFF)), 65504.0f32);
    let b = 0x4248u16.to_le_bytes();
    assert_eq!(f32::from_bits(convert_f16(&b)), 3.140625f32);
}

fn ptype(physical: PhysicalType) -> PrimitiveType {
    PrimitiveType {
        physical_type: physical,
        logical_type: None,
    }
}

#[test]
fn dispatch_selects_documented_strategies() {
    assert_eq!(
        select_strategy(&ptype(PhysicalType::Int32), &LogicalDType::UInt8, false),
        Some(DecodeStrategy::Int32(Int32Kind::ToU8))
    );
    assert_eq!(
        select_strategy(&ptype(PhysicalType::Int32), &LogicalDType::Date64, false),
        Some(DecodeStrategy::Int32(Int32Kind::ToDate64))
    );
    assert_eq!(
        select_strategy(&ptype(PhysicalType::Int64), &LogicalDType::UInt64, false),
        Some(DecodeStrategy::Int64(Int64Kind::ToU64))
    );
    assert_eq!(
        select_strategy(&ptype(PhysicalType::Boolean), &LogicalDType::Boolean, false),
        Some(DecodeStrategy::Boolean)
    );
    assert_eq!(
        select_strategy(
            &ptype(PhysicalType::FixedLenByteArray(16)),
            &LogicalDType::Int128,
            false
        ),
        Some(DecodeStrategy::Fixed(16, FixedKind::Int128Le))
    );
    assert_eq!(
        select_strategy(
            &ptype(PhysicalType::FixedLenByteArray(12)),
            &LogicalDType::Interval(IntervalUnit::DayTime),
            false
        ),
        Some(DecodeStrategy::Fixed(12, FixedKind::DayTime))
    );
    assert_eq!(
        select_strategy(
            &ptype(PhysicalType::FixedLenByteArray(2)),
            &LogicalDType::Float32,
            false
        ),
        Some(DecodeStrategy::Fixed(2, FixedKind::Half))
    );
    assert_eq!(
        select_strategy(&ptype(PhysicalType::ByteArray), &LogicalDType::Utf8View, false),
        Some(DecodeStrategy::BinView { is_string: true })
    );
    assert_eq!(
        select_strategy(&ptype(PhysicalType::Int96), &LogicalDType::Int64, false),
        None
    );
    assert_eq!(
        select_strategy(&ptype(PhysicalType::Float), &LogicalDType::Float64, false),
        None
    );
}

#[test]
fn dispatch_rejects_overwide_decimals() {
    // Decimal128 from a 17-byte field must not be selected.
    assert_eq!(
        select_strategy(
            &ptype(PhysicalType::FixedLenByteArray(17)),
            &LogicalDType::Decimal(38, 2),
            false
        ),
        None
    );
    assert_eq!(
        select_strategy(
            &ptype(PhysicalType::FixedLenByteArray(16)),
            &LogicalDType::Decimal(38, 2),
            false
        ),
        Some(DecodeStrategy::Fixed(16, FixedKind::Dec128))
    );
    assert_eq!(
        select_strategy(
            &ptype(PhysicalType::FixedLenByteArray(33)),
            &LogicalDType::Decimal256(76, 0),
            false
        ),
        None
    );
    assert_eq!(
        select_strategy(
            &ptype(PhysicalType::FixedLenByteArray(32)),
            &LogicalDType::Decimal256(76, 0),
            false
        ),
        Some(DecodeStrategy::Fixed(32, FixedKind::Dec256))
    );
}

#[test]
fn dispatch_timestamps_by_unit_factor() {
    let ts = PrimitiveType {
        physical_type: PhysicalType::Int64,
        logical_type: Some(PrimitiveLogicalType::Timestamp {
            unit: ParquetTimeUnit::Milliseconds,
            is_adjusted_to_utc: true,
        }),
    };
    assert_eq!(
        select_strategy(&ts, &LogicalDType::Timestamp(TimeUnit::Microsecond, None), false),
        Some(DecodeStrategy::Int64(Int64Kind::Mul(1000)))
    );
    assert_eq!(
        select_strategy(&ts, &LogicalDType::Timestamp(TimeUnit::Second, None), false),
        Some(DecodeStrategy::Int64(Int64Kind::Div(1000)))
    );
    assert_eq!(
        select_strategy(&ts, &LogicalDType::Timestamp(TimeUnit::Millisecond, None), false),
        Some(DecodeStrategy::Int64(Int64Kind::Unit))
    );
    let ts96 = PrimitiveType {
        physical_type: PhysicalType::Int96,
        logical_type: None,
    };
    assert_eq!(
        select_strategy(&ts96, &LogicalDType::Timestamp(TimeUnit::Nanosecond, None), false),
        Some(DecodeStrategy::Int96Timestamp(TimeUnit::Nanosecond))
    );
    // A timestamp from a 32-bit physical column has no matrix entry.
    assert_eq!(
        select_strategy(
            &ptype(PhysicalType::Int32),
            &LogicalDType::Timestamp(TimeUnit::Second, None),
            false
        ),
        None
    );
}

#[test]
fn dictionary_dispatch_depends_on_marker() {
    let dict = LogicalDType::Dictionary(
        IntegerType::UInt8,
        Box::new(LogicalDType::Utf8View),
        false,
    );
    assert_eq!(
        select_strategy(&ptype(PhysicalType::ByteArray), &dict, true),
        Some(DecodeStrategy::CategoricalKey(IntegerType::UInt8))
    );
    assert_eq!(
        select_strategy(&ptype(PhysicalType::ByteArray), &dict, false),
        Some(DecodeStrategy::StringThenCast(IntegerType::UInt8))
    );
    // Without a marker every key width goes through the cast path; with a
    // marker only the three unsigned categorical widths have an entry.
    let wide = LogicalDType::Dictionary(
        IntegerType::Int32,
        Box::new(LogicalDType::Utf8View),
        false,
    );
    assert_eq!(
        select_strategy(&ptype(PhysicalType::ByteArray), &wide, false),
        Some(DecodeStrategy::StringThenCast(IntegerType::Int32))
    );
    assert_eq!(select_strategy(&ptype(PhysicalType::ByteArray), &wide, true), None);
}

#[test]
fn metadata_markers_are_recognized() {
    let md = Some(vec![(String::from("_PL_ENUM_VALUES"), String::from("a;b"))]);
    assert!(has_enum_marker(&md));
    let md = Some(vec![(String::from("PL.CATEGORICAL"), String::new())]);
    assert!(has_enum_marker(&md));
    let md = Some(vec![(String::from("other"), String::new())]);
    assert!(!has_enum_marker(&md));
    assert!(!has_enum_marker(&None));
}

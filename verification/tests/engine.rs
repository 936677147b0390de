use pagedec::convert::{DaysMs, I256};
use pagedec::engine::page_iter_to_array;
use pagedec::output::{Array, ArrayData, DictKeys, Filter, InitNested, Page};
use pagedec::types::{
    DecodeError, Field, IntegerType, IntervalUnit, LogicalDType, ParquetTimeUnit, PhysicalType,
    PrimitiveLogicalType, PrimitiveType, TimeUnit,
};

fn ptype(physical: PhysicalType) -> PrimitiveType {
    PrimitiveType {
        physical_type: physical,
        logical_type: None,
    }
}

fn field(dtype: LogicalDType) -> Field {
    Field {
        name: String::from("col"),
        dtype,
        metadata: None,
    }
}

fn i32_page(values: &[i32], validity: Vec<bool>) -> Page {
    let mut buffer = Vec::new();
    for v in values {
        buffer.extend_from_slice(&v.to_le_bytes());
    }
    Page { buffer, validity }
}

fn i64_page(values: &[i64], validity: Vec<bool>) -> Page {
    let mut buffer = Vec::new();
    for v in values {
        buffer.extend_from_slice(&v.to_le_bytes());
    }
    Page { buffer, validity }
}

fn string_page(values: &[&str], validity: Vec<bool>) -> Page {
    let mut buffer = Vec::new();
    for v in values {
        buffer.extend_from_slice(&(v.len() as u32).to_le_bytes());
        buffer.extend_from_slice(v.as_bytes());
    }
    Page { buffer, validity }
}

fn decode(
    pages: &Vec<Page>,
    type_: &PrimitiveType,
    f: Field,
    filter: Option<Filter>,
) -> (Array, Vec<bool>) {
    let (nested, array, bitmap) = page_iter_to_array(pages, type_, f, filter, None).unwrap();
    assert!(nested.is_none());
    (array, bitmap)
}

#[test]
fn int32_identity_column() {
    let pages = vec![i32_page(&[1, -2, 3], vec![true, true, true])];
    let (array, bitmap) = decode(&pages, &ptype(PhysicalType::Int32), field(LogicalDType::Int32), None);
    assert_eq!(array.dtype, LogicalDType::Int32);
    assert_eq!(array.data, ArrayData::Int32(vec![1, -2, 3]));
    assert_eq!(bitmap, vec![true, true, true]);
}

#[test]
fn validity_spreads_values_and_marks_nulls() {
    let pages = vec![i32_page(&[7, 9], vec![true, false, true])];
    let (array, bitmap) = decode(&pages, &ptype(PhysicalType::Int32), field(LogicalDType::Int32), None);
    assert_eq!(array.data, ArrayData::Int32(vec![7, 0, 9]));
    assert_eq!(bitmap, vec![true, false, true]);
}

#[test]
fn pages_concatenate_in_order() {
    let pages = vec![
        i32_page(&[1], vec![true]),
        i32_page(&[2, 3], vec![true, true]),
    ];
    let (array, bitmap) = decode(&pages, &ptype(PhysicalType::Int32), field(LogicalDType::Int32), None);
    assert_eq!(array.data, ArrayData::Int32(vec![1, 2, 3]));
    assert_eq!(bitmap.len(), 3);
}

#[test]
fn unsupported_pair_reports_both_sides() {
    let pages = vec![i32_page(&[1], vec![true])];
    let r = page_iter_to_array(
        &pages,
        &ptype(PhysicalType::FixedLenByteArray(17)),
        field(LogicalDType::Decimal(38, 2)),
        None,
        None,
    );
    assert_eq!(
        r.unwrap_err(),
        DecodeError::NotSupported {
            from: PhysicalType::FixedLenByteArray(17),
            to: LogicalDType::Decimal(38, 2),
        }
    );
}

#[test]
fn malformed_page_is_fatal() {
    // Three valid rows but bytes for only two values.
    let page = Page {
        buffer: vec![0u8; 8],
        validity: vec![true, true, true],
    };
    let r = page_iter_to_array(
        &vec![page],
        &ptype(PhysicalType::Int32),
        field(LogicalDType::Int32),
        None,
        None,
    );
    assert_eq!(r.unwrap_err(), DecodeError::Malformed);
}

#[test]
fn identity_filters_change_nothing() {
    let pages = vec![i32_page(&[4, 5, 6], vec![true, true, true])];
    let base = decode(&pages, &ptype(PhysicalType::Int32), field(LogicalDType::Int32), None);
    let ranged = decode(
        &pages,
        &ptype(PhysicalType::Int32),
        field(LogicalDType::Int32),
        Some(Filter::Range(0, 100)),
    );
    let masked = decode(
        &pages,
        &ptype(PhysicalType::Int32),
        field(LogicalDType::Int32),
        Some(Filter::Mask(vec![true, true, true])),
    );
    assert_eq!(base.0.data, ranged.0.data);
    assert_eq!(base.1, ranged.1);
    assert_eq!(base.0.data, masked.0.data);
    assert_eq!(base.1, masked.1);
}

#[test]
fn range_filter_selects_rows() {
    let pages = vec![i32_page(&[10, 20, 30, 40], vec![true, true, true, true])];
    let (array, bitmap) = decode(
        &pages,
        &ptype(PhysicalType::Int32),
        field(LogicalDType::Int32),
        Some(Filter::Range(1, 3)),
    );
    assert_eq!(array.data, ArrayData::Int32(vec![20, 30]));
    assert_eq!(bitmap, vec![true, true]);
}

#[test]
fn mask_filter_selects_rows_and_checks_length() {
    let pages = vec![i32_page(&[10, 20, 30], vec![true, true, true])];
    let (array, _) = decode(
        &pages,
        &ptype(PhysicalType::Int32),
        field(LogicalDType::Int32),
        Some(Filter::Mask(vec![true, false, true])),
    );
    assert_eq!(array.data, ArrayData::Int32(vec![10, 30]));
    // A short mask acts as a row budget: only its rows are read.
    let (array, _) = decode(
        &pages,
        &ptype(PhysicalType::Int32),
        field(LogicalDType::Int32),
        Some(Filter::Mask(vec![true, false])),
    );
    assert_eq!(array.data, ArrayData::Int32(vec![10]));
    // A mask longer than the column cannot fit its rows.
    let r = page_iter_to_array(
        &pages,
        &ptype(PhysicalType::Int32),
        field(LogicalDType::Int32),
        Some(Filter::Mask(vec![true, false, true, true])),
        None,
    );
    assert_eq!(r.unwrap_err(), DecodeError::Malformed);
}

#[test]
fn timestamp_milliseconds_to_microseconds_multiplies() {
    let t = PrimitiveType {
        physical_type: PhysicalType::Int64,
        logical_type: Some(PrimitiveLogicalType::Timestamp {
            unit: ParquetTimeUnit::Milliseconds,
            is_adjusted_to_utc: false,
        }),
    };
    let pages = vec![i64_page(&[5, -7], vec![true, true])];
    let (array, _) = decode(
        &pages,
        &t,
        field(LogicalDType::Timestamp(TimeUnit::Microsecond, None)),
        None,
    );
    assert_eq!(array.data, ArrayData::Int64(vec![5_000, -7_000]));
}

#[test]
fn timestamp_nanoseconds_to_milliseconds_divides_toward_zero() {
    let t = PrimitiveType {
        physical_type: PhysicalType::Int64,
        logical_type: Some(PrimitiveLogicalType::Timestamp {
            unit: ParquetTimeUnit::Nanoseconds,
            is_adjusted_to_utc: false,
        }),
    };
    let pages = vec![i64_page(&[2_500_000, -2_500_000], vec![true, true])];
    let (array, _) = decode(
        &pages,
        &t,
        field(LogicalDType::Timestamp(TimeUnit::Millisecond, None)),
        None,
    );
    assert_eq!(array.data, ArrayData::Int64(vec![2, -2]));
}

#[test]
fn int96_timestamp_column() {
    let mut buffer = Vec::new();
    for w in [0u32, 0u32, 2_440_589u32] {
        buffer.extend_from_slice(&w.to_le_bytes());
    }
    let pages = vec![Page {
        buffer,
        validity: vec![true],
    }];
    let t = PrimitiveType {
        physical_type: PhysicalType::Int96,
        logical_type: None,
    };
    let (array, _) = decode(
        &pages,
        &t,
        field(LogicalDType::Timestamp(TimeUnit::Second, None)),
        None,
    );
    assert_eq!(array.data, ArrayData::Int64(vec![86_400]));
}

#[test]
fn decimal_from_fixed_field_sign_extends() {
    let pages = vec![Page {
        buffer: vec![0xff, 0xff, 0xff, 0xff, 0x00, 0x00, 0x00, 0x2a],
        validity: vec![true, true],
    }];
    let (array, _) = decode(
        &pages,
        &ptype(PhysicalType::FixedLenByteArray(4)),
        field(LogicalDType::Decimal(9, 2)),
        None,
    );
    assert_eq!(array.data, ArrayData::Int128(vec![-1, 42]));
}

#[test]
fn decimal256_from_wide_fixed_field() {
    let mut buffer = vec![0u8; 20];
    buffer[0] = 0x01;
    let pages = vec![Page {
        buffer,
        validity: vec![true],
    }];
    let (array, _) = decode(
        &pages,
        &ptype(PhysicalType::FixedLenByteArray(20)),
        field(LogicalDType::Decimal256(60, 0)),
        None,
    );
    // 0x01 followed by nineteen zero bytes is 256^19 == 2^24 * 2^128.
    assert_eq!(array.data, ArrayData::Int256(vec![I256 { hi: 1 << 24, lo: 0 }]));
}

#[test]
fn int128_from_sixteen_byte_field() {
    let x: i128 = -99_000_000_000_000_000_000_000_000i128;
    let pages = vec![Page {
        buffer: x.to_le_bytes().to_vec(),
        validity: vec![true],
    }];
    let (array, _) = decode(
        &pages,
        &ptype(PhysicalType::FixedLenByteArray(16)),
        field(LogicalDType::Int128),
        None,
    );
    assert_eq!(array.data, ArrayData::Int128(vec![x]));
}

#[test]
fn day_time_interval_column() {
    let mut buffer = vec![0u8; 12];
    buffer[4..8].copy_from_slice(&3i32.to_le_bytes());
    buffer[8..12].copy_from_slice(&777i32.to_le_bytes());
    let pages = vec![Page {
        buffer,
        validity: vec![true],
    }];
    let (array, _) = decode(
        &pages,
        &ptype(PhysicalType::FixedLenByteArray(12)),
        field(LogicalDType::Interval(IntervalUnit::DayTime)),
        None,
    );
    assert_eq!(
        array.data,
        ArrayData::DaysMs(vec![DaysMs {
            days: 3,
            milliseconds: 777
        }])
    );
}

#[test]
fn half_precision_column() {
    let pages = vec![Page {
        buffer: vec![0x00, 0x3C, 0x00, 0xC0],
        validity: vec![true, true],
    }];
    let (array, _) = decode(
        &pages,
        &ptype(PhysicalType::FixedLenByteArray(2)),
        field(LogicalDType::Float32),
        None,
    );
    match array.data {
        ArrayData::Float32Bits(bits) => {
            assert_eq!(f32::from_bits(bits[0]), 1.0f32);
            assert_eq!(f32::from_bits(bits[1]), -2.0f32);
        }
        other => panic!("unexpected data {:?}", other),
    }
}

#[test]
fn fixed_size_binary_identity_copy() {
    let pages = vec![Page {
        buffer: vec![1, 2, 3, 4, 5, 6],
        validity: vec![true, false, true],
    }];
    let (array, bitmap) = decode(
        &pages,
        &ptype(PhysicalType::FixedLenByteArray(3)),
        field(LogicalDType::FixedSizeBinary(3)),
        None,
    );
    assert_eq!(
        array.data,
        ArrayData::FixedSizeBinary(3, vec![1, 2, 3, 0, 0, 0, 4, 5, 6])
    );
    assert_eq!(bitmap, vec![true, false, true]);
}

#[test]
fn fixed_size_binary_length_mismatch_is_malformed() {
    // Physical fields are 4 bytes, declared logical width is 3.
    let pages = vec![Page {
        buffer: vec![1, 2, 3, 4, 5, 6, 7, 8],
        validity: vec![true, true],
    }];
    let r = page_iter_to_array(
        &pages,
        &ptype(PhysicalType::FixedLenByteArray(4)),
        field(LogicalDType::FixedSizeBinary(3)),
        None,
        None,
    );
    assert_eq!(r.unwrap_err(), DecodeError::Malformed);
}

#[test]
fn boolean_bit_packed_column() {
    // Values 1,0,1,1,0 packed LSB-first into one byte.
    let pages = vec![Page {
        buffer: vec![0b01101u8],
        validity: vec![true; 5],
    }];
    let (array, _) = decode(
        &pages,
        &ptype(PhysicalType::Boolean),
        field(LogicalDType::Boolean),
        None,
    );
    assert_eq!(
        array.data,
        ArrayData::Boolean(vec![true, false, true, true, false])
    );
}

#[test]
fn large_utf8_column() {
    let pages = vec![string_page(&["hello", "", "world"], vec![true, true, false, true])];
    let (array, bitmap) = decode(
        &pages,
        &ptype(PhysicalType::ByteArray),
        field(LogicalDType::LargeUtf8),
        None,
    );
    assert_eq!(
        array.data,
        ArrayData::VarBinary(vec![
            b"hello".to_vec(),
            Vec::new(),
            Vec::new(),
            b"world".to_vec()
        ])
    );
    assert_eq!(bitmap, vec![true, true, false, true]);
}

#[test]
fn dictionary_with_marker_builds_categorical_keys() {
    let pages = vec![string_page(&["a", "b", "a"], vec![true, true, true])];
    let dict_dtype = || {
        LogicalDType::Dictionary(IntegerType::UInt8, Box::new(LogicalDType::Utf8View), false)
    };
    let marked = Field {
        name: String::from("col"),
        dtype: dict_dtype(),
        metadata: Some(vec![(String::from("_PL_ENUM_VALUES"), String::from("a;b"))]),
    };
    let (_, array, _) = page_iter_to_array(&pages, &ptype(PhysicalType::ByteArray), marked, None, None)
        .unwrap();
    assert_eq!(
        array.data,
        ArrayData::Dictionary(
            DictKeys::U8(vec![0, 1, 0]),
            vec![b"a".to_vec(), b"b".to_vec()]
        )
    );
}

#[test]
fn dictionary_without_marker_is_value_equal() {
    let pages = vec![string_page(&["a", "b", "a"], vec![true, true, true])];
    let dict_dtype = || {
        LogicalDType::Dictionary(IntegerType::UInt8, Box::new(LogicalDType::Utf8View), false)
    };
    let marked = Field {
        name: String::from("col"),
        dtype: dict_dtype(),
        metadata: Some(vec![(String::from("PL.ENUM_VALUES"), String::new())]),
    };
    let plain = Field {
        name: String::from("col"),
        dtype: dict_dtype(),
        metadata: None,
    };
    let (_, a1, b1) =
        page_iter_to_array(&pages, &ptype(PhysicalType::ByteArray), marked, None, None).unwrap();
    let (_, a2, b2) =
        page_iter_to_array(&pages, &ptype(PhysicalType::ByteArray), plain, None, None).unwrap();
    assert_eq!(a1.data, a2.data);
    assert_eq!(b1, b2);
}

#[test]
fn null_dtype_decodes_all_null() {
    let pages = vec![i32_page(&[1, 2], vec![true, true, false])];
    let (array, bitmap) = decode(&pages, &ptype(PhysicalType::Int32), field(LogicalDType::Null), None);
    assert_eq!(array.data, ArrayData::Null(3));
    assert_eq!(bitmap, vec![false, false, false]);
}

#[test]
fn date64_widens_days_to_milliseconds() {
    let pages = vec![i32_page(&[1, -1], vec![true, true])];
    let (array, _) = decode(&pages, &ptype(PhysicalType::Int32), field(LogicalDType::Date64), None);
    assert_eq!(array.data, ArrayData::Int64(vec![86_400_000, -86_400_000]));
}

#[test]
fn uint64_reinterprets_int64() {
    let pages = vec![i64_page(&[-1], vec![true])];
    let (array, _) = decode(&pages, &ptype(PhysicalType::Int64), field(LogicalDType::UInt64), None);
    assert_eq!(array.data, ArrayData::UInt64(vec![u64::MAX]));
}

#[test]
fn uint8_truncates_int32() {
    let pages = vec![i32_page(&[300, -1], vec![true, true])];
    let (array, _) = decode(&pages, &ptype(PhysicalType::Int32), field(LogicalDType::UInt8), None);
    assert_eq!(array.data, ArrayData::UInt8(vec![44, 255]));
}

#[test]
fn nested_state_tracks_levels_and_rows() {
    let pages = vec![i32_page(&[1, 2], vec![true, true])];
    let (nested, _, bitmap) = page_iter_to_array(
        &pages,
        &ptype(PhysicalType::Int32),
        field(LogicalDType::Int32),
        None,
        Some(vec![InitNested::List(true), InitNested::Primitive(false)]),
    )
    .unwrap();
    let nested = nested.unwrap();
    assert_eq!(nested.levels.len(), 2);
    assert_eq!(nested.levels[0].init, InitNested::List(true));
    assert_eq!(nested.levels[0].length, bitmap.len());
    assert_eq!(nested.levels[1].length, 2);
}

#[test]
fn budget_stops_at_filter_end() {
    let pages = vec![i32_page(&[1, 2, 3, 4], vec![true, true, true, true])];
    let (array, bitmap) = decode(
        &pages,
        &ptype(PhysicalType::Int32),
        field(LogicalDType::Int32),
        Some(Filter::Range(0, 2)),
    );
    assert_eq!(array.data, ArrayData::Int32(vec![1, 2]));
    assert_eq!(bitmap.len(), 2);
}

#[test]
fn float_columns_pass_bits_through() {
    let mut buffer = Vec::new();
    buffer.extend_from_slice(&1.5f32.to_le_bytes());
    buffer.extend_from_slice(&(-0.25f32).to_le_bytes());
    let pages = vec![Page {
        buffer,
        validity: vec![true, true],
    }];
    let (array, _) = decode(&pages, &ptype(PhysicalType::Float), field(LogicalDType::Float32), None);
    assert_eq!(
        array.data,
        ArrayData::Float32Bits(vec![1.5f32.to_bits(), (-0.25f32).to_bits()])
    );
    let mut buffer = Vec::new();
    buffer.extend_from_slice(&2.75f64.to_le_bytes());
    let pages = vec![Page {
        buffer,
        validity: vec![true],
    }];
    let (array, _) = decode(&pages, &ptype(PhysicalType::Double), field(LogicalDType::Float64), None);
    assert_eq!(array.data, ArrayData::Float64Bits(vec![2.75f64.to_bits()]));
}

#[test]
fn decimal_widens_from_integer_columns() {
    let pages = vec![i32_page(&[-5], vec![true])];
    let (array, _) = decode(
        &pages,
        &ptype(PhysicalType::Int32),
        field(LogicalDType::Decimal(9, 0)),
        None,
    );
    assert_eq!(array.data, ArrayData::Int128(vec![-5i128]));
    let pages = vec![i64_page(&[-6], vec![true])];
    let (array, _) = decode(
        &pages,
        &ptype(PhysicalType::Int64),
        field(LogicalDType::Decimal256(50, 0)),
        None,
    );
    assert_eq!(
        array.data,
        ArrayData::Int256(vec![I256 {
            hi: -1,
            lo: u128::MAX - 5
        }])
    );
}

#[test]
fn boolean_page_with_short_buffer_is_malformed() {
    // Nine valid rows need two bytes of packed bits.
    let pages = vec![Page {
        buffer: vec![0u8],
        validity: vec![true; 9],
    }];
    let r = page_iter_to_array(
        &pages,
        &ptype(PhysicalType::Boolean),
        field(LogicalDType::Boolean),
        None,
        None,
    );
    assert_eq!(r.unwrap_err(), DecodeError::Malformed);
}

#[test]
fn byte_array_page_with_bad_length_prefix_is_malformed() {
    // One value whose declared length runs past the buffer.
    let mut buffer = Vec::new();
    buffer.extend_from_slice(&100u32.to_le_bytes());
    buffer.extend_from_slice(b"ab");
    let pages = vec![Page {
        buffer,
        validity: vec![true],
    }];
    let r = page_iter_to_array(
        &pages,
        &ptype(PhysicalType::ByteArray),
        field(LogicalDType::Utf8View),
        None,
        None,
    );
    assert_eq!(r.unwrap_err(), DecodeError::Malformed);
}

#[test]
fn uint32_truncates_int64() {
    let pages = vec![i64_page(&[0x1_0000_0005i64, -1], vec![true, true])];
    let (array, _) = decode(&pages, &ptype(PhysicalType::Int64), field(LogicalDType::UInt32), None);
    assert_eq!(array.data, ArrayData::UInt32(vec![5, u32::MAX]));
}

#[test]
fn nulls_in_dictionary_key_to_zero_and_stay_null() {
    let pages = vec![string_page(&["x"], vec![false, true, false])];
    let marked = Field {
        name: String::from("col"),
        dtype: LogicalDType::Dictionary(
            IntegerType::UInt16,
            Box::new(LogicalDType::Utf8View),
            false,
        ),
        metadata: Some(vec![(String::from("_PL_CATEGORICAL"), String::new())]),
    };
    let (_, array, bitmap) =
        page_iter_to_array(&pages, &ptype(PhysicalType::ByteArray), marked, None, None).unwrap();
    assert_eq!(
        array.data,
        ArrayData::Dictionary(DictKeys::U16(vec![0, 0, 0]), vec![b"x".to_vec()])
    );
    assert_eq!(bitmap, vec![false, true, false]);
}

#[test]
fn dictionary_with_signed_key_width_casts() {
    let pages = vec![string_page(&["a", "b", "a"], vec![true, true, true])];
    let plain = Field {
        name: String::from("col"),
        dtype: LogicalDType::Dictionary(
            IntegerType::Int32,
            Box::new(LogicalDType::Utf8View),
            false,
        ),
        metadata: None,
    };
    let (_, array, bitmap) =
        page_iter_to_array(&pages, &ptype(PhysicalType::ByteArray), plain, None, None).unwrap();
    assert_eq!(
        array.data,
        ArrayData::Dictionary(
            DictKeys::I32(vec![0, 1, 0]),
            vec![b"a".to_vec(), b"b".to_vec()]
        )
    );
    assert_eq!(bitmap, vec![true, true, true]);
}

#[test]
fn dictionary_marker_with_signed_key_width_is_unsupported() {
    let pages = vec![string_page(&["a"], vec![true])];
    let dtype = || {
        LogicalDType::Dictionary(
            IntegerType::Int32,
            Box::new(LogicalDType::Utf8View),
            false,
        )
    };
    let marked = Field {
        name: String::from("col"),
        dtype: dtype(),
        metadata: Some(vec![(String::from("_PL_ENUM_VALUES"), String::new())]),
    };
    let r = page_iter_to_array(&pages, &ptype(PhysicalType::ByteArray), marked, None, None);
    assert_eq!(
        r.unwrap_err(),
        DecodeError::NotSupported {
            from: PhysicalType::ByteArray,
            to: dtype(),
        }
    );
}

#[test]
fn dictionary_overflowing_its_key_width_is_malformed() {
    // 129 distinct values cannot be indexed by a signed 8-bit key.
    let values: Vec<String> = (0..129).map(|i| format!("value{i}")).collect();
    let refs: Vec<&str> = values.iter().map(|v| v.as_str()).collect();
    let pages = vec![string_page(&refs, vec![true; 129])];
    let plain = Field {
        name: String::from("col"),
        dtype: LogicalDType::Dictionary(
            IntegerType::Int8,
            Box::new(LogicalDType::Utf8View),
            false,
        ),
        metadata: None,
    };
    let r = page_iter_to_array(&pages, &ptype(PhysicalType::ByteArray), plain, None, None);
    assert_eq!(r.unwrap_err(), DecodeError::Malformed);
}

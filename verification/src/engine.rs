//! The page decode engine: selects the strategy for the requested dtype,
//! drives the pages through it, and materializes the typed array, its
//! validity bitmap, and the nesting state.
use vstd::prelude::*;

verus! {

use crate::collect::{
    byte_rows_view,
    rows_fn_bool,
    rows_fn_bytes,
    rows_fn_f32,
    rows_fn_f64,
    rows_fn_fixed,
    rows_fn_i32,
    rows_fn_i64,
    rows_fn_int96,
    pages_ok,
    pipeline_bool,
    pipeline_bytes,
    pipeline_f32,
    pipeline_f64,
    pipeline_fixed,
    pipeline_i32,
    pipeline_i64,
    pipeline_int96,
    rows_match_validity,
    rows_pipeline,
    spec_bitmap_rows,
    spec_read_count,
};
use crate::convert::{
    DaysMs,
    I256,
    date64_of_i32,
    div_trunc_of_i64,
    f16_widen_bytes,
    i16_of_i32,
    i256_of_i128,
    i256_of_int,
    le_i128,
    le_i32,
    mul_wrap_of_i64,
    u16_of_i32,
    u32_of_i32,
    u32_of_i64,
    u64_of_i64,
    u8_of_i32,
    i8_of_i32,
};
use crate::bytes::be_sint;
use crate::dispatch::{
    DecodeStrategy,
    FixedKind,
    Int32Kind,
    Int64Kind,
    dtype_shape_allowed,
    select_strategy,
    spec_select_strategy,
};
use crate::materialize::{
    build_dict,
    dict_index,
    fill_map,
    flatten_fixed,
    int96_value,
    key_capacity,
    mat_binview,
    mat_bool,
    mat_day_time,
    mat_dec128,
    mat_dec256,
    mat_dict,
    mat_f32,
    mat_f64,
    mat_fixed_binary,
    mat_half,
    mat_i32_date64,
    mat_i32_dec128,
    mat_i32_dec256,
    mat_i32_i16,
    mat_i32_i8,
    mat_i32_u16,
    mat_i32_u32,
    mat_i32_u8,
    mat_i32_unit,
    mat_i64_dec128,
    mat_i64_dec256,
    mat_i64_div,
    mat_i64_mul,
    mat_i64_u32,
    mat_i64_u64,
    mat_i64_unit,
    mat_int128_le,
    mat_int96,
    mat_year_month,
    present,
    spec_dict,
};
use crate::output::{
    Array,
    ArrayData,
    DataV,
    Filter,
    InitNested,
    NestedLevel,
    NestedState,
    Page,
    data_view,
};
use crate::page::{page_ok_bool, page_ok_bytes, page_ok_width};
use crate::rows::{all_validity, apply_filter, filter_budget, spec_filter_ok, truncate_rows, validity_of};
use crate::types::{DecodeError, Field, LogicalDType, PrimitiveType, has_enum_marker,
    spec_has_marker};

/// What each strategy demands of its inputs to succeed: well-formed pages in
/// its layout, a filter that fits the rows read, and for a dictionary a key
/// type wide enough for the distinct values.
pub open spec fn spec_decode_ok(
    strategy: DecodeStrategy,
    pages: Seq<Page>,
    filter: Option<Filter>,
) -> bool {
    let fok = spec_filter_ok(filter, spec_read_count(pages, filter));
    match strategy {
        DecodeStrategy::Null => fok,
        DecodeStrategy::Boolean => fok && pages_ok(pages, |p: Page| page_ok_bool(p)),
        DecodeStrategy::Int32(_) => fok && pages_ok(pages, |p: Page| page_ok_width(p, 4)),
        DecodeStrategy::Int64(_) => fok && pages_ok(pages, |p: Page| page_ok_width(p, 8)),
        DecodeStrategy::Int96Timestamp(_) => fok && pages_ok(pages, |p: Page| page_ok_width(p, 12)),
        DecodeStrategy::Float32 => fok && pages_ok(pages, |p: Page| page_ok_width(p, 4)),
        DecodeStrategy::Float64 => fok && pages_ok(pages, |p: Page| page_ok_width(p, 8)),
        DecodeStrategy::Fixed(size, _) => fok && pages_ok(
            pages,
            |p: Page| page_ok_width(p, size as nat),
        ),
        DecodeStrategy::BinView { is_string: _ } => fok && pages_ok(
            pages,
            |p: Page| page_ok_bytes(p),
        ),
        DecodeStrategy::CategoricalKey(k) => fok && pages_ok(pages, |p: Page| page_ok_bytes(p))
            && spec_dict(present(rows_pipeline(pages, filter, rows_fn_bytes()))).len()
            <= key_capacity(k),
        DecodeStrategy::StringThenCast(k) => fok && pages_ok(pages, |p: Page| page_ok_bytes(p))
            && spec_dict(present(rows_pipeline(pages, filter, rows_fn_bytes()))).len()
            <= key_capacity(k),
    }
}

/// The value each `i32` strategy yields per row.
pub open spec fn out_i32(rows: Seq<Option<i32>>, kind: Int32Kind) -> DataV {
    match kind {
        Int32Kind::Unit => DataV::I32(fill_map(rows, (|v: i32| v), 0i32)),
        Int32Kind::ToU8 => DataV::U8(fill_map(rows, (|v: i32| u8_of_i32(v)), 0u8)),
        Int32Kind::ToU16 => DataV::U16(fill_map(rows, (|v: i32| u16_of_i32(v)), 0u16)),
        Int32Kind::ToU32 => DataV::U32(fill_map(rows, (|v: i32| u32_of_i32(v)), 0u32)),
        Int32Kind::ToI8 => DataV::I8(fill_map(rows, (|v: i32| i8_of_i32(v)), 0i8)),
        Int32Kind::ToI16 => DataV::I16(fill_map(rows, (|v: i32| i16_of_i32(v)), 0i16)),
        Int32Kind::ToDec128 => DataV::I128(fill_map(rows, (|v: i32| v as i128), 0i128)),
        Int32Kind::ToDec256 => DataV::I256(
            fill_map(rows, (|v: i32| i256_of_i128(v as i128)), (I256 { hi: 0, lo: 0 })),
        ),
        Int32Kind::ToDate64 => DataV::I64(fill_map(rows, (|v: i32| date64_of_i32(v)), 0i64)),
    }
}

/// The value each `i64` strategy yields per row.
pub open spec fn out_i64(rows: Seq<Option<i64>>, kind: Int64Kind) -> DataV {
    match kind {
        Int64Kind::Unit => DataV::I64(fill_map(rows, (|v: i64| v), 0i64)),
        Int64Kind::ToU32 => DataV::U32(fill_map(rows, (|v: i64| u32_of_i64(v)), 0u32)),
        Int64Kind::ToU64 => DataV::U64(fill_map(rows, (|v: i64| u64_of_i64(v)), 0u64)),
        Int64Kind::ToDec128 => DataV::I128(fill_map(rows, (|v: i64| v as i128), 0i128)),
        Int64Kind::ToDec256 => DataV::I256(
            fill_map(rows, (|v: i64| i256_of_i128(v as i128)), (I256 { hi: 0, lo: 0 })),
        ),
        Int64Kind::Mul(a) => DataV::I64(fill_map(rows, (|v: i64| mul_wrap_of_i64(v, a)), 0i64)),
        Int64Kind::Div(a) => DataV::I64(fill_map(rows, (|v: i64| div_trunc_of_i64(v, a)), 0i64)),
    }
}

/// The value each fixed-length recipe yields per row.
pub open spec fn out_fixed(rows: Seq<Option<Seq<u8>>>, size: nat, kind: FixedKind) -> DataV {
    match kind {
        FixedKind::Binary => DataV::Fixed(size, flatten_fixed(rows, size)),
        FixedKind::YearMonth => DataV::I32(
            fill_map(rows, (|b: Seq<u8>| le_i32(b.subrange(0, 4)) as i32), 0i32),
        ),
        FixedKind::DayTime => DataV::DaysMs(
            fill_map(
                rows,
                (|b: Seq<u8>|
                    (DaysMs {
                        days: le_i32(b.subrange(4, 8)) as i32,
                        milliseconds: le_i32(b.subrange(8, 12)) as i32,
                    })),
                (DaysMs { days: 0, milliseconds: 0 }),
            ),
        ),
        FixedKind::Int128Le => DataV::I128(fill_map(rows, (|b: Seq<u8>| le_i128(b) as i128), 0i128)),
        FixedKind::Dec128 => DataV::I128(fill_map(rows, (|b: Seq<u8>| be_sint(b) as i128), 0i128)),
        FixedKind::Dec256 => DataV::I256(
            fill_map(rows, (|b: Seq<u8>| i256_of_int(be_sint(b))), (I256 { hi: 0, lo: 0 })),
        ),
        FixedKind::Half => DataV::F32Bits(
            fill_map(rows, (|b: Seq<u8>| f16_widen_bytes(b) as u32), 0u32),
        ),
    }
}

/// The data a successful decode materializes, per strategy.
pub open spec fn spec_decode_data(
    strategy: DecodeStrategy,
    pages: Seq<Page>,
    filter: Option<Filter>,
) -> DataV {
    match strategy {
        DecodeStrategy::Null => DataV::Null(spec_bitmap_rows(pages, filter).len()),
        DecodeStrategy::Boolean => DataV::Bool(
            fill_map(
                rows_pipeline(pages, filter, rows_fn_bool()),
                (|v: bool| v),
                false,
            ),
        ),
        DecodeStrategy::Int32(kind) => out_i32(
            rows_pipeline(pages, filter, rows_fn_i32()),
            kind,
        ),
        DecodeStrategy::Int64(kind) => out_i64(
            rows_pipeline(pages, filter, rows_fn_i64()),
            kind,
        ),
        DecodeStrategy::Int96Timestamp(unit) => DataV::I64(
            fill_map(
                rows_pipeline(pages, filter, rows_fn_int96()),
                (|t: (u32, u32, u32)| int96_value(t, unit) as i64),
                0i64,
            ),
        ),
        DecodeStrategy::Float32 => DataV::F32Bits(
            fill_map(rows_pipeline(pages, filter, rows_fn_f32()), (|v: u32| v), 0u32),
        ),
        DecodeStrategy::Float64 => DataV::F64Bits(
            fill_map(rows_pipeline(pages, filter, rows_fn_f64()), (|v: u64| v), 0u64),
        ),
        DecodeStrategy::Fixed(size, kind) => out_fixed(
            rows_pipeline(pages, filter, rows_fn_fixed(size as nat)),
            size as nat,
            kind,
        ),
        DecodeStrategy::BinView { is_string: _ } => DataV::VarBin(
            fill_map(
                rows_pipeline(pages, filter, rows_fn_bytes()),
                (|b: Seq<u8>| b),
                Seq::<u8>::empty(),
            ),
        ),
        DecodeStrategy::CategoricalKey(k) => spec_dict_data(pages, filter, k),
        DecodeStrategy::StringThenCast(k) => spec_dict_data(pages, filter, k),
    }
}

/// The dictionary array both dictionary recipes materialize: the distinct
/// values in first-appearance order and one key per row.
pub open spec fn spec_dict_data(
    pages: Seq<Page>,
    filter: Option<Filter>,
    k: crate::types::IntegerType,
) -> DataV {
    let rows = rows_pipeline(pages, filter, rows_fn_bytes());
    let dict = spec_dict(present(rows));
    DataV::Dict(k, fill_map(rows, (|b: Seq<u8>| dict_index(dict, b) as nat), 0nat), dict)
}

/// The validity bitmap a successful decode hands back: all clear for a
/// `Null` column, the filtered source validity otherwise.
pub open spec fn spec_decode_bitmap(
    strategy: DecodeStrategy,
    pages: Seq<Page>,
    filter: Option<Filter>,
) -> Seq<bool> {
    if strategy is Null {
        Seq::new(spec_bitmap_rows(pages, filter).len(), |i: int| false)
    } else {
        spec_bitmap_rows(pages, filter)
    }
}

/// The nesting state of a decode that materialized `rows` rows.
pub open spec fn spec_nested_levels(init: Seq<InitNested>, rows: usize) -> Seq<NestedLevel> {
    Seq::new(init.len(), |i: int| NestedLevel { init: init[i], length: rows })
}

/// Builds the nesting state: one level per descriptor, each spanning every
/// materialized row.
pub fn build_nested(init: &Option<Vec<InitNested>>, rows: usize) -> (r: Option<NestedState>)
    ensures
        r is Some <==> *init is Some,
        *init is Some ==> r->0.levels@ == spec_nested_levels((*init)->0@, rows),
{
    match init.as_ref() {
        None => None,
        Some(descs) => {
            let n: usize = descs.len();
            let mut levels: Vec<NestedLevel> = Vec::new();
            let mut i: usize = 0;
            while i < n
                invariant
                    i <= n,
                    n == descs@.len(),
                    levels@.len() == i,
                    forall|k: int|
                        0 <= k < i ==> levels@[k] == (NestedLevel {
                            init: descs@[k],
                            length: rows,
                        }),
                decreases n - i,
            {
                levels.push(NestedLevel { init: descs[i], length: rows });
                i = i + 1;
            }
            proof {
                assert(levels@ =~= spec_nested_levels(descs@, rows));
            }
            Some(NestedState { levels })
        },
    }
}


/// Decodes one column: selects the strategy for `(physical, dtype)`, drives
/// the pages through it, and hands back the nesting state, the typed array,
/// and the validity bitmap.
///
/// An unlisted `(physical, dtype)` pair fails with `NotSupported`, naming
/// both sides; a page whose buffer disagrees with its validity, a mask of
/// the wrong length, or a dictionary too large for its key type fails with
/// `Malformed`.  Every page of the column is validated; the filter's row
/// budget truncates the result.
///
/// The caller never asks for the plain (non-view, non-large) binary or UTF-8
/// dtypes -- upstream schema resolution always maps those to the view or
/// large forms -- and a dictionary's value type is always the UTF-8 view
/// type; the precondition states both.
pub fn page_iter_to_array(
    pages: &Vec<Page>,
    type_: &PrimitiveType,
    field: Field,
    filter: Option<Filter>,
    init_nested: Option<Vec<InitNested>>,
) -> (r: Result<(Option<NestedState>, Array, Vec<bool>), DecodeError>)
    requires
        dtype_shape_allowed(field.dtype),
    ensures
        ({
            let st = spec_select_strategy(
                type_.physical_type,
                type_.logical_type,
                field.dtype,
                spec_has_marker(field.metadata),
            );
            &&& (st is None <==> (r is Err && r->Err_0 is NotSupported))
            &&& (st is None ==> r->Err_0 == (DecodeError::NotSupported {
                from: type_.physical_type,
                to: field.dtype,
            }))
            &&& (st is Some ==> (r is Ok <==> spec_decode_ok(st->0, pages@, filter)))
            &&& (st is Some && r is Err ==> r->Err_0 == DecodeError::Malformed)
            &&& (r is Ok ==> r->Ok_0.1.dtype == field.dtype)
            &&& (r is Ok ==> data_view(r->Ok_0.1.data) == spec_decode_data(st->0, pages@, filter))
            &&& (r is Ok ==> r->Ok_0.2@ == spec_decode_bitmap(st->0, pages@, filter))
            &&& (r is Ok ==> (r->Ok_0.0 is Some <==> init_nested is Some))
            &&& (r is Ok && init_nested is Some ==> r->Ok_0.0->0.levels@ == spec_nested_levels(
                init_nested->0@,
                r->Ok_0.2@.len() as usize,
            ))
        }),
{
    let has_marker = has_enum_marker(&field.metadata);
    let st = select_strategy(type_, &field.dtype, has_marker);
    proof {
        crate::dispatch::lemma_strategy_wf(
            type_.physical_type,
            type_.logical_type,
            field.dtype,
            has_marker,
        );
    }
    let strategy = match st {
        None => {
            return Err(
                DecodeError::NotSupported { from: type_.physical_type, to: field.dtype },
            );
        },
        Some(strategy) => strategy,
    };
    match strategy {
        DecodeStrategy::Null => {
            let ghost rr = spec_read_count(pages@, filter);
            let n: usize = pages.len();
            let mut bits: Vec<bool> = Vec::new();
            let mut i: usize = 0;
            proof {
                assert(pages@.take(0) =~= Seq::<Page>::empty());
            }
            while i < n
                invariant
                    i <= n,
                    n == pages@.len(),
                    bits@ == all_validity(pages@.take(i as int)),
                decreases n - i,
            {
                let mut c = clone_bits(&pages[i].validity);
                proof {
                    assert(pages@.take(i as int + 1).drop_last() =~= pages@.take(i as int));
                    assert(pages@.take(i as int + 1).last() == pages@[i as int]);
                }
                bits.append(&mut c);
                i = i + 1;
            }
            proof {
                assert(pages@.take(n as int) =~= pages@);
            }
            let budget = filter_budget(&filter);
            truncate_rows(&mut bits, budget);
            let kept = match apply_filter(bits, &filter) {
                Err(_) => {
                    return Err(DecodeError::Malformed);
                },
                Ok(kept) => kept,
            };
            let rows: usize = kept.len();
            let bitmap: Vec<bool> = vec_false(rows);
            proof {
                assert(kept@ == spec_bitmap_rows(pages@, filter));
                assert(bitmap@ =~= spec_decode_bitmap(strategy, pages@, filter));
            }
            let nested = build_nested(&init_nested, rows);
            Ok((nested, Array { dtype: field.dtype, data: ArrayData::Null(rows) }, bitmap))
        },
        DecodeStrategy::Boolean => {
            let rows = match pipeline_bool(pages, &filter) {
                Err(_) => {
                    return Err(DecodeError::Malformed);
                },
                Ok(rows) => rows,
            };
            let bitmap = validity_of(&rows);
            proof {
                crate::collect::lemma_bitmap_eq(pages@, filter, rows_fn_bool(), rows@, bitmap@);
            }
            let data = mat_bool(&rows);
            let nested = build_nested(&init_nested, bitmap.len());
            Ok((nested, Array { dtype: field.dtype, data }, bitmap))
        },
        DecodeStrategy::Int32(kind) => {
            let rows = match pipeline_i32(pages, &filter) {
                Err(_) => {
                    return Err(DecodeError::Malformed);
                },
                Ok(rows) => rows,
            };
            let bitmap = validity_of(&rows);
            proof {
                crate::collect::lemma_bitmap_eq(pages@, filter, rows_fn_i32(), rows@, bitmap@);
            }
            let data = match kind {
                Int32Kind::Unit => mat_i32_unit(&rows),
                Int32Kind::ToU8 => mat_i32_u8(&rows),
                Int32Kind::ToU16 => mat_i32_u16(&rows),
                Int32Kind::ToU32 => mat_i32_u32(&rows),
                Int32Kind::ToI8 => mat_i32_i8(&rows),
                Int32Kind::ToI16 => mat_i32_i16(&rows),
                Int32Kind::ToDec128 => mat_i32_dec128(&rows),
                Int32Kind::ToDec256 => mat_i32_dec256(&rows),
                Int32Kind::ToDate64 => mat_i32_date64(&rows),
            };
            let nested = build_nested(&init_nested, bitmap.len());
            Ok((nested, Array { dtype: field.dtype, data }, bitmap))
        },
        DecodeStrategy::Int64(kind) => {
            let rows = match pipeline_i64(pages, &filter) {
                Err(_) => {
                    return Err(DecodeError::Malformed);
                },
                Ok(rows) => rows,
            };
            let bitmap = validity_of(&rows);
            proof {
                crate::collect::lemma_bitmap_eq(pages@, filter, rows_fn_i64(), rows@, bitmap@);
            }
            let data = match kind {
                Int64Kind::Unit => mat_i64_unit(&rows),
                Int64Kind::ToU32 => mat_i64_u32(&rows),
                Int64Kind::ToU64 => mat_i64_u64(&rows),
                Int64Kind::ToDec128 => mat_i64_dec128(&rows),
                Int64Kind::ToDec256 => mat_i64_dec256(&rows),
                Int64Kind::Mul(a) => mat_i64_mul(&rows, a),
                Int64Kind::Div(a) => mat_i64_div(&rows, a),
            };
            let nested = build_nested(&init_nested, bitmap.len());
            Ok((nested, Array { dtype: field.dtype, data }, bitmap))
        },
        DecodeStrategy::Int96Timestamp(unit) => {
            let rows = match pipeline_int96(pages, &filter) {
                Err(_) => {
                    return Err(DecodeError::Malformed);
                },
                Ok(rows) => rows,
            };
            let bitmap = validity_of(&rows);
            proof {
                crate::collect::lemma_bitmap_eq(pages@, filter, rows_fn_int96(), rows@, bitmap@);
            }
            let data = mat_int96(&rows, unit);
            let nested = build_nested(&init_nested, bitmap.len());
            Ok((nested, Array { dtype: field.dtype, data }, bitmap))
        },
        DecodeStrategy::Float32 => {
            let rows = match pipeline_f32(pages, &filter) {
                Err(_) => {
                    return Err(DecodeError::Malformed);
                },
                Ok(rows) => rows,
            };
            let bitmap = validity_of(&rows);
            proof {
                crate::collect::lemma_bitmap_eq(pages@, filter, rows_fn_f32(), rows@, bitmap@);
            }
            let data = mat_f32(&rows);
            let nested = build_nested(&init_nested, bitmap.len());
            Ok((nested, Array { dtype: field.dtype, data }, bitmap))
        },
        DecodeStrategy::Float64 => {
            let rows = match pipeline_f64(pages, &filter) {
                Err(_) => {
                    return Err(DecodeError::Malformed);
                },
                Ok(rows) => rows,
            };
            let bitmap = validity_of(&rows);
            proof {
                crate::collect::lemma_bitmap_eq(pages@, filter, rows_fn_f64(), rows@, bitmap@);
            }
            let data = mat_f64(&rows);
            let nested = build_nested(&init_nested, bitmap.len());
            Ok((nested, Array { dtype: field.dtype, data }, bitmap))
        },
        DecodeStrategy::Fixed(size, kind) => {
            let rows = match pipeline_fixed(pages, &filter, size) {
                Err(_) => {
                    return Err(DecodeError::Malformed);
                },
                Ok(rows) => rows,
            };
            let bitmap = validity_of(&rows);
            proof {
                assert forall|i: int| 0 <= i < rows@.len() implies ((#[trigger] rows@[i]) is Some
                    <==> byte_rows_view(rows@)[i] is Some) by {}
                crate::collect::lemma_bitmap_eq(
                    pages@,
                    filter,
                    rows_fn_fixed(size as nat),
                    byte_rows_view(rows@),
                    bitmap@,
                );
                crate::collect::lemma_fixed_rows_width(pages@, filter, size as nat);
                assert(crate::materialize::rows_width_ok(rows@, size as nat)) by {
                    assert forall|i: int|
                        0 <= i < rows@.len() && (#[trigger] rows@[i]) is Some implies rows@[i]->0@.len()
                        == size as nat by {
                        assert(byte_rows_view(rows@)[i]->0 == rows@[i]->0@);
                    }
                }
            }
            let data = match kind {
                FixedKind::Binary => mat_fixed_binary(&rows, size),
                FixedKind::YearMonth => mat_year_month(&rows),
                FixedKind::DayTime => mat_day_time(&rows),
                FixedKind::Int128Le => mat_int128_le(&rows),
                FixedKind::Dec128 => mat_dec128(&rows, size),
                FixedKind::Dec256 => mat_dec256(&rows, size),
                FixedKind::Half => mat_half(&rows),
            };
            let nested = build_nested(&init_nested, bitmap.len());
            Ok((nested, Array { dtype: field.dtype, data }, bitmap))
        },
        DecodeStrategy::BinView { is_string: _ } => {
            let rows = match pipeline_bytes(pages, &filter) {
                Err(_) => {
                    return Err(DecodeError::Malformed);
                },
                Ok(rows) => rows,
            };
            let bitmap = validity_of(&rows);
            proof {
                assert forall|i: int| 0 <= i < rows@.len() implies ((#[trigger] rows@[i]) is Some
                    <==> byte_rows_view(rows@)[i] is Some) by {}
                crate::collect::lemma_bitmap_eq(
                    pages@,
                    filter,
                    rows_fn_bytes(),
                    byte_rows_view(rows@),
                    bitmap@,
                );
            }
            let data = mat_binview(rows);
            let nested = build_nested(&init_nested, bitmap.len());
            Ok((nested, Array { dtype: field.dtype, data }, bitmap))
        },
        DecodeStrategy::CategoricalKey(key_type) => {
            let rows = match pipeline_bytes(pages, &filter) {
                Err(_) => {
                    return Err(DecodeError::Malformed);
                },
                Ok(rows) => rows,
            };
            let bitmap = validity_of(&rows);
            proof {
                assert forall|i: int| 0 <= i < rows@.len() implies ((#[trigger] rows@[i]) is Some
                    <==> byte_rows_view(rows@)[i] is Some) by {}
                crate::collect::lemma_bitmap_eq(
                    pages@,
                    filter,
                    rows_fn_bytes(),
                    byte_rows_view(rows@),
                    bitmap@,
                );
            }
            let data = match mat_dict(&rows, key_type) {
                Err(_) => {
                    return Err(DecodeError::Malformed);
                },
                Ok(data) => data,
            };
            let nested = build_nested(&init_nested, bitmap.len());
            Ok((nested, Array { dtype: field.dtype, data }, bitmap))
        },
        DecodeStrategy::StringThenCast(key_type) => {
            let rows = match pipeline_bytes(pages, &filter) {
                Err(_) => {
                    return Err(DecodeError::Malformed);
                },
                Ok(rows) => rows,
            };
            let bitmap = validity_of(&rows);
            proof {
                assert forall|i: int| 0 <= i < rows@.len() implies ((#[trigger] rows@[i]) is Some
                    <==> byte_rows_view(rows@)[i] is Some) by {}
                crate::collect::lemma_bitmap_eq(
                    pages@,
                    filter,
                    rows_fn_bytes(),
                    byte_rows_view(rows@),
                    bitmap@,
                );
            }
            let data = match mat_dict(&rows, key_type) {
                Err(_) => {
                    return Err(DecodeError::Malformed);
                },
                Ok(data) => data,
            };
            let nested = build_nested(&init_nested, bitmap.len());
            Ok((nested, Array { dtype: field.dtype, data }, bitmap))
        },
    }
}

/// A plain copy of a validity mask.
fn clone_bits(v: &Vec<bool>) -> (r: Vec<bool>)
    ensures
        r@ == v@,
{
    let r = v.clone();
    proof {
        assert(r@ =~= v@);
    }
    r
}

/// An all-clear bitmap of the given length.
fn vec_false(n: usize) -> (r: Vec<bool>)
    ensures
        r@ == Seq::new(n as nat, |i: int| false),
{
    let mut r: Vec<bool> = Vec::new();
    let mut i: usize = 0;
    while i < n
        invariant
            i <= n,
            r@.len() == i,
            forall|k: int| 0 <= k < i ==> !(#[trigger] r@[k]),
        decreases n - i,
    {
        r.push(false);
        i = i + 1;
    }
    proof {
        assert(r@ =~= Seq::new(n as nat, |i: int| false));
    }
    r
}

} // verus!

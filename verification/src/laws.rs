//! The decoder's global laws, stated and proved over the same spec functions
//! the engine's contracts use.
use vstd::prelude::*;

verus! {

use vstd::arithmetic::div_mod::{
    lemma_div_denominator,
    lemma_div_is_ordered,
    lemma_div_pos_is_pos,
    lemma_fundamental_div_mod,
    lemma_mod_add_multiples_vanish,
    lemma_mod_bound,
    lemma_small_mod,
};
use crate::bytes::{be_sint, be_uint, le_uint, lemma_pow256_pos, pow256};
use crate::collect::{rows_fn_bytes, rows_pipeline, spec_bitmap_rows, spec_read_count};
use crate::dispatch::{spec_select_strategy, DecodeStrategy};
use crate::engine::{spec_decode_bitmap, spec_decode_data, spec_decode_ok};
use crate::materialize::{dict_index, lemma_dict_index_of, lemma_present_contains,
    lemma_spec_dict_contains, present, spec_dict};
use crate::num::div_trunc;
use crate::output::{Filter, Page};
use crate::rows::{all_validity, spec_filter_ok, spec_keep};
use crate::temporal::spec_unify_timestamp_unit;
use crate::types::{
    IntegerType,
    LogicalDType,
    ParquetTimeUnit,
    PhysicalType,
    PrimitiveLogicalType,
    TimeUnit,
};

/// Little-endian encoding of a nonnegative integer into `n` bytes.
pub open spec fn le_bytes_of(x: int, n: nat) -> Seq<u8>
    recommends
        0 <= x,
    decreases n,
{
    if n == 0 {
        Seq::empty()
    } else {
        seq![(x % 256) as u8] + le_bytes_of(x / 256, (n - 1) as nat)
    }
}

/// Big-endian encoding of a nonnegative integer into `n` bytes.
pub open spec fn be_bytes_of(x: int, n: nat) -> Seq<u8>
    recommends
        0 <= x,
    decreases n,
{
    if n == 0 {
        Seq::empty()
    } else {
        be_bytes_of(x / 256, (n - 1) as nat).push((x % 256) as u8)
    }
}

/// Round trip: a value encoded little-endian into enough bytes reads back
/// unchanged.
pub proof fn lemma_le_round_trip(x: int, n: nat)
    requires
        0 <= x < pow256(n),
    ensures
        le_bytes_of(x, n).len() == n,
        le_uint(le_bytes_of(x, n)) == x,
    decreases n,
{
    if n == 0 {
    } else {
        lemma_fundamental_div_mod(x, 256);
        lemma_mod_bound(x, 256);
        lemma_div_pos_is_pos(x, 256);
        assert(x / 256 < pow256((n - 1) as nat)) by {
            if x / 256 >= pow256((n - 1) as nat) {
                assert(x >= 256 * pow256((n - 1) as nat)) by (nonlinear_arith)
                    requires
                        x == 256 * (x / 256) + x % 256,
                        x / 256 >= pow256((n - 1) as nat),
                        x % 256 >= 0,
                ;
            }
        }
        lemma_le_round_trip(x / 256, (n - 1) as nat);
        let s = le_bytes_of(x, n);
        assert(s.drop_first() =~= le_bytes_of(x / 256, (n - 1) as nat));
        assert(s.first() == (x % 256) as u8);
    }
}

/// Round trip: a value encoded big-endian into enough bytes reads back
/// unchanged.
pub proof fn lemma_be_round_trip(x: int, n: nat)
    requires
        0 <= x < pow256(n),
    ensures
        be_bytes_of(x, n).len() == n,
        be_uint(be_bytes_of(x, n)) == x,
    decreases n,
{
    if n == 0 {
    } else {
        lemma_fundamental_div_mod(x, 256);
        lemma_mod_bound(x, 256);
        lemma_div_pos_is_pos(x, 256);
        assert(x / 256 < pow256((n - 1) as nat)) by {
            if x / 256 >= pow256((n - 1) as nat) {
                assert(x >= 256 * pow256((n - 1) as nat)) by (nonlinear_arith)
                    requires
                        x == 256 * (x / 256) + x % 256,
                        x / 256 >= pow256((n - 1) as nat),
                        x % 256 >= 0,
                ;
            }
        }
        lemma_be_round_trip(x / 256, (n - 1) as nat);
        let s = be_bytes_of(x, n);
        assert(s.drop_last() =~= be_bytes_of(x / 256, (n - 1) as nat));
        assert(s.last() == (x % 256) as u8);
    }
}

/// The first byte of a big-endian encoding is the top radix-256 digit.
pub proof fn lemma_be_bytes_first(x: int, n: nat)
    requires
        n >= 1,
        0 <= x < pow256(n),
    ensures
        be_bytes_of(x, n)[0] == x / pow256((n - 1) as nat),
    decreases n,
{
    lemma_fundamental_div_mod(x, 256);
    lemma_mod_bound(x, 256);
    lemma_div_pos_is_pos(x, 256);
    crate::bytes::lemma_pow256_values();
    if n == 1 {
        lemma_small_mod(x as nat, 256);
        assert(be_bytes_of(x / 256, 0) =~= Seq::<u8>::empty());
        assert(be_bytes_of(x, 1) =~= seq![(x % 256) as u8]);
        assert(x / pow256(0) == x) by {
            vstd::arithmetic::div_mod::lemma_div_basics(x);
        }
    } else {
        assert(x / 256 < pow256((n - 1) as nat)) by {
            if x / 256 >= pow256((n - 1) as nat) {
                assert(x >= 256 * pow256((n - 1) as nat)) by (nonlinear_arith)
                    requires
                        x == 256 * (x / 256) + x % 256,
                        x / 256 >= pow256((n - 1) as nat),
                        x % 256 >= 0,
                ;
            }
        }
        lemma_be_bytes_first(x / 256, (n - 1) as nat);
        assert(be_bytes_of(x, n)[0] == be_bytes_of(x / 256, (n - 1) as nat)[0]);
        lemma_pow256_pos((n - 2) as nat);
        lemma_div_denominator(x, 256, pow256((n - 2) as nat));
        assert(256 * pow256((n - 2) as nat) == pow256((n - 1) as nat));
    }
}

/// Round trip for the decimal recipe: any value within the signed range of
/// an `n`-byte field, encoded big-endian two's-complement, reads back as
/// itself through the sign-extending extraction.
pub proof fn lemma_decimal_round_trip(x: int, n: nat)
    requires
        n >= 1,
        -(pow256(n) / 2) <= x < pow256(n) / 2,
    ensures
        be_sint(be_bytes_of(x % pow256(n), n)) == x,
{
    let m = pow256(n);
    lemma_pow256_pos(n);
    lemma_pow256_pos((n - 1) as nat);
    let p = pow256((n - 1) as nat);
    assert(m == 256 * p);
    assert(m / 2 == 128 * p) by (nonlinear_arith)
        requires
            m == 256 * p,
            p >= 1,
    ;
    let u = x % m;
    lemma_mod_bound(x, m);
    let s = be_bytes_of(u, n);
    lemma_be_round_trip(u, n);
    lemma_be_bytes_first(u, n);
    assert(s[0] == u / p);
    if x >= 0 {
        lemma_small_mod(x as nat, m as nat);
        assert(u == x);
        assert(u / p < 128) by {
            if u / p >= 128 {
                lemma_fundamental_div_mod(u, p);
                lemma_mod_bound(u, p);
                assert(u >= 128 * p) by (nonlinear_arith)
                    requires
                        u == p * (u / p) + u % p,
                        u / p >= 128,
                        u % p >= 0,
                        p >= 1,
                ;
            }
        }
        assert(be_sint(s) == u);
    } else {
        lemma_mod_add_multiples_vanish(x, m);
        lemma_small_mod((x + m) as nat, m as nat);
        assert(u == x + m);
        assert(u >= 128 * p);
        assert(u / p >= 128) by {
            lemma_div_is_ordered(128 * p, u, p);
            vstd::arithmetic::div_mod::lemma_div_multiples_vanish(128, p);
        }
        assert(s[0] >= 0x80);
        assert(be_sint(s) == u - m);
    }
}

/// Validity preservation: with any filter, the output bitmap is exactly the
/// source validity of the read rows, run through the filter's keep mask.
pub proof fn lemma_validity_preservation(
    strategy: DecodeStrategy,
    pages: Seq<Page>,
    filter: Option<Filter>,
)
    ensures
        !(strategy is Null) ==> spec_decode_bitmap(strategy, pages, filter) == crate::rows::select(
            all_validity(pages).take(spec_read_count(pages, filter) as int),
            spec_keep(filter, spec_read_count(pages, filter)),
        ),
        strategy is Null ==> spec_decode_bitmap(strategy, pages, filter) == Seq::new(
            spec_bitmap_rows(pages, filter).len(),
            |i: int| false,
        ),
        spec_decode_bitmap(strategy, pages, filter).len() == spec_bitmap_rows(
            pages,
            filter,
        ).len(),
{
}

/// Filter idempotence, range form: a range that spans every row yields the
/// same decode as no filter at all.
pub proof fn lemma_identity_filter_range(strategy: DecodeStrategy, pages: Seq<Page>, end: usize)
    requires
        all_validity(pages).len() <= end as nat,
    ensures
        spec_decode_ok(strategy, pages, Some(Filter::Range(0, end))) == spec_decode_ok(
            strategy,
            pages,
            None,
        ),
        spec_decode_data(strategy, pages, Some(Filter::Range(0, end))) == spec_decode_data(
            strategy,
            pages,
            None,
        ),
        spec_decode_bitmap(strategy, pages, Some(Filter::Range(0, end))) == spec_decode_bitmap(
            strategy,
            pages,
            None,
        ),
{
    let fa = Some(Filter::Range(0, end));
    let fb = None::<Filter>;
    lemma_same_filters(strategy, pages, fa, fb);
}

/// Filter idempotence, mask form: a mask that keeps every row yields the
/// same decode as no filter at all.
pub proof fn lemma_identity_filter_mask(strategy: DecodeStrategy, pages: Seq<Page>, m: Vec<bool>)
    requires
        m@.len() <= usize::MAX,
        m@.len() == all_validity(pages).len(),
        forall|i: int| 0 <= i < m@.len() ==> m@[i],
    ensures
        spec_decode_ok(strategy, pages, Some(Filter::Mask(m))) == spec_decode_ok(
            strategy,
            pages,
            None,
        ),
        spec_decode_data(strategy, pages, Some(Filter::Mask(m))) == spec_decode_data(
            strategy,
            pages,
            None,
        ),
        spec_decode_bitmap(strategy, pages, Some(Filter::Mask(m))) == spec_decode_bitmap(
            strategy,
            pages,
            None,
        ),
{
    lemma_same_filters(strategy, pages, Some(Filter::Mask(m)), None);
}

/// Two filters that read the same number of rows and keep every one of them
/// decode identically.
proof fn lemma_same_filters(
    strategy: DecodeStrategy,
    pages: Seq<Page>,
    fa: Option<Filter>,
    fb: Option<Filter>,
)
    requires
        spec_read_count(pages, fa) == all_validity(pages).len(),
        spec_read_count(pages, fb) == all_validity(pages).len(),
        forall|i: int| 0 <= i < all_validity(pages).len() ==> spec_keep(fa, spec_read_count(pages, fa))[i],
        forall|i: int| 0 <= i < all_validity(pages).len() ==> spec_keep(fb, spec_read_count(pages, fb))[i],
        spec_keep(fa, spec_read_count(pages, fa)).len() == all_validity(pages).len(),
        spec_keep(fb, spec_read_count(pages, fb)).len() == all_validity(pages).len(),
        spec_filter_ok(fa, spec_read_count(pages, fa)),
        spec_filter_ok(fb, spec_read_count(pages, fb)),
    ensures
        spec_decode_ok(strategy, pages, fa) == spec_decode_ok(strategy, pages, fb),
        spec_decode_data(strategy, pages, fa) == spec_decode_data(strategy, pages, fb),
        spec_decode_bitmap(strategy, pages, fa) == spec_decode_bitmap(strategy, pages, fb),
{
    let rr = all_validity(pages).len();
    let ka = spec_keep(fa, rr);
    let kb = spec_keep(fb, rr);
    assert(ka =~= kb);
    assert(spec_bitmap_rows(pages, fa) == spec_bitmap_rows(pages, fb));
    lemma_same_pipeline(pages, fa, fb, crate::collect::rows_fn_i32());
    lemma_same_pipeline(pages, fa, fb, crate::collect::rows_fn_i64());
    lemma_same_pipeline(pages, fa, fb, crate::collect::rows_fn_f32());
    lemma_same_pipeline(pages, fa, fb, crate::collect::rows_fn_f64());
    lemma_same_pipeline(pages, fa, fb, crate::collect::rows_fn_int96());
    lemma_same_pipeline(pages, fa, fb, crate::collect::rows_fn_bool());
    lemma_same_pipeline(pages, fa, fb, crate::collect::rows_fn_bytes());
    match strategy {
        DecodeStrategy::Fixed(size, _) => {
            lemma_same_pipeline(pages, fa, fb, crate::collect::rows_fn_fixed(size as nat));
        },
        _ => {},
    }
}

/// Pipelines over equal keep masks and row counts are equal.
proof fn lemma_same_pipeline<E>(
    pages: Seq<Page>,
    fa: Option<Filter>,
    fb: Option<Filter>,
    f: spec_fn(Page) -> Seq<Option<E>>,
)
    requires
        spec_read_count(pages, fa) == spec_read_count(pages, fb),
        spec_keep(fa, spec_read_count(pages, fa)) == spec_keep(fb, spec_read_count(pages, fb)),
    ensures
        rows_pipeline(pages, fa, f) == rows_pipeline(pages, fb, f),
{
}

/// Timestamp unit scaling: on-disk milliseconds requested as microseconds
/// multiply by 1000; on-disk nanoseconds requested as milliseconds divide by
/// 1 000 000, truncating toward zero.
pub proof fn lemma_timestamp_unit_scaling(utc: bool)
    ensures
        spec_unify_timestamp_unit(
            Some(PrimitiveLogicalType::Timestamp { unit: ParquetTimeUnit::Milliseconds, is_adjusted_to_utc: utc }),
            TimeUnit::Microsecond,
        ) == (1000i64, true),
        spec_unify_timestamp_unit(
            Some(PrimitiveLogicalType::Timestamp { unit: ParquetTimeUnit::Nanoseconds, is_adjusted_to_utc: utc }),
            TimeUnit::Millisecond,
        ) == (1_000_000i64, false),
        forall|v: i64|
            -9_223_372_036_854_775 <= v <= 9_223_372_036_854_775 ==> crate::convert::mul_wrap_of_i64(
                v,
                1000,
            ) as int == v * 1000,
        forall|v: i64| #[trigger]
            crate::convert::div_trunc_of_i64(v, 1_000_000) as int == div_trunc(
                v as int,
                1_000_000,
            ),
{
    assert forall|v: i64|
        -9_223_372_036_854_775 <= v <= 9_223_372_036_854_775 implies crate::convert::mul_wrap_of_i64(
        v,
        1000,
    ) as int == v * 1000 by {
        crate::num::lemma_wrap64_small(v as int * 1000);
    }
    assert forall|v: i64| #[trigger]
        crate::convert::div_trunc_of_i64(v, 1_000_000) as int == div_trunc(
        v as int,
        1_000_000,
    ) by {
        if v >= 0 {
            lemma_div_pos_is_pos(v as int, 1_000_000);
            lemma_div_is_ordered(v as int, i64::MAX as int, 1_000_000);
        } else {
            lemma_div_pos_is_pos(-(v as int), 1_000_000);
            lemma_div_is_ordered(-(v as int), -(i64::MIN as int), 1_000_000);
        }
    }
}

/// Dictionary dispatch: a dictionary field with the enum/categorical marker
/// selects the categorical-key strategy when its key is one of the three
/// unsigned categorical widths; without the marker every key width selects
/// the string-then-cast strategy.  Both strategies materialize value-equal
/// arrays: their spec data are identical, and row `i` of either array looks
/// its key up to the `i`th source string.
pub proof fn lemma_dictionary_dispatch(
    physical: PhysicalType,
    logical: Option<PrimitiveLogicalType>,
    dtype: LogicalDType,
    k: IntegerType,
    pages: Seq<Page>,
    filter: Option<Filter>,
)
    requires
        dtype matches LogicalDType::Dictionary(kt, _, _) && kt == k,
    ensures
        crate::dispatch::spec_is_categorical_key(k) ==> spec_select_strategy(
            physical,
            logical,
            dtype,
            true,
        ) == Some(DecodeStrategy::CategoricalKey(k)),
        !crate::dispatch::spec_is_categorical_key(k) ==> spec_select_strategy(
            physical,
            logical,
            dtype,
            true,
        ) is None,
        spec_select_strategy(physical, logical, dtype, false) == Some(
            DecodeStrategy::StringThenCast(k),
        ),
        spec_decode_data(DecodeStrategy::CategoricalKey(k), pages, filter) == spec_decode_data(
            DecodeStrategy::StringThenCast(k),
            pages,
            filter,
        ),
        ({
            let rows = rows_pipeline(pages, filter, rows_fn_bytes());
            let dict = spec_dict(present(rows));
            forall|i: int|
                0 <= i < rows.len() && (#[trigger] rows[i]) is Some ==> {
                    let key = dict_index(dict, rows[i]->0);
                    0 <= key < dict.len() && dict[key] == rows[i]->0
                }
        }),
{
    let rows = rows_pipeline(pages, filter, rows_fn_bytes());
    let dict = spec_dict(present(rows));
    assert forall|i: int| 0 <= i < rows.len() && (#[trigger] rows[i]) is Some implies {
        let key = dict_index(dict, rows[i]->0);
        0 <= key < dict.len() && dict[key] == rows[i]->0
    } by {
        lemma_present_contains(rows, i);
        lemma_spec_dict_contains(present(rows), rows[i]->0);
        lemma_dict_index_of(dict, rows[i]->0);
    }
}

/// Fixed-length mismatch: a 128-bit decimal cannot come from a fixed field
/// wider than 16 bytes; the matrix has no entry and the decode fails with
/// `NotSupported`.
pub proof fn lemma_decimal_width_bound(
    logical: Option<PrimitiveLogicalType>,
    n: usize,
    precision: usize,
    scale: usize,
    has_marker: bool,
)
    requires
        n > 16,
    ensures
        spec_select_strategy(
            PhysicalType::FixedLenByteArray(n),
            logical,
            LogicalDType::Decimal(precision, scale),
            has_marker,
        ) is None,
{
}

/// Sign extension: a decimal field of all set bytes reads as minus one, not
/// as the unsigned value.
pub proof fn lemma_decimal_sign_extension(n: nat)
    requires
        n >= 1,
    ensures
        be_sint(Seq::new(n, |i: int| 0xffu8)) == -1,
    decreases n,
{
    let s = Seq::new(n, |i: int| 0xffu8);
    lemma_pow256_pos(n);
    assert(be_uint(s) == pow256(n) - 1) by {
        lemma_be_uint_all_ff(n);
    }
    assert(s[0] == 0xffu8);
}

/// A field of all set bytes reads, unsigned, as one less than the field
/// width's radix power.
proof fn lemma_be_uint_all_ff(n: nat)
    ensures
        be_uint(Seq::new(n, |i: int| 0xffu8)) == pow256(n) - 1,
    decreases n,
{
    let s = Seq::new(n, |i: int| 0xffu8);
    if n == 0 {
    } else {
        lemma_be_uint_all_ff((n - 1) as nat);
        assert(s.drop_last() =~= Seq::new((n - 1) as nat, |i: int| 0xffu8));
        assert(s.last() == 0xffu8);
    }
}


/// Round trip for 32-bit values: an `i32` encoded little-endian in its
/// two's-complement form reads back as itself.
pub proof fn lemma_i32_round_trip(v: i32)
    ensures
        crate::convert::le_i32(le_bytes_of(crate::num::as_u32(v as int), 4)) == v as int,
{
    crate::bytes::lemma_pow256_values();
    let u = crate::num::as_u32(v as int);
    lemma_mod_bound(v as int, 0x1_0000_0000);
    lemma_le_round_trip(u, 4);
    if v >= 0 {
        lemma_small_mod(v as nat, 0x1_0000_0000);
    } else {
        lemma_mod_add_multiples_vanish(v as int, 0x1_0000_0000);
        lemma_small_mod((v + 0x1_0000_0000int) as nat, 0x1_0000_0000nat);
    }
}

/// Round trip for 64-bit values.
pub proof fn lemma_i64_round_trip(v: i64)
    ensures
        crate::convert::le_i64(le_bytes_of(crate::num::as_u64(v as int), 8)) == v as int,
{
    crate::bytes::lemma_pow256_values();
    let u = crate::num::as_u64(v as int);
    lemma_mod_bound(v as int, 0x1_0000_0000_0000_0000int);
    lemma_le_round_trip(u, 8);
    if v >= 0 {
        lemma_small_mod(v as nat, 0x1_0000_0000_0000_0000nat);
    } else {
        lemma_mod_add_multiples_vanish(v as int, 0x1_0000_0000_0000_0000int);
        lemma_small_mod((v + 0x1_0000_0000_0000_0000int) as nat, 0x1_0000_0000_0000_0000nat);
    }
}

/// Round trip for the in-place 128-bit recipe: an `i128` laid out
/// little-endian reads back as itself.
pub proof fn lemma_i128_round_trip(v: i128)
    ensures
        crate::convert::le_i128(
            le_bytes_of(
                (v as int) % 0x1_0000_0000_0000_0000_0000_0000_0000_0000int,
                16,
            ),
        ) == v as int,
{
    crate::bytes::lemma_pow256_values();
    let m = 0x1_0000_0000_0000_0000_0000_0000_0000_0000int;
    let u = (v as int) % m;
    lemma_mod_bound(v as int, m);
    lemma_le_round_trip(u, 16);
    if v >= 0 {
        lemma_small_mod(v as nat, m as nat);
    } else {
        lemma_mod_add_multiples_vanish(v as int, m);
        lemma_small_mod((v + m) as nat, m as nat);
    }
}


/// The number of value slots a decoded array holds.
pub open spec fn data_len(d: crate::output::DataV) -> nat {
    match d {
        crate::output::DataV::Null(n) => n,
        crate::output::DataV::Bool(v) => v.len(),
        crate::output::DataV::I8(v) => v.len(),
        crate::output::DataV::I16(v) => v.len(),
        crate::output::DataV::I32(v) => v.len(),
        crate::output::DataV::I64(v) => v.len(),
        crate::output::DataV::I128(v) => v.len(),
        crate::output::DataV::I256(v) => v.len(),
        crate::output::DataV::U8(v) => v.len(),
        crate::output::DataV::U16(v) => v.len(),
        crate::output::DataV::U32(v) => v.len(),
        crate::output::DataV::U64(v) => v.len(),
        crate::output::DataV::F32Bits(v) => v.len(),
        crate::output::DataV::F64Bits(v) => v.len(),
        crate::output::DataV::DaysMs(v) => v.len(),
        crate::output::DataV::Fixed(_, flat) => flat.len(),
        crate::output::DataV::VarBin(v) => v.len(),
        crate::output::DataV::Dict(_, keys, _) => keys.len(),
    }
}

/// Validity preservation, length half: a successful decode materializes
/// exactly one value slot per bitmap bit (one `size`-byte slot for the
/// fixed-size binary identity copy).
pub proof fn lemma_output_row_count(
    strategy: DecodeStrategy,
    pages: Seq<Page>,
    filter: Option<Filter>,
)
    requires
        spec_decode_ok(strategy, pages, filter),
    ensures
        ({
            let d = spec_decode_data(strategy, pages, filter);
            let n = spec_decode_bitmap(strategy, pages, filter).len();
            match strategy {
                DecodeStrategy::Fixed(size, crate::dispatch::FixedKind::Binary) => data_len(d)
                    == n * size,
                _ => data_len(d) == n,
            }
        }),
{
    match strategy {
        DecodeStrategy::Null => {},
        DecodeStrategy::Boolean => {
            crate::collect::lemma_pipeline_bitmap(pages, filter, crate::collect::rows_fn_bool());
        },
        DecodeStrategy::Int32(_) => {
            crate::collect::lemma_pipeline_bitmap(pages, filter, crate::collect::rows_fn_i32());
        },
        DecodeStrategy::Int64(_) => {
            crate::collect::lemma_pipeline_bitmap(pages, filter, crate::collect::rows_fn_i64());
        },
        DecodeStrategy::Int96Timestamp(_) => {
            crate::collect::lemma_pipeline_bitmap(pages, filter, crate::collect::rows_fn_int96());
        },
        DecodeStrategy::Float32 => {
            crate::collect::lemma_pipeline_bitmap(pages, filter, crate::collect::rows_fn_f32());
        },
        DecodeStrategy::Float64 => {
            crate::collect::lemma_pipeline_bitmap(pages, filter, crate::collect::rows_fn_f64());
        },
        DecodeStrategy::Fixed(size, _) => {
            crate::collect::lemma_pipeline_bitmap(
                pages,
                filter,
                crate::collect::rows_fn_fixed(size as nat),
            );
        },
        DecodeStrategy::BinView { is_string: _ } => {
            crate::collect::lemma_pipeline_bitmap(pages, filter, crate::collect::rows_fn_bytes());
        },
        DecodeStrategy::CategoricalKey(_) => {
            crate::collect::lemma_pipeline_bitmap(pages, filter, crate::collect::rows_fn_bytes());
        },
        DecodeStrategy::StringThenCast(_) => {
            crate::collect::lemma_pipeline_bitmap(pages, filter, crate::collect::rows_fn_bytes());
        },
    }
}


/// Round trip across the whole compatibility matrix, stated per entry over
/// each entry's reference on-disk representation of a logical value:
///
/// * integers stored widened in a 32/64-bit column read back by the
///   truncating or reinterpreting cast of that entry;
/// * decimals widened from integer columns keep their value, at 128 and at
///   256 bits;
/// * `Date64` from a day count divides back to the day count;
/// * a timestamp rescaled by a unit multiplier divides back to the stored
///   value whenever the product is representable;
/// * every little-endian field recipe (32-bit interval words, 64-bit
///   columns, the in-place 128-bit read) inverts the little-endian encoding;
/// * the big-endian sign-extending decimal extraction inverts the
///   two's-complement encoding at every field width of the matrix;
/// * a 96-bit timestamp holding an intra-day nanosecond count on the epoch
///   day reads back that count;
/// * a length-prefixed variable-length field parses back to its bytes;
/// * a packed boolean bit reads back.
///
/// Identity entries (`Boolean`, `Int32`, `Date32`, `Time32`, `Int64`,
/// `Time64`, `Duration`, float bit patterns, fixed-size binary) are fixed as
/// identities by the engine contract itself, and the dictionary entries'
/// key-lookup inverse is `lemma_dictionary_dispatch`.
pub proof fn lemma_matrix_round_trip()
    ensures
        forall|v: u8| #[trigger] crate::convert::u8_of_i32(v as i32) == v,
        forall|v: u16| #[trigger] crate::convert::u16_of_i32(v as i32) == v,
        forall|v: i8| #[trigger] crate::convert::i8_of_i32(v as i32) == v,
        forall|v: i16| #[trigger] crate::convert::i16_of_i32(v as i32) == v,
        forall|v: u32| #[trigger] crate::num::as_u32(crate::num::signed32(v as int)) == v as int,
        forall|v: u64| #[trigger] crate::num::as_u64(crate::num::signed64(v as int)) == v as int,
        forall|v: u32| #[trigger] crate::convert::u32_of_i64(v as i64) == v,
        forall|v: i32| #[trigger] crate::convert::i256_of_i128(v as i128).value() == v as int,
        forall|v: i64| #[trigger] crate::convert::i256_of_i128(v as i128).value() == v as int,
        forall|v: i32| #[trigger] crate::convert::date64_of_i32(v) as int / 86_400_000 == v as int,
        forall|v: i64, a: i64|
            (a == 1000 || a == 1_000_000 || a == 1_000_000_000)
                && -0x8000_0000_0000_0000 <= v as int * a < 0x8000_0000_0000_0000
                ==> div_trunc(#[trigger] crate::convert::mul_wrap_of_i64(v, a) as int, a as int)
                == v as int,
        forall|v: i32| #[trigger] crate::convert::le_i32(
            le_bytes_of(crate::num::as_u32(v as int), 4),
        ) == v as int,
        forall|v: i64| #[trigger] crate::convert::le_i64(
            le_bytes_of(crate::num::as_u64(v as int), 8),
        ) == v as int,
        forall|v: i128| #[trigger] crate::convert::le_i128(
            le_bytes_of((v as int) % 0x1_0000_0000_0000_0000_0000_0000_0000_0000int, 16),
        ) == v as int,
        forall|x: int, n: nat|
            1 <= n <= 32 && -(pow256(n) / 2) <= x < pow256(n) / 2 ==> be_sint(
                #[trigger] be_bytes_of(x % pow256(n), n),
            ) == x,
        forall|v: i64| #[trigger] crate::temporal::int96_ns(
            (crate::num::as_u64(v as int) % 0x1_0000_0000) as u32,
            (crate::num::as_u64(v as int) / 0x1_0000_0000) as u32,
            2_440_588,
        ) == v as int,
        forall|b: Seq<u8>|
            b.len() < 0x1_0000_0000 ==> #[trigger] crate::page::parse_varlen(
                le_bytes_of(b.len() as int, 4) + b,
                1,
            ) == Some(seq![b]),
        crate::page::bit_of(1u8, 0) == true,
        crate::page::bit_of(0u8, 0) == false,
{
    crate::bytes::lemma_pow256_values();
    assert forall|v: u8| #[trigger] crate::convert::u8_of_i32(v as i32) == v by {
        lemma_small_mod(v as nat, 0x100);
    }
    assert forall|v: u16| #[trigger] crate::convert::u16_of_i32(v as i32) == v by {
        lemma_small_mod(v as nat, 0x1_0000);
    }
    assert forall|v: i8| #[trigger] crate::convert::i8_of_i32(v as i32) == v by {
        if v >= 0 {
            lemma_small_mod(v as nat, 0x100);
        } else {
            lemma_mod_add_multiples_vanish(v as int, 0x100);
            lemma_small_mod((v + 0x100) as nat, 0x100);
        }
    }
    assert forall|v: i16| #[trigger] crate::convert::i16_of_i32(v as i32) == v by {
        if v >= 0 {
            lemma_small_mod(v as nat, 0x1_0000);
        } else {
            lemma_mod_add_multiples_vanish(v as int, 0x1_0000);
            lemma_small_mod((v + 0x1_0000) as nat, 0x1_0000);
        }
    }
    assert forall|v: u32| #[trigger] crate::num::as_u32(crate::num::signed32(v as int)) == v as int
        by {
        if v < 0x8000_0000 {
            lemma_small_mod(v as nat, 0x1_0000_0000);
        } else {
            lemma_mod_add_multiples_vanish(v as int - 0x1_0000_0000, 0x1_0000_0000);
            lemma_small_mod(v as nat, 0x1_0000_0000);
        }
    }
    assert forall|v: u64| #[trigger] crate::num::as_u64(crate::num::signed64(v as int)) == v as int
        by {
        if v < 0x8000_0000_0000_0000 {
            lemma_small_mod(v as nat, 0x1_0000_0000_0000_0000nat);
        } else {
            lemma_mod_add_multiples_vanish(
                v as int - 0x1_0000_0000_0000_0000,
                0x1_0000_0000_0000_0000int,
            );
            lemma_small_mod(v as nat, 0x1_0000_0000_0000_0000nat);
        }
    }
    assert forall|v: u32| #[trigger] crate::convert::u32_of_i64(v as i64) == v by {
        lemma_small_mod(v as nat, 0x1_0000_0000);
    }
    assert forall|v: i32| #[trigger] crate::convert::date64_of_i32(v) as int / 86_400_000
        == v as int by {
        vstd::arithmetic::div_mod::lemma_div_multiples_vanish(v as int, 86_400_000);
        assert(86_400_000 * (v as int) == (v as int) * 86_400_000) by (nonlinear_arith);
    }
    assert forall|v: i64, a: i64|
        (a == 1000 || a == 1_000_000 || a == 1_000_000_000)
            && -0x8000_0000_0000_0000 <= v as int * a < 0x8000_0000_0000_0000 implies div_trunc(
        #[trigger] crate::convert::mul_wrap_of_i64(v, a) as int,
        a as int,
    ) == v as int by {
        crate::num::lemma_wrap64_small(v as int * a);
        if v >= 0 {
            vstd::arithmetic::div_mod::lemma_div_multiples_vanish(v as int, a as int);
            assert(a as int * (v as int) == v as int * a) by (nonlinear_arith);
            vstd::arithmetic::div_mod::lemma_div_pos_is_pos(v as int * a, a as int)
        } else {
            assert(-(v as int * a) == (-(v as int)) * a) by (nonlinear_arith);
            vstd::arithmetic::div_mod::lemma_div_multiples_vanish(-(v as int), a as int);
            assert(a as int * (-(v as int)) == (-(v as int)) * a) by (nonlinear_arith);
            assert((-(v as int)) * a >= 0) by (nonlinear_arith)
                requires
                    v as int <= 0,
                    a as int > 0,
            ;
        }
    }
    assert forall|v: i32| #[trigger] crate::convert::le_i32(
        le_bytes_of(crate::num::as_u32(v as int), 4),
    ) == v as int by {
        lemma_i32_round_trip(v);
    }
    assert forall|v: i64| #[trigger] crate::convert::le_i64(
        le_bytes_of(crate::num::as_u64(v as int), 8),
    ) == v as int by {
        lemma_i64_round_trip(v);
    }
    assert forall|v: i128| #[trigger] crate::convert::le_i128(
        le_bytes_of((v as int) % 0x1_0000_0000_0000_0000_0000_0000_0000_0000int, 16),
    ) == v as int by {
        lemma_i128_round_trip(v);
    }
    assert forall|x: int, n: nat|
        1 <= n <= 32 && -(pow256(n) / 2) <= x < pow256(n) / 2 implies be_sint(
        #[trigger] be_bytes_of(x % pow256(n), n),
    ) == x by {
        lemma_decimal_round_trip(x, n);
    }
    assert forall|v: i64| #[trigger] crate::temporal::int96_ns(
        (crate::num::as_u64(v as int) % 0x1_0000_0000) as u32,
        (crate::num::as_u64(v as int) / 0x1_0000_0000) as u32,
        2_440_588,
    ) == v as int by {
        lemma_int96_ns_round_trip(v);
    }
    assert forall|b: Seq<u8>|
        b.len() < 0x1_0000_0000 implies #[trigger] crate::page::parse_varlen(
        le_bytes_of(b.len() as int, 4) + b,
        1,
    ) == Some(seq![b]) by {
        lemma_varlen_round_trip(b);
    }
    assert((1u8 >> 0u8) & 1u8 == 1u8) by (bit_vector);
    assert((0u8 >> 0u8) & 1u8 == 0u8) by (bit_vector);
}

/// A nanosecond count on the epoch day reads back from its 96-bit form.
proof fn lemma_int96_ns_round_trip(v: i64)
    ensures
        crate::temporal::int96_ns(
            (crate::num::as_u64(v as int) % 0x1_0000_0000) as u32,
            (crate::num::as_u64(v as int) / 0x1_0000_0000) as u32,
            2_440_588,
        ) == v as int,
{
    let m = 0x1_0000_0000_0000_0000int;
    let u = crate::num::as_u64(v as int);
    lemma_mod_bound(v as int, m);
    let lo = u % 0x1_0000_0000;
    let mid = u / 0x1_0000_0000;
    lemma_fundamental_div_mod(u, 0x1_0000_0000);
    lemma_mod_bound(u, 0x1_0000_0000);
    lemma_div_pos_is_pos(u, 0x1_0000_0000);
    assert(mid < 0x1_0000_0000) by {
        if mid >= 0x1_0000_0000 {
            assert(u >= 0x1_0000_0000 * 0x1_0000_0000) by (nonlinear_arith)
                requires
                    u == 0x1_0000_0000 * mid + lo,
                    mid >= 0x1_0000_0000,
                    lo >= 0,
            ;
        }
    }
    assert(mid * 0x1_0000_0000 + lo == u) by (nonlinear_arith)
        requires
            u == 0x1_0000_0000 * mid + lo,
    ;
    assert(crate::num::signed64(u) == v as int) by {
        if v >= 0 {
            lemma_small_mod(v as nat, m as nat);
        } else {
            lemma_mod_add_multiples_vanish(v as int, m);
            lemma_small_mod((v + m) as nat, m as nat);
        }
    }
    crate::num::lemma_wrap64_small(v as int);
}

/// A length-prefixed field parses back to its bytes.
proof fn lemma_varlen_round_trip(b: Seq<u8>)
    requires
        b.len() < 0x1_0000_0000,
    ensures
        crate::page::parse_varlen(le_bytes_of(b.len() as int, 4) + b, 1) == Some(seq![b]),
{
    crate::bytes::lemma_pow256_values();
    lemma_le_round_trip(b.len() as int, 4);
    let enc = le_bytes_of(b.len() as int, 4);
    let s = enc + b;
    assert(s.take(4) =~= enc);
    assert(le_uint(s.take(4)) == b.len());
    assert(s.len() - 4 == b.len());
    assert(s.skip(4 + b.len() as int) =~= Seq::<u8>::empty());
    assert(crate::page::parse_varlen(Seq::<u8>::empty(), 0) == Some(Seq::<Seq<u8>>::empty()));
    assert(s.subrange(4, 4 + b.len() as int) =~= b);
    assert(crate::page::parse_varlen(s, 1) == Some(seq![b] + Seq::<Seq<u8>>::empty()));
    assert(seq![b] + Seq::<Seq<u8>>::empty() =~= seq![b]);
}

} // verus!

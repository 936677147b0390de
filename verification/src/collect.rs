//! Driving a whole column through its pages: decode every page, truncate to
//! the filter's row budget, and apply the filter.  Everything here is
//! per-physical-layout plumbing over the shared row machinery.
use vstd::prelude::*;

verus! {

use crate::output::{Filter, Page};
use crate::page::{
    decode_page_bool,
    decode_page_bytes,
    decode_page_f32,
    decode_page_f64,
    decode_page_fixed,
    decode_page_i32,
    decode_page_i64,
    decode_page_int96,
    page_ok_bool,
    page_ok_bytes,
    page_ok_width,
    page_rows_bool,
    page_rows_f32,
    page_rows_f64,
    page_rows_i32,
    page_rows_i64,
    page_rows_int96,
    page_rows_fixed,
    page_rows_bytes,
};
use crate::rows::{
    all_validity,
    apply_filter,
    concat_rows,
    filter_budget,
    lemma_concat_matches_validity,
    lemma_select_is_some,
    select,
    spec_budget,
    spec_filter_ok,
    spec_keep,
    spec_rows_read,
    truncate_rows,
};
use crate::types::DecodeError;


/// The canonical page-rows readers, one per physical layout.  Naming them
/// keeps every mention of a pipeline over the same function value.
pub open spec fn rows_fn_i32() -> spec_fn(Page) -> Seq<Option<i32>> {
    |p: Page| page_rows_i32(p)
}

pub open spec fn rows_fn_i64() -> spec_fn(Page) -> Seq<Option<i64>> {
    |p: Page| page_rows_i64(p)
}

pub open spec fn rows_fn_f32() -> spec_fn(Page) -> Seq<Option<u32>> {
    |p: Page| page_rows_f32(p)
}

pub open spec fn rows_fn_f64() -> spec_fn(Page) -> Seq<Option<u64>> {
    |p: Page| page_rows_f64(p)
}

pub open spec fn rows_fn_int96() -> spec_fn(Page) -> Seq<Option<(u32, u32, u32)>> {
    |p: Page| page_rows_int96(p)
}

pub open spec fn rows_fn_bool() -> spec_fn(Page) -> Seq<Option<bool>> {
    |p: Page| page_rows_bool(p)
}

pub open spec fn rows_fn_fixed(width: nat) -> spec_fn(Page) -> Seq<Option<Seq<u8>>> {
    |p: Page| page_rows_fixed(p, width)
}

pub open spec fn rows_fn_bytes() -> spec_fn(Page) -> Seq<Option<Seq<u8>>> {
    |p: Page| page_rows_bytes(p)
}

/// Every one of the column's pages is well formed under `ok`.
pub open spec fn pages_ok(pages: Seq<Page>, ok: spec_fn(Page) -> bool) -> bool {
    forall|i: int| 0 <= i < pages.len() ==> ok(#[trigger] pages[i])
}

/// How many rows a decode reads: the whole column, capped by the filter's
/// budget.
pub open spec fn spec_read_count(pages: Seq<Page>, filter: Option<Filter>) -> nat {
    spec_rows_read(all_validity(pages).len(), spec_budget(filter))
}

/// The materialized rows of a column: all pages' rows in order, truncated to
/// the budget, then filtered.
pub open spec fn rows_pipeline<E>(
    pages: Seq<Page>,
    filter: Option<Filter>,
    f: spec_fn(Page) -> Seq<Option<E>>,
) -> Seq<Option<E>> {
    let rr = spec_read_count(pages, filter);
    select(concat_rows(pages, f).take(rr as int), spec_keep(filter, rr))
}

/// The output validity bitmap: the source validity of the read rows, run
/// through the same filter.
pub open spec fn spec_bitmap_rows(pages: Seq<Page>, filter: Option<Filter>) -> Seq<bool> {
    let rr = spec_read_count(pages, filter);
    select(all_validity(pages).take(rr as int), spec_keep(filter, rr))
}

/// A page-rows reading that mirrors validity bit for bit.
pub open spec fn rows_match_validity<E>(f: spec_fn(Page) -> Seq<Option<E>>) -> bool {
    &&& forall|p: Page| (#[trigger] f(p)).len() == p.validity@.len()
    &&& forall|p: Page, i: int|
        0 <= i < p.validity@.len() ==> ((#[trigger] f(p)[i]) is Some <==> p.validity@[i])
}

/// The pipeline's rows are null exactly where the bitmap is clear.
pub proof fn lemma_pipeline_bitmap<E>(
    pages: Seq<Page>,
    filter: Option<Filter>,
    f: spec_fn(Page) -> Seq<Option<E>>,
)
    requires
        rows_match_validity(f),
        spec_filter_ok(filter, spec_read_count(pages, filter)),
    ensures
        rows_pipeline(pages, filter, f).len() == spec_bitmap_rows(pages, filter).len(),
        forall|i: int|
            0 <= i < rows_pipeline(pages, filter, f).len() ==> ((#[trigger] rows_pipeline(
                pages,
                filter,
                f,
            )[i]) is Some <==> spec_bitmap_rows(pages, filter)[i]),
{
    let rr = spec_read_count(pages, filter);
    lemma_concat_matches_validity(pages, f);
    lemma_select_is_some(
        concat_rows(pages, f).take(rr as int),
        all_validity(pages).take(rr as int),
        spec_keep(filter, rr),
    );
}


/// Decodes every page of an `Int32` column, truncates to the filter's
/// budget, and filters.
#[verifier::loop_isolation(false)]
pub fn pipeline_i32(pages: &Vec<Page>, filter: &Option<Filter>) -> (r: Result<
    Vec<Option<i32>>,
    DecodeError,
>)
    ensures
        r is Ok <==> (pages_ok(pages@, |p: Page| page_ok_width(p, 4)) && spec_filter_ok(
            *filter,
            spec_read_count(pages@, *filter),
        )),
        r is Err ==> r->Err_0 == DecodeError::Malformed,
        r is Ok ==> r->Ok_0@ == rows_pipeline(pages@, *filter, rows_fn_i32()),
{
    let ghost f = rows_fn_i32();
    let ghost okf = |p: Page| page_ok_width(p, 4);
    let n: usize = pages.len();
    let mut rows: Vec<Option<i32>> = Vec::new();
    let mut i: usize = 0;
    proof {
        assert(pages@.take(0) =~= Seq::<Page>::empty());
    }
    while i < n
        invariant
            i <= n,
            rows@ == concat_rows(pages@.take(i as int), f),
            forall|j: int| 0 <= j < i ==> okf(#[trigger] pages@[j]),
        decreases n - i,
    {
        match decode_page_i32(&pages[i]) {
            Err(_) => {
                proof {
                    assert(!okf(pages@[i as int]));
                }
                return Err(DecodeError::Malformed);
            },
            Ok(mut pr) => {
                proof {
                    assert(pages@.take(i as int + 1).drop_last() =~= pages@.take(i as int));
                    assert(pages@.take(i as int + 1).last() == pages@[i as int]);
                }
                rows.append(&mut pr);
            },
        }
        i = i + 1;
    }
    proof {
        assert(pages@.take(n as int) =~= pages@);
        lemma_concat_matches_validity(pages@, f);
    }
    let budget: Option<usize> = filter_budget(filter);
    truncate_rows(&mut rows, budget);
    match apply_filter(rows, filter) {
        Err(_) => Err(DecodeError::Malformed),
        Ok(out) => Ok(out),
    }
}

/// Decodes every page of an `Int64` column, truncates to the filter's
/// budget, and filters.
#[verifier::loop_isolation(false)]
pub fn pipeline_i64(pages: &Vec<Page>, filter: &Option<Filter>) -> (r: Result<
    Vec<Option<i64>>,
    DecodeError,
>)
    ensures
        r is Ok <==> (pages_ok(pages@, |p: Page| page_ok_width(p, 8)) && spec_filter_ok(
            *filter,
            spec_read_count(pages@, *filter),
        )),
        r is Err ==> r->Err_0 == DecodeError::Malformed,
        r is Ok ==> r->Ok_0@ == rows_pipeline(pages@, *filter, rows_fn_i64()),
{
    let ghost f = rows_fn_i64();
    let ghost okf = |p: Page| page_ok_width(p, 8);
    let n: usize = pages.len();
    let mut rows: Vec<Option<i64>> = Vec::new();
    let mut i: usize = 0;
    proof {
        assert(pages@.take(0) =~= Seq::<Page>::empty());
    }
    while i < n
        invariant
            i <= n,
            rows@ == concat_rows(pages@.take(i as int), f),
            forall|j: int| 0 <= j < i ==> okf(#[trigger] pages@[j]),
        decreases n - i,
    {
        match decode_page_i64(&pages[i]) {
            Err(_) => {
                proof {
                    assert(!okf(pages@[i as int]));
                }
                return Err(DecodeError::Malformed);
            },
            Ok(mut pr) => {
                proof {
                    assert(pages@.take(i as int + 1).drop_last() =~= pages@.take(i as int));
                    assert(pages@.take(i as int + 1).last() == pages@[i as int]);
                }
                rows.append(&mut pr);
            },
        }
        i = i + 1;
    }
    proof {
        assert(pages@.take(n as int) =~= pages@);
        lemma_concat_matches_validity(pages@, f);
    }
    let budget: Option<usize> = filter_budget(filter);
    truncate_rows(&mut rows, budget);
    match apply_filter(rows, filter) {
        Err(_) => Err(DecodeError::Malformed),
        Ok(out) => Ok(out),
    }
}

/// Decodes every page of an `Float` column, truncates to the filter's
/// budget, and filters.
#[verifier::loop_isolation(false)]
pub fn pipeline_f32(pages: &Vec<Page>, filter: &Option<Filter>) -> (r: Result<
    Vec<Option<u32>>,
    DecodeError,
>)
    ensures
        r is Ok <==> (pages_ok(pages@, |p: Page| page_ok_width(p, 4)) && spec_filter_ok(
            *filter,
            spec_read_count(pages@, *filter),
        )),
        r is Err ==> r->Err_0 == DecodeError::Malformed,
        r is Ok ==> r->Ok_0@ == rows_pipeline(pages@, *filter, rows_fn_f32()),
{
    let ghost f = rows_fn_f32();
    let ghost okf = |p: Page| page_ok_width(p, 4);
    let n: usize = pages.len();
    let mut rows: Vec<Option<u32>> = Vec::new();
    let mut i: usize = 0;
    proof {
        assert(pages@.take(0) =~= Seq::<Page>::empty());
    }
    while i < n
        invariant
            i <= n,
            rows@ == concat_rows(pages@.take(i as int), f),
            forall|j: int| 0 <= j < i ==> okf(#[trigger] pages@[j]),
        decreases n - i,
    {
        match decode_page_f32(&pages[i]) {
            Err(_) => {
                proof {
                    assert(!okf(pages@[i as int]));
                }
                return Err(DecodeError::Malformed);
            },
            Ok(mut pr) => {
                proof {
                    assert(pages@.take(i as int + 1).drop_last() =~= pages@.take(i as int));
                    assert(pages@.take(i as int + 1).last() == pages@[i as int]);
                }
                rows.append(&mut pr);
            },
        }
        i = i + 1;
    }
    proof {
        assert(pages@.take(n as int) =~= pages@);
        lemma_concat_matches_validity(pages@, f);
    }
    let budget: Option<usize> = filter_budget(filter);
    truncate_rows(&mut rows, budget);
    match apply_filter(rows, filter) {
        Err(_) => Err(DecodeError::Malformed),
        Ok(out) => Ok(out),
    }
}

/// Decodes every page of an `Double` column, truncates to the filter's
/// budget, and filters.
#[verifier::loop_isolation(false)]
pub fn pipeline_f64(pages: &Vec<Page>, filter: &Option<Filter>) -> (r: Result<
    Vec<Option<u64>>,
    DecodeError,
>)
    ensures
        r is Ok <==> (pages_ok(pages@, |p: Page| page_ok_width(p, 8)) && spec_filter_ok(
            *filter,
            spec_read_count(pages@, *filter),
        )),
        r is Err ==> r->Err_0 == DecodeError::Malformed,
        r is Ok ==> r->Ok_0@ == rows_pipeline(pages@, *filter, rows_fn_f64()),
{
    let ghost f = rows_fn_f64();
    let ghost okf = |p: Page| page_ok_width(p, 8);
    let n: usize = pages.len();
    let mut rows: Vec<Option<u64>> = Vec::new();
    let mut i: usize = 0;
    proof {
        assert(pages@.take(0) =~= Seq::<Page>::empty());
    }
    while i < n
        invariant
            i <= n,
            rows@ == concat_rows(pages@.take(i as int), f),
            forall|j: int| 0 <= j < i ==> okf(#[trigger] pages@[j]),
        decreases n - i,
    {
        match decode_page_f64(&pages[i]) {
            Err(_) => {
                proof {
                    assert(!okf(pages@[i as int]));
                }
                return Err(DecodeError::Malformed);
            },
            Ok(mut pr) => {
                proof {
                    assert(pages@.take(i as int + 1).drop_last() =~= pages@.take(i as int));
                    assert(pages@.take(i as int + 1).last() == pages@[i as int]);
                }
                rows.append(&mut pr);
            },
        }
        i = i + 1;
    }
    proof {
        assert(pages@.take(n as int) =~= pages@);
        lemma_concat_matches_validity(pages@, f);
    }
    let budget: Option<usize> = filter_budget(filter);
    truncate_rows(&mut rows, budget);
    match apply_filter(rows, filter) {
        Err(_) => Err(DecodeError::Malformed),
        Ok(out) => Ok(out),
    }
}

/// Decodes every page of an `Int96` column, truncates to the filter's
/// budget, and filters.
#[verifier::loop_isolation(false)]
pub fn pipeline_int96(pages: &Vec<Page>, filter: &Option<Filter>) -> (r: Result<
    Vec<Option<(u32, u32, u32)>>,
    DecodeError,
>)
    ensures
        r is Ok <==> (pages_ok(pages@, |p: Page| page_ok_width(p, 12)) && spec_filter_ok(
            *filter,
            spec_read_count(pages@, *filter),
        )),
        r is Err ==> r->Err_0 == DecodeError::Malformed,
        r is Ok ==> r->Ok_0@ == rows_pipeline(pages@, *filter, rows_fn_int96()),
{
    let ghost f = rows_fn_int96();
    let ghost okf = |p: Page| page_ok_width(p, 12);
    let n: usize = pages.len();
    let mut rows: Vec<Option<(u32, u32, u32)>> = Vec::new();
    let mut i: usize = 0;
    proof {
        assert(pages@.take(0) =~= Seq::<Page>::empty());
    }
    while i < n
        invariant
            i <= n,
            rows@ == concat_rows(pages@.take(i as int), f),
            forall|j: int| 0 <= j < i ==> okf(#[trigger] pages@[j]),
        decreases n - i,
    {
        match decode_page_int96(&pages[i]) {
            Err(_) => {
                proof {
                    assert(!okf(pages@[i as int]));
                }
                return Err(DecodeError::Malformed);
            },
            Ok(mut pr) => {
                proof {
                    assert(pages@.take(i as int + 1).drop_last() =~= pages@.take(i as int));
                    assert(pages@.take(i as int + 1).last() == pages@[i as int]);
                }
                rows.append(&mut pr);
            },
        }
        i = i + 1;
    }
    proof {
        assert(pages@.take(n as int) =~= pages@);
        lemma_concat_matches_validity(pages@, f);
    }
    let budget: Option<usize> = filter_budget(filter);
    truncate_rows(&mut rows, budget);
    match apply_filter(rows, filter) {
        Err(_) => Err(DecodeError::Malformed),
        Ok(out) => Ok(out),
    }
}

/// Decodes every page of an `Boolean` column, truncates to the filter's
/// budget, and filters.
#[verifier::loop_isolation(false)]
pub fn pipeline_bool(pages: &Vec<Page>, filter: &Option<Filter>) -> (r: Result<
    Vec<Option<bool>>,
    DecodeError,
>)
    ensures
        r is Ok <==> (pages_ok(pages@, |p: Page| page_ok_bool(p)) && spec_filter_ok(
            *filter,
            spec_read_count(pages@, *filter),
        )),
        r is Err ==> r->Err_0 == DecodeError::Malformed,
        r is Ok ==> r->Ok_0@ == rows_pipeline(pages@, *filter, rows_fn_bool()),
{
    let ghost f = rows_fn_bool();
    let ghost okf = |p: Page| page_ok_bool(p);
    let n: usize = pages.len();
    let mut rows: Vec<Option<bool>> = Vec::new();
    let mut i: usize = 0;
    proof {
        assert(pages@.take(0) =~= Seq::<Page>::empty());
    }
    while i < n
        invariant
            i <= n,
            rows@ == concat_rows(pages@.take(i as int), f),
            forall|j: int| 0 <= j < i ==> okf(#[trigger] pages@[j]),
        decreases n - i,
    {
        match decode_page_bool(&pages[i]) {
            Err(_) => {
                proof {
                    assert(!okf(pages@[i as int]));
                }
                return Err(DecodeError::Malformed);
            },
            Ok(mut pr) => {
                proof {
                    assert(pages@.take(i as int + 1).drop_last() =~= pages@.take(i as int));
                    assert(pages@.take(i as int + 1).last() == pages@[i as int]);
                }
                rows.append(&mut pr);
            },
        }
        i = i + 1;
    }
    proof {
        assert(pages@.take(n as int) =~= pages@);
        lemma_concat_matches_validity(pages@, f);
    }
    let budget: Option<usize> = filter_budget(filter);
    truncate_rows(&mut rows, budget);
    match apply_filter(rows, filter) {
        Err(_) => Err(DecodeError::Malformed),
        Ok(out) => Ok(out),
    }
}


/// One byte row, read as a sequence.
pub open spec fn byte_row_view(o: Option<Vec<u8>>) -> Option<Seq<u8>> {
    match o {
        Some(v) => Some(v@),
        None => None,
    }
}

/// Byte rows, read as sequences.
pub open spec fn byte_rows_view(s: Seq<Option<Vec<u8>>>) -> Seq<Option<Seq<u8>>> {
    s.map_values(|o: Option<Vec<u8>>| byte_row_view(o))
}

/// Decodes every page of a fixed-length byte-field column.
#[verifier::loop_isolation(false)]
pub fn pipeline_fixed(pages: &Vec<Page>, filter: &Option<Filter>, width: usize) -> (r: Result<
    Vec<Option<Vec<u8>>>,
    DecodeError,
>)
    ensures
        r is Ok <==> (pages_ok(pages@, |p: Page| page_ok_width(p, width as nat)) && spec_filter_ok(
            *filter,
            spec_read_count(pages@, *filter),
        )),
        r is Err ==> r->Err_0 == DecodeError::Malformed,
        r is Ok ==> byte_rows_view(r->Ok_0@) == rows_pipeline(
            pages@,
            *filter,
            rows_fn_fixed(width as nat),
        ),
{
    let ghost f = rows_fn_fixed(width as nat);
    let ghost okf = |p: Page| page_ok_width(p, width as nat);
    let ghost vf = |o: Option<Vec<u8>>| byte_row_view(o);
    let n: usize = pages.len();
    let mut rows: Vec<Option<Vec<u8>>> = Vec::new();
    let mut i: usize = 0;
    proof {
        assert(pages@.take(0) =~= Seq::<Page>::empty());
        assert(byte_rows_view(rows@) =~= concat_rows(pages@.take(0), f));
    }
    while i < n
        invariant
            i <= n,
            byte_rows_view(rows@) == concat_rows(pages@.take(i as int), f),
            forall|j: int| 0 <= j < i ==> okf(#[trigger] pages@[j]),
        decreases n - i,
    {
        match decode_page_fixed(&pages[i], width) {
            Err(_) => {
                proof {
                    assert(!okf(pages@[i as int]));
                }
                return Err(DecodeError::Malformed);
            },
            Ok(pr) => {
                proof {
                    assert(pages@.take(i as int + 1).drop_last() =~= pages@.take(i as int));
                    assert(pages@.take(i as int + 1).last() == pages@[i as int]);
                    assert(byte_rows_view(pr@) =~= f(pages@[i as int]));
                    assert(byte_rows_view(rows@ + pr@) =~= byte_rows_view(rows@) + byte_rows_view(
                        pr@,
                    ));
                }
                let mut pr2 = pr;
                rows.append(&mut pr2);
            },
        }
        i = i + 1;
    }
    proof {
        assert(pages@.take(n as int) =~= pages@);
        assert(rows_match_validity(f)) by {
            assert forall|p: Page, k: int| 0 <= k < p.validity@.len() implies ((#[trigger] f(p)[k])
                is Some <==> p.validity@[k]) by {}
        }
        lemma_concat_matches_validity(pages@, f);
    }
    let ghost pre_trunc = rows@;
    let budget: Option<usize> = filter_budget(filter);
    truncate_rows(&mut rows, budget);
    let ghost rr = spec_read_count(pages@, *filter);
    proof {
        assert(byte_rows_view(pre_trunc).len() == pre_trunc.len());
        crate::rows::lemma_take_map(pre_trunc, rr as int, vf);
        assert(byte_rows_view(rows@) =~= byte_rows_view(pre_trunc).take(rr as int));
    }
    let ghost pre_filter = rows@;
    match apply_filter(rows, filter) {
        Err(_) => Err(DecodeError::Malformed),
        Ok(out) => {
            proof {
                crate::rows::lemma_select_map(
                    pre_filter,
                    spec_keep(*filter, rr),
                    vf,
                );
                assert(byte_rows_view(out@) =~= select(
                    byte_rows_view(pre_filter),
                    spec_keep(*filter, rr),
                ));
            }
            Ok(out)
        },
    }
}

/// Decodes every page of a variable-length byte column.
#[verifier::loop_isolation(false)]
pub fn pipeline_bytes(pages: &Vec<Page>, filter: &Option<Filter>) -> (r: Result<
    Vec<Option<Vec<u8>>>,
    DecodeError,
>)
    ensures
        r is Ok <==> (pages_ok(pages@, |p: Page| page_ok_bytes(p)) && spec_filter_ok(
            *filter,
            spec_read_count(pages@, *filter),
        )),
        r is Err ==> r->Err_0 == DecodeError::Malformed,
        r is Ok ==> byte_rows_view(r->Ok_0@) == rows_pipeline(
            pages@,
            *filter,
            rows_fn_bytes(),
        ),
{
    let ghost f = rows_fn_bytes();
    let ghost okf = |p: Page| page_ok_bytes(p);
    let ghost vf = |o: Option<Vec<u8>>| byte_row_view(o);
    let n: usize = pages.len();
    let mut rows: Vec<Option<Vec<u8>>> = Vec::new();
    let mut i: usize = 0;
    proof {
        assert(pages@.take(0) =~= Seq::<Page>::empty());
        assert(byte_rows_view(rows@) =~= concat_rows(pages@.take(0), f));
    }
    while i < n
        invariant
            i <= n,
            byte_rows_view(rows@) == concat_rows(pages@.take(i as int), f),
            forall|j: int| 0 <= j < i ==> okf(#[trigger] pages@[j]),
        decreases n - i,
    {
        match decode_page_bytes(&pages[i]) {
            Err(_) => {
                proof {
                    assert(!okf(pages@[i as int]));
                }
                return Err(DecodeError::Malformed);
            },
            Ok(pr) => {
                proof {
                    assert(pages@.take(i as int + 1).drop_last() =~= pages@.take(i as int));
                    assert(pages@.take(i as int + 1).last() == pages@[i as int]);
                    assert(byte_rows_view(pr@) =~= f(pages@[i as int]));
                    assert(byte_rows_view(rows@ + pr@) =~= byte_rows_view(rows@) + byte_rows_view(
                        pr@,
                    ));
                }
                let mut pr2 = pr;
                rows.append(&mut pr2);
            },
        }
        i = i + 1;
    }
    proof {
        assert(pages@.take(n as int) =~= pages@);
        assert(rows_match_validity(f)) by {
            assert forall|p: Page, k: int| 0 <= k < p.validity@.len() implies ((#[trigger] f(p)[k])
                is Some <==> p.validity@[k]) by {}
        }
        lemma_concat_matches_validity(pages@, f);
    }
    let ghost pre_trunc = rows@;
    let budget: Option<usize> = filter_budget(filter);
    truncate_rows(&mut rows, budget);
    let ghost rr = spec_read_count(pages@, *filter);
    proof {
        assert(byte_rows_view(pre_trunc).len() == pre_trunc.len());
        crate::rows::lemma_take_map(pre_trunc, rr as int, vf);
        assert(byte_rows_view(rows@) =~= byte_rows_view(pre_trunc).take(rr as int));
    }
    let ghost pre_filter = rows@;
    match apply_filter(rows, filter) {
        Err(_) => Err(DecodeError::Malformed),
        Ok(out) => {
            proof {
                crate::rows::lemma_select_map(
                    pre_filter,
                    spec_keep(*filter, rr),
                    vf,
                );
                assert(byte_rows_view(out@) =~= select(
                    byte_rows_view(pre_filter),
                    spec_keep(*filter, rr),
                ));
            }
            Ok(out)
        },
    }
}


/// Every present row of a fixed-width pipeline over well-formed pages has
/// exactly `width` bytes.
pub proof fn lemma_fixed_rows_width(pages: Seq<Page>, filter: Option<Filter>, width: nat)
    requires
        forall|k: int| 0 <= k < pages.len() ==> page_ok_width(#[trigger] pages[k], width),
    ensures
        forall|i: int|
            0 <= i < rows_pipeline(pages, filter, rows_fn_fixed(width)).len() && (
            #[trigger] rows_pipeline(pages, filter, rows_fn_fixed(width))[i]) is Some
                ==> rows_pipeline(pages, filter, rows_fn_fixed(width))[i]->0.len() == width,
{
    let f = rows_fn_fixed(width);
    let prop = |o: Option<Seq<u8>>| o is Some ==> o->0.len() == width;
    assert forall|k: int, i: int|
        0 <= k < pages.len() && 0 <= i < f(#[trigger] pages[k]).len() implies prop(
        #[trigger] f(pages[k])[i],
    ) by {
        let p = pages[k];
        let rows = page_rows_fixed(p, width);
        if rows[i] is Some {
            let nn = crate::rows::count_trues(p.validity@);
            let j = crate::rows::count_trues(p.validity@.take(i)) as int;
            crate::rows::lemma_count_trues_take_step(p.validity@, i);
            crate::rows::lemma_count_trues_take_le(p.validity@, i + 1, p.validity@.len() as int);
            assert(p.validity@.take(p.validity@.len() as int) =~= p.validity@);
            assert(j < nn);
            assert(width * j + width <= width * nn && 0 <= width * j) by (nonlinear_arith)
                requires
                    0 <= j,
                    j + 1 <= nn,
                    width >= 0,
            ;
            assert(rows[i]->0.len() == width);
        }
    }
    crate::rows::lemma_concat_elems(pages, f, prop);
    assert(rows_match_validity(f)) by {
        assert forall|p: Page, k: int| 0 <= k < p.validity@.len() implies ((#[trigger] f(p)[k])
            is Some <==> p.validity@[k]) by {}
    }
    lemma_concat_matches_validity(pages, f);
    let rr = spec_read_count(pages, filter);
    let all = concat_rows(pages, f);
    assert forall|i: int| 0 <= i < all.take(rr as int).len() implies prop(
        #[trigger] all.take(rr as int)[i],
    ) by {
        assert(all.take(rr as int)[i] == all[i]);
        assert(prop(all[i]));
    }
    crate::rows::lemma_select_elems(all.take(rr as int), spec_keep(filter, rr), prop);
    assert forall|i: int|
        0 <= i < rows_pipeline(pages, filter, f).len() && (#[trigger] rows_pipeline(
            pages,
            filter,
            f,
        )[i]) is Some implies rows_pipeline(pages, filter, f)[i]->0.len() == width by {
        assert(prop(rows_pipeline(pages, filter, f)[i]));
    }
}


/// A bitmap that mirrors the pipeline rows' null pattern is exactly the
/// filtered source validity.
pub proof fn lemma_bitmap_eq<E>(
    pages: Seq<Page>,
    filter: Option<Filter>,
    f: spec_fn(Page) -> Seq<Option<E>>,
    rows: Seq<Option<E>>,
    bm: Seq<bool>,
)
    requires
        rows_match_validity(f),
        spec_filter_ok(filter, spec_read_count(pages, filter)),
        rows == rows_pipeline(pages, filter, f),
        bm.len() == rows.len(),
        forall|i: int| 0 <= i < rows.len() ==> bm[i] == ((#[trigger] rows[i]) is Some),
    ensures
        bm == spec_bitmap_rows(pages, filter),
{
    lemma_pipeline_bitmap(pages, filter, f);
    assert forall|i: int| 0 <= i < bm.len() implies bm[i] == spec_bitmap_rows(pages, filter)[i] by {
        assert((rows_pipeline(pages, filter, f)[i]) is Some <==> spec_bitmap_rows(
            pages,
            filter,
        )[i]);
    }
    assert(bm =~= spec_bitmap_rows(pages, filter));
}

} // verus!

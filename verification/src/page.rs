//! Decoding one page's raw buffer into rows, per physical layout.
//!
//! A page stores only its non-null values, densely packed; the validity mask
//! says which rows they land on.  A buffer whose length (or structure, for
//! variable-length values) disagrees with the count of set validity bits is
//! a malformed page: fatal for the column.
use vstd::prelude::*;

verus! {

use vstd::arithmetic::div_mod::{
    lemma_fundamental_div_mod,
    lemma_div_multiples_vanish,
    lemma_mod_multiples_basic,
};
use crate::bytes::le_uint;
use crate::convert::{le_i32, le_i64};
use crate::output::Page;
use crate::rows::{count_set, count_trues, expand_rows, spec_rows_of};
use crate::types::DecodeError;

/// A fixed-width page is well formed when its buffer holds exactly one
/// `width`-byte field per set validity bit.
pub open spec fn page_ok_width(p: Page, width: nat) -> bool {
    p.buffer@.len() == width * count_trues(p.validity@)
}

/// A boolean page is well formed when its buffer holds exactly the bit-packed
/// non-null values, one bit each, rounded up to whole bytes.
pub open spec fn page_ok_bool(p: Page) -> bool {
    p.buffer@.len() == count_trues(p.validity@) / 8 + (if count_trues(p.validity@) % 8 == 0 {
        0int
    } else {
        1int
    })
}

/// Bit `k` of a byte, counting from the least significant.
pub open spec fn bit_of(b: u8, k: u8) -> bool {
    (b >> k) & 1 == 1
}

/// The `j`-th non-null boolean of a bit-packed buffer.
pub open spec fn bool_at(buf: Seq<u8>, j: int) -> bool {
    bit_of(buf[j / 8], (j % 8) as u8)
}

/// The `j`-th non-null `i32` of a page buffer.
pub open spec fn i32_at(buf: Seq<u8>, j: int) -> i32 {
    le_i32(buf.subrange(4 * j, 4 * j + 4)) as i32
}

/// The `j`-th non-null `i64` of a page buffer.
pub open spec fn i64_at(buf: Seq<u8>, j: int) -> i64 {
    le_i64(buf.subrange(8 * j, 8 * j + 8)) as i64
}

/// The `j`-th non-null 32-bit pattern of a page buffer.
pub open spec fn u32_at(buf: Seq<u8>, j: int) -> u32 {
    le_uint(buf.subrange(4 * j, 4 * j + 4)) as u32
}

/// The `j`-th non-null 64-bit pattern of a page buffer.
pub open spec fn u64_at(buf: Seq<u8>, j: int) -> u64 {
    le_uint(buf.subrange(8 * j, 8 * j + 8)) as u64
}

/// The `j`-th non-null 96-bit value of a page buffer: three little-endian
/// 32-bit words `(low, mid, day)`.
pub open spec fn int96_at(buf: Seq<u8>, j: int) -> (u32, u32, u32) {
    (
        le_uint(buf.subrange(12 * j, 12 * j + 4)) as u32,
        le_uint(buf.subrange(12 * j + 4, 12 * j + 8)) as u32,
        le_uint(buf.subrange(12 * j + 8, 12 * j + 12)) as u32,
    )
}

/// The `j`-th non-null fixed-length field of a page buffer.
pub open spec fn fixed_at(buf: Seq<u8>, width: nat, j: int) -> Seq<u8> {
    buf.subrange(width * j, width * j + width)
}

/// The rows of an `Int32` page.
pub open spec fn page_rows_i32(p: Page) -> Seq<Option<i32>> {
    spec_rows_of(p.validity@, Seq::new(count_trues(p.validity@), |j: int| i32_at(p.buffer@, j)))
}

/// The rows of an `Int64` page.
pub open spec fn page_rows_i64(p: Page) -> Seq<Option<i64>> {
    spec_rows_of(p.validity@, Seq::new(count_trues(p.validity@), |j: int| i64_at(p.buffer@, j)))
}

/// The rows of a `Float` page, as bit patterns.
pub open spec fn page_rows_f32(p: Page) -> Seq<Option<u32>> {
    spec_rows_of(p.validity@, Seq::new(count_trues(p.validity@), |j: int| u32_at(p.buffer@, j)))
}

/// The rows of a `Double` page, as bit patterns.
pub open spec fn page_rows_f64(p: Page) -> Seq<Option<u64>> {
    spec_rows_of(p.validity@, Seq::new(count_trues(p.validity@), |j: int| u64_at(p.buffer@, j)))
}

/// The rows of an `Int96` page.
pub open spec fn page_rows_int96(p: Page) -> Seq<Option<(u32, u32, u32)>> {
    spec_rows_of(p.validity@, Seq::new(count_trues(p.validity@), |j: int| int96_at(p.buffer@, j)))
}

/// The rows of a `Boolean` page.
pub open spec fn page_rows_bool(p: Page) -> Seq<Option<bool>> {
    spec_rows_of(p.validity@, Seq::new(count_trues(p.validity@), |j: int| bool_at(p.buffer@, j)))
}

/// Checks that a fixed-width page buffer holds exactly `width * nn` bytes.
fn check_width(buffer_len: usize, width: usize, nn: usize) -> (r: bool)
    requires
        width >= 1,
    ensures
        r == (buffer_len as int == width * nn),
{
    let ok: bool = buffer_len % width == 0 && buffer_len / width == nn;
    proof {
        if buffer_len as int == width * nn {
            lemma_mod_multiples_basic(nn as int, width as int);
            lemma_div_multiples_vanish(nn as int, width as int);
            assert(width * nn == (width as int) * (nn as int));
        }
        if ok {
            lemma_fundamental_div_mod(buffer_len as int, width as int);
        }
    }
    ok
}

/// Decodes an `Int32` page into rows.
#[verifier::loop_isolation(false)]
pub fn decode_page_i32(page: &Page) -> (r: Result<Vec<Option<i32>>, DecodeError>)
    ensures
        r is Ok <==> page_ok_width(*page, 4),
        r is Ok ==> r->Ok_0@ == page_rows_i32(*page),
{
    let nn: usize = count_set(&page.validity);
    if !check_width(page.buffer.len(), 4, nn) {
        return Err(DecodeError::Malformed);
    }
    let ghost dense_spec = Seq::new(count_trues(page.validity@), |j: int| i32_at(page.buffer@, j));
    let mut dense: Vec<i32> = Vec::new();
    let mut j: usize = 0;
    while j < nn
        invariant
            j <= nn,
            dense@.len() == j,
            forall|k: int| 0 <= k < j ==> dense@[k] == dense_spec[k],
        decreases nn - j,
    {
        dense.push(read_le_i32_vec(&page.buffer, 4 * j));
        j = j + 1;
    }
    proof {
        assert(dense@ =~= dense_spec);
    }
    Ok(expand_rows(&page.validity, dense))
}

/// Decodes an `Int64` page into rows.
#[verifier::loop_isolation(false)]
pub fn decode_page_i64(page: &Page) -> (r: Result<Vec<Option<i64>>, DecodeError>)
    ensures
        r is Ok <==> page_ok_width(*page, 8),
        r is Ok ==> r->Ok_0@ == page_rows_i64(*page),
{
    let nn: usize = count_set(&page.validity);
    if !check_width(page.buffer.len(), 8, nn) {
        return Err(DecodeError::Malformed);
    }
    let ghost dense_spec = Seq::new(count_trues(page.validity@), |j: int| i64_at(page.buffer@, j));
    let mut dense: Vec<i64> = Vec::new();
    let mut j: usize = 0;
    while j < nn
        invariant
            j <= nn,
            dense@.len() == j,
            forall|k: int| 0 <= k < j ==> dense@[k] == dense_spec[k],
        decreases nn - j,
    {
        let v: i64 = crate::convert::read_le_i64(page.buffer.as_slice(), 8 * j);
        dense.push(v);
        j = j + 1;
    }
    proof {
        assert(dense@ =~= dense_spec);
    }
    Ok(expand_rows(&page.validity, dense))
}

/// Decodes a `Float` page into rows of 32-bit patterns.
#[verifier::loop_isolation(false)]
pub fn decode_page_f32(page: &Page) -> (r: Result<Vec<Option<u32>>, DecodeError>)
    ensures
        r is Ok <==> page_ok_width(*page, 4),
        r is Ok ==> r->Ok_0@ == page_rows_f32(*page),
{
    let nn: usize = count_set(&page.validity);
    if !check_width(page.buffer.len(), 4, nn) {
        return Err(DecodeError::Malformed);
    }
    let ghost dense_spec = Seq::new(count_trues(page.validity@), |j: int| u32_at(page.buffer@, j));
    let mut dense: Vec<u32> = Vec::new();
    let mut j: usize = 0;
    while j < nn
        invariant
            j <= nn,
            dense@.len() == j,
            forall|k: int| 0 <= k < j ==> dense@[k] == dense_spec[k],
        decreases nn - j,
    {
        let v: u32 = crate::convert::read_le_u32(page.buffer.as_slice(), 4 * j);
        dense.push(v);
        j = j + 1;
    }
    proof {
        assert(dense@ =~= dense_spec);
    }
    Ok(expand_rows(&page.validity, dense))
}

/// Decodes a `Double` page into rows of 64-bit patterns.
#[verifier::loop_isolation(false)]
pub fn decode_page_f64(page: &Page) -> (r: Result<Vec<Option<u64>>, DecodeError>)
    ensures
        r is Ok <==> page_ok_width(*page, 8),
        r is Ok ==> r->Ok_0@ == page_rows_f64(*page),
{
    let nn: usize = count_set(&page.validity);
    if !check_width(page.buffer.len(), 8, nn) {
        return Err(DecodeError::Malformed);
    }
    let ghost dense_spec = Seq::new(count_trues(page.validity@), |j: int| u64_at(page.buffer@, j));
    let mut dense: Vec<u64> = Vec::new();
    let mut j: usize = 0;
    while j < nn
        invariant
            j <= nn,
            dense@.len() == j,
            forall|k: int| 0 <= k < j ==> dense@[k] == dense_spec[k],
        decreases nn - j,
    {
        let v: u64 = crate::convert::read_le_u64(page.buffer.as_slice(), 8 * j);
        dense.push(v);
        j = j + 1;
    }
    proof {
        assert(dense@ =~= dense_spec);
    }
    Ok(expand_rows(&page.validity, dense))
}

/// Decodes an `Int96` page into rows of word triples.
#[verifier::loop_isolation(false)]
pub fn decode_page_int96(page: &Page) -> (r: Result<Vec<Option<(u32, u32, u32)>>, DecodeError>)
    ensures
        r is Ok <==> page_ok_width(*page, 12),
        r is Ok ==> r->Ok_0@ == page_rows_int96(*page),
{
    let nn: usize = count_set(&page.validity);
    if !check_width(page.buffer.len(), 12, nn) {
        return Err(DecodeError::Malformed);
    }
    let ghost dense_spec = Seq::new(
        count_trues(page.validity@),
        |j: int| int96_at(page.buffer@, j),
    );
    let mut dense: Vec<(u32, u32, u32)> = Vec::new();
    let mut j: usize = 0;
    while j < nn
        invariant
            j <= nn,
            dense@.len() == j,
            forall|k: int| 0 <= k < j ==> dense@[k] == dense_spec[k],
        decreases nn - j,
    {
        let lo: u32 = crate::convert::read_le_u32(page.buffer.as_slice(), 12 * j);
        let mid: u32 = crate::convert::read_le_u32(page.buffer.as_slice(), 12 * j + 4);
        let day: u32 = crate::convert::read_le_u32(page.buffer.as_slice(), 12 * j + 8);
        dense.push((lo, mid, day));
        j = j + 1;
    }
    proof {
        assert(dense@ =~= dense_spec);
    }
    Ok(expand_rows(&page.validity, dense))
}

/// Decodes a bit-packed `Boolean` page into rows.
#[verifier::loop_isolation(false)]
pub fn decode_page_bool(page: &Page) -> (r: Result<Vec<Option<bool>>, DecodeError>)
    ensures
        r is Ok <==> page_ok_bool(*page),
        r is Ok ==> r->Ok_0@ == page_rows_bool(*page),
{
    let nn: usize = count_set(&page.validity);
    let want: usize = nn / 8 + (if nn % 8 == 0 {
        0
    } else {
        1
    });
    if page.buffer.len() != want {
        return Err(DecodeError::Malformed);
    }
    let ghost dense_spec = Seq::new(count_trues(page.validity@), |j: int| bool_at(page.buffer@, j));
    let mut dense: Vec<bool> = Vec::new();
    let mut j: usize = 0;
    while j < nn
        invariant
            j <= nn,
            dense@.len() == j,
            forall|k: int| 0 <= k < j ==> dense@[k] == dense_spec[k],
        decreases nn - j,
    {
        proof {
            vstd::arithmetic::div_mod::lemma_fundamental_div_mod(j as int, 8);
            vstd::arithmetic::div_mod::lemma_mod_bound(j as int, 8);
            assert(j / 8 < want || (j % 8 == 0 && j / 8 <= want));
        }
        let byte: u8 = page.buffer[j / 8];
        let shift: u8 = (j % 8) as u8;
        let v: bool = (byte >> shift) & 1 == 1;
        dense.push(v);
        j = j + 1;
    }
    proof {
        assert(dense@ =~= dense_spec);
    }
    Ok(expand_rows(&page.validity, dense))
}

/// Decodes a fixed-length byte-field page into rows of `width`-byte chunks.
#[verifier::loop_isolation(false)]
pub fn decode_page_fixed(page: &Page, width: usize) -> (r: Result<Vec<Option<Vec<u8>>>, DecodeError>)
    ensures
        r is Ok <==> page_ok_width(*page, width as nat),
        r is Ok ==> {
            let rows = r->Ok_0@;
            let nn = count_trues(page.validity@);
            &&& rows.len() == page.validity@.len()
            &&& (forall|i: int|
                0 <= i < rows.len() ==> ((#[trigger] rows[i]) is Some <==> page.validity@[i]))
            &&& (forall|i: int|
                0 <= i < rows.len() && page.validity@[i] ==> (#[trigger] rows[i])->0@ == fixed_at(
                    page.buffer@,
                    width as nat,
                    count_trues(page.validity@.take(i)) as int,
                ))
        },
{
    let nn: usize = count_set(&page.validity);
    if width == 0 {
        if page.buffer.len() != 0 {
            return Err(DecodeError::Malformed);
        }
    } else if !check_width(page.buffer.len(), width, nn) {
        return Err(DecodeError::Malformed);
    }
    proof {
        if width == 0 {
            assert(width as int * nn as int == 0) by (nonlinear_arith)
                requires
                    width as int == 0,
            ;
        }
        assert(page.buffer@.len() == width as int * nn as int);
    }
    let mut dense: Vec<Vec<u8>> = Vec::new();
    let mut j: usize = 0;
    while j < nn
        invariant
            j <= nn,
            dense@.len() == j,
            forall|k: int|
                0 <= k < j ==> (#[trigger] dense@[k])@ == fixed_at(page.buffer@, width as nat, k),
        decreases nn - j,
    {
        let mut chunk: Vec<u8> = Vec::new();
        let mut k: usize = 0;
        proof {
            assert(width as int * (j as int + 1) == width as int * j as int + width as int
                && width as int * (j as int + 1) <= width as int * nn as int && 0 <= width as int
                * j as int) by (nonlinear_arith)
                requires
                    0 <= j as int,
                    j as int + 1 <= nn as int,
                    width as int >= 0,
            ;
        }
        while k < width
            invariant
                k <= width,
                chunk@.len() == k,
                chunk@ == page.buffer@.subrange(
                    width as int * j as int,
                    width as int * j as int + k as int,
                ),
            decreases width - k,
        {
            chunk.push(page.buffer[width * j + k]);
            proof {
                assert(chunk@ =~= page.buffer@.subrange(
                    width as int * j as int,
                    width as int * j as int + k as int + 1,
                ));
            }
            k = k + 1;
        }
        dense.push(chunk);
        j = j + 1;
    }
    let rows = expand_rows(&page.validity, dense);
    proof {
        assert forall|i: int|
            0 <= i < rows@.len() && page.validity@[i] implies count_trues(
            page.validity@.take(i),
        ) < nn by {
            crate::rows::lemma_count_trues_take_step(page.validity@, i);
            crate::rows::lemma_count_trues_take_le(
                page.validity@,
                i + 1,
                page.validity@.len() as int,
            );
            assert(page.validity@.take(page.validity@.len() as int) =~= page.validity@);
        }
    }
    Ok(rows)
}

/// Reads a 4-byte little-endian field of a vector at `off`.
fn read_le_i32_vec(buf: &Vec<u8>, off: usize) -> (r: i32)
    requires
        off + 4 <= buf@.len(),
    ensures
        r as int == le_i32(buf@.subrange(off as int, off as int + 4)),
{
    crate::convert::read_le_i32(buf.as_slice(), off)
}


/// Parses `n` length-prefixed byte fields: each is a 4-byte little-endian
/// length followed by that many bytes.  `None` when the buffer is truncated,
/// over-long, or otherwise disagrees with `n`.
pub open spec fn parse_varlen(buf: Seq<u8>, n: nat) -> Option<Seq<Seq<u8>>>
    decreases n,
{
    if n == 0 {
        if buf.len() == 0 {
            Some(Seq::empty())
        } else {
            None
        }
    } else if buf.len() < 4 {
        None
    } else {
        let l = le_uint(buf.take(4));
        if buf.len() - 4 < l {
            None
        } else {
            match parse_varlen(buf.skip(4 + l), (n - 1) as nat) {
                None => None,
                Some(rest) => Some(seq![buf.subrange(4, 4 + l)] + rest),
            }
        }
    }
}

/// A variable-length page is well formed when its buffer parses as exactly
/// one length-prefixed field per set validity bit.
pub open spec fn page_ok_bytes(p: Page) -> bool {
    parse_varlen(p.buffer@, count_trues(p.validity@)) is Some
}

/// The non-null values of a well-formed variable-length page.
pub open spec fn bytes_values(p: Page) -> Seq<Seq<u8>> {
    parse_varlen(p.buffer@, count_trues(p.validity@))->Some_0
}

/// Decodes a `ByteArray` page of length-prefixed fields into rows.
#[verifier::loop_isolation(false)]
pub fn decode_page_bytes(page: &Page) -> (r: Result<Vec<Option<Vec<u8>>>, DecodeError>)
    ensures
        r is Ok <==> page_ok_bytes(*page),
        r is Ok ==> {
            let rows = r->Ok_0@;
            &&& rows.len() == page.validity@.len()
            &&& (forall|i: int|
                0 <= i < rows.len() ==> ((#[trigger] rows[i]) is Some <==> page.validity@[i]))
            &&& (forall|i: int|
                0 <= i < rows.len() && page.validity@[i] ==> (#[trigger] rows[i])->0@
                    == bytes_values(*page)[count_trues(page.validity@.take(i)) as int])
        },
{
    let buf = &page.buffer;
    let ghost full = buf@;
    let nn: usize = count_set(&page.validity);
    let buf_len: usize = buf.len();
    let mut dense: Vec<Vec<u8>> = Vec::new();
    let mut cur: usize = 0;
    let mut c: usize = 0;
    proof {
        assert(full.skip(0) =~= full);
    }
    while c < nn
        invariant
            c <= nn,
            cur <= buf_len,
            dense@.len() == c,
            (parse_varlen(full.skip(cur as int), (nn - c) as nat) is Some <==> parse_varlen(
                full,
                nn as nat,
            ) is Some),
            parse_varlen(full, nn as nat) is Some ==> parse_varlen(full, nn as nat)->Some_0
                == dense@.map_values(|v: Vec<u8>| v@) + parse_varlen(
                full.skip(cur as int),
                (nn - c) as nat,
            )->Some_0,
        decreases nn - c,
    {
        let ghost s = full.skip(cur as int);
        let ghost m = (nn - c) as nat;
        if buf_len - cur < 4 {
            return Err(DecodeError::Malformed);
        }
        let l32: u32 = crate::convert::read_le_u32(buf.as_slice(), cur);
        let l: usize = l32 as usize;
        proof {
            assert(s.take(4) =~= full.subrange(cur as int, cur as int + 4));
        }
        if buf_len - cur - 4 < l {
            return Err(DecodeError::Malformed);
        }
        let start: usize = cur + 4;
        let mut chunk: Vec<u8> = Vec::new();
        let mut k: usize = 0;
        while k < l
            invariant
                k <= l,
                start + l <= buf_len,
                chunk@ == full.subrange(start as int, start as int + k as int),
            decreases l - k,
        {
            chunk.push(buf[start + k]);
            proof {
                assert(chunk@ =~= full.subrange(start as int, start as int + k as int + 1));
            }
            k = k + 1;
        }
        proof {
            assert(chunk@ =~= s.subrange(4, 4 + l as int));
            assert(s.skip(4 + l as int) =~= full.skip(cur as int + 4 + l as int));
            let rest_opt = parse_varlen(full.skip(cur as int + 4 + l as int), (nn - c - 1) as nat);
            assert(parse_varlen(s, m) == (match rest_opt {
                None => None::<Seq<Seq<u8>>>,
                Some(rest) => Some(seq![s.subrange(4, 4 + l as int)] + rest),
            }));
            if rest_opt is Some {
                assert(dense@.map_values(|v: Vec<u8>| v@) + (seq![chunk@] + rest_opt->Some_0)
                    =~= (dense@.map_values(|v: Vec<u8>| v@) + seq![chunk@]) + rest_opt->Some_0);
                assert(dense@.push(chunk).map_values(|v: Vec<u8>| v@) =~= dense@.map_values(
                    |v: Vec<u8>| v@,
                ).push(chunk@));
            }
        }
        dense.push(chunk);
        cur = cur + 4 + l;
        c = c + 1;
    }
    if cur != buf_len {
        return Err(DecodeError::Malformed);
    }
    proof {
        assert(full.skip(cur as int) =~= Seq::<u8>::empty());
        assert(parse_varlen(full, nn as nat)->Some_0 =~= dense@.map_values(|v: Vec<u8>| v@));
    }
    let rows = expand_rows(&page.validity, dense);
    proof {
        assert forall|i: int|
            0 <= i < rows@.len() && page.validity@[i] implies count_trues(
            page.validity@.take(i),
        ) < nn by {
            crate::rows::lemma_count_trues_take_step(page.validity@, i);
            crate::rows::lemma_count_trues_take_le(
                page.validity@,
                i + 1,
                page.validity@.len() as int,
            );
            assert(page.validity@.take(page.validity@.len() as int) =~= page.validity@);
        }
    }
    Ok(rows)
}


/// The rows of a fixed-length byte-field page, as byte sequences.
pub open spec fn page_rows_fixed(p: Page, width: nat) -> Seq<Option<Seq<u8>>> {
    Seq::new(
        p.validity@.len(),
        |i: int|
            if p.validity@[i] {
                Some(fixed_at(p.buffer@, width, count_trues(p.validity@.take(i)) as int))
            } else {
                None
            },
    )
}

/// The rows of a variable-length page, as byte sequences.
pub open spec fn page_rows_bytes(p: Page) -> Seq<Option<Seq<u8>>> {
    Seq::new(
        p.validity@.len(),
        |i: int|
            if p.validity@[i] {
                Some(bytes_values(p)[count_trues(p.validity@.take(i)) as int])
            } else {
                None
            },
    )
}

} // verus!

//! Row-level plumbing shared by every decode strategy: expanding densely
//! packed values against a validity mask, concatenating pages, and applying
//! a row filter.  A row is `Option<T>`: `None` is a null row.
use vstd::prelude::*;

verus! {

use crate::output::{Filter, Page};
use crate::types::DecodeError;

/// How many bits of `s` are set.
pub open spec fn count_trues(s: Seq<bool>) -> nat
    decreases s.len(),
{
    if s.len() == 0 {
        0
    } else {
        count_trues(s.drop_last()) + (if s.last() {
            1nat
        } else {
            0nat
        })
    }
}

pub proof fn lemma_count_trues_take_step(s: Seq<bool>, i: int)
    requires
        0 <= i < s.len(),
    ensures
        count_trues(s.take(i + 1)) == count_trues(s.take(i)) + (if s[i] {
            1nat
        } else {
            0nat
        }),
{
    assert(s.take(i + 1).drop_last() =~= s.take(i));
    assert(s.take(i + 1).last() == s[i]);
}

pub proof fn lemma_count_trues_le_len(s: Seq<bool>)
    ensures
        count_trues(s) <= s.len(),
    decreases s.len(),
{
    if s.len() > 0 {
        lemma_count_trues_le_len(s.drop_last());
    }
}

/// Counting set bits grows along prefixes.
pub proof fn lemma_count_trues_take_le(s: Seq<bool>, i: int, j: int)
    requires
        0 <= i <= j <= s.len(),
    ensures
        count_trues(s.take(i)) <= count_trues(s.take(j)),
    decreases j - i,
{
    if i < j {
        lemma_count_trues_take_step(s, j - 1);
        lemma_count_trues_take_le(s, i, j - 1);
    }
}

/// Densely packed values spread out against a validity mask: row `i` holds
/// the next unconsumed value when its bit is set, and null otherwise.
pub open spec fn spec_rows_of<E>(validity: Seq<bool>, dense: Seq<E>) -> Seq<Option<E>> {
    Seq::new(
        validity.len(),
        |i: int|
            if validity[i] {
                Some(dense[count_trues(validity.take(i)) as int])
            } else {
                None
            },
    )
}

/// The rows of all pages in order, each page read by `f`.
pub open spec fn concat_rows<E>(pages: Seq<Page>, f: spec_fn(Page) -> Seq<Option<E>>) -> Seq<
    Option<E>,
>
    decreases pages.len(),
{
    if pages.len() == 0 {
        Seq::empty()
    } else {
        concat_rows(pages.drop_last(), f) + f(pages.last())
    }
}

/// The validity bits of all pages in order.
pub open spec fn all_validity(pages: Seq<Page>) -> Seq<bool>
    decreases pages.len(),
{
    if pages.len() == 0 {
        Seq::empty()
    } else {
        all_validity(pages.drop_last()) + pages.last().validity@
    }
}

/// When `f` reads each page into rows that mirror its validity, the
/// concatenation mirrors the concatenated validity.
pub proof fn lemma_concat_matches_validity<E>(pages: Seq<Page>, f: spec_fn(Page) -> Seq<Option<E>>)
    requires
        forall|p: Page| (#[trigger] f(p)).len() == p.validity@.len(),
        forall|p: Page, i: int|
            0 <= i < p.validity@.len() ==> ((#[trigger] f(p)[i]) is Some <==> p.validity@[i]),
    ensures
        concat_rows(pages, f).len() == all_validity(pages).len(),
        forall|i: int|
            0 <= i < all_validity(pages).len() ==> ((#[trigger] concat_rows(pages, f)[i]) is Some
                <==> all_validity(pages)[i]),
    decreases pages.len(),
{
    if pages.len() > 0 {
        lemma_concat_matches_validity(pages.drop_last(), f);
    }
}

/// Keeps the elements of `s` whose keep bit is set, in order.
pub open spec fn select<T>(s: Seq<T>, keep: Seq<bool>) -> Seq<T>
    decreases s.len(),
{
    if s.len() == 0 || keep.len() == 0 {
        Seq::empty()
    } else {
        select(s.drop_last(), keep.drop_last()) + (if keep.last() {
            seq![s.last()]
        } else {
            Seq::empty()
        })
    }
}

pub proof fn lemma_select_take_step<T>(s: Seq<T>, keep: Seq<bool>, i: int)
    requires
        0 <= i < s.len(),
        s.len() == keep.len(),
    ensures
        select(s.take(i + 1), keep.take(i + 1)) == select(s.take(i), keep.take(i)) + (if keep[i] {
            seq![s[i]]
        } else {
            Seq::<T>::empty()
        }),
{
    assert(s.take(i + 1).drop_last() =~= s.take(i));
    assert(keep.take(i + 1).drop_last() =~= keep.take(i));
    if i == 0 {
        assert(s.take(0) =~= Seq::<T>::empty());
        assert(keep.take(0) =~= Seq::<bool>::empty());
    }
}

pub proof fn lemma_select_len<T>(s: Seq<T>, keep: Seq<bool>)
    ensures
        select(s, keep).len() <= s.len(),
    decreases s.len(),
{
    if s.len() > 0 && keep.len() > 0 {
        lemma_select_len(s.drop_last(), keep.drop_last());
    }
}

/// A keep mask that is all true selects everything.
pub proof fn lemma_select_all_true<T>(s: Seq<T>, keep: Seq<bool>)
    requires
        s.len() == keep.len(),
        forall|i: int| 0 <= i < keep.len() ==> keep[i],
    ensures
        select(s, keep) == s,
    decreases s.len(),
{
    if s.len() == 0 {
        assert(select(s, keep) =~= s);
    } else {
        lemma_select_all_true(s.drop_last(), keep.drop_last());
        assert(keep[s.len() - 1]);
        assert(select(s, keep) =~= s);
    }
}

/// Selection keeps the null pattern aligned: row `i` of the selected rows is
/// null exactly when bit `i` of the selected validity is clear.
pub proof fn lemma_select_is_some<E>(rows: Seq<Option<E>>, validity: Seq<bool>, keep: Seq<bool>)
    requires
        rows.len() == validity.len(),
        rows.len() == keep.len(),
        forall|i: int| 0 <= i < rows.len() ==> ((#[trigger] rows[i]) is Some <==> validity[i]),
    ensures
        select(rows, keep).len() == select(validity, keep).len(),
        forall|i: int|
            0 <= i < select(rows, keep).len() ==> ((#[trigger] select(rows, keep)[i]) is Some <==> select(
                validity,
                keep,
            )[i]),
    decreases rows.len(),
{
    if rows.len() > 0 {
        lemma_select_is_some(rows.drop_last(), validity.drop_last(), keep.drop_last());
        assert(rows[rows.len() - 1] is Some <==> validity[validity.len() - 1]);
    }
}

/// The row budget a filter implies: how many rows the decode reads at most.
pub open spec fn spec_budget(filter: Option<Filter>) -> Option<usize> {
    match filter {
        None => None,
        Some(Filter::Range(_, end)) => Some(end),
        Some(Filter::Mask(m)) => Some(m@.len() as usize),
    }
}

/// How many rows are read: the whole column, capped by the budget.
pub open spec fn spec_rows_read(total: nat, budget: Option<usize>) -> nat {
    match budget {
        None => total,
        Some(b) => if total <= b {
            total
        } else {
            b as nat
        },
    }
}

/// Whether the filter fits the rows that were read: an explicit mask must
/// have exactly one bit per row.
pub open spec fn spec_filter_ok(filter: Option<Filter>, n: nat) -> bool {
    match filter {
        Some(Filter::Mask(m)) => m@.len() == n,
        _ => true,
    }
}

/// The keep bit of each of `n` read rows.
pub open spec fn spec_keep(filter: Option<Filter>, n: nat) -> Seq<bool> {
    match filter {
        None => Seq::new(n, |i: int| true),
        Some(Filter::Range(start, end)) => Seq::new(n, |i: int| start <= i < end),
        Some(Filter::Mask(m)) => m@,
    }
}

/// The row budget the filter implies.
pub fn filter_budget(filter: &Option<Filter>) -> (r: Option<usize>)
    ensures
        r == spec_budget(*filter),
{
    match filter {
        None => None,
        Some(Filter::Range(_, end)) => Some(*end),
        Some(Filter::Mask(m)) => Some(m.len()),
    }
}

/// Counts the set bits of a validity mask.
pub fn count_set(v: &Vec<bool>) -> (r: usize)
    ensures
        r == count_trues(v@),
{
    let n: usize = v.len();
    let mut c: usize = 0;
    let mut i: usize = 0;
    proof {
        assert(v@.take(0) =~= Seq::<bool>::empty());
    }
    while i < n
        invariant
            i <= n,
            n == v@.len(),
            c == count_trues(v@.take(i as int)),
            c <= i,
        decreases n - i,
    {
        proof {
            lemma_count_trues_take_step(v@, i as int);
        }
        if v[i] {
            c = c + 1;
        }
        i = i + 1;
    }
    proof {
        assert(v@.take(n as int) =~= v@);
    }
    c
}

/// Spreads densely packed values out against the validity mask.
#[verifier::loop_isolation(false)]
pub fn expand_rows<T>(validity: &Vec<bool>, dense: Vec<T>) -> (r: Vec<Option<T>>)
    requires
        dense@.len() == count_trues(validity@),
    ensures
        r@ == spec_rows_of(validity@, dense@),
{
    let ghost orig = dense@;
    let n: usize = validity.len();
    let mut rest = dense;
    let mut out: Vec<Option<T>> = Vec::new();
    let mut i: usize = 0;
    proof {
        assert(validity@.take(0) =~= Seq::<bool>::empty());
    }
    let mut c: usize = 0;
    while i < n
        invariant
            i <= n,
            c == count_trues(validity@.take(i as int)),
            rest@ == orig.skip(c as int),
            out@.len() == i,
            forall|j: int| 0 <= j < i ==> out@[j] == spec_rows_of(validity@, orig)[j],
        decreases n - i,
    {
        proof {
            lemma_count_trues_take_step(validity@, i as int);
            lemma_count_trues_take_le(validity@, i as int + 1, n as int);
            lemma_count_trues_le_len(validity@.take(i as int));
            assert(validity@.take(n as int) =~= validity@);
        }
        if validity[i] {
            let v = rest.remove(0);
            proof {
                assert(orig.skip(c as int)[0] == orig[c as int]);
                assert(orig.skip(c as int).skip(1) =~= orig.skip(c as int + 1));
            }
            out.push(Some(v));
            c = c + 1;
        } else {
            out.push(None);
        }
        i = i + 1;
    }
    proof {
        assert(out@ =~= spec_rows_of(validity@, orig));
    }
    out
}

/// Applies the row filter: keeps the rows its mask or range selects.  An
/// explicit mask whose length is not the number of read rows is a structural
/// error, fatal for the column.
#[verifier::loop_isolation(false)]
pub fn apply_filter<T>(rows: Vec<T>, filter: &Option<Filter>) -> (r: Result<
    Vec<T>,
    DecodeError,
>)
    ensures
        r is Ok <==> spec_filter_ok(*filter, rows@.len()),
        r is Ok ==> r->Ok_0@ == select(rows@, spec_keep(*filter, rows@.len())),
{
    let ghost orig = rows@;
    let ghost keep = spec_keep(*filter, rows@.len());
    let n: usize = rows.len();
    match filter {
        None => {
            proof {
                lemma_select_all_true(orig, keep);
            }
            Ok(rows)
        },
        Some(Filter::Range(start, end)) => {
            let s: usize = *start;
            let e: usize = *end;
            let mut rest = rows;
            let mut out: Vec<T> = Vec::new();
            let mut i: usize = 0;
            proof {
                assert(orig.take(0) =~= Seq::<T>::empty());
                assert(keep.take(0) =~= Seq::<bool>::empty());
                assert(select(orig.take(0), keep.take(0)) =~= Seq::<T>::empty());
            }
            while i < n
                invariant
                    i <= n,
                    rest@ == orig.skip(i as int),
                    out@ == select(orig.take(i as int), keep.take(i as int)),
                decreases n - i,
            {
                proof {
                    lemma_select_take_step(orig, keep, i as int);
                    assert(orig.skip(i as int)[0] == orig[i as int]);
                    assert(orig.skip(i as int).skip(1) =~= orig.skip(i as int + 1));
                }
                let v = rest.remove(0);
                if s <= i && i < e {
                    out.push(v);
                }
                i = i + 1;
            }
            proof {
                assert(orig.take(n as int) =~= orig);
                assert(keep.take(n as int) =~= keep);
            }
            Ok(out)
        },
        Some(Filter::Mask(m)) => {
            if m.len() != n {
                return Err(DecodeError::Malformed);
            }
            let mut rest = rows;
            let mut out: Vec<T> = Vec::new();
            let mut i: usize = 0;
            proof {
                assert(orig.take(0) =~= Seq::<T>::empty());
                assert(keep.take(0) =~= Seq::<bool>::empty());
                assert(select(orig.take(0), keep.take(0)) =~= Seq::<T>::empty());
            }
            while i < n
                invariant
                    i <= n,
                    rest@ == orig.skip(i as int),
                    out@ == select(orig.take(i as int), keep.take(i as int)),
                decreases n - i,
            {
                proof {
                    lemma_select_take_step(orig, keep, i as int);
                    assert(orig.skip(i as int)[0] == orig[i as int]);
                    assert(orig.skip(i as int).skip(1) =~= orig.skip(i as int + 1));
                }
                let v = rest.remove(0);
                if m[i] {
                    out.push(v);
                }
                i = i + 1;
            }
            proof {
                assert(orig.take(n as int) =~= orig);
                assert(keep.take(n as int) =~= keep);
            }
            Ok(out)
        },
    }
}

/// The validity bitmap of a row sequence: bit `i` is set iff row `i` holds a
/// value.
pub fn validity_of<T>(rows: &Vec<Option<T>>) -> (r: Vec<bool>)
    ensures
        r@.len() == rows@.len(),
        forall|i: int| 0 <= i < rows@.len() ==> r@[i] == ((#[trigger] rows@[i]) is Some),
{
    let n: usize = rows.len();
    let mut out: Vec<bool> = Vec::new();
    let mut i: usize = 0;
    while i < n
        invariant
            i <= n,
            n == rows@.len(),
            out@.len() == i,
            forall|j: int| 0 <= j < i ==> out@[j] == ((#[trigger] rows@[j]) is Some),
        decreases n - i,
    {
        let set: bool = match &rows[i] {
            Some(_) => true,
            None => false,
        };
        out.push(set);
        i = i + 1;
    }
    out
}

/// Truncates a row sequence to the budget, if one is given.
pub fn truncate_rows<T>(rows: &mut Vec<T>, budget: Option<usize>)
    ensures
        final(rows)@ == old(rows)@.take(
            spec_rows_read(old(rows)@.len(), budget) as int,
        ),
{
    match budget {
        None => {
            proof {
                assert(old(rows)@.take(old(rows)@.len() as int) =~= old(rows)@);
            }
        },
        Some(b) => {
            rows.truncate(b);
            proof {
                if b >= old(rows)@.len() {
                    assert(old(rows)@.take(old(rows)@.len() as int) =~= old(rows)@);
                } else {
                    assert(old(rows)@.subrange(0, b as int) =~= old(rows)@.take(b as int));
                }
            }
        },
    }
}


/// Byte rows read as sequences: the spec-level view of `Vec<u8>` rows.
pub open spec fn bytes_rows_view(s: Seq<Option<Vec<u8>>>) -> Seq<Option<Seq<u8>>> {
    s.map_values(
        |o: Option<Vec<u8>>|
            match o {
                Some(v) => Some(v@),
                None => None,
            },
    )
}

/// Mapping each element commutes with selection.
pub proof fn lemma_select_map<T, U>(s: Seq<T>, keep: Seq<bool>, f: spec_fn(T) -> U)
    ensures
        select(s.map_values(f), keep) == select(s, keep).map_values(f),
    decreases s.len(),
{
    if s.len() == 0 || keep.len() == 0 {
        assert(s.map_values(f).len() == s.len());
        assert(select(s.map_values(f), keep) =~= select(s, keep).map_values(f));
    } else {
        lemma_select_map(s.drop_last(), keep.drop_last(), f);
        assert(s.map_values(f).drop_last() =~= s.drop_last().map_values(f));
        assert(s.map_values(f).last() == f(s.last()));
        assert(select(s.map_values(f), keep) =~= select(s, keep).map_values(f));
    }
}

/// Taking a prefix commutes with the byte-rows view.
pub proof fn lemma_take_map<T, U>(s: Seq<T>, n: int, f: spec_fn(T) -> U)
    requires
        0 <= n <= s.len(),
    ensures
        s.map_values(f).take(n) == s.take(n).map_values(f),
{
    assert(s.map_values(f).take(n) =~= s.take(n).map_values(f));
}


/// Selection keeps only elements of the source, so a pointwise property
/// survives it.
pub proof fn lemma_select_elems<T>(s: Seq<T>, keep: Seq<bool>, prop: spec_fn(T) -> bool)
    requires
        forall|i: int| 0 <= i < s.len() ==> prop(#[trigger] s[i]),
    ensures
        forall|i: int|
            0 <= i < select(s, keep).len() ==> prop(#[trigger] select(s, keep)[i]),
    decreases s.len(),
{
    if s.len() > 0 && keep.len() > 0 {
        assert forall|i: int| 0 <= i < s.drop_last().len() implies prop(
            #[trigger] s.drop_last()[i],
        ) by {
            assert(s.drop_last()[i] == s[i]);
        }
        lemma_select_elems(s.drop_last(), keep.drop_last(), prop);
        let pre = select(s.drop_last(), keep.drop_last());
        assert forall|i: int| 0 <= i < select(s, keep).len() implies prop(
            #[trigger] select(s, keep)[i],
        ) by {
            if i < pre.len() {
                assert(select(s, keep)[i] == pre[i]);
            } else {
                assert(select(s, keep)[i] == s.last());
                assert(prop(s[s.len() - 1]));
            }
        }
    }
}

/// A pointwise property of every page's rows holds of the concatenation.
pub proof fn lemma_concat_elems<E>(
    pages: Seq<Page>,
    f: spec_fn(Page) -> Seq<Option<E>>,
    prop: spec_fn(Option<E>) -> bool,
)
    requires
        forall|k: int, i: int|
            0 <= k < pages.len() && 0 <= i < f(#[trigger] pages[k]).len() ==> prop(
                #[trigger] f(pages[k])[i],
            ),
    ensures
        forall|i: int|
            0 <= i < concat_rows(pages, f).len() ==> prop(#[trigger] concat_rows(pages, f)[i]),
    decreases pages.len(),
{
    if pages.len() > 0 {
        assert forall|k: int, i: int|
            0 <= k < pages.drop_last().len() && 0 <= i < f(
                #[trigger] pages.drop_last()[k],
            ).len() implies prop(#[trigger] f(pages.drop_last()[k])[i]) by {
            assert(pages.drop_last()[k] == pages[k]);
        }
        lemma_concat_elems(pages.drop_last(), f, prop);
        let pre = concat_rows(pages.drop_last(), f);
        assert forall|i: int| 0 <= i < concat_rows(pages, f).len() implies prop(
            #[trigger] concat_rows(pages, f)[i],
        ) by {
            if i < pre.len() {
                assert(concat_rows(pages, f)[i] == pre[i]);
            } else {
                assert(concat_rows(pages, f)[i] == f(pages.last())[i - pre.len()]);
                assert(pages.last() == pages[pages.len() - 1]);
                assert(prop(f(pages[pages.len() - 1])[i - pre.len()]));
            }
        }
    }
}

} // verus!

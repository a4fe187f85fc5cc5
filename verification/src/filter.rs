//! Filtering a raw collection and materializing one page of it.
//!
//! A single size threshold decides whether the per-item predicate runs in
//! one sequential pass or as a parallel fan-out; both paths are pinned to
//! the same specification, so the choice can never change the result. Only
//! the items inside the requested page window are normalized.

use vstd::prelude::*;
use rayon::iter::{IntoParallelIterator, ParallelIterator};
use crate::config::AppConfig;
use crate::models::{AbsItemResult, LibraryItem};
use crate::normalize::{normalizes, parse_library_item};
use crate::query::{LibraryQuery, item_matches, spec_item_matches};
use crate::text::lemma_filter_push;

verus! {

/// Collections at least this large are filtered and categorized with
/// parallel passes; smaller ones stay on the calling thread.
pub const PARALLEL_THRESHOLD: usize = 5000;

/// The ordered subset of `items` that the query retains: input order, with
/// every item passing the inclusion predicate.
pub open spec fn filtered(items: Seq<AbsItemResult>, q: LibraryQuery, show_non_ebooks: bool) -> Seq<
    AbsItemResult,
> {
    items.filter(|it: AbsItemResult| spec_item_matches(it, q, show_non_ebooks))
}

/// Reverses a vector.
fn reverse_vec<T>(v: Vec<T>) -> (r: Vec<T>)
    ensures
        r@ == v@.reverse(),
{
    let ghost orig = v@;
    let mut v = v;
    let mut r: Vec<T> = Vec::new();
    while v.len() > 0
        invariant
            v@.len() <= orig.len(),
            v@ == orig.take(v@.len() as int),
            r@ == orig.skip(v@.len() as int).reverse(),
        decreases v@.len(),
    {
        let ghost n = v@.len() as int;
        let x = v.pop().unwrap();
        proof {
            assert(orig.take(n)[n - 1] == orig[n - 1]);
            assert(orig.take(n).drop_last() =~= orig.take(n - 1));
            assert(orig.skip(n - 1).reverse() =~= orig.skip(n).reverse().push(orig[n - 1]));
        }
        r.push(x);
    }
    proof {
        assert(orig.skip(0).reverse() =~= orig.reverse());
        assert(v@.len() == 0);
    }
    r
}

/// Filters the collection in one sequential pass over the calling thread.
pub fn filter_items_sequential(
    items: Vec<AbsItemResult>,
    q: &LibraryQuery,
    show_non_ebooks: bool,
) -> (r: Vec<AbsItemResult>)
    ensures
        r@ == filtered(items@, *q, show_non_ebooks),
{
    let ghost orig = items@;
    let ghost pred = |it: AbsItemResult| spec_item_matches(it, *q, show_non_ebooks);
    let mut stack = reverse_vec(items);
    let mut kept: Vec<AbsItemResult> = Vec::new();
    proof {
        reveal(Seq::filter);
        assert(orig.take(0) =~= Seq::<AbsItemResult>::empty());
        assert(orig.skip(0) =~= orig);
    }
    while stack.len() > 0
        invariant
            stack@.len() <= orig.len(),
            stack@ == orig.skip(orig.len() - stack@.len()).reverse(),
            kept@ == orig.take(orig.len() - stack@.len()).filter(pred),
            pred == |it: AbsItemResult| spec_item_matches(it, *q, show_non_ebooks),
        decreases stack@.len(),
    {
        let ghost k = orig.len() - stack@.len();
        let it = stack.pop().unwrap();
        proof {
            assert(orig.skip(k as int).reverse().last() == orig.skip(k as int)[0]);
            assert(orig.skip(k as int)[0] == orig[k as int]);
            assert(it == orig[k as int]);
            assert(orig.skip(k as int).reverse().drop_last() =~= orig.skip(k + 1).reverse());
            assert(orig.take(k + 1) =~= orig.take(k as int).push(orig[k as int]));
            lemma_filter_push(orig.take(k as int), orig[k as int], pred);
        }
        if item_matches(&it, q, show_non_ebooks) {
            kept.push(it);
        }
    }
    proof {
        assert(orig.take(orig.len() as int) == orig);
    }
    kept
}

/// Relies on rayon's `into_par_iter`, `filter` and `collect` into a vector:
/// the parallel filter keeps exactly the items the predicate accepts, in
/// their original relative order. The predicate itself is this crate's
/// verified [`item_matches`].
#[verifier::external_body]
fn par_filter_items(items: Vec<AbsItemResult>, q: &LibraryQuery, show_non_ebooks: bool) -> (r: Vec<
    AbsItemResult,
>)
    ensures
        r@ == filtered(items@, *q, show_non_ebooks),
{
    items.into_par_iter().filter(|it| item_matches(it, q, show_non_ebooks)).collect()
}

/// Filters the collection, choosing the sequential or the parallel pass by
/// comparing its size against `threshold`. The result is the same either
/// way: the threshold is a performance knob, never a behavior fork.
pub fn filter_items_with_threshold(
    items: Vec<AbsItemResult>,
    q: &LibraryQuery,
    show_non_ebooks: bool,
    threshold: usize,
) -> (r: Vec<AbsItemResult>)
    ensures
        r@ == filtered(items@, *q, show_non_ebooks),
{
    if items.len() < threshold {
        filter_items_sequential(items, q, show_non_ebooks)
    } else {
        par_filter_items(items, q, show_non_ebooks)
    }
}

/// Filters the collection under the engine's standard threshold.
pub fn filter_items(items: Vec<AbsItemResult>, q: &LibraryQuery, show_non_ebooks: bool) -> (r:
    Vec<AbsItemResult>)
    ensures
        r@ == filtered(items@, *q, show_non_ebooks),
{
    filter_items_with_threshold(items, q, show_non_ebooks, PARALLEL_THRESHOLD)
}

/// The first index of the requested page window.
pub open spec fn window_start(page: nat, page_size: nat) -> int {
    (page * page_size) as int
}

/// How many items the requested page window holds, given the filtered
/// total: zero beyond the end, a full page inside, the remainder on the
/// last page.
pub open spec fn window_len(page: nat, page_size: nat, total: nat) -> int {
    if window_start(page, page_size) >= total {
        0
    } else if total - window_start(page, page_size) < page_size {
        total - window_start(page, page_size)
    } else {
        page_size as int
    }
}

/// Filters the whole collection and materializes only the requested page of
/// it: the returned items are the normalized forms of the filtered items in
/// the page window, and the returned count is the full filtered total. A
/// page beyond the end yields an empty list, never an error.
pub fn filter_and_paginate(
    items: Vec<AbsItemResult>,
    query: &LibraryQuery,
    config: &AppConfig,
) -> (r: (Vec<LibraryItem>, usize))
    ensures
        r.1 == filtered(items@, *query, config.show_audiobooks).len(),
        r.0@.len() == window_len(
            query.page as nat,
            config.opds_page_size as nat,
            filtered(items@, *query, config.show_audiobooks).len(),
        ),
        forall|j: int|
            0 <= j < r.0@.len() ==> normalizes(
                filtered(items@, *query, config.show_audiobooks)[window_start(
                    query.page as nat,
                    config.opds_page_size as nat,
                ) + j],
                #[trigger] r.0@[j],
            ),
{
    let kept = filter_items(items, query, config.show_audiobooks);
    let total = kept.len();
    let page_size = config.opds_page_size;
    let page = query.page;
    if page_size == 0 || total == 0 {
        proof {
            if page_size == 0 {
                assert(window_start(page as nat, 0) == 0) by (nonlinear_arith);
            }
        }
        return (Vec::new(), total);
    }
    // The window is empty exactly when `page * page_size >= total`; the
    // comparison is done by division so that the product cannot overflow.
    if page > (total - 1) / page_size {
        proof {
            vstd::arithmetic::div_mod::lemma_fundamental_div_mod((total - 1) as int, page_size as int);
            assert(window_start(page as nat, page_size as nat) >= total) by {
                let q = ((total - 1) as int) / (page_size as int);
                assert(page >= q + 1);
                vstd::arithmetic::mul::lemma_mul_inequality(
                    q + 1,
                    page as int,
                    page_size as int,
                );
                assert((q + 1) * page_size == q * page_size + page_size) by (nonlinear_arith);
                assert(q * page_size > total - 1 - page_size);
            }
        }
        return (Vec::new(), total);
    }
    proof {
        vstd::arithmetic::div_mod::lemma_fundamental_div_mod((total - 1) as int, page_size as int);
        let q = ((total - 1) as int) / (page_size as int);
        vstd::arithmetic::mul::lemma_mul_inequality(page as int, q, page_size as int);
        assert(q * page_size <= total - 1);
        assert(page * page_size <= total - 1);
    }
    let start: usize = page * page_size;
    let remaining = total - start;
    let take_n = if remaining < page_size {
        remaining
    } else {
        page_size
    };
    let mut out: Vec<LibraryItem> = Vec::new();
    let mut j: usize = 0;
    while j < take_n
        invariant
            0 <= j <= take_n,
            start + take_n <= total,
            total == kept@.len(),
            out@.len() == j,
            forall|k: int|
                0 <= k < j ==> normalizes(kept@[start + k], #[trigger] out@[k]),
        decreases take_n - j,
    {
        let n = parse_library_item(&kept[start + j]);
        out.push(n);
        j = j + 1;
    }
    proof {
        assert(out@.len() == window_len(page as nat, page_size as nat, total as nat));
    }
    (out, total)
}

} // verus!

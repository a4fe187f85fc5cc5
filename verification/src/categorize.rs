//! Distinct-value category listings over a whole raw collection.
//!
//! Categorization answers "what values exist in this library" for one
//! facet, independent of any active text filter: every raw item's facet
//! field is split and trimmed, the values are deduplicated and sorted, and
//! the result is either listed directly or grouped into per-letter buckets
//! with counts.

use vstd::prelude::*;
use rayon::iter::{IntoParallelRefIterator, ParallelIterator};
use crate::filter::PARALLEL_THRESHOLD;
use crate::models::{AbsItemResult, ItemType};
use crate::normalize::{names_of, split_trimmed_str_of};
use crate::query::LibraryQuery;
use crate::config::AppConfig;
use crate::text::{
    char_lt, lemma_filter_push, lemma_lex_lt_trans, lemma_lex_lt_trichotomy, lex_lt, str_eq_str,
    str_lex_lt, trim, trim_str,
};
use crate::unicode::{bucket_letter, bucket_letter_of, folded_lower_first, fold_lower_first};

verus! {

/// The trimmed values of an optional string list; empty when absent.
pub open spec fn trimmed_list(field: Option<Vec<String>>) -> Seq<Seq<char>> {
    match field {
        Some(v) => v@.map_values(|s: String| trim(s@)),
        None => Seq::empty(),
    }
}

/// The raw values one item contributes to a facet: the split and trimmed
/// delimited field for authors, narrators and series, and the trimmed
/// genres and tags together for the genre facet.
pub open spec fn extract_values(item: AbsItemResult, facet: ItemType) -> Seq<Seq<char>> {
    match facet {
        ItemType::Authors => names_of(item.media.metadata.author_name),
        ItemType::Narrators => names_of(item.media.metadata.narrator_name),
        ItemType::Genres => trimmed_list(item.media.metadata.genres) + trimmed_list(
            item.media.metadata.tags,
        ),
        ItemType::Series => names_of(item.media.metadata.series_name),
    }
}

/// Every value the whole collection contributes to a facet, in input order,
/// duplicates included.
pub open spec fn category_values(items: Seq<AbsItemResult>, facet: ItemType) -> Seq<Seq<char>> {
    items.map_values(|it: AbsItemResult| extract_values(it, facet)).flatten()
}

/// Trims every string of an optional list.
fn trimmed_list_of(field: &Option<Vec<String>>) -> (r: Vec<String>)
    ensures
        r.deep_view() == trimmed_list(*field),
{
    let mut r: Vec<String> = Vec::new();
    proof {
        assert(r.deep_view() =~= Seq::<Seq<char>>::empty());
    }
    match field {
        Some(v) => {
            let mut i: usize = 0;
            proof {
                assert(v@.take(0).map_values(|s: String| trim(s@)) =~= Seq::<Seq<char>>::empty());
            }
            while i < v.len()
                invariant
                    0 <= i <= v@.len(),
                    r.deep_view() == v@.take(i as int).map_values(|s: String| trim(s@)),
                decreases v@.len() - i,
            {
                r.push(trim_str(v[i].as_str()));
                proof {
                    assert(v@.take(i + 1) == v@.take(i as int).push(v@[i as int]));
                    assert(v@.take(i + 1).map_values(|s: String| trim(s@)) =~= v@.take(
                        i as int,
                    ).map_values(|s: String| trim(s@)).push(trim(v@[i as int]@)));
                    assert(r.deep_view() =~= r.deep_view().drop_last().push(trim(v@[i as int]@)));
                }
                i = i + 1;
            }
            proof {
                assert(v@.take(v@.len() as int) == v@);
            }
            r
        },
        None => r,
    }
}

/// The values one item contributes to a facet.
pub fn extract_item_values(item: &AbsItemResult, facet: ItemType) -> (r: Vec<String>)
    ensures
        r.deep_view() == extract_values(*item, facet),
{
    match facet {
        ItemType::Authors => split_trimmed_str_of(&item.media.metadata.author_name),
        ItemType::Narrators => split_trimmed_str_of(&item.media.metadata.narrator_name),
        ItemType::Genres => {
            let mut r = trimmed_list_of(&item.media.metadata.genres);
            let mut tags = trimmed_list_of(&item.media.metadata.tags);
            let ghost r_dv = r.deep_view();
            let ghost tags_dv = tags.deep_view();
            r.append(&mut tags);
            proof {
                assert(r.deep_view() =~= r_dv + tags_dv);
            }
            r
        },
        ItemType::Series => split_trimmed_str_of(&item.media.metadata.series_name),
    }
}

/// Collects every facet value of the collection in one sequential pass.
pub fn collect_values_sequential(items: &Vec<AbsItemResult>, facet: ItemType) -> (r: Vec<String>)
    ensures
        r.deep_view() == category_values(items@, facet),
{
    let ghost f = |it: AbsItemResult| extract_values(it, facet);
    let mut r: Vec<String> = Vec::new();
    let mut i: usize = 0;
    proof {
        assert(r.deep_view() =~= Seq::<Seq<char>>::empty());
        assert(items@.take(0).map_values(f) =~= Seq::<Seq<Seq<char>>>::empty());
        reveal_with_fuel(Seq::flatten, 1);
        assert(items@.take(0).map_values(f).flatten() =~= Seq::<Seq<char>>::empty());
    }
    while i < items.len()
        invariant
            0 <= i <= items@.len(),
            f == |it: AbsItemResult| extract_values(it, facet),
            r.deep_view() == items@.take(i as int).map_values(f).flatten(),
        decreases items@.len() - i,
    {
        let mut vals = extract_item_values(&items[i], facet);
        let ghost r_dv = r.deep_view();
        let ghost vals_dv = vals.deep_view();
        r.append(&mut vals);
        proof {
            assert(r.deep_view() =~= r_dv + vals_dv);
            assert(items@.take(i + 1) == items@.take(i as int).push(items@[i as int]));
            assert(items@.take(i + 1).map_values(f) =~= items@.take(i as int).map_values(f).push(
                f(items@[i as int]),
            ));
            items@.take(i as int).map_values(f).lemma_flatten_push(f(items@[i as int]));
        }
        i = i + 1;
    }
    proof {
        assert(items@.take(items@.len() as int) == items@);
    }
    r
}

/// Relies on rayon's `par_iter`, `flat_map` and `collect` into a vector:
/// the parallel pass concatenates, in input order, what each item
/// contributes. The per-item work is this crate's verified
/// [`extract_item_values`].
#[verifier::external_body]
fn par_collect_values(items: &Vec<AbsItemResult>, facet: ItemType) -> (r: Vec<String>)
    ensures
        r.deep_view() == category_values(items@, facet),
{
    items.par_iter().flat_map(|it| extract_item_values(it, facet)).collect()
}

/// Collects every facet value of the collection, choosing the sequential or
/// the parallel pass by comparing the collection size against `threshold`.
/// The result is the same either way.
pub fn collect_values_with_threshold(
    items: &Vec<AbsItemResult>,
    facet: ItemType,
    threshold: usize,
) -> (r: Vec<String>)
    ensures
        r.deep_view() == category_values(items@, facet),
{
    if items.len() < threshold {
        collect_values_sequential(items, facet)
    } else {
        par_collect_values(items, facet)
    }
}

/// Strictly ascending codepoint-lexicographic order: sorted, without
/// duplicates.
pub open spec fn strictly_sorted(vs: Seq<Seq<char>>) -> bool {
    forall|i: int, j: int| 0 <= i < j < vs.len() ==> lex_lt(#[trigger] vs[i], #[trigger] vs[j])
}

/// Inserts a value into a strictly sorted vector, keeping it strictly
/// sorted; a value already present is not inserted twice.
fn insert_distinct(sorted: &mut Vec<String>, v: String)
    requires
        strictly_sorted(old(sorted).deep_view()),
    ensures
        strictly_sorted(final(sorted).deep_view()),
        forall|w: Seq<char>|
            final(sorted).deep_view().contains(w) <==> (old(sorted).deep_view().contains(w) || w
                == v@),
{
    let ghost dv = sorted.deep_view();
    let mut p: usize = 0;
    while p < sorted.len() && str_lex_lt(sorted[p].as_str(), v.as_str())
        invariant
            0 <= p <= sorted@.len(),
            dv == sorted.deep_view(),
            strictly_sorted(dv),
            forall|k: int| 0 <= k < p ==> lex_lt(#[trigger] dv[k], v@),
        decreases sorted@.len() - p,
    {
        p = p + 1;
    }
    if p < sorted.len() && str_eq_str(sorted[p].as_str(), v.as_str()) {
        proof {
            assert(dv[p as int] == v@);
            assert(dv.contains(v@));
        }
        return ;
    }
    proof {
        if p < dv.len() {
            lemma_lex_lt_trichotomy(dv[p as int], v@);
            assert(lex_lt(v@, dv[p as int]));
        }
        assert forall|k: int| p <= k < dv.len() implies lex_lt(v@, #[trigger] dv[k]) by {
            if k > p {
                lemma_lex_lt_trans(v@, dv[p as int], dv[k]);
            }
        }
        assert(!dv.contains(v@)) by {
            if dv.contains(v@) {
                let k = choose|k: int| 0 <= k < dv.len() && dv[k] == v@;
                if k < p {
                    lemma_lex_lt_trichotomy(dv[k], v@);
                } else {
                    lemma_lex_lt_trichotomy(v@, dv[k]);
                }
            }
        }
    }
    sorted.insert(p, v);
    proof {
        let new_dv = sorted.deep_view();
        assert(new_dv =~= dv.insert(p as int, v@));
        dv.insert_ensures(p as int, v@);
        assert forall|i: int, j: int|
            0 <= i < j < new_dv.len() implies lex_lt(#[trigger] new_dv[i], #[trigger] new_dv[j]) by {
            if i < p && j == p {
            } else if i == p && j > p {
            } else if i < p && j > p {
                assert(new_dv[i] == dv[i]);
                assert(new_dv[j] == dv[j - 1]);
                assert(lex_lt(dv[i], v@));
                assert(lex_lt(v@, dv[j - 1]));
                lemma_lex_lt_trans(dv[i], v@, dv[j - 1]);
            }
        }
        assert forall|w: Seq<char>|
            new_dv.contains(w) <==> (dv.contains(w) || w == v@) by {
            if new_dv.contains(w) {
                let k = choose|k: int| 0 <= k < new_dv.len() && new_dv[k] == w;
                if k < p {
                    assert(dv[k] == w);
                } else if k == p {
                } else {
                    assert(dv[k - 1] == w);
                }
            }
            if dv.contains(w) {
                let k = choose|k: int| 0 <= k < dv.len() && dv[k] == w;
                if k < p {
                    assert(new_dv[k] == w);
                } else {
                    assert(new_dv[k + 1] == w);
                }
            }
            if w == v@ {
                assert(new_dv[p as int] == w);
            }
        }
    }
}

/// The distinct non-empty values of a list, sorted ascending: strictly
/// sorted output whose members are exactly the non-empty input values.
pub fn distinct_sorted(values: &Vec<String>) -> (r: Vec<String>)
    ensures
        strictly_sorted(r.deep_view()),
        forall|w: Seq<char>|
            r.deep_view().contains(w) <==> (values.deep_view().contains(w) && w.len() > 0),
{
    let ghost vals_dv = values.deep_view();
    let mut r: Vec<String> = Vec::new();
    let mut i: usize = 0;
    proof {
        assert(r.deep_view() =~= Seq::<Seq<char>>::empty());
    }
    while i < values.len()
        invariant
            0 <= i <= values@.len(),
            vals_dv == values.deep_view(),
            strictly_sorted(r.deep_view()),
            forall|w: Seq<char>|
                r.deep_view().contains(w) <==> (vals_dv.take(i as int).contains(w) && w.len()
                    > 0),
        decreases values@.len() - i,
    {
        let v = &values[i];
        proof {
            assert(vals_dv[i as int] == v@);
        }
        if v.as_str().unicode_len() > 0 {
            insert_distinct(&mut r, v.clone());
        }
        proof {
            let pre = vals_dv.take(i as int);
            let cur = vals_dv.take(i + 1);
            assert(cur =~= pre.push(vals_dv[i as int]));
            assert forall|w: Seq<char>|
                cur.contains(w) <==> (pre.contains(w) || w == vals_dv[i as int]) by {
                if cur.contains(w) {
                    let k = choose|k: int| 0 <= k < cur.len() && #[trigger] cur[k] == w;
                    if k < i {
                        assert(pre[k] == w);
                    }
                }
                if pre.contains(w) {
                    let k = choose|k: int| 0 <= k < pre.len() && #[trigger] pre[k] == w;
                    assert(cur[k] == w);
                }
                if w == vals_dv[i as int] {
                    assert(cur[i as int] == w);
                }
            }
        }
        i = i + 1;
    }
    proof {
        assert(vals_dv.take(vals_dv.len() as int) == vals_dv);
    }
    r
}

/// One entry of a category listing: a single value in direct-listing mode,
/// or a starting letter with its value count in bucket mode.
#[derive(Debug, Clone, PartialEq)]
pub enum CategoryEntry {
    Value { value: String },
    Bucket { letter: char, count: usize },
}

/// The letter and count of a bucket entry, if the entry is one.
pub open spec fn bucket_of(e: CategoryEntry) -> Option<(char, nat)> {
    match e {
        CategoryEntry::Bucket { letter, count } => Some((letter, count as nat)),
        CategoryEntry::Value { .. } => None,
    }
}

/// The value of a value entry; an empty string for a bucket entry.
pub open spec fn value_of(e: CategoryEntry) -> Seq<char> {
    match e {
        CategoryEntry::Value { value } => value@,
        CategoryEntry::Bucket { .. } => Seq::empty(),
    }
}

/// The set of distinct, non-empty values a collection contributes to a
/// facet.
pub open spec fn distinct_values(source: Seq<Seq<char>>) -> Set<Seq<char>> {
    source.to_set().filter(|v: Seq<char>| v.len() > 0)
}

/// How many distinct non-empty values of `source` fall into the letter
/// bucket `c`.
pub open spec fn distinct_count(source: Seq<Seq<char>>, c: char) -> nat {
    distinct_values(source).filter(|v: Seq<char>| bucket_letter(v) == Some(c)).len()
}

/// How many values of the sequence `vs` fall into the letter bucket `c`.
pub open spec fn seq_count(vs: Seq<Seq<char>>, c: char) -> nat {
    vs.filter(|v: Seq<char>| bucket_letter(v) == Some(c)).len()
}

/// Two strictly sorted value lists with the same members are the same
/// list: together with the membership clauses of the listing contracts,
/// the sorted order pins the listing down to exactly one output.
pub proof fn lemma_strictly_sorted_unique(a: Seq<Seq<char>>, b: Seq<Seq<char>>)
    requires
        strictly_sorted(a),
        strictly_sorted(b),
        forall|w: Seq<char>| a.contains(w) <==> b.contains(w),
    ensures
        a == b,
    decreases a.len(),
{
    if a.len() == 0 {
        if b.len() > 0 {
            assert(b.contains(b[0]));
            assert(a.contains(b[0]));
            let k = choose|k: int| 0 <= k < a.len() && #[trigger] a[k] == b[0];
            assert(false);
        }
        assert(a =~= b);
    } else {
        assert(a.contains(a[0]));
        assert(b.contains(a[0]));
        let i = choose|i: int| 0 <= i < b.len() && #[trigger] b[i] == a[0];
        assert(b.contains(b[0]));
        assert(a.contains(b[0]));
        let j = choose|j: int| 0 <= j < a.len() && #[trigger] a[j] == b[0];
        assert(a[0] == b[0]) by {
            if i > 0 {
                assert(lex_lt(b[0], b[i]));
                if j > 0 {
                    assert(lex_lt(a[0], a[j]));
                    lemma_lex_lt_trichotomy(a[0], b[0]);
                    assert(false);
                } else {
                    lemma_lex_lt_trichotomy(b[0], a[0]);
                    assert(false);
                }
            }
        }
        let at = a.drop_first();
        let bt = b.drop_first();
        assert(strictly_sorted(at)) by {
            assert forall|x: int, y: int| 0 <= x < y < at.len() implies lex_lt(
                #[trigger] at[x],
                #[trigger] at[y],
            ) by {
                assert(at[x] == a[x + 1]);
                assert(at[y] == a[y + 1]);
            }
        }
        assert(strictly_sorted(bt)) by {
            assert forall|x: int, y: int| 0 <= x < y < bt.len() implies lex_lt(
                #[trigger] bt[x],
                #[trigger] bt[y],
            ) by {
                assert(bt[x] == b[x + 1]);
                assert(bt[y] == b[y + 1]);
            }
        }
        assert forall|w: Seq<char>| at.contains(w) <==> bt.contains(w) by {
            if at.contains(w) {
                let k = choose|k: int| 0 <= k < at.len() && #[trigger] at[k] == w;
                assert(a[k + 1] == w);
                assert(a.contains(w));
                assert(b.contains(w));
                let m = choose|m: int| 0 <= m < b.len() && #[trigger] b[m] == w;
                assert(lex_lt(a[0], a[k + 1]));
                assert(m != 0) by {
                    lemma_lex_lt_trichotomy(a[0], w);
                }
                assert(bt[m - 1] == w);
                assert(bt.contains(w));
            }
            if bt.contains(w) {
                let k = choose|k: int| 0 <= k < bt.len() && #[trigger] bt[k] == w;
                assert(b[k + 1] == w);
                assert(b.contains(w));
                assert(a.contains(w));
                let m = choose|m: int| 0 <= m < a.len() && #[trigger] a[m] == w;
                assert(lex_lt(b[0], b[k + 1]));
                assert(m != 0) by {
                    lemma_lex_lt_trichotomy(b[0], w);
                }
                assert(at[m - 1] == w);
                assert(at.contains(w));
            }
        }
        lemma_strictly_sorted_unique(at, bt);
        assert(a =~= seq![a[0]] + at);
        assert(b =~= seq![b[0]] + bt);
    }
}

/// A strictly sorted sequence has no duplicates.
proof fn lemma_strictly_sorted_no_dup(vs: Seq<Seq<char>>)
    requires
        strictly_sorted(vs),
    ensures
        vs.no_duplicates(),
{
    assert forall|i: int, j: int| 0 <= i < vs.len() && 0 <= j < vs.len() && i != j implies vs[i]
        != vs[j] by {
        if i < j {
            lemma_lex_lt_trichotomy(vs[i], vs[j]);
        } else {
            lemma_lex_lt_trichotomy(vs[j], vs[i]);
        }
    }
}

/// Counting by a predicate over a duplicate-free sequence equals counting
/// over the set of its members.
proof fn lemma_count_via_seq(s: Seq<Seq<char>>, p: spec_fn(Seq<char>) -> bool)
    requires
        s.no_duplicates(),
    ensures
        s.to_set().filter(p).finite(),
        s.filter(p).len() == s.to_set().filter(p).len(),
    decreases s.len(),
{
    broadcast use vstd::seq_lib::seq_to_set_is_finite;

    reveal(Seq::filter);
    if s.len() == 0 {
        assert(s.to_set().filter(p) =~= Set::<Seq<char>>::empty());
        assert(s.filter(p).len() == 0);
    } else {
        let x = s.last();
        let s0 = s.drop_last();
        assert(s0.no_duplicates());
        lemma_count_via_seq(s0, p);
        assert(!s0.contains(x)) by {
            if s0.contains(x) {
                let k = choose|k: int| 0 <= k < s0.len() && #[trigger] s0[k] == x;
                assert(s[k] == s[s.len() - 1]);
            }
        }
        assert(s.to_set() =~= s0.to_set().insert(x)) by {
            assert forall|w: Seq<char>| #[trigger] s.contains(w) implies s0.contains(w) || w
                == x by {
                let k = choose|k: int| 0 <= k < s.len() && #[trigger] s[k] == w;
                if k < s.len() - 1 {
                    assert(s0[k] == w);
                }
            }
            assert forall|w: Seq<char>| s0.contains(w) implies s.contains(w) by {
                let k = choose|k: int| 0 <= k < s0.len() && #[trigger] s0[k] == w;
                assert(s[k] == w);
            }
            assert(s.contains(x)) by {
                assert(s[s.len() - 1] == x);
            }
        }
        if p(x) {
            assert(s.to_set().filter(p) =~= s0.to_set().filter(p).insert(x));
            assert(!s0.to_set().filter(p).contains(x));
            assert(s.to_set().filter(p).len() == s0.to_set().filter(p).len() + 1);
            assert(s.filter(p) == s0.filter(p).push(x));
        } else {
            assert(s.to_set().filter(p) =~= s0.to_set().filter(p));
            assert(s.filter(p) == s0.filter(p));
        }
    }
}

/// A strictly sorted sequence filters to a strictly sorted sequence whose
/// members are exactly the members that pass the predicate.
proof fn lemma_filter_sorted(s: Seq<Seq<char>>, p: spec_fn(Seq<char>) -> bool)
    requires
        strictly_sorted(s),
    ensures
        strictly_sorted(s.filter(p)),
        forall|w: Seq<char>| s.filter(p).contains(w) <==> (s.contains(w) && p(w)),
    decreases s.len(),
{
    reveal(Seq::filter);
    if s.len() == 0 {
    } else {
        let x = s.last();
        let s0 = s.drop_last();
        assert(strictly_sorted(s0));
        lemma_filter_sorted(s0, p);
        assert forall|w: Seq<char>| #[trigger] s.contains(w) <==> (s0.contains(w) || w == x) by {
            if s.contains(w) {
                let k = choose|k: int| 0 <= k < s.len() && #[trigger] s[k] == w;
                if k < s.len() - 1 {
                    assert(s0[k] == w);
                }
            }
            if s0.contains(w) {
                let k = choose|k: int| 0 <= k < s0.len() && #[trigger] s0[k] == w;
                assert(s[k] == w);
            }
            if w == x {
                assert(s[s.len() - 1] == w);
            }
        }
        if p(x) {
            assert(s.filter(p) == s0.filter(p).push(x));
            let f0 = s0.filter(p);
            assert forall|k: int| 0 <= k < f0.len() implies lex_lt(#[trigger] f0[k], x) by {
                assert(f0.contains(f0[k]));
                assert(s0.contains(f0[k]));
                let j = choose|j: int| 0 <= j < s0.len() && #[trigger] s0[j] == f0[k];
                assert(s[j] == s0[j]);
                assert(lex_lt(s[j], s[s.len() - 1]));
            }
            assert forall|i: int, j: int|
                0 <= i < j < s.filter(p).len() implies lex_lt(
                #[trigger] s.filter(p)[i],
                #[trigger] s.filter(p)[j],
            ) by {
                if j < f0.len() {
                    assert(s.filter(p)[i] == f0[i]);
                    assert(s.filter(p)[j] == f0[j]);
                } else {
                    assert(s.filter(p)[i] == f0[i]);
                    assert(s.filter(p)[j] == x);
                }
            }
            assert forall|w: Seq<char>| #[trigger] s.filter(p).contains(w) <==> (s.contains(w)
                && p(w)) by {
                if s.filter(p).contains(w) {
                    let k = choose|k: int|
                        0 <= k < s.filter(p).len() && #[trigger] s.filter(p)[k] == w;
                    if k < f0.len() {
                        assert(f0[k] == w);
                        assert(f0.contains(w));
                    }
                }
                if s.contains(w) && p(w) {
                    if s0.contains(w) {
                        assert(f0.contains(w));
                        let k = choose|k: int| 0 <= k < f0.len() && #[trigger] f0[k] == w;
                        assert(s.filter(p)[k] == w);
                    } else {
                        assert(w == x);
                        assert(s.filter(p)[f0.len() as int] == w);
                    }
                }
            }
        } else {
            assert(s.filter(p) == s0.filter(p));
            assert forall|w: Seq<char>| #[trigger] s.filter(p).contains(w) <==> (s.contains(w)
                && p(w)) by {
                if s.filter(p).contains(w) {
                    assert(s0.contains(w) && p(w));
                }
                if s.contains(w) && p(w) {
                    assert(s0.contains(w) || w == x);
                }
            }
        }
    }
}

/// One letter bucket while counting: a starting letter and how many
/// distinct values fold to it.
#[derive(Debug, Clone, Copy, PartialEq)]
pub struct LetterBucket {
    pub letter: char,
    pub count: usize,
}

/// Computes the letter buckets of a value list: one entry per letter that
/// at least one value folds to, letters strictly ascending, each with the
/// number of such values.
#[verifier::rlimit(100)]
fn bucket_counts(dv: &Vec<String>) -> (r: Vec<LetterBucket>)
    ensures
        forall|i: int, j: int|
            0 <= i < j < r@.len() ==> ((#[trigger] r@[i]).letter as int) < ((#[trigger] r@[j]).letter as int),
        forall|k: int|
            0 <= k < r@.len() ==> (#[trigger] r@[k]).count == seq_count(dv.deep_view(), r@[k].letter)
                && r@[k].count > 0,
        forall|c: char|
            seq_count(dv.deep_view(), c) > 0 ==> exists|k: int|
                0 <= k < r@.len() && (#[trigger] r@[k]).letter == c,
{
    let ghost dvv = dv.deep_view();
    let mut r: Vec<LetterBucket> = Vec::new();
    let mut i: usize = 0;
    proof {
        reveal(Seq::filter);
        assert forall|c: char| #[trigger] seq_count(dvv.take(0), c) == 0 by {
            assert(dvv.take(0) =~= Seq::<Seq<char>>::empty());
        }
    }
    while i < dv.len()
        invariant
            0 <= i <= dv@.len(),
            dvv == dv.deep_view(),
            forall|a: int, b: int|
                0 <= a < b < r@.len() ==> ((#[trigger] r@[a]).letter as int) < ((#[trigger] r@[b]).letter
                    as int),
            forall|k: int|
                0 <= k < r@.len() ==> (#[trigger] r@[k]).count == seq_count(
                    dvv.take(i as int),
                    r@[k].letter,
                ) && r@[k].count > 0,
            forall|c: char|
                seq_count(dvv.take(i as int), c) > 0 ==> exists|k: int|
                    0 <= k < r@.len() && (#[trigger] r@[k]).letter == c,
        decreases dv@.len() - i,
    {
        let ghost prefix = dvv.take(i as int);
        let ghost cur = dvv[i as int];
        let letter = bucket_letter_of(dv[i].as_str());
        proof {
            assert(dv@[i as int]@ == cur);
            assert(dvv.take(i + 1) =~= prefix.push(cur));
            assert forall|c: char|
                #[trigger] seq_count(dvv.take(i + 1), c) == seq_count(prefix, c) + (
                if bucket_letter(cur) == Some(c) {
                    1int
                } else {
                    0int
                }) by {
                let p = |v: Seq<char>| bucket_letter(v) == Some(c);
                lemma_filter_push(prefix, cur, p);
            }
            assert forall|c: char| #[trigger] seq_count(prefix, c) <= prefix.len() by {
                let p = |v: Seq<char>| bucket_letter(v) == Some(c);
                prefix.lemma_filter_len(p);
            }
        }
        match letter {
            Some(c) => {
                let mut p: usize = 0;
                while p < r.len() && char_lt(r[p].letter, c)
                    invariant
                        0 <= p <= r@.len(),
                        forall|k: int| 0 <= k < p ==> ((#[trigger] r@[k]).letter as int) < (c as int),
                    decreases r@.len() - p,
                {
                    p = p + 1;
                }
                if p < r.len() && r[p].letter == c {
                    let e = r[p];
                    let ghost old_r = r@;
                    let removed = r.remove(p);
                    r.insert(p, LetterBucket { letter: c, count: e.count + 1 });
                    proof {
                        assert(r@ =~= old_r.update(
                            p as int,
                            (LetterBucket { letter: c, count: (e.count + 1) as usize }),
                        ));
                        assert forall|k: int|
                            0 <= k < r@.len() implies (#[trigger] r@[k]).count == seq_count(
                            dvv.take(i + 1),
                            r@[k].letter,
                        ) && r@[k].count > 0 by {
                            if k != p {
                                assert(r@[k] == old_r[k]);
                                assert(r@[k].letter != c);
                            }
                        }
                        assert forall|c2: char|
                            #[trigger] seq_count(dvv.take(i + 1), c2) > 0 implies exists|k: int|
                            0 <= k < r@.len() && (#[trigger] r@[k]).letter == c2 by {
                            if c2 == c {
                                assert(r@[p as int].letter == c2);
                            } else {
                                assert(seq_count(prefix, c2) > 0);
                                let k = choose|k: int|
                                    0 <= k < old_r.len() && (#[trigger] old_r[k]).letter == c2;
                                assert(r@[k].letter == c2);
                            }
                        }
                    }
                } else {
                    proof {
                        assert(seq_count(prefix, c) == 0) by {
                            if seq_count(prefix, c) > 0 {
                                let k = choose|k: int|
                                    0 <= k < r@.len() && (#[trigger] r@[k]).letter == c;
                                if k < p {
                                    assert((r@[k].letter as int) < (c as int));
                                    assert(false);
                                } else if k == p {
                                    assert(p < r@.len());
                                    assert(r@[p as int].letter != c);
                                    assert(false);
                                } else {
                                    assert(p < r@.len());
                                    assert(!((r@[p as int].letter as int) < (c as int)));
                                    assert(((r@[p as int]).letter as int) < ((r@[k]).letter as int));
                                    assert(false);
                                }
                            }
                        }
                    }
                    let ghost old_r = r@;
                    r.insert(p, LetterBucket { letter: c, count: 1 });
                    proof {
                        assert(r@ =~= old_r.insert(
                            p as int,
                            (LetterBucket { letter: c, count: 1usize }),
                        ));
                        old_r.insert_ensures(p as int, (LetterBucket { letter: c, count: 1usize }));
                        assert forall|a: int, b: int|
                            0 <= a < b < r@.len() implies ((#[trigger] r@[a]).letter as int) < ((
                        #[trigger] r@[b]).letter) as int by {
                            if a < p && b == p {
                            } else if a == p && b > p {
                                assert(r@[b] == old_r[b - 1]);
                                assert(!((old_r[b - 1].letter as int) < (c as int)));
                                assert(old_r[b - 1].letter != c);
                            } else if a < p && b > p {
                                assert(r@[a] == old_r[a]);
                                assert(r@[b] == old_r[b - 1]);
                            }
                        }
                        assert forall|k: int|
                            0 <= k < r@.len() implies (#[trigger] r@[k]).count == seq_count(
                            dvv.take(i + 1),
                            r@[k].letter,
                        ) && r@[k].count > 0 by {
                            if k < p {
                                assert(r@[k] == old_r[k]);
                                assert(r@[k].letter != c);
                            } else if k == p {
                            } else {
                                assert(r@[k] == old_r[k - 1]);
                                assert(r@[k].letter != c) by {
                                    assert(!((old_r[k - 1].letter as int) < (c as int)));
                                }
                            }
                        }
                        assert forall|c2: char|
                            #[trigger] seq_count(dvv.take(i + 1), c2) > 0 implies exists|k: int|
                            0 <= k < r@.len() && (#[trigger] r@[k]).letter == c2 by {
                            if c2 == c {
                                assert(r@[p as int].letter == c2);
                            } else {
                                assert(seq_count(prefix, c2) > 0);
                                let k = choose|k: int|
                                    0 <= k < old_r.len() && (#[trigger] old_r[k]).letter == c2;
                                if k < p {
                                    assert(r@[k].letter == c2);
                                } else {
                                    assert(r@[k + 1].letter == c2);
                                }
                            }
                        }
                    }
                }
            },
            None => {
                proof {
                    assert forall|c2: char|
                        #[trigger] seq_count(dvv.take(i + 1), c2) == seq_count(prefix, c2) by {}
                }
            },
        }
        i = i + 1;
    }
    proof {
        assert(dvv.take(dvv.len() as int) == dvv);
    }
    r
}

/// Whether a value passes the optional drill-down letter filter.
pub open spec fn start_selects(start: Option<String>, w: Seq<char>) -> bool {
    match start {
        Some(s) => folded_lower_first(w) == s@,
        None => true,
    }
}

/// Keeps only the values whose folded lowercase first character equals the
/// requested start letter.
fn filter_by_start(dv: &Vec<String>, start: &str) -> (r: Vec<String>)
    ensures
        r.deep_view() == dv.deep_view().filter(
            |w: Seq<char>| folded_lower_first(w) == start@,
        ),
{
    let ghost dvv = dv.deep_view();
    let ghost p = |w: Seq<char>| folded_lower_first(w) == start@;
    let mut r: Vec<String> = Vec::new();
    let mut i: usize = 0;
    proof {
        reveal(Seq::filter);
        assert(dvv.take(0) =~= Seq::<Seq<char>>::empty());
        assert(r.deep_view() =~= Seq::<Seq<char>>::empty());
    }
    while i < dv.len()
        invariant
            0 <= i <= dv@.len(),
            dvv == dv.deep_view(),
            p == |w: Seq<char>| folded_lower_first(w) == start@,
            r.deep_view() == dvv.take(i as int).filter(p),
        decreases dv@.len() - i,
    {
        let folded = fold_lower_first(dv[i].as_str());
        proof {
            assert(dv@[i as int]@ == dvv[i as int]);
            assert(dvv.take(i + 1) =~= dvv.take(i as int).push(dvv[i as int]));
            lemma_filter_push(dvv.take(i as int), dvv[i as int], p);
        }
        if str_eq_str(folded.as_str(), start) {
            r.push(dv[i].clone());
            proof {
                assert(r.deep_view() =~= r.deep_view().drop_last().push(dvv[i as int]));
            }
        }
        i = i + 1;
    }
    proof {
        assert(dvv.take(dvv.len() as int) == dvv);
    }
    r
}

/// Builds the category listing for one facet of a collection, as §"browse
/// by letter" clients consume it. With no requested start letter and letter
/// cards enabled, the listing is one bucket entry per starting letter with
/// the count of distinct values under it; otherwise it lists the distinct
/// values themselves, restricted to the requested start letter when one is
/// given. Categorization ignores the query's own text filters.
pub fn build_category_listing(
    items: &Vec<AbsItemResult>,
    facet: ItemType,
    query: &LibraryQuery,
    config: &AppConfig,
) -> (r: Vec<CategoryEntry>)
    ensures
        (query.start is None && config.show_char_cards) ==> {
            &&& forall|i: int, j: int|
                0 <= i < j < r@.len() ==> (bucket_of(#[trigger] r@[i]) matches Some(bi)
                    && bucket_of(#[trigger] r@[j]) matches Some(bj) && (bi.0 as int) < (
                bj.0 as int))
            &&& forall|k: int|
                0 <= k < r@.len() ==> (bucket_of(#[trigger] r@[k]) matches Some(b) && b.1
                    == distinct_count(category_values(items@, facet), b.0) && b.1 > 0)
            &&& forall|c: char|
                distinct_count(category_values(items@, facet), c) > 0 ==> exists|k: int|
                    0 <= k < r@.len() && bucket_of(#[trigger] r@[k]) == Some(
                        (c, distinct_count(category_values(items@, facet), c)),
                    )
        },
        !(query.start is None && config.show_char_cards) ==> {
            &&& forall|k: int| 0 <= k < r@.len() ==> bucket_of(#[trigger] r@[k]) is None
            &&& strictly_sorted(r@.map_values(|e: CategoryEntry| value_of(e)))
            &&& forall|w: Seq<char>|
                r@.map_values(|e: CategoryEntry| value_of(e)).contains(w) <==> (distinct_values(
                    category_values(items@, facet),
                ).contains(w) && start_selects(query.start, w))
        },
{
    let values = collect_values_with_threshold(items, facet, PARALLEL_THRESHOLD);
    let dv = distinct_sorted(&values);
    let ghost source = category_values(items@, facet);
    let ghost dvv = dv.deep_view();
    proof {
        assert(values.deep_view() == source);
        lemma_strictly_sorted_no_dup(dvv);
        assert(dvv.to_set() =~= distinct_values(source)) by {
            assert forall|w: Seq<char>| #[trigger] dvv.to_set().contains(w) <==> dvv.contains(
                w,
            ) by {}
        }
    }
    if query.start.is_none() && config.show_char_cards {
        let buckets = bucket_counts(&dv);
        proof {
            assert forall|c: char| #[trigger] distinct_count(source, c) == seq_count(dvv, c) by {
                let p = |v: Seq<char>| bucket_letter(v) == Some(c);
                lemma_count_via_seq(dvv, p);
                assert(dvv.to_set().filter(p) =~= distinct_values(source).filter(p));
            }
        }
        let mut r: Vec<CategoryEntry> = Vec::new();
        let mut i: usize = 0;
        while i < buckets.len()
            invariant
                0 <= i <= buckets@.len(),
                r@.len() == i,
                forall|k: int|
                    0 <= k < i ==> bucket_of(#[trigger] r@[k]) == Some(
                        (buckets@[k].letter, buckets@[k].count as nat),
                    ),
                forall|a: int, b: int|
                    0 <= a < b < buckets@.len() ==> ((#[trigger] buckets@[a]).letter as int) < ((
                    #[trigger] buckets@[b]).letter as int),
                forall|k: int|
                    0 <= k < buckets@.len() ==> (#[trigger] buckets@[k]).count == distinct_count(
                        source,
                        buckets@[k].letter,
                    ) && buckets@[k].count > 0,
                forall|c: char|
                    distinct_count(source, c) > 0 ==> exists|k: int|
                        0 <= k < buckets@.len() && (#[trigger] buckets@[k]).letter == c,
            decreases buckets@.len() - i,
        {
            let b = buckets[i];
            let ghost old_r = r@;
            proof {
                assert(b == buckets@[i as int]);
            }
            r.push(CategoryEntry::Bucket { letter: b.letter, count: b.count });
            proof {
                assert forall|k: int| 0 <= k < i + 1 implies bucket_of(#[trigger] r@[k]) == Some(
                    (buckets@[k].letter, buckets@[k].count as nat),
                ) by {
                    if k < i {
                        assert(r@[k] == old_r[k]);
                    } else {
                        assert(r@[k] == (CategoryEntry::Bucket {
                            letter: b.letter,
                            count: b.count,
                        }));
                    }
                }
            }
            i = i + 1;
        }
        proof {
            assert forall|c: char|
                distinct_count(source, c) > 0 implies exists|k: int|
                0 <= k < r@.len() && bucket_of(#[trigger] r@[k]) == Some(
                    (c, distinct_count(source, c)),
                ) by {
                let k = choose|k: int|
                    0 <= k < buckets@.len() && (#[trigger] buckets@[k]).letter == c;
                assert(bucket_of(r@[k]) == Some((c, distinct_count(source, c))));
            }
        }
        r
    } else {
        let selected = match &query.start {
            Some(start) => {
                let f = filter_by_start(&dv, start.as_str());
                proof {
                    let p = |w: Seq<char>| folded_lower_first(w) == start@;
                    lemma_filter_sorted(dvv, p);
                }
                f
            },
            None => {
                let ghost p_true = |w: Seq<char>| true;
                let mut c: Vec<String> = Vec::new();
                let mut i: usize = 0;
                proof {
                    assert(c.deep_view() =~= dvv.take(0));
                }
                while i < dv.len()
                    invariant
                        0 <= i <= dv@.len(),
                        dvv == dv.deep_view(),
                        c.deep_view() == dvv.take(i as int),
                    decreases dv@.len() - i,
                {
                    c.push(dv[i].clone());
                    proof {
                        assert(dvv.take(i + 1) =~= dvv.take(i as int).push(dvv[i as int]));
                        assert(c.deep_view() =~= c.deep_view().drop_last().push(dvv[i as int]));
                    }
                    i = i + 1;
                }
                proof {
                    assert(dvv.take(dvv.len() as int) == dvv);
                }
                c
            },
        };
        let ghost sel_dv = selected.deep_view();
        proof {
            assert(strictly_sorted(sel_dv));
            assert forall|w: Seq<char>|
                sel_dv.contains(w) <==> (distinct_values(source).contains(w) && start_selects(
                    query.start,
                    w,
                )) by {}
        }
        let mut r: Vec<CategoryEntry> = Vec::new();
        let mut i: usize = 0;
        proof {
            assert(r@.map_values(|e: CategoryEntry| value_of(e)) =~= sel_dv.take(0));
        }
        while i < selected.len()
            invariant
                0 <= i <= selected@.len(),
                sel_dv == selected.deep_view(),
                r@.map_values(|e: CategoryEntry| value_of(e)) == sel_dv.take(i as int),
                forall|k: int| 0 <= k < r@.len() ==> bucket_of(#[trigger] r@[k]) is None,
            decreases selected@.len() - i,
        {
            r.push(CategoryEntry::Value { value: selected[i].clone() });
            proof {
                assert(sel_dv.take(i + 1) =~= sel_dv.take(i as int).push(sel_dv[i as int]));
                assert(r@.map_values(|e: CategoryEntry| value_of(e)) =~= r@.drop_last().map_values(
                    |e: CategoryEntry| value_of(e),
                ).push(sel_dv[i as int]));
            }
            i = i + 1;
        }
        proof {
            assert(sel_dv.take(sel_dv.len() as int) == sel_dv);
        }
        r
    }
}

} // verus!


//! Normalization of a raw catalog item into its public shape.
//!
//! Delimited author, narrator and series strings are split on commas and
//! trimmed; series segments additionally lose everything from their first
//! `#` sequence marker onward.

use vstd::prelude::*;
use crate::models::{
    AbsItemResult, Author, LibraryItem, clone_opt_string, clone_string_vec,
};
use crate::text::{split_on, split_str, trim, trim_str};

verus! {

/// The comma-separated segments of a delimited string, each trimmed.
pub open spec fn split_trimmed(s: Seq<char>) -> Seq<Seq<char>> {
    split_on(s, ',').map_values(|seg: Seq<char>| trim(seg))
}

/// A string cut at its first `#`; without one it is unchanged.
pub open spec fn strip_hash(s: Seq<char>) -> Seq<char> {
    match s.index_of_first('#') {
        Some(i) => s.take(i),
        None => s,
    }
}

/// One series segment, cleaned: trimmed, cut at the first `#` sequence
/// marker, and trimmed again.
pub open spec fn series_clean(seg: Seq<char>) -> Seq<char> {
    trim(strip_hash(trim(seg)))
}

/// The comma-separated segments of a series string, each cleaned.
pub open spec fn split_series(s: Seq<char>) -> Seq<Seq<char>> {
    split_on(s, ',').map_values(|seg: Seq<char>| series_clean(seg))
}

/// The name list carried by an optional delimited field: split and trimmed,
/// empty when the field is absent.
pub open spec fn names_of(field: Option<String>) -> Seq<Seq<char>> {
    match field {
        Some(s) => split_trimmed(s@),
        None => Seq::empty(),
    }
}

/// The series list carried by an optional series field.
pub open spec fn series_of(field: Option<String>) -> Seq<Seq<char>> {
    match field {
        Some(s) => split_series(s@),
        None => Seq::empty(),
    }
}

/// The list view of an optional string list; empty when absent.
pub open spec fn list_of(field: Option<Vec<String>>) -> Seq<String> {
    match field {
        Some(v) => v@,
        None => Seq::empty(),
    }
}

/// Splits a delimited string on commas and trims each segment.
pub fn split_trimmed_str(s: &str) -> (r: Vec<String>)
    ensures
        r.deep_view() == split_trimmed(s@),
{
    let segs = split_str(s, ',');
    let ghost segs_dv = segs.deep_view();
    let mut r: Vec<String> = Vec::new();
    let mut i: usize = 0;
    proof {
        assert(segs_dv.take(0).map_values(|seg: Seq<char>| trim(seg)) =~= Seq::<
            Seq<char>,
        >::empty());
        assert(r.deep_view() =~= Seq::<Seq<char>>::empty());
    }
    while i < segs.len()
        invariant
            0 <= i <= segs@.len(),
            segs_dv == segs.deep_view(),
            r.deep_view() == segs_dv.take(i as int).map_values(|seg: Seq<char>| trim(seg)),
        decreases segs@.len() - i,
    {
        let t = trim_str(segs[i].as_str());
        r.push(t);
        proof {
            assert(segs_dv.take(i + 1) == segs_dv.take(i as int).push(segs_dv[i as int]));
            assert(segs_dv.take(i + 1).map_values(|seg: Seq<char>| trim(seg)) =~= segs_dv.take(
                i as int,
            ).map_values(|seg: Seq<char>| trim(seg)).push(trim(segs_dv[i as int])));
            assert(r.deep_view() =~= r.deep_view().drop_last().push(trim(segs_dv[i as int])));
        }
        i = i + 1;
    }
    proof {
        assert(segs_dv.take(segs_dv.len() as int) == segs_dv);
    }
    r
}

/// Cuts a string at its first `#`.
fn strip_hash_str(s: &str) -> (r: String)
    ensures
        r@ == strip_hash(s@),
{
    let len = s.unicode_len();
    let mut i: usize = 0;
    while i < len && s.get_char(i) != '#'
        invariant
            0 <= i <= len,
            len == s@.len(),
            forall|k: int| 0 <= k < i ==> s@[k] != '#',
        decreases len - i,
    {
        i = i + 1;
    }
    proof {
        s@.index_of_first_ensures('#');
        if i < len {
            assert(s@[i as int] == '#');
            assert(s@.contains('#'));
        } else {
            assert(!s@.contains('#')) by {
                assert(forall|k: int| 0 <= k < s@.len() ==> s@[k] != '#');
            }
            assert(s@.take(len as int) == s@);
        }
    }
    let cut = s.substring_char(0, i);
    String::from_str(cut)
}

/// Cleans one series segment.
pub fn series_clean_str(seg: &str) -> (r: String)
    ensures
        r@ == series_clean(seg@),
{
    let t = trim_str(seg);
    let cut = strip_hash_str(t.as_str());
    trim_str(cut.as_str())
}

/// Splits a series string on commas and cleans each segment.
pub fn split_series_str(s: &str) -> (r: Vec<String>)
    ensures
        r.deep_view() == split_series(s@),
{
    let segs = split_str(s, ',');
    let ghost segs_dv = segs.deep_view();
    let mut r: Vec<String> = Vec::new();
    let mut i: usize = 0;
    proof {
        assert(segs_dv.take(0).map_values(|seg: Seq<char>| series_clean(seg)) =~= Seq::<
            Seq<char>,
        >::empty());
        assert(r.deep_view() =~= Seq::<Seq<char>>::empty());
    }
    while i < segs.len()
        invariant
            0 <= i <= segs@.len(),
            segs_dv == segs.deep_view(),
            r.deep_view() == segs_dv.take(i as int).map_values(
                |seg: Seq<char>| series_clean(seg),
            ),
        decreases segs@.len() - i,
    {
        let t = series_clean_str(segs[i].as_str());
        r.push(t);
        proof {
            assert(segs_dv.take(i + 1) == segs_dv.take(i as int).push(segs_dv[i as int]));
            assert(segs_dv.take(i + 1).map_values(|seg: Seq<char>| series_clean(seg))
                =~= segs_dv.take(i as int).map_values(|seg: Seq<char>| series_clean(seg)).push(
                series_clean(segs_dv[i as int]),
            ));
            assert(r.deep_view() =~= r.deep_view().drop_last().push(
                series_clean(segs_dv[i as int]),
            ));
        }
        i = i + 1;
    }
    proof {
        assert(segs_dv.take(segs_dv.len() as int) == segs_dv);
    }
    r
}

/// The split-and-trimmed values of an optional delimited field, as plain
/// strings; empty when the field is absent.
pub fn split_trimmed_str_of(field: &Option<String>) -> (r: Vec<String>)
    ensures
        r.deep_view() == names_of(*field),
{
    match field {
        Some(s) => split_trimmed_str(s.as_str()),
        None => {
            let r: Vec<String> = Vec::new();
            proof {
                assert(r.deep_view() =~= Seq::<Seq<char>>::empty());
            }
            r
        },
    }
}

/// The split-and-trimmed name list of an optional field.
fn names_of_field(field: &Option<String>) -> (r: Vec<Author>)
    ensures
        r@.map_values(|a: Author| a.name@) == names_of(*field),
{
    let mut r: Vec<Author> = Vec::new();
    proof {
        assert(r@.map_values(|a: Author| a.name@) =~= Seq::<Seq<char>>::empty());
    }
    match field {
        Some(s) => {
            let names = split_trimmed_str(s.as_str());
            let ghost names_dv = names.deep_view();
            let mut i: usize = 0;
            proof {
                assert(names_dv.take(0) =~= Seq::<Seq<char>>::empty());
            }
            while i < names.len()
                invariant
                    0 <= i <= names@.len(),
                    names_dv == names.deep_view(),
                    r@.map_values(|a: Author| a.name@) == names_dv.take(i as int),
                decreases names@.len() - i,
            {
                r.push(Author { name: names[i].clone() });
                proof {
                    assert(names_dv.take(i + 1) == names_dv.take(i as int).push(
                        names_dv[i as int],
                    ));
                    assert(r@.map_values(|a: Author| a.name@) =~= r@.drop_last().map_values(
                        |a: Author| a.name@,
                    ).push(names_dv[i as int]));
                }
                i = i + 1;
            }
            proof {
                assert(names_dv.take(names_dv.len() as int) == names_dv);
            }
            r
        },
        None => r,
    }
}

/// What it means for `n` to be the normalization of the raw item `item`:
/// scalar fields carry over, delimited fields are split and trimmed, and
/// series segments lose their `#` sequence markers.
pub open spec fn normalizes(item: AbsItemResult, n: LibraryItem) -> bool {
    &&& n.id@ == item.id@
    &&& n.title == item.media.metadata.title
    &&& n.subtitle == item.media.metadata.subtitle
    &&& n.description == item.media.metadata.description
    &&& n.genres@ == list_of(item.media.metadata.genres)
    &&& n.tags@ == list_of(item.media.metadata.tags)
    &&& n.publisher == item.media.metadata.publisher
    &&& n.isbn == item.media.metadata.isbn
    &&& n.language == item.media.metadata.language
    &&& n.published_year == item.media.metadata.published_year
    &&& n.authors@.map_values(|a: Author| a.name@) == names_of(item.media.metadata.author_name)
    &&& n.narrators@.map_values(|a: Author| a.name@) == names_of(
        item.media.metadata.narrator_name,
    )
    &&& n.series.deep_view() == series_of(item.media.metadata.series_name)
    &&& n.format == item.media.ebook_format
}

/// Converts one matched raw item into its public, normalized shape. Pure
/// and deterministic.
pub fn parse_library_item(item: &AbsItemResult) -> (r: LibraryItem)
    ensures
        normalizes(*item, r),
{
    let m = &item.media.metadata;
    let genres = match &m.genres {
        Some(v) => clone_string_vec(v),
        None => Vec::new(),
    };
    let tags = match &m.tags {
        Some(v) => clone_string_vec(v),
        None => Vec::new(),
    };
    let series = match &m.series_name {
        Some(s) => split_series_str(s.as_str()),
        None => Vec::new(),
    };
    proof {
        if item.media.metadata.series_name is None {
            assert(series.deep_view() =~= Seq::<Seq<char>>::empty());
        }
    }
    LibraryItem {
        id: item.id.clone(),
        title: clone_opt_string(&m.title),
        subtitle: clone_opt_string(&m.subtitle),
        description: clone_opt_string(&m.description),
        genres,
        tags,
        publisher: clone_opt_string(&m.publisher),
        isbn: clone_opt_string(&m.isbn),
        language: clone_opt_string(&m.language),
        published_year: clone_opt_string(&m.published_year),
        authors: names_of_field(&m.author_name),
        narrators: names_of_field(&m.narrator_name),
        series,
        format: clone_opt_string(&item.media.ebook_format),
    }
}

} // verus!

//! The user query and the per-item inclusion predicate.
//!
//! An item passes when it clears, in order: the format gate, the
//! search-or-facet gate, the author gate and the title gate. Every textual
//! comparison is a case-insensitive literal match.

use vstd::prelude::*;
use crate::matcher::{
    any_ci_match, any_contains, ci_match, ci_contains, opt_any_ci_match, opt_any_contains,
    opt_ci_match, opt_contains,
};
use crate::models::{AbsItemResult, ItemType, LibraryItem};

verus! {

/// A catalog query as the request handlers deliver it: free text, an
/// optional facet with its value, author and title filters, a zero-based
/// page index and an optional letter filter for category drill-down.
#[derive(Debug, Clone, PartialEq)]
pub struct LibraryQuery {
    pub categories: Option<String>,
    pub page: usize,
    pub q: Option<String>,
    pub author: Option<String>,
    pub title: Option<String>,
    pub name: Option<String>,
    pub type_: Option<ItemType>,
    pub start: Option<String>,
}

/// Whether the facet-scoped name pattern matches the raw field that belongs
/// to the facet: the delimited author, narrator or series string, or any
/// genre or tag for the genre facet.
pub open spec fn facet_field_match(t: ItemType, item: AbsItemResult, pattern: Seq<char>) -> bool {
    match t {
        ItemType::Authors => opt_ci_match(pattern, item.media.metadata.author_name),
        ItemType::Narrators => opt_ci_match(pattern, item.media.metadata.narrator_name),
        ItemType::Genres => opt_any_ci_match(pattern, item.media.metadata.genres)
            || opt_any_ci_match(pattern, item.media.metadata.tags),
        ItemType::Series => opt_ci_match(pattern, item.media.metadata.series_name),
    }
}

/// Whether the free-text pattern matches any searchable field of the raw
/// item: title, subtitle, description, publisher, ISBN, language, published
/// year, the raw author string, or any genre or tag.
pub open spec fn free_text_match(item: AbsItemResult, pattern: Seq<char>) -> bool {
    ||| opt_ci_match(pattern, item.media.metadata.title)
    ||| opt_ci_match(pattern, item.media.metadata.subtitle)
    ||| opt_ci_match(pattern, item.media.metadata.description)
    ||| opt_ci_match(pattern, item.media.metadata.publisher)
    ||| opt_ci_match(pattern, item.media.metadata.isbn)
    ||| opt_ci_match(pattern, item.media.metadata.language)
    ||| opt_ci_match(pattern, item.media.metadata.published_year)
    ||| opt_ci_match(pattern, item.media.metadata.author_name)
    ||| opt_any_ci_match(pattern, item.media.metadata.genres)
    ||| opt_any_ci_match(pattern, item.media.metadata.tags)
}

/// The search-or-facet gate. A facet query matches against the facet's own
/// raw field; without a facet, non-empty free text matches against the
/// searchable fields; with neither, every item passes.
pub open spec fn search_gate(item: AbsItemResult, q: LibraryQuery) -> bool {
    match q.type_ {
        Some(t) => match q.name {
            Some(n) => facet_field_match(t, item, n@),
            None => true,
        },
        None => match q.q {
            Some(s) => s@.len() == 0 || free_text_match(item, s@),
            None => true,
        },
    }
}

/// The complete per-item inclusion predicate, gates in their fixed order:
/// format, search or facet, author, title.
pub open spec fn spec_item_matches(item: AbsItemResult, q: LibraryQuery, show_non_ebooks: bool) -> bool {
    &&& (item.media.ebook_format is Some || show_non_ebooks)
    &&& search_gate(item, q)
    &&& match q.author {
        Some(a) => opt_ci_match(a@, item.media.metadata.author_name),
        None => true,
    }
    &&& match q.title {
        Some(t) => opt_ci_match(t@, item.media.metadata.title) || opt_ci_match(
            t@,
            item.media.metadata.subtitle,
        ),
        None => true,
    }
}

/// Decides whether one raw item is part of the query's result set.
pub fn item_matches(item: &AbsItemResult, q: &LibraryQuery, show_non_ebooks: bool) -> (r: bool)
    ensures
        r == spec_item_matches(*item, *q, show_non_ebooks),
{
    if item.media.ebook_format.is_none() && !show_non_ebooks {
        return false;
    }
    let search_ok: bool = match &q.type_ {
        Some(t) => match &q.name {
            Some(n) => match t {
                ItemType::Authors => opt_contains(n.as_str(), &item.media.metadata.author_name),
                ItemType::Narrators => opt_contains(
                    n.as_str(),
                    &item.media.metadata.narrator_name,
                ),
                ItemType::Genres => {
                    opt_any_contains(n.as_str(), &item.media.metadata.genres)
                        || opt_any_contains(n.as_str(), &item.media.metadata.tags)
                },
                ItemType::Series => opt_contains(n.as_str(), &item.media.metadata.series_name),
            },
            None => true,
        },
        None => match &q.q {
            Some(s) => {
                if s.as_str().unicode_len() == 0 {
                    true
                } else {
                    opt_contains(s.as_str(), &item.media.metadata.title) || opt_contains(
                        s.as_str(),
                        &item.media.metadata.subtitle,
                    ) || opt_contains(s.as_str(), &item.media.metadata.description)
                        || opt_contains(s.as_str(), &item.media.metadata.publisher)
                        || opt_contains(s.as_str(), &item.media.metadata.isbn)
                        || opt_contains(s.as_str(), &item.media.metadata.language)
                        || opt_contains(s.as_str(), &item.media.metadata.published_year)
                        || opt_contains(s.as_str(), &item.media.metadata.author_name)
                        || opt_any_contains(s.as_str(), &item.media.metadata.genres)
                        || opt_any_contains(s.as_str(), &item.media.metadata.tags)
                }
            },
            None => true,
        },
    };
    if !search_ok {
        return false;
    }
    if let Some(a) = &q.author {
        if !opt_contains(a.as_str(), &item.media.metadata.author_name) {
            return false;
        }
    }
    if let Some(t) = &q.title {
        let title_ok = opt_contains(t.as_str(), &item.media.metadata.title) || opt_contains(
            t.as_str(),
            &item.media.metadata.subtitle,
        );
        if !title_ok {
            return false;
        }
    }
    true
}

/// Whether the free-text pattern matches any searchable field of a
/// normalized item; author names are matched one by one here.
pub open spec fn spec_library_item_matches(item: LibraryItem, pattern: Seq<char>) -> bool {
    ||| opt_ci_match(pattern, item.title)
    ||| opt_ci_match(pattern, item.subtitle)
    ||| opt_ci_match(pattern, item.description)
    ||| opt_ci_match(pattern, item.publisher)
    ||| opt_ci_match(pattern, item.isbn)
    ||| opt_ci_match(pattern, item.language)
    ||| opt_ci_match(pattern, item.published_year)
    ||| (exists|i: int| 0 <= i < item.authors@.len() && ci_match(pattern, item.authors@[i].name@))
    ||| any_ci_match(pattern, item.genres@)
    ||| any_ci_match(pattern, item.tags@)
}

impl LibraryItem {
    /// Whether this normalized item matches a free-text pattern on any of
    /// its searchable fields.
    pub fn matches(&self, pattern: &str) -> (r: bool)
        ensures
            r == spec_library_item_matches(*self, pattern@),
    {
        if opt_contains(pattern, &self.title) || opt_contains(pattern, &self.subtitle)
            || opt_contains(pattern, &self.description) || opt_contains(
            pattern,
            &self.publisher,
        ) || opt_contains(pattern, &self.isbn) || opt_contains(pattern, &self.language)
            || opt_contains(pattern, &self.published_year) {
            return true;
        }
        let mut i: usize = 0;
        while i < self.authors.len()
            invariant
                0 <= i <= self.authors@.len(),
                forall|k: int| 0 <= k < i ==> !ci_match(pattern@, self.authors@[k].name@),
            decreases self.authors@.len() - i,
        {
            if ci_contains(pattern, self.authors[i].name.as_str()) {
                return true;
            }
            i = i + 1;
        }
        any_contains(pattern, &self.genres) || any_contains(pattern, &self.tags)
    }
}

} // verus!

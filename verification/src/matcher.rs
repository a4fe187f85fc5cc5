//! Case-insensitive literal matching of user-supplied search text.
//!
//! Every textual query field is matched as an escaped literal, compiled
//! case-insensitively, so metacharacters in the input never change the
//! meaning of a search and a malformed pattern can never make a request
//! fail.

use vstd::prelude::*;

verus! {

/// Whether the literal `pattern`, compared case-insensitively, occurs inside
/// `text`. This names the combined result of `regex::escape` and a
/// case-insensitive `regex::Regex` match: the outcome depends on the two
/// strings alone.
pub uninterp spec fn ci_match(pattern: Seq<char>, text: Seq<char>) -> bool;

/// Relies on `regex::escape`, `regex::RegexBuilder` (with `case_insensitive`)
/// and `regex::Regex::is_match`: the escaped pattern is matched as a literal,
/// and an empty pattern matches every text. Escaped literals always compile;
/// should compilation fail anyway, the call degrades to matching nothing.
#[verifier::external_body]
pub(crate) fn ci_contains(pattern: &str, text: &str) -> (r: bool)
    ensures
        r == ci_match(pattern@, text@),
        pattern@.len() == 0 ==> r,
{
    match regex::RegexBuilder::new(&regex::escape(pattern)).case_insensitive(true).build() {
        Ok(re) => re.is_match(text),
        Err(_) => false,
    }
}

/// Whether an optional field holds text the pattern matches; an absent field
/// never matches.
pub open spec fn opt_ci_match(pattern: Seq<char>, field: Option<String>) -> bool {
    match field {
        Some(s) => ci_match(pattern, s@),
        None => false,
    }
}

/// Matches the pattern against an optional field.
pub(crate) fn opt_contains(pattern: &str, field: &Option<String>) -> (r: bool)
    ensures
        r == opt_ci_match(pattern@, *field),
{
    match field {
        Some(s) => ci_contains(pattern, s.as_str()),
        None => false,
    }
}

/// Whether any string of the list matches the pattern.
pub open spec fn any_ci_match(pattern: Seq<char>, fields: Seq<String>) -> bool {
    exists|i: int| 0 <= i < fields.len() && ci_match(pattern, fields[i]@)
}

/// Matches the pattern against every string of a list.
pub(crate) fn any_contains(pattern: &str, fields: &Vec<String>) -> (r: bool)
    ensures
        r == any_ci_match(pattern@, fields@),
{
    let mut i: usize = 0;
    while i < fields.len()
        invariant
            0 <= i <= fields@.len(),
            forall|k: int| 0 <= k < i ==> !ci_match(pattern@, fields@[k]@),
        decreases fields@.len() - i,
    {
        if ci_contains(pattern, fields[i].as_str()) {
            return true;
        }
        i = i + 1;
    }
    false
}

/// Like [`any_ci_match`] over an optional list; an absent list never matches.
pub open spec fn opt_any_ci_match(pattern: Seq<char>, fields: Option<Vec<String>>) -> bool {
    match fields {
        Some(v) => any_ci_match(pattern, v@),
        None => false,
    }
}

/// Matches the pattern against every string of an optional list.
pub(crate) fn opt_any_contains(pattern: &str, fields: &Option<Vec<String>>) -> (r: bool)
    ensures
        r == opt_any_ci_match(pattern@, *fields),
{
    match fields {
        Some(v) => any_contains(pattern, v),
        None => false,
    }
}

} // verus!

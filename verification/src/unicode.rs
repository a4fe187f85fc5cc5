//! Case mapping and accent folding for the letter-bucket views.
//!
//! A category value is grouped under the base Latin letter of its first
//! character: the character is case-mapped, canonically decomposed, and its
//! combining marks are discarded.

use vstd::prelude::*;
use unicode_normalization::UnicodeNormalization;
use crate::text::lemma_filter_push;

verus! {

/// The uppercase mapping of a character, as `char::to_uppercase` yields it;
/// a function of the character alone.
pub uninterp spec fn upper_of(c: char) -> Seq<char>;

/// The lowercase mapping of a character, as `char::to_lowercase` yields it;
/// a function of the character alone.
pub uninterp spec fn lower_of(c: char) -> Seq<char>;

/// The canonical decomposition (Unicode NFD) of a string; a function of the
/// string alone.
pub uninterp spec fn nfd_of(s: Seq<char>) -> Seq<char>;

/// Whether a character is a combining mark, as
/// `unicode_normalization::char::is_combining_mark` classifies it.
pub uninterp spec fn is_mark(c: char) -> bool;

/// Relies on `char::to_uppercase`: the mapping depends on the character
/// alone.
#[verifier::external_body]
pub(crate) fn upper_str(c: char) -> (r: String)
    ensures
        r@ == upper_of(c),
{
    c.to_uppercase().to_string()
}

/// Relies on `char::to_lowercase`: the mapping depends on the character
/// alone.
#[verifier::external_body]
pub(crate) fn lower_str(c: char) -> (r: String)
    ensures
        r@ == lower_of(c),
{
    c.to_lowercase().to_string()
}

/// Relies on `unicode_normalization`'s `nfd`: canonical decomposition
/// depends on the input characters alone, and an empty string stays empty.
#[verifier::external_body]
pub(crate) fn nfd_str(s: &str) -> (r: String)
    ensures
        r@ == nfd_of(s@),
        s@.len() == 0 ==> r@.len() == 0,
{
    s.nfd().collect()
}

/// Relies on `unicode_normalization::char::is_combining_mark`: the
/// classification depends on the character alone.
#[verifier::external_body]
pub fn is_combining_mark(c: char) -> (r: bool)
    ensures
        r == is_mark(c),
{
    unicode_normalization::char::is_combining_mark(c)
}

/// A decomposed string with its combining marks removed.
pub open spec fn strip_marks(s: Seq<char>) -> Seq<char> {
    s.filter(|c: char| !is_mark(c))
}

/// Removes the combining marks from a string.
pub(crate) fn strip_marks_str(s: &str) -> (r: String)
    ensures
        r@ == strip_marks(s@),
{
    let len = s.unicode_len();
    let mut r = String::new();
    let mut i: usize = 0;
    proof {
        reveal(Seq::filter);
        assert(s@.take(0) =~= Seq::<char>::empty());
    }
    while i < len
        invariant
            0 <= i <= len,
            len == s@.len(),
            r@ == s@.take(i as int).filter(|c: char| !is_mark(c)),
        decreases len - i,
    {
        let c = s.get_char(i);
        proof {
            assert(s@.take(i + 1) == s@.take(i as int).push(c));
            lemma_filter_push(s@.take(i as int), c, |c: char| !is_mark(c));
        }
        if !is_combining_mark(c) {
            let piece = s.substring_char(i, i + 1);
            proof {
                assert(piece@ =~= seq![c]);
                assert(s@.take(i as int).filter(|c: char| !is_mark(c)).push(c) =~= s@.take(
                    i as int,
                ).filter(|c: char| !is_mark(c)) + seq![c]);
            }
            r.append(piece);
        }
        i = i + 1;
    }
    proof {
        assert(s@.take(len as int) == s@);
    }
    r
}

/// The folded first character of a value in its uppercase form: the first
/// character (a space when the value is empty) is uppercased, decomposed,
/// and stripped of combining marks.
pub open spec fn folded_upper_first(v: Seq<char>) -> Seq<char> {
    strip_marks(nfd_of(upper_of(if v.len() > 0 {
        v[0]
    } else {
        ' '
    })))
}

/// The folded first character of a value in its lowercase form.
pub open spec fn folded_lower_first(v: Seq<char>) -> Seq<char> {
    strip_marks(nfd_of(lower_of(if v.len() > 0 {
        v[0]
    } else {
        ' '
    })))
}

/// Computes [`folded_upper_first`] of a value.
pub fn fold_upper_first(v: &str) -> (r: String)
    ensures
        r@ == folded_upper_first(v@),
{
    let c = if v.unicode_len() > 0 {
        v.get_char(0)
    } else {
        ' '
    };
    let upper = upper_str(c);
    let decomposed = nfd_str(upper.as_str());
    strip_marks_str(decomposed.as_str())
}

/// Computes [`folded_lower_first`] of a value.
pub fn fold_lower_first(v: &str) -> (r: String)
    ensures
        r@ == folded_lower_first(v@),
{
    let c = if v.unicode_len() > 0 {
        v.get_char(0)
    } else {
        ' '
    };
    let lower = lower_str(c);
    let decomposed = nfd_str(lower.as_str());
    strip_marks_str(decomposed.as_str())
}

/// The letter bucket a category value belongs to: the folded first character
/// when it is a single character in `A ..= Z`, and nothing otherwise.
pub open spec fn bucket_letter(v: Seq<char>) -> Option<char> {
    let f = folded_upper_first(v);
    if f.len() == 1 && 'A' as int <= f[0] as int <= 'Z' as int {
        Some(f[0])
    } else {
        None
    }
}

/// Computes [`bucket_letter`] of a value.
pub fn bucket_letter_of(v: &str) -> (r: Option<char>)
    ensures
        r == bucket_letter(v@),
{
    let f = fold_upper_first(v);
    if f.as_str().unicode_len() == 1 {
        let c = f.as_str().get_char(0);
        if 'A' as u32 <= c as u32 && c as u32 <= 'Z' as u32 {
            return Some(c);
        }
    }
    None
}

} // verus!

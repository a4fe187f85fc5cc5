//! Plain-text utilities: whitespace trimming, separator splitting and
//! codepoint-lexicographic ordering, each with an exact specification.

use vstd::prelude::*;

verus! {

/// The Unicode `White_Space` property, the set of characters that
/// `str::trim` removes at either end of a string.
pub open spec fn is_space(c: char) -> bool {
    c == ' ' || c == '\t' || c == '\n' || c == '\r' || c == '\u{000b}' || c == '\u{000c}'
        || c == '\u{0085}' || c == '\u{00a0}' || c == '\u{1680}'
        || (c as int >= 0x2000 && c as int <= 0x200a) || c == '\u{2028}' || c == '\u{2029}'
        || c == '\u{202f}' || c == '\u{205f}' || c == '\u{3000}'
}

/// Executable test for [`is_space`].
pub fn is_space_char(c: char) -> (b: bool)
    ensures
        b == is_space(c),
{
    let n = c as u32;
    n == 0x20 || (n >= 0x09 && n <= 0x0d) || n == 0x85 || n == 0xa0 || n == 0x1680
        || (n >= 0x2000 && n <= 0x200a) || n == 0x2028 || n == 0x2029 || n == 0x202f
        || n == 0x205f || n == 0x3000
}

/// A string with its leading whitespace removed.
pub open spec fn trim_left(s: Seq<char>) -> Seq<char>
    decreases s.len(),
{
    if s.len() > 0 && is_space(s[0]) {
        trim_left(s.drop_first())
    } else {
        s
    }
}

/// A string with its trailing whitespace removed.
pub open spec fn trim_right(s: Seq<char>) -> Seq<char>
    decreases s.len(),
{
    if s.len() > 0 && is_space(s[s.len() - 1]) {
        trim_right(s.drop_last())
    } else {
        s
    }
}

/// A string with whitespace removed at both ends, as `str::trim` does.
pub open spec fn trim(s: Seq<char>) -> Seq<char> {
    trim_right(trim_left(s))
}

proof fn lemma_trim_left_range(s: Seq<char>, lo: int)
    requires
        0 <= lo <= s.len(),
        forall|k: int| 0 <= k < lo ==> is_space(s[k]),
        lo < s.len() ==> !is_space(s[lo]),
    ensures
        trim_left(s) == s.skip(lo),
    decreases lo,
{
    if lo == 0 {
        assert(s.skip(0) == s);
    } else {
        assert(is_space(s[0]));
        lemma_trim_left_range(s.drop_first(), lo - 1);
        assert(s.drop_first().skip(lo - 1) == s.skip(lo));
    }
}

proof fn lemma_trim_right_range(s: Seq<char>, hi: int)
    requires
        0 <= hi <= s.len(),
        forall|k: int| hi <= k < s.len() ==> is_space(s[k]),
        hi > 0 ==> !is_space(s[hi - 1]),
    ensures
        trim_right(s) == s.take(hi),
    decreases s.len() - hi,
{
    if hi == s.len() {
        assert(s.take(hi) == s);
    } else {
        assert(is_space(s[s.len() - 1]));
        lemma_trim_right_range(s.drop_last(), hi);
        assert(s.drop_last() == s.take(s.len() - 1));
        assert(s.take(s.len() - 1).take(hi) == s.take(hi));
    }
}

/// Removes whitespace from both ends of a string.
pub fn trim_str(s: &str) -> (r: String)
    ensures
        r@ == trim(s@),
{
    let len = s.unicode_len();
    let mut lo: usize = 0;
    while lo < len && is_space_char(s.get_char(lo))
        invariant
            0 <= lo <= len,
            len == s@.len(),
            forall|k: int| 0 <= k < lo ==> is_space(s@[k]),
        decreases len - lo,
    {
        lo = lo + 1;
    }
    let mut hi: usize = len;
    while hi > lo && is_space_char(s.get_char(hi - 1))
        invariant
            lo <= hi <= len,
            len == s@.len(),
            forall|k: int| 0 <= k < lo ==> is_space(s@[k]),
            lo < s@.len() ==> !is_space(s@[lo as int]),
            forall|k: int| hi <= k < len ==> is_space(s@[k]),
        decreases hi,
    {
        hi = hi - 1;
    }
    proof {
        lemma_trim_left_range(s@, lo as int);
        if hi == lo {
            lemma_trim_right_range(s@.skip(lo as int), 0);
        } else {
            lemma_trim_right_range(s@.skip(lo as int), hi - lo);
        }
        assert(s@.skip(lo as int).take(hi - lo) == s@.subrange(lo as int, hi as int));
    }
    let sub = s.substring_char(lo, hi);
    String::from_str(sub)
}

/// The segments of `s` separated by `sep`, as `str::split` yields them:
/// empty segments are kept, and a string with no separator is one segment.
pub open spec fn split_on(s: Seq<char>, sep: char) -> Seq<Seq<char>>
    decreases s.len(),
    via split_on_decreases
{
    match s.index_of_first(sep) {
        Some(i) => seq![s.take(i)] + split_on(s.skip(i + 1), sep),
        None => seq![s],
    }
}

#[via_fn]
proof fn split_on_decreases(s: Seq<char>, sep: char) {
    s.index_of_first_ensures(sep);
}

/// Splits `s` at every occurrence of `sep`.
pub fn split_str(s: &str, sep: char) -> (r: Vec<String>)
    ensures
        r.deep_view() == split_on(s@, sep),
{
    let len = s.unicode_len();
    let mut r: Vec<String> = Vec::new();
    let mut pos: usize = 0;
    let mut seg_start: usize = 0;
    proof {
        s@.index_of_first_ensures(sep);
        assert(s@.skip(0) == s@);
    }
    while pos < len
        invariant
            0 <= seg_start <= pos <= len,
            len == s@.len(),
            forall|k: int| seg_start <= k < pos ==> s@[k] != sep,
            r.deep_view() + split_on(s@.skip(seg_start as int), sep) == split_on(s@, sep),
            s@.skip(seg_start as int).index_of_first(sep) matches Some(i) ==> i >= pos
                - seg_start,
        decreases len - pos,
    {
        let c = s.get_char(pos);
        if c == sep {
            let ghost rest = s@.skip(seg_start as int);
            proof {
                rest.index_of_first_ensures(sep);
                assert(rest[pos - seg_start] == sep);
                assert(rest.index_of_first(sep) matches Some(i) && i == pos - seg_start) by {
                    assert(rest.contains(sep)) by {
                        assert(rest[pos - seg_start] == sep);
                    }
                }
                assert(rest.take(pos - seg_start) == s@.subrange(
                    seg_start as int,
                    pos as int,
                ));
                assert(rest.skip(pos - seg_start + 1) == s@.skip(pos + 1));
                assert(split_on(rest, sep) == seq![s@.subrange(seg_start as int, pos as int)]
                    + split_on(s@.skip(pos + 1), sep));
            }
            let seg = s.substring_char(seg_start, pos);
            r.push(String::from_str(seg));
            proof {
                assert(r.deep_view() == r.deep_view().drop_last().push(
                    s@.subrange(seg_start as int, pos as int),
                ));
                s@.skip(pos + 1).index_of_first_ensures(sep);
            }
            pos = pos + 1;
            seg_start = pos;
        } else {
            proof {
                let rest = s@.skip(seg_start as int);
                rest.index_of_first_ensures(sep);
                match rest.index_of_first(sep) {
                    Some(i) => {
                        assert(rest[i] == sep);
                        assert(rest[pos - seg_start] == s@[pos as int]);
                    },
                    None => {},
                }
            }
            pos = pos + 1;
        }
    }
    let ghost rest = s@.skip(seg_start as int);
    proof {
        rest.index_of_first_ensures(sep);
        assert(!rest.contains(sep)) by {
            assert(forall|j: int| 0 <= j < rest.len() ==> rest[j] != sep);
        }
        assert(rest.index_of_first(sep) is None);
        assert(split_on(rest, sep) == seq![rest]);
        assert(rest == s@.subrange(seg_start as int, len as int));
    }
    let seg = s.substring_char(seg_start, len);
    r.push(String::from_str(seg));
    r
}

/// Appending one element to a sequence extends its filtered view by that
/// element exactly when the element satisfies the predicate.
pub proof fn lemma_filter_push<A>(s: Seq<A>, x: A, pred: spec_fn(A) -> bool)
    ensures
        s.push(x).filter(pred) == (if pred(x) {
            s.filter(pred).push(x)
        } else {
            s.filter(pred)
        }),
{
    reveal(Seq::filter);
    assert(s.push(x).drop_last() =~= s);
    assert(s.push(x).last() == x);
}

/// Strict codepoint-lexicographic order on strings.
pub open spec fn lex_lt(a: Seq<char>, b: Seq<char>) -> bool
    decreases a.len(),
{
    if b.len() == 0 {
        false
    } else if a.len() == 0 {
        true
    } else if a[0] == b[0] {
        lex_lt(a.drop_first(), b.drop_first())
    } else {
        (a[0] as int) < (b[0] as int)
    }
}

/// `lex_lt` is a strict total order: exactly one of `a < b`, `b < a`,
/// `a == b` holds.
pub proof fn lemma_lex_lt_trichotomy(a: Seq<char>, b: Seq<char>)
    ensures
        lex_lt(a, b) || lex_lt(b, a) || a == b,
        lex_lt(a, b) ==> !lex_lt(b, a) && a != b,
    decreases a.len(),
{
    if a.len() == 0 || b.len() == 0 {
        if a.len() == 0 && b.len() == 0 {
            assert(a == b);
        }
    } else if a[0] == b[0] {
        lemma_lex_lt_trichotomy(a.drop_first(), b.drop_first());
        if a.drop_first() == b.drop_first() {
            assert(a == seq![a[0]] + a.drop_first());
            assert(b == seq![b[0]] + b.drop_first());
        }
    }
}

/// `lex_lt` is transitive.
pub proof fn lemma_lex_lt_trans(a: Seq<char>, b: Seq<char>, c: Seq<char>)
    requires
        lex_lt(a, b),
        lex_lt(b, c),
    ensures
        lex_lt(a, c),
    decreases a.len(),
{
    if a.len() == 0 {
        assert(b.len() > 0 && c.len() > 0);
    } else {
        assert(b.len() > 0 && c.len() > 0);
        if a[0] == b[0] && b[0] == c[0] {
            lemma_lex_lt_trans(a.drop_first(), b.drop_first(), c.drop_first());
        }
    }
}

/// Compares two strings in codepoint-lexicographic order.
pub fn str_lex_lt(a: &str, b: &str) -> (r: bool)
    ensures
        r == lex_lt(a@, b@),
{
    let a_len = a.unicode_len();
    let b_len = b.unicode_len();
    let mut i: usize = 0;
    proof {
        assert(a@.skip(0) == a@);
        assert(b@.skip(0) == b@);
    }
    loop
        invariant
            0 <= i <= a_len,
            i <= b_len,
            a_len == a@.len(),
            b_len == b@.len(),
            lex_lt(a@, b@) == lex_lt(a@.skip(i as int), b@.skip(i as int)),
            forall|k: int| 0 <= k < i ==> a@[k] == b@[k],
        decreases a_len - i,
    {
        if i >= a_len {
            proof {
                assert(a@.skip(i as int) =~= Seq::<char>::empty());
            }
            return i < b_len;
        }
        if i >= b_len {
            proof {
                assert(b@.skip(i as int) =~= Seq::<char>::empty());
            }
            return false;
        }
        let ca = a.get_char(i);
        let cb = b.get_char(i);
        if ca != cb {
            proof {
                assert(a@.skip(i as int)[0] == ca);
                assert(b@.skip(i as int)[0] == cb);
            }
            return (ca as u32) < (cb as u32);
        }
        proof {
            assert(a@.skip(i as int).drop_first() == a@.skip(i + 1));
            assert(b@.skip(i as int).drop_first() == b@.skip(i + 1));
        }
        i = i + 1;
    }
}

/// Compares two characters by code point.
pub fn char_lt(a: char, b: char) -> (r: bool)
    ensures
        r == ((a as int) < (b as int)),
{
    (a as u32) < (b as u32)
}

/// Tests two strings for equality of their character sequences.
pub fn str_eq_str(a: &str, b: &str) -> (r: bool)
    ensures
        r == (a@ == b@),
{
    let a_len = a.unicode_len();
    let b_len = b.unicode_len();
    if a_len != b_len {
        return false;
    }
    let mut i: usize = 0;
    while i < a_len
        invariant
            0 <= i <= a_len,
            a_len == a@.len(),
            a_len == b@.len(),
            forall|k: int| 0 <= k < i ==> a@[k] == b@[k],
        decreases a_len - i,
    {
        if a.get_char(i) != b.get_char(i) {
            return false;
        }
        i = i + 1;
    }
    proof {
        assert(a@ =~= b@);
    }
    true
}

/// Whether the string contains the given character.
pub fn contains_char(s: &str, c: char) -> (r: bool)
    ensures
        r == s@.contains(c),
{
    let len = s.unicode_len();
    let mut i: usize = 0;
    while i < len
        invariant
            0 <= i <= len,
            len == s@.len(),
            forall|k: int| 0 <= k < i ==> s@[k] != c,
        decreases len - i,
    {
        if s.get_char(i) == c {
            return true;
        }
        i = i + 1;
    }
    false
}

} // verus!

//! The page window and the navigation link set.
//!
//! The navigation links are rewritten from the request's own URL: any
//! existing `page` parameter is stripped to obtain a clean base, and the
//! first, previous, next and last links append a new page number to it.

use vstd::prelude::*;

verus! {

/// An ASCII decimal digit.
pub open spec fn is_digit(c: char) -> bool {
    '0' as int <= c as int <= '9' as int
}

/// Whether a `page` query parameter starts at position `i` of the URL: a
/// `?` or `&`, the name `page`, an equals sign, and at least one digit.
pub open spec fn page_param_at(s: Seq<char>, i: int) -> bool {
    &&& 0 <= i
    &&& i + 7 <= s.len()
    &&& (s[i] == '?' || s[i] == '&')
    &&& s[i + 1] == 'p'
    &&& s[i + 2] == 'a'
    &&& s[i + 3] == 'g'
    &&& s[i + 4] == 'e'
    &&& s[i + 5] == '='
    &&& is_digit(s[i + 6])
}

/// The first position at or after `i` where a `page` parameter starts.
pub open spec fn find_param_from(s: Seq<char>, i: int) -> Option<int>
    decreases s.len() - i when 0 <= i
{
    if i + 7 > s.len() {
        None
    } else if page_param_at(s, i) {
        Some(i)
    } else {
        find_param_from(s, i + 1)
    }
}

/// The end of the digit run that starts at or after position `j`.
pub open spec fn digit_run_end(s: Seq<char>, j: int) -> int
    decreases s.len() - j when 0 <= j <= s.len()
{
    if j >= s.len() {
        j
    } else if is_digit(s[j]) {
        digit_run_end(s, j + 1)
    } else {
        j
    }
}

/// A URL with its first `page=<digits>` query parameter removed, separator
/// included; a URL without one is unchanged.
pub open spec fn strip_page_param(s: Seq<char>) -> Seq<char> {
    match find_param_from(s, 0) {
        Some(i) => s.take(i) + s.skip(digit_run_end(s, i + 7)),
        None => s,
    }
}

proof fn lemma_digit_run_end_range(s: Seq<char>, j: int)
    requires
        0 <= j <= s.len(),
    ensures
        j <= digit_run_end(s, j) <= s.len(),
    decreases s.len() - j,
{
    if j < s.len() && is_digit(s[j]) {
        lemma_digit_run_end_range(s, j + 1);
    }
}

/// Tests whether the character is an ASCII decimal digit.
fn is_digit_char(c: char) -> (b: bool)
    ensures
        b == is_digit(c),
{
    let n = c as u32;
    n >= 0x30 && n <= 0x39
}

/// Removes the first `page=<digits>` query parameter from a URL.
pub fn strip_page_param_str(url: &str) -> (r: String)
    ensures
        r@ == strip_page_param(url@),
{
    let len = url.unicode_len();
    if len < 7 {
        proof {
            assert(find_param_from(url@, 0) is None);
        }
        return String::from_str(url);
    }
    let mut i: usize = 0;
    let mut found: bool = false;
    while !found && i <= len - 7
        invariant
            0 <= i <= len,
            len == url@.len(),
            len >= 7,
            found ==> page_param_at(url@, i as int) && find_param_from(url@, 0) == Some(
                i as int,
            ),
            !found ==> find_param_from(url@, 0) == find_param_from(url@, i as int),
        decreases len - i + (if found {
            0int
        } else {
            1int
        }),
    {
        let c = url.get_char(i);
        if (c == '?' || c == '&') && url.get_char(i + 1) == 'p' && url.get_char(i + 2) == 'a'
            && url.get_char(i + 3) == 'g' && url.get_char(i + 4) == 'e' && url.get_char(i + 5)
            == '=' && is_digit_char(url.get_char(i + 6)) {
            found = true;
        } else {
            proof {
                assert(!page_param_at(url@, i as int));
            }
            i = i + 1;
        }
    }
    if !found {
        proof {
            assert(find_param_from(url@, i as int) is None);
        }
        return String::from_str(url);
    }
    let mut j: usize = i + 7;
    proof {
        lemma_digit_run_end_range(url@, j as int);
    }
    while j < len && is_digit_char(url.get_char(j))
        invariant
            i + 7 <= j <= len,
            len == url@.len(),
            digit_run_end(url@, i + 7) == digit_run_end(url@, j as int),
        decreases len - j,
    {
        j = j + 1;
    }
    proof {
        assert(digit_run_end(url@, j as int) == j);
    }
    let head = url.substring_char(0, i);
    let tail = url.substring_char(j, len);
    let mut r = String::from_str(head);
    r.append(tail);
    proof {
        assert(head@ == url@.take(i as int));
        assert(tail@ == url@.skip(j as int));
    }
    r
}

/// The decimal representation of a number, most significant digit first.
pub open spec fn dec_str(n: nat) -> Seq<char>
    decreases n,
{
    if n < 10 {
        seq![digit_char(n)]
    } else {
        dec_str(n / 10) + seq![digit_char(n % 10)]
    }
}

/// The digit character for one decimal digit.
pub open spec fn digit_char(d: nat) -> char {
    if d == 0 {
        '0'
    } else if d == 1 {
        '1'
    } else if d == 2 {
        '2'
    } else if d == 3 {
        '3'
    } else if d == 4 {
        '4'
    } else if d == 5 {
        '5'
    } else if d == 6 {
        '6'
    } else if d == 7 {
        '7'
    } else if d == 8 {
        '8'
    } else {
        '9'
    }
}

/// One decimal digit as a string.
fn digit_str(d: usize) -> (r: &'static str)
    requires
        d < 10,
    ensures
        r@ == seq![digit_char(d as nat)],
{
    let r = match d {
        0 => "0",
        1 => "1",
        2 => "2",
        3 => "3",
        4 => "4",
        5 => "5",
        6 => "6",
        7 => "7",
        8 => "8",
        _ => "9",
    };
    proof {
        reveal_strlit("0");
        reveal_strlit("1");
        reveal_strlit("2");
        reveal_strlit("3");
        reveal_strlit("4");
        reveal_strlit("5");
        reveal_strlit("6");
        reveal_strlit("7");
        reveal_strlit("8");
        reveal_strlit("9");
        assert(r@ =~= seq![digit_char(d as nat)]);
    }
    r
}

/// Renders a number in decimal.
pub fn usize_to_string(n: usize) -> (r: String)
    ensures
        r@ == dec_str(n as nat),
    decreases n,
{
    if n < 10 {
        String::from_str(digit_str(n))
    } else {
        let mut r = usize_to_string(n / 10);
        r.append(digit_str(n % 10));
        r
    }
}

/// One page window: the page index and size of the request, the filtered
/// total, and the number of pages it spans.
#[derive(Debug, Clone, Copy, PartialEq, Eq, Structural)]
pub struct PageWindow {
    pub page_index: usize,
    pub page_size: usize,
    pub total_items: usize,
    pub total_pages: usize,
}

/// The navigation link set of one feed page. `previous`, `next` and `last`
/// are present only where such a page exists.
#[derive(Debug, Clone, PartialEq)]
pub struct NavLinks {
    pub self_link: String,
    pub first: String,
    pub previous: Option<String>,
    pub next: Option<String>,
    pub last: Option<String>,
}

/// How many pages a total spans: the total divided by the page size,
/// rounded up; zero when there are no items.
pub open spec fn total_pages_of(total: nat, size: nat) -> nat
    recommends
        size > 0,
{
    total / size + if total % size == 0 {
        0nat
    } else {
        1nat
    }
}

/// The parameter separator for a URL: `&` when it already has a query,
/// `?` otherwise.
pub open spec fn sep_of(clean: Seq<char>) -> Seq<char> {
    if clean.contains('?') {
        "&"@
    } else {
        "?"@
    }
}

/// A page link: the clean base with `page=<n>` appended.
pub open spec fn page_link(clean: Seq<char>, page: nat) -> Seq<char> {
    clean + sep_of(clean) + "page="@ + dec_str(page)
}

/// Appends `page=<n>` to the clean base URL.
fn make_page_link(clean: &String, page: usize) -> (r: String)
    ensures
        r@ == page_link(clean@, page as nat),
{
    let mut r = clean.clone();
    if contains_char_str(clean.as_str(), '?') {
        r.append("&");
        proof {
            reveal_strlit("&");
        }
    } else {
        r.append("?");
        proof {
            reveal_strlit("?");
        }
    }
    r.append("page=");
    let n = usize_to_string(page);
    r.append(n.as_str());
    proof {
        reveal_strlit("&");
        reveal_strlit("?");
    }
    r
}

/// Whether the string contains the character; a thin front for the text
/// module's scan.
fn contains_char_str(s: &str, c: char) -> (r: bool)
    ensures
        r == s@.contains(c),
{
    crate::text::contains_char(s, c)
}

/// Computes the page window and the navigation links for one request.
/// The base URL is first stripped of any existing `page` parameter; `self`
/// and `first` point at that clean base, `previous` is absent on the first
/// page (and bare on the second), `next` is present only before the last
/// page, and `last` only when there is more than one page.
pub fn paginate(total_items: usize, page_size: usize, page_index: usize, base_url: &str) -> (r: (
    PageWindow,
    NavLinks,
))
    requires
        page_size >= 1,
    ensures
        r.0 == (PageWindow {
            page_index,
            page_size,
            total_items,
            total_pages: (total_pages_of(total_items as nat, page_size as nat) as usize),
        }),
        r.1.self_link@ == strip_page_param(base_url@),
        r.1.first@ == strip_page_param(base_url@),
        (r.1.previous is Some) == (page_index > 0),
        page_index == 1 ==> (r.1.previous matches Some(u) && u@ == strip_page_param(base_url@)),
        page_index > 1 ==> (r.1.previous matches Some(u) && u@ == page_link(
            strip_page_param(base_url@),
            (page_index - 1) as nat,
        )),
        (r.1.next is Some) == (page_index + 1 < total_pages_of(
            total_items as nat,
            page_size as nat,
        )),
        r.1.next matches Some(u) ==> u@ == page_link(
            strip_page_param(base_url@),
            (page_index + 1) as nat,
        ),
        (r.1.last is Some) == (total_pages_of(total_items as nat, page_size as nat) > 1),
        r.1.last matches Some(u) ==> u@ == page_link(
            strip_page_param(base_url@),
            (total_pages_of(total_items as nat, page_size as nat) - 1) as nat,
        ),
{
    let quotient = total_items / page_size;
    let total_pages = if total_items % page_size == 0 {
        quotient
    } else {
        proof {
            assert(page_size >= 2) by {
                if page_size == 1 {
                    assert(total_items % 1 == 0) by (nonlinear_arith);
                }
            }
            assert(quotient < total_items) by {
                let t = total_items as int;
                let s = page_size as int;
                let q = t / s;
                vstd::arithmetic::mul::lemma_mul_inequality(1, s, q);
                assert(1 * q == q) by (nonlinear_arith);
                assert(s * q == q * s) by (nonlinear_arith);
                vstd::arithmetic::div_mod::lemma_fundamental_div_mod(t, s);
                assert(t == s * q + t % s);
                assert(t % s >= 1);
                assert(q < t);
            }
        }
        quotient + 1
    };
    let clean = strip_page_param_str(base_url);
    let previous = if page_index == 0 {
        None
    } else if page_index == 1 {
        Some(clean.clone())
    } else {
        Some(make_page_link(&clean, page_index - 1))
    };
    let next = if page_index < total_pages && total_pages - page_index > 1 {
        Some(make_page_link(&clean, page_index + 1))
    } else {
        None
    };
    let last = if total_pages > 1 {
        Some(make_page_link(&clean, total_pages - 1))
    } else {
        None
    };
    let window = PageWindow { page_index, page_size, total_items, total_pages };
    let links = NavLinks {
        self_link: clean.clone(),
        first: clean,
        previous,
        next,
        last,
    };
    (window, links)
}

} // verus!

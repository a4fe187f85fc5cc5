//! Tests of the page window and navigation links.

use abs_opds::paginate::{paginate, strip_page_param_str, usize_to_string};

#[test]
fn test_paginate_first_page() {
    let (window, links) = paginate(25, 10, 0, "/opds/libraries/lib1");
    assert_eq!(window.total_items, 25);
    assert_eq!(window.total_pages, 3);
    assert_eq!(window.page_index, 0);
    assert_eq!(window.page_size, 10);
    assert_eq!(links.self_link, "/opds/libraries/lib1");
    assert_eq!(links.first, "/opds/libraries/lib1");
    assert!(links.previous.is_none());
    assert_eq!(links.next.as_deref(), Some("/opds/libraries/lib1?page=1"));
    assert_eq!(links.last.as_deref(), Some("/opds/libraries/lib1?page=2"));
}

#[test]
fn test_paginate_last_page() {
    let (window, links) = paginate(25, 10, 2, "/opds/libraries/lib1");
    assert_eq!(window.total_pages, 3);
    assert!(links.next.is_none());
    assert_eq!(links.last.as_deref(), Some("/opds/libraries/lib1?page=2"));
    assert_eq!(links.previous.as_deref(), Some("/opds/libraries/lib1?page=1"));
}

#[test]
fn test_paginate_second_page_previous_is_bare() {
    let (_, links) = paginate(25, 10, 1, "/opds/libraries/lib1");
    // The previous page is page zero, which the bare clean base serves.
    assert_eq!(links.previous.as_deref(), Some("/opds/libraries/lib1"));
}

#[test]
fn test_paginate_keeps_other_parameters() {
    let (_, links) = paginate(30, 10, 0, "/opds/libraries/lib1?q=harry&page=4");
    assert_eq!(links.self_link, "/opds/libraries/lib1?q=harry");
    assert_eq!(links.next.as_deref(), Some("/opds/libraries/lib1?q=harry&page=1"));
}

#[test]
fn test_paginate_empty_collection() {
    let (window, links) = paginate(0, 10, 0, "/base");
    assert_eq!(window.total_pages, 0);
    assert!(links.previous.is_none());
    assert!(links.next.is_none());
    assert!(links.last.is_none());
}

#[test]
fn test_strip_page_param_variants() {
    assert_eq!(strip_page_param_str("/a?page=12&q=x"), "/a&q=x");
    assert_eq!(strip_page_param_str("/a?q=x&page=12"), "/a?q=x");
    assert_eq!(strip_page_param_str("/a?q=x"), "/a?q=x");
    assert_eq!(strip_page_param_str("/a?page="), "/a?page=");
    assert_eq!(strip_page_param_str("/a"), "/a");
    assert_eq!(strip_page_param_str(""), "");
}

#[test]
fn test_usize_to_string() {
    assert_eq!(usize_to_string(0), "0");
    assert_eq!(usize_to_string(7), "7");
    assert_eq!(usize_to_string(25), "25");
    assert_eq!(usize_to_string(1203), "1203");
}

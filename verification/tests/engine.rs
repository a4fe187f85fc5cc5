//! End-to-end tests of filtering, pagination and the execution strategy.

use abs_opds::config::AppConfig;
use abs_opds::filter::{filter_and_paginate, filter_items_with_threshold};
use abs_opds::models::{AbsItemResult, AbsMedia, AbsMetadata, ItemType};
use abs_opds::normalize::parse_library_item;
use abs_opds::query::LibraryQuery;

fn create_item(id: &str, title: &str, author: Option<&str>, genre: Option<&str>) -> AbsItemResult {
    AbsItemResult {
        id: id.to_string(),
        media: AbsMedia {
            ebook_format: Some("epub".to_string()),
            metadata: AbsMetadata {
                title: Some(title.to_string()),
                subtitle: None,
                description: None,
                genres: genre.map(|g| vec![g.to_string()]),
                tags: None,
                publisher: None,
                isbn: None,
                language: Some("en".to_string()),
                published_year: None,
                author_name: author.map(|a| a.to_string()),
                narrator_name: None,
                series_name: None,
            },
        },
    }
}

fn empty_query() -> LibraryQuery {
    LibraryQuery {
        categories: None,
        page: 0,
        q: None,
        author: None,
        title: None,
        name: None,
        type_: None,
        start: None,
    }
}

fn test_config() -> AppConfig {
    AppConfig {
        port: 3000,
        use_proxy: false,
        abs_url: "http://localhost:3000".to_string(),
        opds_users: "user:token:pass".to_string(),
        internal_users: vec![],
        show_audiobooks: true,
        show_char_cards: false,
        opds_no_auth: false,
        abs_noauth_username: String::new(),
        abs_noauth_password: String::new(),
        opds_page_size: 10,
    }
}

#[test]
fn test_get_filtered_items_search() {
    let items = vec![
        create_item("1", "The Hobbit", Some("J.R.R. Tolkien"), Some("Fantasy")),
        create_item("2", "Harry Potter", Some("J.K. Rowling"), Some("Fantasy")),
        create_item("3", "1984", Some("George Orwell"), Some("Sci-Fi")),
    ];
    let mut query = empty_query();
    query.q = Some("Harry".to_string());
    let (filtered, total) = filter_and_paginate(items, &query, &test_config());
    assert_eq!(filtered.len(), 1);
    assert_eq!(filtered[0].title, Some("Harry Potter".to_string()));
    assert_eq!(total, 1);
}

#[test]
fn test_get_filtered_items_author() {
    let items = vec![
        create_item("1", "The Hobbit", Some("J.R.R. Tolkien"), Some("Fantasy")),
        create_item("2", "LOTR", Some("J.R.R. Tolkien"), Some("Fantasy")),
        create_item("3", "1984", Some("George Orwell"), Some("Sci-Fi")),
    ];
    let mut query = empty_query();
    query.author = Some("Tolkien".to_string());
    let (filtered, total) = filter_and_paginate(items, &query, &test_config());
    assert_eq!(filtered.len(), 2);
    assert_eq!(total, 2);
    // Original order is kept.
    assert_eq!(filtered[0].id, "1");
    assert_eq!(filtered[1].id, "2");
}

#[test]
fn test_pagination() {
    let mut items = Vec::new();
    for i in 0..25 {
        items.push(create_item(&format!("{}", i), &format!("Book {}", i), None, None));
    }
    let query = empty_query();
    let (filtered, total) = filter_and_paginate(items, &query, &test_config());
    assert_eq!(filtered.len(), 10);
    assert_eq!(total, 25);
    assert_eq!(filtered[0].title, Some("Book 0".to_string()));
}

#[test]
fn test_pagination_page_2() {
    let mut items = Vec::new();
    for i in 0..25 {
        items.push(create_item(&format!("{}", i), &format!("Book {}", i), None, None));
    }
    let mut query = empty_query();
    query.page = 2;
    let (filtered, total) = filter_and_paginate(items, &query, &test_config());
    assert_eq!(filtered.len(), 5);
    assert_eq!(total, 25);
    assert_eq!(filtered[0].title, Some("Book 20".to_string()));
}

#[test]
fn test_page_beyond_end_is_empty() {
    let mut items = Vec::new();
    for i in 0..25 {
        items.push(create_item(&format!("{}", i), &format!("Book {}", i), None, None));
    }
    let mut query = empty_query();
    query.page = 100_000;
    let (filtered, total) = filter_and_paginate(items, &query, &test_config());
    assert!(filtered.is_empty());
    assert_eq!(total, 25);
}

#[test]
fn test_sequential_and_parallel_filter_agree() {
    let mut items = Vec::new();
    for i in 0..64 {
        items.push(create_item(
            &format!("{}", i),
            &format!("Book {}", i),
            Some(if i % 2 == 0 { "Ann Author" } else { "Bob Writer" }),
            Some("Fantasy"),
        ));
    }
    let mut query = empty_query();
    query.author = Some("ann".to_string());
    // A huge threshold forces the sequential pass, zero forces the
    // parallel one; the results must be byte-identical.
    let seq_out = filter_items_with_threshold(items.clone(), &query, true, usize::MAX);
    let par_out = filter_items_with_threshold(items, &query, true, 0);
    assert_eq!(seq_out.len(), par_out.len());
    for (a, b) in seq_out.iter().zip(par_out.iter()) {
        assert_eq!(a.id, b.id);
        assert_eq!(a.media.metadata.title, b.media.metadata.title);
    }
    assert_eq!(seq_out.len(), 32);
}

#[test]
fn test_search_regex_metachars_match_literally() {
    let items = vec![
        create_item("1", "Learning C++", Some("Ann Author"), None),
        create_item("2", "CD Collecting", Some("Bob Writer"), None),
    ];
    let mut query = empty_query();
    query.q = Some("C++".to_string());
    let (filtered, total) = filter_and_paginate(items, &query, &test_config());
    assert_eq!(total, 1);
    assert_eq!(filtered[0].title, Some("Learning C++".to_string()));
}

#[test]
fn test_search_is_case_insensitive() {
    let items = vec![create_item("1", "The Hobbit", Some("J.R.R. Tolkien"), None)];
    let mut query = empty_query();
    query.q = Some("hobbit".to_string());
    let (_, total) = filter_and_paginate(items, &query, &test_config());
    assert_eq!(total, 1);
}

#[test]
fn test_format_gate_excludes_audiobooks() {
    let mut audio = create_item("1", "Spoken Book", None, None);
    audio.media.ebook_format = None;
    let items = vec![audio, create_item("2", "Ebook", None, None)];
    let mut config = test_config();
    config.show_audiobooks = false;
    let (filtered, total) = filter_and_paginate(items, &empty_query(), &config);
    assert_eq!(total, 1);
    assert_eq!(filtered[0].id, "2");
}

#[test]
fn test_facet_query_overrides_free_text() {
    let items = vec![
        create_item("1", "The Hobbit", Some("J.R.R. Tolkien"), Some("Fantasy")),
        create_item("2", "1984", Some("George Orwell"), Some("Sci-Fi")),
    ];
    let mut query = empty_query();
    query.q = Some("1984".to_string());
    query.type_ = Some(ItemType::Authors);
    query.name = Some("Tolkien".to_string());
    let (filtered, total) = filter_and_paginate(items, &query, &test_config());
    assert_eq!(total, 1);
    assert_eq!(filtered[0].id, "1");
}

#[test]
fn test_title_filter_checks_subtitle() {
    let mut item = create_item("1", "Main Title", None, None);
    item.media.metadata.subtitle = Some("A Subtitle".to_string());
    let items = vec![item, create_item("2", "Other", None, None)];
    let mut query = empty_query();
    query.title = Some("subtitle".to_string());
    let (_, total) = filter_and_paginate(items, &query, &test_config());
    assert_eq!(total, 1);
}

#[test]
fn test_library_item_matches_free_text() {
    let raw = create_item("1", "The Hobbit", Some("J.R.R. Tolkien, Alan Lee"), Some("Fantasy"));
    let item = parse_library_item(&raw);
    assert!(item.matches("alan"));
    assert!(item.matches("fantasy"));
    assert!(!item.matches("orwell"));
}

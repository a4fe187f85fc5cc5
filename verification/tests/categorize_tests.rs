//! Tests of the distinct-value category listings and letter buckets.

use abs_opds::categorize::{build_category_listing, collect_values_with_threshold, CategoryEntry};
use abs_opds::config::AppConfig;
use abs_opds::models::{AbsItemResult, AbsMedia, AbsMetadata, ItemType};
use abs_opds::query::LibraryQuery;

fn item_with(author: Option<&str>, genres: Option<Vec<&str>>, tags: Option<Vec<&str>>) -> AbsItemResult {
    AbsItemResult {
        id: "x".to_string(),
        media: AbsMedia {
            ebook_format: Some("epub".to_string()),
            metadata: AbsMetadata {
                title: Some("T".to_string()),
                subtitle: None,
                description: None,
                genres: genres.map(|v| v.into_iter().map(|s| s.to_string()).collect()),
                tags: tags.map(|v| v.into_iter().map(|s| s.to_string()).collect()),
                publisher: None,
                isbn: None,
                language: None,
                published_year: None,
                author_name: author.map(|s| s.to_string()),
                narrator_name: None,
                series_name: None,
            },
        },
    }
}

fn empty_query() -> LibraryQuery {
    LibraryQuery {
        categories: None,
        page: 0,
        q: None,
        author: None,
        title: None,
        name: None,
        type_: None,
        start: None,
    }
}

fn config(show_char_cards: bool) -> AppConfig {
    AppConfig {
        port: 3010,
        use_proxy: false,
        abs_url: String::new(),
        opds_users: String::new(),
        internal_users: vec![],
        show_audiobooks: true,
        show_char_cards,
        opds_no_auth: false,
        abs_noauth_username: String::new(),
        abs_noauth_password: String::new(),
        opds_page_size: 20,
    }
}

#[test]
fn test_letter_buckets_fold_accents() {
    let items = vec![
        item_with(Some("Émile Zola"), None, None),
        item_with(Some("Ernest Hemingway"), None, None),
        item_with(Some("Orwell"), None, None),
    ];
    let entries = build_category_listing(&items, ItemType::Authors, &empty_query(), &config(true));
    assert_eq!(entries.len(), 2);
    assert!(matches!(&entries[0], CategoryEntry::Bucket { letter: 'E', count: 2 }));
    assert!(matches!(&entries[1], CategoryEntry::Bucket { letter: 'O', count: 1 }));
}

#[test]
fn test_direct_listing_sorted_distinct() {
    let items = vec![
        item_with(Some("Zola, Austen"), None, None),
        item_with(Some("Austen"), None, None),
        item_with(Some("Brontë"), None, None),
    ];
    let entries = build_category_listing(&items, ItemType::Authors, &empty_query(), &config(false));
    let values: Vec<&str> = entries
        .iter()
        .map(|e| match e {
            CategoryEntry::Value { value } => value.as_str(),
            CategoryEntry::Bucket { .. } => panic!("expected values"),
        })
        .collect();
    assert_eq!(values, vec!["Austen", "Brontë", "Zola"]);
}

#[test]
fn test_start_letter_filters_with_accent_folding() {
    let mut query = empty_query();
    query.start = Some("e".to_string());
    let items = vec![
        item_with(Some("Émile Zola"), None, None),
        item_with(Some("Ernest Hemingway"), None, None),
        item_with(Some("Orwell"), None, None),
    ];
    // A start letter is given, so the listing is direct even with letter
    // cards enabled.
    let entries = build_category_listing(&items, ItemType::Authors, &query, &config(true));
    let values: Vec<&str> = entries
        .iter()
        .map(|e| match e {
            CategoryEntry::Value { value } => value.as_str(),
            CategoryEntry::Bucket { .. } => panic!("expected values"),
        })
        .collect();
    assert_eq!(values, vec!["Ernest Hemingway", "Émile Zola"]);
}

#[test]
fn test_genres_union_tags() {
    let items = vec![
        item_with(None, Some(vec!["Fantasy", "Epic"]), Some(vec!["Signed"])),
        item_with(None, Some(vec!["Fantasy"]), None),
    ];
    let entries = build_category_listing(&items, ItemType::Genres, &empty_query(), &config(false));
    let values: Vec<&str> = entries
        .iter()
        .map(|e| match e {
            CategoryEntry::Value { value } => value.as_str(),
            CategoryEntry::Bucket { .. } => panic!("expected values"),
        })
        .collect();
    assert_eq!(values, vec!["Epic", "Fantasy", "Signed"]);
}

#[test]
fn test_empty_values_never_listed() {
    let items = vec![item_with(Some("  , Austen"), None, None)];
    let entries = build_category_listing(&items, ItemType::Authors, &empty_query(), &config(false));
    let values: Vec<&str> = entries
        .iter()
        .map(|e| match e {
            CategoryEntry::Value { value } => value.as_str(),
            CategoryEntry::Bucket { .. } => panic!("expected values"),
        })
        .collect();
    assert_eq!(values, vec!["Austen"]);
}

#[test]
fn test_collect_paths_agree() {
    let items = vec![
        item_with(Some("Zola, Austen"), None, None),
        item_with(Some("Brontë, Austen"), None, None),
    ];
    let seq_vals = collect_values_with_threshold(&items, ItemType::Authors, usize::MAX);
    let par_vals = collect_values_with_threshold(&items, ItemType::Authors, 0);
    assert_eq!(seq_vals, par_vals);
    assert_eq!(seq_vals, vec!["Zola", "Austen", "Brontë", "Austen"]);
}

#[test]
fn test_empty_collection_lists_nothing() {
    let items: Vec<AbsItemResult> = Vec::new();
    let listed = build_category_listing(&items, ItemType::Series, &empty_query(), &config(false));
    assert!(listed.is_empty());
    let buckets = build_category_listing(&items, ItemType::Series, &empty_query(), &config(true));
    assert!(buckets.is_empty());
}

#[test]
fn test_lowercase_values_bucket_under_uppercase_letter() {
    let items = vec![
        item_with(Some("brontë"), None, None),
        item_with(Some("austen"), None, None),
    ];
    let entries = build_category_listing(&items, ItemType::Authors, &empty_query(), &config(true));
    assert_eq!(entries.len(), 2);
    assert!(matches!(&entries[0], CategoryEntry::Bucket { letter: 'A', count: 1 }));
    assert!(matches!(&entries[1], CategoryEntry::Bucket { letter: 'B', count: 1 }));
}

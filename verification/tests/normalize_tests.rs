//! Tests of item normalization and configuration parsing.

use abs_opds::config::AppConfig;
use abs_opds::models::{AbsItemResult, AbsMedia, AbsMetadata};
use abs_opds::normalize::parse_library_item;

fn raw_item(author: Option<&str>, narrator: Option<&str>, series: Option<&str>) -> AbsItemResult {
    AbsItemResult {
        id: "item1".to_string(),
        media: AbsMedia {
            ebook_format: Some("epub".to_string()),
            metadata: AbsMetadata {
                title: Some("A Book".to_string()),
                subtitle: None,
                description: None,
                genres: Some(vec!["Fantasy".to_string()]),
                tags: None,
                publisher: Some("A House".to_string()),
                isbn: None,
                language: None,
                published_year: Some("2023".to_string()),
                author_name: author.map(|s| s.to_string()),
                narrator_name: narrator.map(|s| s.to_string()),
                series_name: series.map(|s| s.to_string()),
            },
        },
    }
}

#[test]
fn test_series_sequence_marker_stripped() {
    let item = parse_library_item(&raw_item(None, None, Some("The Foo Saga #3, Bar #1")));
    assert_eq!(item.series, vec!["The Foo Saga".to_string(), "Bar".to_string()]);
}

#[test]
fn test_author_names_split_and_trimmed() {
    let item = parse_library_item(&raw_item(Some("J.R.R. Tolkien ,  Alan Lee"), None, None));
    let names: Vec<&str> = item.authors.iter().map(|a| a.name.as_str()).collect();
    assert_eq!(names, vec!["J.R.R. Tolkien", "Alan Lee"]);
}

#[test]
fn test_narrator_names_split() {
    let item = parse_library_item(&raw_item(None, Some("Andy Serkis, Rob Inglis"), None));
    let names: Vec<&str> = item.narrators.iter().map(|a| a.name.as_str()).collect();
    assert_eq!(names, vec!["Andy Serkis", "Rob Inglis"]);
}

#[test]
fn test_absent_fields_normalize_to_empty() {
    let item = parse_library_item(&raw_item(None, None, None));
    assert!(item.authors.is_empty());
    assert!(item.narrators.is_empty());
    assert!(item.series.is_empty());
    assert!(item.tags.is_empty());
    assert_eq!(item.genres, vec!["Fantasy".to_string()]);
    assert_eq!(item.id, "item1");
    assert_eq!(item.format, Some("epub".to_string()));
}

#[test]
fn test_series_without_marker_kept_whole() {
    let item = parse_library_item(&raw_item(None, None, Some("Lone Series")));
    assert_eq!(item.series, vec!["Lone Series".to_string()]);
}

fn config_with_users(raw: &str) -> AppConfig {
    AppConfig {
        port: 3010,
        use_proxy: false,
        abs_url: "http://localhost:3000".to_string(),
        opds_users: raw.to_string(),
        internal_users: vec![],
        show_audiobooks: false,
        show_char_cards: false,
        opds_no_auth: false,
        abs_noauth_username: String::new(),
        abs_noauth_password: String::new(),
        opds_page_size: 20,
    }
}

#[test]
fn test_parse_users_valid_entries() {
    let mut config = config_with_users("alice:key1:pw1,bob:key2:pw2");
    config.parse_users();
    assert_eq!(config.internal_users.len(), 2);
    assert_eq!(config.internal_users[0].name, "alice");
    assert_eq!(config.internal_users[0].api_key, "key1");
    assert_eq!(config.internal_users[0].password, Some("pw1".to_string()));
    assert_eq!(config.internal_users[1].name, "bob");
}

#[test]
fn test_parse_users_drops_malformed_entries() {
    let mut config = config_with_users("alice:key1:pw1,broken,:empty:name,noport:");
    config.parse_users();
    // Entries without three fields, and entries with an empty key, are
    // dropped; an empty name alone is not a reason to drop one.
    assert_eq!(config.internal_users.len(), 2);
    assert_eq!(config.internal_users[0].name, "alice");
    assert_eq!(config.internal_users[1].name, "");
    assert_eq!(config.internal_users[1].api_key, "empty");
}

#[test]
fn test_parse_users_empty_string() {
    let mut config = config_with_users("");
    config.parse_users();
    assert!(config.internal_users.is_empty());
}

#[test]
fn test_config_defaults() {
    assert_eq!(abs_opds::config::default_port(), 3010);
    assert!(!abs_opds::config::default_use_proxy());
    assert_eq!(abs_opds::config::default_abs_url(), "http://localhost:3000");
    assert!(!abs_opds::config::default_false());
    assert_eq!(abs_opds::config::default_page_size(), 20);
}

#[test]
fn test_empty_segments_kept_after_trim() {
    let item = parse_library_item(&raw_item(Some(" , Austen"), None, None));
    let names: Vec<&str> = item.authors.iter().map(|a| a.name.as_str()).collect();
    // Split keeps empty segments; trimming leaves them empty, and no
    // further filtering is applied during normalization.
    assert_eq!(names, vec!["", "Austen"]);
}

#[test]
fn test_scalar_fields_carry_over() {
    let item = parse_library_item(&raw_item(None, None, None));
    assert_eq!(item.title, Some("A Book".to_string()));
    assert_eq!(item.publisher, Some("A House".to_string()));
    assert_eq!(item.published_year, Some("2023".to_string()));
    assert_eq!(item.subtitle, None);
}

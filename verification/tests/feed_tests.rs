//! Tests of feed entry building and markup escaping.

use abs_opds::feed::{escape_xml, mime_type_for, OpdsBuilder};
use abs_opds::models::Library;

#[test]
fn test_build_library_entry() {
    let library = Library {
        id: "lib1".to_string(),
        name: "My Library".to_string(),
        icon: None,
    };
    let entry = OpdsBuilder::build_library_entry(&library);
    assert!(entry.contains("<id>lib1</id>"));
    assert!(entry.contains("<title>My Library</title>"));
    assert!(entry.contains("/opds/libraries/lib1?categories=true"));
}

#[test]
fn test_build_library_entry_list() {
    let libraries = vec![
        Library { id: "a".to_string(), name: "First".to_string(), icon: None },
        Library { id: "b".to_string(), name: "Second".to_string(), icon: None },
    ];
    let entries = OpdsBuilder::build_library_entry_list(&libraries);
    assert_eq!(entries.len(), 2);
    assert!(entries[0].contains("<id>a</id>"));
    assert!(entries[1].contains("<title>Second</title>"));
}

#[test]
fn test_build_library_entry_escapes_markup() {
    let library = Library {
        id: "lib<1>".to_string(),
        name: "Tom & Jerry's \"Books\"".to_string(),
        icon: None,
    };
    let entry = OpdsBuilder::build_library_entry(&library);
    assert!(entry.contains("<id>lib&lt;1&gt;</id>"));
    assert!(entry.contains("<title>Tom &amp; Jerry&apos;s &quot;Books&quot;</title>"));
}

#[test]
fn test_escape_xml() {
    assert_eq!(escape_xml("a&b<c>d'e\"f"), "a&amp;b&lt;c&gt;d&apos;e&quot;f");
    assert_eq!(escape_xml("plain"), "plain");
    assert_eq!(escape_xml(""), "");
}

#[test]
fn test_mime_type_for_format() {
    assert_eq!(mime_type_for(&Some("epub".to_string())), "application/epub+zip");
    assert_eq!(mime_type_for(&Some("pdf".to_string())), "application/pdf");
    assert_eq!(mime_type_for(&Some("mobi".to_string())), "application/x-mobipocket-ebook");
    assert_eq!(mime_type_for(&Some("audiobook".to_string())), "audio/mpeg");
    assert_eq!(mime_type_for(&Some("cbz".to_string())), "application/octet-stream");
    assert_eq!(mime_type_for(&None), "application/octet-stream");
}

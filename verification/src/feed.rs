//! The shape of the feed entries the library itself produces.
//!
//! Only the entry shape and its ordering are specified here; assembling
//! whole feed documents stays with the HTTP layer. Text placed into markup
//! is escaped exactly.

use vstd::prelude::*;
use crate::models::Library;
use crate::text::str_eq_str;

verus! {

/// The markup escape of one character: the five XML-special characters
/// become entities, every other character stands as itself.
pub open spec fn esc_char(c: char) -> Seq<char> {
    if c == '&' {
        "&amp;"@
    } else if c == '<' {
        "&lt;"@
    } else if c == '>' {
        "&gt;"@
    } else if c == '\'' {
        "&apos;"@
    } else if c == '"' {
        "&quot;"@
    } else {
        seq![c]
    }
}

/// The markup escape of a string.
pub open spec fn esc(s: Seq<char>) -> Seq<char>
    decreases s.len(),
{
    if s.len() == 0 {
        Seq::empty()
    } else {
        esc(s.drop_last()) + esc_char(s.last())
    }
}

proof fn lemma_esc_push(s: Seq<char>, c: char)
    ensures
        esc(s.push(c)) == esc(s) + esc_char(c),
{
    assert(s.push(c).drop_last() =~= s);
    assert(s.push(c).last() == c);
}

/// Escapes a string for use in markup text or attribute values.
pub fn escape_xml(s: &str) -> (r: String)
    ensures
        r@ == esc(s@),
{
    let len = s.unicode_len();
    let mut r = String::new();
    let mut i: usize = 0;
    proof {
        assert(s@.take(0) =~= Seq::<char>::empty());
    }
    while i < len
        invariant
            0 <= i <= len,
            len == s@.len(),
            r@ == esc(s@.take(i as int)),
        decreases len - i,
    {
        let c = s.get_char(i);
        proof {
            assert(s@.take(i + 1) =~= s@.take(i as int).push(c));
            lemma_esc_push(s@.take(i as int), c);
        }
        if c == '&' {
            r.append("&amp;");
        } else if c == '<' {
            r.append("&lt;");
        } else if c == '>' {
            r.append("&gt;");
        } else if c == '\'' {
            r.append("&apos;");
        } else if c == '"' {
            r.append("&quot;");
        } else {
            let piece = s.substring_char(i, i + 1);
            proof {
                assert(piece@ =~= seq![c]);
            }
            r.append(piece);
        }
        i = i + 1;
    }
    proof {
        assert(s@.take(len as int) == s@);
    }
    r
}

/// The feed entry for one library: identifier, title, update timestamp and
/// the subsection link into the library's categories.
pub open spec fn library_entry_xml(id: Seq<char>, name: Seq<char>, updated: Seq<char>) -> Seq<
    char,
> {
    "<entry><id>"@ + esc(id) + "</id><title>"@ + esc(name) + "</title><updated>"@ + esc(updated)
        + "</updated><link rel=\"subsection\" type=\"application/atom+xml;profile=opds-catalog\" href=\"/opds/libraries/"@
        + esc(id) + "?categories=true\"/></entry>"@
}

/// Whether `e` is the feed entry of `lib`, stamped with some timestamp.
pub open spec fn is_library_entry(e: Seq<char>, lib: Library) -> bool {
    exists|ts: Seq<char>| e == library_entry_xml(lib.id@, lib.name@, ts)
}

/// Relies on `chrono::Utc::now` and its RFC 3339 rendering; the result
/// depends on the clock, so nothing is assumed about it.
#[verifier::external_body]
fn now_rfc3339() -> String {
    chrono::Utc::now().to_rfc3339()
}

/// Builds the feed entries the engine is responsible for.
pub struct OpdsBuilder;

impl OpdsBuilder {
    /// One library entry with the given update timestamp.
    pub fn build_library_entry_at(library: &Library, updated: &str) -> (r: String)
        ensures
            r@ == library_entry_xml(library.id@, library.name@, updated@),
    {
        let mut r = String::from_str("<entry><id>");
        let id_esc = escape_xml(library.id.as_str());
        r.append(id_esc.as_str());
        r.append("</id><title>");
        let name_esc = escape_xml(library.name.as_str());
        r.append(name_esc.as_str());
        r.append("</title><updated>");
        let updated_esc = escape_xml(updated);
        r.append(updated_esc.as_str());
        r.append(
            "</updated><link rel=\"subsection\" type=\"application/atom+xml;profile=opds-catalog\" href=\"/opds/libraries/",
        );
        r.append(id_esc.as_str());
        r.append("?categories=true\"/></entry>");
        r
    }

    /// One library entry, stamped with the current time.
    pub fn build_library_entry(library: &Library) -> (r: String)
        ensures
            is_library_entry(r@, *library),
    {
        let now = now_rfc3339();
        let r = Self::build_library_entry_at(library, now.as_str());
        proof {
            assert(r@ == library_entry_xml(library.id@, library.name@, now@));
        }
        r
    }

    /// One entry per library, in input order, each stamped with the current
    /// time.
    pub fn build_library_entry_list(libraries: &Vec<Library>) -> (r: Vec<String>)
        ensures
            r@.len() == libraries@.len(),
            forall|k: int|
                0 <= k < r@.len() ==> is_library_entry((#[trigger] r@[k])@, libraries@[k]),
    {
        let mut r: Vec<String> = Vec::new();
        let mut i: usize = 0;
        while i < libraries.len()
            invariant
                0 <= i <= libraries@.len(),
                r@.len() == i,
                forall|k: int|
                    0 <= k < i ==> is_library_entry((#[trigger] r@[k])@, libraries@[k]),
            decreases libraries@.len() - i,
        {
            let entry = Self::build_library_entry(&libraries[i]);
            let ghost old_r = r@;
            r.push(entry);
            proof {
                assert forall|k: int|
                    0 <= k < i + 1 implies is_library_entry(
                    (#[trigger] r@[k])@,
                    libraries@[k],
                ) by {
                    if k < i {
                        assert(r@[k] == old_r[k]);
                    } else {
                        assert(r@[k] == entry);
                    }
                }
            }
            i = i + 1;
        }
        r
    }
}

/// The acquisition media type served for an e-book format tag.
pub open spec fn mime_for_format(format: Option<String>) -> Seq<char> {
    match format {
        Some(f) => {
            if f@ == "audiobook"@ {
                "audio/mpeg"@
            } else if f@ == "epub"@ {
                "application/epub+zip"@
            } else if f@ == "pdf"@ {
                "application/pdf"@
            } else if f@ == "mobi"@ {
                "application/x-mobipocket-ebook"@
            } else {
                "application/octet-stream"@
            }
        },
        None => "application/octet-stream"@,
    }
}

/// Picks the acquisition media type for an item's format tag.
pub fn mime_type_for(format: &Option<String>) -> (r: String)
    ensures
        r@ == mime_for_format(*format),
{
    match format {
        Some(f) => {
            if str_eq_str(f.as_str(), "audiobook") {
                String::from_str("audio/mpeg")
            } else if str_eq_str(f.as_str(), "epub") {
                String::from_str("application/epub+zip")
            } else if str_eq_str(f.as_str(), "pdf") {
                String::from_str("application/pdf")
            } else if str_eq_str(f.as_str(), "mobi") {
                String::from_str("application/x-mobipocket-ebook")
            } else {
                String::from_str("application/octet-stream")
            }
        },
        None => String::from_str("application/octet-stream"),
    }
}

} // verus!

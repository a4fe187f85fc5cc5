//! The catalog data model: raw upstream records, the normalized public item
//! shape, libraries and users.

use vstd::prelude::*;

verus! {

/// A configured user of this catalog front-end.
#[derive(Debug, Clone, PartialEq)]
pub struct InternalUser {
    pub name: String,
    pub api_key: String,
    pub password: Option<String>,
}

/// A library as shown to catalog clients.
#[derive(Debug, Clone, PartialEq)]
pub struct Library {
    pub id: String,
    pub name: String,
    pub icon: Option<String>,
}

/// One author or narrator name.
#[derive(Debug, Clone, PartialEq)]
pub struct Author {
    pub name: String,
}

/// The normalized, public-facing shape of one catalog item.
#[derive(Debug, Clone, PartialEq)]
pub struct LibraryItem {
    pub id: String,
    pub title: Option<String>,
    pub subtitle: Option<String>,
    pub description: Option<String>,
    pub genres: Vec<String>,
    pub tags: Vec<String>,
    pub publisher: Option<String>,
    pub isbn: Option<String>,
    pub language: Option<String>,
    pub published_year: Option<String>,
    pub authors: Vec<Author>,
    pub narrators: Vec<Author>,
    pub series: Vec<String>,
    pub format: Option<String>,
}

/// The four categorical dimensions a catalog can be browsed by.
#[derive(Debug, Clone, Copy, PartialEq, Eq, Structural)]
pub enum ItemType {
    Authors,
    Narrators,
    Genres,
    Series,
}

impl ItemType {
    /// The query-string value that names this facet.
    pub open spec fn text_spec(&self) -> Seq<char> {
        match self {
            ItemType::Authors => "authors"@,
            ItemType::Narrators => "narrators"@,
            ItemType::Genres => "genres"@,
            ItemType::Series => "series"@,
        }
    }

    /// Renders the facet as its query-string value.
    pub fn as_text(&self) -> (r: String)
        ensures
            r@ == self.text_spec(),
    {
        match self {
            ItemType::Authors => String::from_str("authors"),
            ItemType::Narrators => String::from_str("narrators"),
            ItemType::Genres => String::from_str("genres"),
            ItemType::Series => String::from_str("series"),
        }
    }
}

/// An authenticated user, as the request handlers carry it.
pub struct AuthUser(pub InternalUser);

// Shapes of the raw upstream responses.

/// The upstream list-of-libraries response.
#[derive(Debug, Clone)]
pub struct AbsLibrariesResponse {
    pub libraries: Vec<AbsLibrary>,
}

/// One library record as the upstream service returns it.
#[derive(Debug, Clone, PartialEq)]
pub struct AbsLibrary {
    pub id: String,
    pub name: String,
    pub icon: Option<String>,
}

/// The upstream list-of-items response for one library.
#[derive(Debug, Clone)]
pub struct AbsItemsResponse {
    pub results: Vec<AbsItemResult>,
}

/// One raw catalog item: an identifier plus its media record.
#[derive(Debug, Clone)]
pub struct AbsItemResult {
    pub id: String,
    pub media: AbsMedia,
}

/// The media part of a raw catalog item.
#[derive(Debug, Clone)]
pub struct AbsMedia {
    pub metadata: AbsMetadata,
    pub ebook_format: Option<String>,
}

/// The nested metadata of a raw catalog item. Author, narrator and series
/// names arrive as single comma-delimited strings.
#[derive(Debug, Clone)]
pub struct AbsMetadata {
    pub title: Option<String>,
    pub subtitle: Option<String>,
    pub description: Option<String>,
    pub genres: Option<Vec<String>>,
    pub tags: Option<Vec<String>>,
    pub publisher: Option<String>,
    pub isbn: Option<String>,
    pub language: Option<String>,
    pub published_year: Option<String>,
    pub author_name: Option<String>,
    pub narrator_name: Option<String>,
    pub series_name: Option<String>,
}

/// The upstream login response.
#[derive(Debug, Clone)]
pub struct AbsLoginResponse {
    pub user: AbsUserResponse,
}

/// The user part of the upstream login response.
#[derive(Debug, Clone)]
pub struct AbsUserResponse {
    pub username: String,
    pub access_token: String,
}

/// Clones an optional string; the clone holds the same value.
pub(crate) fn clone_opt_string(o: &Option<String>) -> (r: Option<String>)
    ensures
        r == *o,
{
    match o {
        Some(s) => Some(s.clone()),
        None => None,
    }
}

/// Clones a vector of strings element by element.
pub(crate) fn clone_string_vec(v: &Vec<String>) -> (r: Vec<String>)
    ensures
        r@ == v@,
{
    let mut r: Vec<String> = Vec::new();
    let mut i: usize = 0;
    while i < v.len()
        invariant
            0 <= i <= v@.len(),
            r@ == v@.take(i as int),
        decreases v@.len() - i,
    {
        r.push(v[i].clone());
        proof {
            assert(v@.take(i + 1) == v@.take(i as int).push(v@[i as int]));
        }
        i = i + 1;
    }
    proof {
        assert(v@.take(v@.len() as int) == v@);
    }
    r
}

impl Library {
    /// Converts an upstream library record into the public shape.
    pub fn from_abs(l: &AbsLibrary) -> (r: Library)
        ensures
            r.id@ == l.id@,
            r.name@ == l.name@,
            r.icon == l.icon,
    {
        Library { id: l.id.clone(), name: l.name.clone(), icon: clone_opt_string(&l.icon) }
    }
}

} // verus!

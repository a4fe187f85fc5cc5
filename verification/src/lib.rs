//! Catalog query engine for an OPDS front-end to a remote media library.
//!
//! The engine takes a raw, unfiltered collection of catalog items together
//! with a user query and produces filtered, paginated, normalized pages of
//! items as well as distinct-value category listings, with contracts that pin
//! the result down for every input.

pub mod categorize;
pub mod config;
pub mod feed;
pub mod filter;
pub mod matcher;
pub mod models;
pub mod normalize;
pub mod paginate;
pub mod query;
pub mod text;
pub mod unicode;

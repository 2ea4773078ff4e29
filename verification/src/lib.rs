//! Management of named, versioned dependency records: reconciliation of
//! user-supplied name/version/feature requests against package-index
//! metadata, a persistent keyed record store with a JSON on-disk form, and
//! rendering of records as manifest lines.

pub mod codec;
pub mod crates;
pub mod error;
pub mod parser;
pub mod storage;
pub mod toml;

//! Tools for aligning and sorting Wikidata dump streams: parsing of
//! comma-separated id files, entity identifiers, revision selection from
//! XML page dumps, and the alignment of sorted entity streams.

pub mod align;
pub mod compress;
pub mod date_index;
pub mod entity;
pub mod json;
pub mod number;
pub mod revisions;
pub mod text;

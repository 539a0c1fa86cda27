//! Placeholder audio metadata for a desktop shell.
//!
//! Nothing here opens a file: a record is derived from the text of a path
//! alone. `path` says what the final component of a path is and finds it;
//! `metadata` builds the record around it.

pub mod metadata;
pub mod path;

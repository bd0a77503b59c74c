//! Extraction and rewriting of `@font-face` rules from a web font service's
//! stylesheet: splitting the sheet into per-subset records, deriving
//! deterministic local filenames, and regenerating CSS that points at the
//! local copies.

pub mod fonts;
pub mod laws;
pub mod text;

//! Attribution of source lines to programming languages across
//! version-controlled repositories.
//!
//! The library holds the logic of a repository scanner: a bounded-depth
//! walk over a directory tree that recognizes repository roots, a
//! per-repository pass that attributes each tracked file's lines to a set
//! of authors and classifies the file's language by extension, a
//! commutative and associative merge of the per-repository counts, and the
//! selection of the largest counts for a chart. Reading the filesystem and
//! invoking the version-control backend stay outside; the walk works on a
//! tree of plain values and the scanner on the backend's recorded answers.

pub mod catalog;
pub mod chart;
pub mod mapping;
pub mod scanner;
pub mod text;
pub mod walker;

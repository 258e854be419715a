//! Symbol-level dependency analysis for ECMAScript-style module trees.
//!
//! The crate turns per-module ASTs into `SymbolDependency` records, links
//! them into a depend-on graph and its used-by inverse, attaches i18n-key
//! and route overlays, and projects the result either into a portable
//! document or into relational rows. All file, database and serialization
//! I/O stays outside; the analysis itself is verified.

pub mod ast;
pub mod bytes;
pub mod model;
pub mod extractor;
pub mod graph;
pub mod i18n;
pub mod path_resolver;
pub mod pipeline;
pub mod portable;
pub mod project;
pub mod route;
pub mod scheduler;
pub mod used_by;

use vstd::prelude::*;

verus! {

/// A persistence back-end for the relational projection. The analysis
/// itself never performs I/O; an implementation of this trait (supplied by
/// the embedding program) opens the store and lays out the schema before
/// the computed rows are written into it.
pub trait Database: Sized {
    fn open(path: &str) -> Result<Self, ()>;

    fn create_tables(&mut self) -> Result<(), ()>;
}

} // verus!

//! Module resolution and program assembly for an embedded script engine.
//!
//! Starting from one entry file, the import walk discovers every module that
//! can be reached through import statements (or, in bundles, through
//! external-dependency comments), consulting in-memory virtual files before
//! the filesystem. The generator then renders the modules into one program
//! text that registers them and runs the entries.
use vstd::prelude::*;

pub mod text;
pub mod syntax;
pub mod vfs;
pub mod paths;
pub mod walker;
pub mod generate;
pub mod data;
pub mod codec;
pub mod fs_options;
pub mod runtime;
pub mod digest;
pub mod listing;
pub mod random;

verus! {

} // verus!

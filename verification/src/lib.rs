//! Verified core of a language server for lispBM: builtin extension files,
//! entry files, doc-comment extraction from definitions, and the symbol index.

pub mod text;
pub mod builtin;
pub mod map;
pub mod definitions;
pub mod paths;
pub mod entry;
pub mod state;

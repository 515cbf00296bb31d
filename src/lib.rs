//! The transformation core of a file-tree site builder: an in-memory file
//! tree with glob-scoped transforms and fuzzy lookup, a snippet and
//! reference placeholder engine, and the decisions of the build pipeline.

/// Pipeline configuration.
pub mod config;
/// Failures and their mathematical view.
pub mod error;
/// Compiled glob sets.
pub mod glob;
/// The decisions of the build stages.
pub mod pipeline;
/// Reference placeholders `$%{a.b.0}` and their resolution.
pub mod refs;
/// Expansion placeholders `$%%{[path:]name(args)}`.
pub mod snippets;
/// Small grammars: argument lists, lookup paths, front matter.
pub mod syntax;
/// Byte-string helpers.
pub mod text;
/// YAML-like parameter values.
pub mod value;
/// The in-memory file tree.
pub mod vfs;

//! Purging of stale content beneath a root directory.
//!
//! Files that have not been modified for a configurable number of minutes are
//! removed; a directory is removed once everything beneath it has been removed.
//! The library holds the decisions only. It never touches a filesystem itself:
//! the [`engine::Engine`] says which operation it wants performed next and is
//! told how that operation went.  The [`tree`] module holds an in-memory
//! directory tree, and [`purge::purge`] runs the engine against such a tree.
pub mod age;
pub mod config;
pub mod status;
pub mod engine;
pub mod tree;
pub mod purge;
pub mod laws;

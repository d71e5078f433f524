//! A single-writer, file-backed store for small text articles.
//!
//! The store keeps one table of records (content, timestamps, visibility) in
//! memory and persists it as one textual blob, re-read whenever the cache is
//! marked stale.  Everything the blob's format, the schema migration and the
//! table's operations promise is stated in contracts and proved; the disk,
//! the clock behind [`clock::now_timestamp`] and the process's locking
//! discipline stay with the binary that owns them.

pub mod ansi;
pub mod auth;
pub mod bootstrap;
pub mod chars;
pub mod cli;
pub mod clock;
pub mod document;
pub mod hosting;
pub mod json;
pub mod listing;
pub mod migration;
pub mod model;
pub mod numeral;
pub mod persistence;
pub mod timestamp;

//! Fuzzy filtering and selection coordination for a browsable music library
//! (artists, albums, tracks) and a flat play queue.
//!
//! - [`matching`]: the match oracle and the best match of one entry.
//! - [`filter`]: the filter pass that ranks the entries of a list.
//! - [`search`]: the search state of a list and its staleness test.
//! - [`selection`]: cursors, and where they go when a list changes.
//! - [`tree`]: the flattened track view of an artist, and album folding.
//! - [`library`], [`queue`]: the two lists with their searches and cursors.
//! - [`engine`]: the session, and how commands and key presses change it.
//! - [`config`]: key bindings, theme and the configuration file.
//! - [`model`], [`update`], [`text`]: the data, the commands, and strings.

pub mod config;
pub mod engine;
pub mod filter;
pub mod library;
pub mod matching;
pub mod model;
pub mod queue;
pub mod search;
pub mod selection;
pub mod text;
pub mod tree;
pub mod update;

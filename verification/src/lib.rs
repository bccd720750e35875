//! Episode catalog and watch-progress cache for a library of video series.
//!
//! Filenames are classified into structured episode identities, persisted in
//! an embedded SQLite store alongside watch progress, and queried for
//! "current/next episode" relationships including season rollover and
//! non-numbered ("special") episodes.

pub mod builder;
pub mod catalog;
pub mod classify;
pub mod episode;
pub mod indexer;
pub mod picker;
pub mod setup;
pub mod store;
pub mod text;
pub mod tracker;

//! A verified core for a folder-organizing utility: a relational catalog of
//! files, tags and rules, an extension-driven rule engine, collision-safe
//! relocation naming, and the filtering step of a folder watcher.
pub mod text;
pub mod utils;
pub mod catalog;
pub mod rules;
pub mod seed;
pub mod timestamp;
pub mod organize;
pub mod watch;
pub mod search;

//! Watching a project for changes.

pub mod file_watcher;

//! Which file-system changes trigger a rebuild.

pub mod file_watcher;

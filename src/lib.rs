//! Port inventory: resolving listening sockets to their owning processes,
//! terminating those processes safely, and watching a set of ports for change.

pub mod text;
pub mod host;
pub mod scanner;
pub mod process;
pub mod watch;
pub mod format;
pub mod config;
pub mod cli;
pub mod listing;

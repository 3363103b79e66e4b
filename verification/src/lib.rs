//! Keeping the files below a home directory and their copies in a
//! repository in step.
//!
//! The user names what is tracked: literal paths and globs, relative to
//! both roots. Resolution turns that into entries, one for each relative
//! path, with the status of its two copies; reconciliation shows them,
//! compares them, or copies them one way or the other.
//!
//! The library looks at no file and runs no command. Its caller observes
//! the file system and records what it saw in a [`snapshot::Snapshot`];
//! [`index::Indexer`] resolves against that record. To synchronise,
//! [`handler::SyncHandler`] tells its caller step by step what to do next.

pub mod cli;
pub mod cmd;
pub mod color;
pub mod data;
pub mod failure;
pub mod files;
pub mod handler;
pub mod index;
pub mod logging;
pub mod mocks;
pub mod path;
pub mod pattern;
pub mod prompt;
pub mod snapshot;
pub mod text;
pub mod utils;

//! What is done with the entries: showing them, comparing them, copying
//! them.

pub mod diff;
pub mod status;
pub mod sync;
pub mod types;

pub use crate::pattern::{Only, Pattern};
pub use diff::DiffHandler;
pub use status::StatusHandler;
pub use sync::{SyncHandler, SyncOptions, Target};
pub use types::DiffOptions;

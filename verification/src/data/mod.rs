//! The data of a run: what the user tracks, and what became of each path.

pub mod entry;
pub mod file;
pub mod item;

pub use entry::{Entry, EntryView, Status, StatusView};
pub use file::{Dotfile, RawDotfile};
pub use item::{Item, ItemView, Value};

//! The music tree, the names it is keyed by, and the reports of the disk
//! that it is built from.

pub mod config;
pub mod disk;
pub mod laws;
pub mod name;
pub mod node;
pub mod order;
pub mod utils;

pub use config::Config;
pub use disk::{FailureKind, IoError, Item, Kind, Listing};
pub use node::{Entry, Node};
pub use utils::{populate, update_art};

//! Core of a feed aggregator: providers fetch heterogeneous sources, the
//! orchestrator merges their results into one versioned snapshot, the state
//! store publishes it atomically, and the diff engine pushes what is new
//! since the previous round to live subscribers.

mod text;
pub mod table;
pub mod entry;
pub mod hashing;
pub mod feed;
pub mod config;
pub mod providers;
pub mod interfaces;
pub mod orchestrator;
pub mod update;
pub mod state;

pub use table::Table;
pub use entry::Entry;
pub use feed::{Feed, Feeds};
pub use config::{Config, ConfigFeedEntry};

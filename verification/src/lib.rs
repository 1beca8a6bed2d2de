//! A persistent time-tracking engine.
//!
//! The engine records discrete intervals of elapsed work time ("blocks"),
//! each optionally tagged, in a versioned store so that a desktop session
//! can resume across restarts.  At most one block is ever running at a
//! time; the store enforces that invariant, and the history layer turns
//! raw blocks into day/week summaries and goal-progress figures.
//!
//! A timestamp is an instant (seconds from the Unix epoch, UTC) together
//! with the local zone's offset at that moment: elapsed time comes from
//! the instants, calendar bucketing from the local civil time they read
//! as, and days are counted in whole civil days from 1970-01-01.

pub mod blocks;
pub mod codec;
pub mod database;
pub mod error;
pub mod fmt;
pub mod history;
pub mod migrations;
pub mod stopwatch;
pub mod tags;
pub mod time;

pub use blocks::Block;
pub use blocks::Blocks;
pub use database::Database;
pub use error::StoreError;
pub use fmt::fmt_duration;
pub use history::DayBlock;
pub use history::GoalState;
pub use history::History;
pub use history::Weekday;
pub use stopwatch::StopWatch;
pub use tags::Tag;
pub use tags::Tags;

//! A personal journaling library: timestamped, tagged text entries held in an
//! in-memory journal, with a filtering and matching engine (free-text,
//! fuzzy-subsequence, tag-set and date-range predicates), deterministic
//! rendering, and a persistence codec with an atomic-save plan.

pub mod clock;
pub mod commands;
pub mod config;
pub mod codec;
pub mod date;
pub mod entry;
pub mod error;
pub mod escape;
pub mod journal;
pub mod matching;
pub mod num;
pub mod paths;
pub mod persist;
pub mod render;
pub mod tag;
pub mod text;

pub use tag::Tag;

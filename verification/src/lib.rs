//! Line-oriented substring search over text held in memory, with an
//! exact and a case-folding mode, and the run configuration that selects
//! between them.

pub mod config;
pub mod encoding;
pub mod fold;
pub mod laws;
pub mod lines;
pub mod matching;
pub mod search;
pub mod text;

pub use config::{Config, ConfigError};
pub use search::{run, search, search_case_insensitive};

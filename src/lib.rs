//! Finds the lines of a text that hold a query, with or without regard to
//! letter case, and builds the configuration of a search from the program's
//! arguments and environment.

pub mod config;
pub mod laws;
pub mod lines;
pub mod search;
pub mod text;

pub use config::{Config, ConfigError};
pub use search::{search, search_case_insensitive};
pub use text::contains;

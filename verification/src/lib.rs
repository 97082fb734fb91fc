//! A line-oriented substring search library.
//!
//! Splits a text into lines, returns the lines that contain a pattern,
//! either exactly or up to lowercase folding, and resolves the run
//! configuration (pattern, file path, case sensitivity) from the
//! invocation arguments and the environment.

pub mod config;
pub mod matcher;
pub mod text;

pub use config::Config;
pub use config::ConfigError;
pub use config::search_with_config;
pub use matcher::search_case_insensitive;
pub use matcher::search_case_sensitive;
pub use text::contains_sub;
pub use text::split_lines;

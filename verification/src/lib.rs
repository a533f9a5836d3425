//! A recursive text search: which directory entries are looked at, which lines of a
//! file hold the query, and what is reported for them.
//!
//! The library decides and formats; reading directories and files and printing
//! the report is left to the caller.

pub mod config;
pub mod filter;
pub mod report;
pub mod search;
pub mod text;
pub mod walk;

pub use config::Config;
pub use search::search;

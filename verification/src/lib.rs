//! Parsing of `winget upgrade` output and the decisions of the update monitor.
pub mod error;
pub mod monitor;
pub mod parser;
pub mod process;
pub mod text;

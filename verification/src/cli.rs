//! Command-line configuration.
pub mod cmd;

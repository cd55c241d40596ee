//! What the commands share: the configuration and the command line.

pub mod color;
pub mod config;
pub mod parse;

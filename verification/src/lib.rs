//! A small template manager's configuration engine: a tokenizer, a parser, an
//! ordered document model and a serializer for a restricted TOML dialect,
//! together with the workspace rules that are built on top of it.

pub mod commands;
pub mod dirs;
pub mod text;
pub mod toml;
pub mod utils;

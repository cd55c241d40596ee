//! The rules of the commands, apart from what they read and write.

pub mod apply;
pub mod create;
pub mod init;
pub mod list;
pub mod workspace;

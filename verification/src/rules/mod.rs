//! Rules that drive the command line and project initialization.
pub mod base;
pub mod init;

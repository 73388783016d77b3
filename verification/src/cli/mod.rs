//! The command line: what an invocation asks for and the decisions that
//! the commands make.
pub mod version;
pub mod help;
pub mod invocation;
pub mod project;
pub mod doctor;
pub mod init;

//! The options of `nox init`, as the command line fills them.
pub use crate::init::config::Options;

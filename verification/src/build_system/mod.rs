//! Building a configured project: the saved build state, the commands
//! that compile and link each target, and Gradle invocations.
pub mod executor;
pub mod gradle;
pub mod state;

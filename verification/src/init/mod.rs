//! `nox init`: analyze a directory and generate the files of a Nox project.
pub mod config;
pub mod language;
pub mod templates;
pub mod project;
pub mod scanner;
pub mod layout;
pub mod error;
pub mod detect;
pub mod buildgen;
pub mod new;
pub mod flow;

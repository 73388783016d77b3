pub mod build_system;
pub mod cli;
pub mod domain;
pub mod init;
pub mod project;
pub mod text;
pub mod noml;
pub mod paths;
pub mod rules;
pub mod run;
pub mod task;
pub mod toolchain;

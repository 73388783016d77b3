pub mod error;
pub mod graph;
pub mod model;
pub mod output;

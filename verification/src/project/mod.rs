pub mod analyzer;
pub mod lexer;
pub mod parser;

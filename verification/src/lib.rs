pub mod config;
pub mod format;
pub mod lint;
pub mod parser;
pub mod text;
pub mod tree;

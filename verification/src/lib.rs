//! Compile-time template engine core: parses Jinja-style template source into
//! an abstract syntax tree and emits Rust rendering code for a host context
//! type, with template inheritance, macros, includes, conditionals, loops,
//! filters and precise whitespace control.
pub mod ast;
pub mod errors;
pub mod generator;
pub mod input;
pub mod parser;
pub mod state;
pub mod text;

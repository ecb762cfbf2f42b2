//! A command-line shell core: a quote- and operator-aware lexer, a
//! recursive-descent parser that builds a command tree, and the decisions of
//! the process-pipeline executor, each with a machine-checked contract.

pub mod chars;
pub mod lexer;
pub mod parser;
pub mod laws;
pub mod process;

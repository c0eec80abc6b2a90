//! Front end of a small dynamically typed scripting language: a scanner that
//! turns source text into tokens, a recursive-descent parser that builds an
//! expression tree, and a tree-walking evaluator, each with its contract.

pub mod text;
pub mod token;
pub mod error_reporter;
pub mod scanner;
pub mod grammar;
pub mod parser;
pub mod interpreter;
pub mod pipeline;

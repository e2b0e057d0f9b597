//! The front end and evaluator of a small expression-oriented language: a
//! scanner turning source text into tokens, a recursive-descent parser
//! building an abstract syntax tree of statements, and a tree-walking
//! evaluator reducing expressions to runtime values.
pub mod errors;
pub mod expressions;
pub mod interpreter;
pub mod numbers;
pub mod parser;
pub mod roundtrip;
pub mod scanner;
pub mod statement;
pub mod tokens;

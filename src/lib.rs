// An interpreter for a small expression language: source text is read into
// tokens (`lexer`), tokens into a syntax tree (`parser`, whose grammar is
// stated in `grammar`), and the tree is evaluated against a table of scopes
// (`evaluator`, `environment`, `object`).

pub mod ast;
pub mod environment;
pub mod evaluator;
pub mod grammar;
pub mod lexer;
pub mod object;
pub mod parser;
pub mod token;
pub mod utils;

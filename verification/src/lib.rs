//! A small interpreted scripting language: source text is tokenized, parsed
//! into an abstract syntax tree, and evaluated against a mutable variable
//! environment of integer-valued variables.
//!
//! The pipeline has three stages, each specified against a mathematical
//! model and verified:
//! - [`lexer`]: source text to a token sequence (total; always ends with an
//!   end-of-input token),
//! - [`parser`]: recursive descent over the token sequence, building the
//!   syntax tree; a parse function either recognizes its grammar form and
//!   consumes exactly the tokens that belong to it, or leaves the token
//!   sequence untouched,
//! - [`interpreter`]: a tree-walking evaluator over a flat environment,
//!   with a step budget so that every run terminates, and typed runtime
//!   errors instead of aborts.

pub mod env;
pub mod interpreter;
pub mod lexer;
pub mod parser;

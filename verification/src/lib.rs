//! The Tenda language: its scanner and parser, the closure analysis of its syntax trees,
//! the environments and stacks of its runtime, and the text operations it offers to programs.

pub mod source;
pub mod span;
pub mod token;
pub mod text;
pub mod scanner_error;
pub mod lexer_spec;
pub mod source_iter;
pub mod scanner;
pub mod lexer_laws;
pub mod value;
pub mod closures;
pub mod scope_tracker;
pub mod ast;
pub mod captures;
pub mod annotate;
pub mod runtime;
pub mod interpreter;
pub mod loader;
pub mod token_iter;
pub mod environment;
pub mod store;
pub mod reporting;
pub mod shape;
pub mod parser;
pub mod repl;
pub mod text_builtins;
pub mod date;


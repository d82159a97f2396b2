//! Core of an interactive command-line shell: a line editor over key events,
//! a tokenizer and variable expander, and the rules by which a parsed command
//! is dispatched and its environment overlay is applied and undone.

pub mod text;
pub mod vars;
pub mod expand;
pub mod buffer;
pub mod term;
pub mod lexer;
pub mod editor;
pub mod error;
pub mod token;
pub mod cmd;
pub mod env;
pub mod internals;
pub mod shell;

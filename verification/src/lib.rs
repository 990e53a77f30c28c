//! A small scripting language: source text is scanned into tokens, parsed into
//! statements and run against a flat variable store and a table of named
//! commands supplied by the host.
//!
//! The language has declarations, assignments, calls of commands, counted
//! loops and conditionals; its expressions are literals, names, comparisons
//! and the two logical operators. Everything a program does to the world
//! outside its variables it does through a command.

pub mod ast;
pub mod chars;
pub mod commands;
pub mod engine;
pub mod functions;
pub mod interpreter;
pub mod laws;
pub mod lexer;
pub mod parser;
pub mod spelling;
pub mod table;
pub mod token;

//! A small interactive shell: tokenizer, command model, and the decisions
//! behind running commands and completing words.

pub mod text;
pub mod order;
pub mod command;
pub mod grammar;
pub mod parser;
pub mod lookup;
pub mod run;
pub mod shell_helper;
pub mod grammar_laws;

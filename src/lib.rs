//! Front end of the Vesuvius language: positions and spans, tokens, the
//! tokenizer, the syntax tree, the parser and the diagnostics that both raise.

pub mod position;
pub mod text;
pub mod token;
pub mod exception;
pub mod lexer;
pub mod node;
pub mod parser;
pub mod diagnostic;
pub mod context;
pub mod object;
pub mod validator;
pub mod run;

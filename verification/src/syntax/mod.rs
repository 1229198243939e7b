//! The syntax of the language, as far as the engine reads it itself.

pub mod lexer;

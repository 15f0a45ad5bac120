//! A pull-based lexer for a small C-like language.

pub mod laws;
pub mod lexer;
pub mod model;
pub mod token;

pub use lexer::Lexer;
pub use token::{Token, TokenType};

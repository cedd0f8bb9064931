//! A character-level scanner for a small imperative language: keywords,
//! arithmetic and comparison operators, numbers, identifiers, quoted strings,
//! comments and significant newlines.
pub mod keyword;
pub mod laws;
pub mod lexer;
pub mod model;
pub mod token;

pub use keyword::Keyword;
pub use lexer::Lexer;
pub use token::{ScanError, Token};

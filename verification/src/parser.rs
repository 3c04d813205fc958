//! The lexical front end proper: token model, character reader, and the
//! pull-based lexer, plus the parsing context that consumes the tokens.

pub mod chars;
pub mod lexer;
pub mod model;
pub mod parser;
pub mod reader;
pub mod token;

//! Lexical front end for an indentation-sensitive language: a character
//! reader with cursor tracking, a symbol interner, composable diagnostics,
//! and a pull-based lexer that synthesizes end-of-line, indent and dedent
//! tokens from line structure.

pub mod error;
pub mod fb;
pub mod feedback;
pub mod intern;
pub mod parser;
pub mod source;

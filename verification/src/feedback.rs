//! Diagnostic values and source locations, as used by the lexer.

pub mod error;
pub mod loc;

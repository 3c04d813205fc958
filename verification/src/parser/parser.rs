//! The parsing context handed to the later parsing stage: the full token
//! sequence of one source unit.

use vstd::prelude::*;

use crate::parser::token::Token;

verus! {

/// Owns the scanned tokens of one source unit.
pub struct ParserContext {
    tokens: Vec<Token>,
}

impl ParserContext {
    pub closed spec fn token_seq(&self) -> Seq<Token> {
        self.tokens@
    }

    pub fn new(tokens: Vec<Token>) -> (c: ParserContext)
        ensures
            c.token_seq() == tokens@,
    {
        ParserContext { tokens }
    }
}

} // verus!

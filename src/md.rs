//! Markdown documents as token sequences.

use vstd::prelude::*;

use crate::event::{tokenize, tokens_of, Token};

pub mod writer;

verus! {

/// A Markdown source turned into tokens.
pub struct MdDocument {
    pub tokens: Vec<Token>,
}

impl MdDocument {
    /// Tokenizes `source`.
    pub fn from_string(source: &str) -> (r: MdDocument)
        ensures
            r.tokens@ == tokens_of(source@),
    {
        MdDocument { tokens: tokenize(source) }
    }

    /// A document of the given tokens.
    pub fn from_tokens(tokens: Vec<Token>) -> (r: MdDocument)
        ensures
            r.tokens@ == tokens@,
    {
        MdDocument { tokens }
    }
}

} // verus!

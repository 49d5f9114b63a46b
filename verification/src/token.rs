//! Lexical tokens, as far as the syntax tree carries them.

use vstd::prelude::*;

verus! {

/// A token of the source text: the characters it spans and where they start.
#[derive(Debug, PartialEq, Clone, Copy)]
pub struct Token<'a> {
    /// The characters of the token, as they stand in the source.
    pub text: &'a str,
    /// The byte offset of the token's first character in the source.
    pub offset: usize,
}

impl<'a> Token<'a> {
    /// Makes the token that spans `text` and starts at `offset`.
    pub fn new(text: &'a str, offset: usize) -> (token: Self)
        ensures
            token.text@ == text@,
            token.offset == offset,
    {
        Token { text, offset }
    }
}

} // verus!

use vstd::prelude::*;

verus! {

/// What a token is.
///
/// `Blank` stands for a run of whitespace: the scanner produces it and
/// [`crate::tokenize`] drops it, so it never appears in a token stream.
#[derive(Debug, PartialEq, Eq, Structural, PartialOrd, Ord, Clone, Copy)]
pub enum TokenKind {
    Plus,
    Minus,
    Integer(i128),
    Blank,
    EndOfInput,
}

impl TokenKind {
    /// Whether the tokenizer leaves this token out of its output.
    pub fn should_ignore(&self) -> (r: bool)
        ensures
            r == (*self is Blank),
    {
        match self {
            TokenKind::Blank => true,
            _ => false,
        }
    }
}

/// One lexical token.
#[derive(Debug, PartialEq, Eq, Structural, PartialOrd, Ord, Clone, Copy)]
pub struct Token {
    pub kind: TokenKind,
}

} // verus!

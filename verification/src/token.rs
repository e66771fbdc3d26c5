//! The lexical categories of the language and the span-referencing token
//! record that the scanner produces and the parser consumes.

use vstd::prelude::*;

verus! {

/// The closed set of lexical categories.
#[derive(Clone, Copy, Debug, PartialEq, Eq, Structural)]
pub enum TokenType {
    Arrow,
    BraceLeft,
    BraceRight,
    Error,
    Identifier,
    Integer,
    Minus,
    ParenLeft,
    ParenRight,
    Plus,
    Return,
    Semicolon,
}

/// A classified lexical unit. It owns no text: the text is recovered by
/// slicing the original source buffer with `start` and `length`.
#[derive(Clone, Copy, Debug, PartialEq, Eq, Structural)]
pub struct Token {
    pub token_type: TokenType,
    pub line: usize,
    pub start: usize,
    pub length: usize,
}

} // verus!

//! The lexer-facing surface: the traits a generated lexer implements and the
//! lexeme values it hands back. The engine in [`crate::automata`] is what
//! drives a lexer's rule tables; these items are the contract between the two.

use vstd::prelude::*;

verus! {

/// A token kind recognised by some lexer. Implemented by the enum of lexeme
/// kinds a grammar declares; `lexer` hands back the lexer that produces it,
/// an implementor of [`Lexer`] with this type as its output.
pub trait Token {
    type Lexer;

    fn lexer() -> Self::Lexer;
}

/// One matched lexeme: the span of input it covers and the token it carries.
#[derive(Debug, PartialEq, Eq)]
pub struct Lexeme<'a, I: Eq, T: Token> {
    pub span: &'a [I],
    pub token: T,
}

/// A lexer: consumes a slice of input symbols and yields the lexeme matched
/// at its front, or the offset at which no lexeme could be matched.
pub trait Lexer: Default {
    type Input: Eq;

    type Output: Token;

    fn lex<'a>(&mut self, input: &'a [Self::Input]) -> Result<
        Lexeme<'a, Self::Input, Self::Output>,
        usize,
    >;
}

} // verus!

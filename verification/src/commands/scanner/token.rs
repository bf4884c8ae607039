//! The tokens of the older command-line form, which knows fewer operators than
//! [`crate::syntax::scanner::token`].
use vstd::prelude::*;

verus! {

/// The kind of a token.
#[derive(Clone, Copy, Debug, PartialEq, Eq, Structural)]
pub enum TokenType {
    /// Command names, arguments and other unquoted text.
    Word,
    /// `|`
    Pipe,
    /// `;`
    Semicolon,
    /// `<`
    RedirectIn,
    /// `>`
    RedirectOut,
    /// `>>`
    RedirectAppend,
    /// The end of the input.
    Eof,
}

/// A token: its kind and the text it was read from.
#[derive(Debug)]
pub struct Token {
    pub token_type: TokenType,
    pub lexeme: String,
}

impl View for Token {
    type V = (TokenType, Seq<char>);

    open spec fn view(&self) -> (TokenType, Seq<char>) {
        (self.token_type, self.lexeme@)
    }
}

} // verus!

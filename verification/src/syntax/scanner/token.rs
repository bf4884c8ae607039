//! The tokens that the lexer produces from a command line.
use vstd::prelude::*;

verus! {

/// The kind of a token.
#[derive(Clone, Copy, Debug, PartialEq, Eq, Structural)]
pub enum TokenType {
    /// Command names, arguments and any other unquoted or quoted text.
    Word,
    /// `|`
    Pipe,
    /// `;`
    Semicolon,
    /// `&`
    Ampersand,
    /// `&&`
    And,
    /// `<`
    RedirectIn,
    /// `>` or `1>`
    RedirectOut,
    /// `>>` or `1>>`
    RedirectAppend,
    /// `2>`
    RedirectStdErr,
    /// `2>>`
    RedirectStdErrAppend,
    /// The end of the input; always the last token.
    Eof,
}

/// One token: its kind and the text it stands for.
#[derive(Debug)]
pub struct Token {
    pub token_type: TokenType,
    pub lexeme: String,
}

impl View for Token {
    type V = (TokenType, Seq<char>);

    open spec fn view(&self) -> (TokenType, Seq<char>) {
        (self.token_type, self.lexeme@)
    }
}

/// The view of a sequence of tokens.
pub open spec fn tokens_view(tokens: Seq<Token>) -> Seq<(TokenType, Seq<char>)> {
    tokens.map_values(|t: Token| t@)
}

} // verus!

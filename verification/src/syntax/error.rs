//! Errors found while reading a command line.
use vstd::prelude::*;

verus! {

/// An error found while scanning or parsing a command line.
#[derive(Debug)]
pub enum SyntaxError {
    Lexer(String),
    Parser(String),
}

impl SyntaxError {
    /// The text shown to the user for this error.
    pub fn message(&self) -> (text: String)
        ensures
            text@ == match self {
                SyntaxError::Lexer(m) => m@,
                SyntaxError::Parser(m) => "Error parsing command: "@ + m@,
            },
    {
        match self {
            SyntaxError::Lexer(m) => m.clone(),
            SyntaxError::Parser(m) => {
                let mut text = String::from_str("Error parsing command: ");
                text.append(m.as_str());
                text
            },
        }
    }
}

} // verus!

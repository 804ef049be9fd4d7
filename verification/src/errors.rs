//! The error taxonomy of the line compiler.

use vstd::prelude::*;
use vstd::string::*;

verus! {

/// Everything that can go wrong while compiling one input line.
///
/// `Tokenization` and `Expansion` are reserved variants: the tokenizer's only
/// failure mode is an unterminated quote (`Quote`), and expansion never fails
/// (undefined variables expand to the empty string). Both are kept as
/// distinct variants for forward compatibility.
#[derive(Debug, Clone, PartialEq, Eq)]
pub enum CliError {
    Tokenization(String),
    Quote(String),
    Expansion(String),
    EmptyCommand,
}

impl CliError {
    /// A human-readable description, in the shape `kind: detail`.
    pub fn message(&self) -> (r: String)
        ensures
            r@ == match self {
                CliError::Tokenization(m) => "tokenization error: "@ + m@,
                CliError::Quote(m) => "quote error: "@ + m@,
                CliError::Expansion(m) => "expansion error: "@ + m@,
                CliError::EmptyCommand => "empty command"@,
            },
    {
        match self {
            CliError::Tokenization(m) => {
                let mut r = String::from_str("tokenization error: ");
                r.append(m.as_str());
                r
            },
            CliError::Quote(m) => {
                let mut r = String::from_str("quote error: ");
                r.append(m.as_str());
                r
            },
            CliError::Expansion(m) => {
                let mut r = String::from_str("expansion error: ");
                r.append(m.as_str());
                r
            },
            CliError::EmptyCommand => String::from_str("empty command"),
        }
    }
}

} // verus!

//! Lexical tokens after quote classification.

use vstd::prelude::*;

verus! {

/// How a token was quoted, which decides whether the expander touches it.
///
/// `Raw` is single-quoted text (always literal), `Weak` is double-quoted
/// text (variables expand, delimiters stripped), `Full` is unquoted text
/// (variables expand, escapes resolved).
#[derive(Debug, Clone, Copy, PartialEq, Eq, Structural)]
pub enum TokenMode {
    Raw,
    Weak,
    Full,
}

/// One classified token: the delimiter-stripped text and its quoting mode.
#[derive(Debug, Clone, PartialEq, Eq)]
pub struct Token {
    pub value: String,
    pub mode: TokenMode,
}

impl Token {
    pub fn new(value: String, mode: TokenMode) -> (r: Self)
        ensures
            r.value == value,
            r.mode == mode,
    {
        Token { value, mode }
    }
}

} // verus!

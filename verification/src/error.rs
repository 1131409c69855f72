//! The error that a failed parse reports.
//!
//! A parse fails for one of three reasons: a token that the parser cannot
//! take in its current state, a rule that is malformed, or an input that ends
//! too early. Every failure ends the parse, and its message is all it carries.

use crate::token::{Token, TokenView};
use vstd::prelude::*;

verus! {

/// A failed parse, with the message that describes it.
#[derive(Debug, PartialEq, Eq)]
pub struct Error {
    pub message: String,
}

impl View for Error {
    type V = Seq<char>;

    open spec fn view(&self) -> Seq<char> {
        self.message@
    }
}

/// The message for a token that the parser cannot take in its current state:
/// it ends with the token as its source printed it.
pub open spec fn unexpected_token_message(token: TokenView) -> Seq<char> {
    "Unexpected token "@ + token.text()
}

/// The message for a rule that has the placeholder identifier on a side
/// where its relation does not allow it.
pub open spec fn misplaced_trap_message() -> Seq<char> {
    "Misplaced trap identifier _"@
}

/// The message for a rule list that ends inside a rule.
pub open spec fn end_of_rules_message() -> Seq<char> {
    "Unexpected end of rules block in bidi!"@
}

/// The message for a header that ends before its rule block.
pub open spec fn end_of_header_message() -> Seq<char> {
    "Parse error at end of bidi!"@
}

impl Error {
    /// An error with the given message.
    pub fn new(msg: &str) -> (error: Error)
        ensures
            error@ == msg@,
    {
        Error { message: String::from_str(msg) }
    }

    /// The error for a token that the parser cannot take in its current
    /// state.
    pub fn unexpected_token(token: &Token) -> (error: Error)
        ensures
            error@ == unexpected_token_message(token@),
    {
        let text = token.text();
        Error { message: String::from_str("Unexpected token ").concat(text.as_str()) }
    }

    /// The error for a rule that has the placeholder identifier on a side
    /// where its relation does not allow it.
    pub fn misplaced_trap() -> (error: Error)
        ensures
            error@ == misplaced_trap_message(),
    {
        Error::new("Misplaced trap identifier _")
    }

    /// The error for a rule list that ends inside a rule.
    pub fn end_of_rules() -> (error: Error)
        ensures
            error@ == end_of_rules_message(),
    {
        Error::new("Unexpected end of rules block in bidi!")
    }

    /// The error for a header that ends before its rule block.
    pub fn end_of_header() -> (error: Error)
        ensures
            error@ == end_of_header_message(),
    {
        Error::new("Parse error at end of bidi!")
    }
}

} // verus!

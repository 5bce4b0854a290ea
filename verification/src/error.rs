//! Errors that formatting can report.

use vstd::prelude::*;
use crate::chars::{push_str, string_from};

verus! {

/// Errors that can occur during formatting.
#[derive(Debug, Clone, PartialEq, Eq)]
pub enum FormatError {
    /// The parser could not be initialized.
    Parser(String),
    /// The input SQL contains a syntax error.
    Syntax(String),
}

/// The text that `Display` shows for an error.
pub open spec fn error_message(e: &FormatError) -> Seq<char> {
    match e {
        FormatError::Parser(msg) => "Parser error: "@ + msg@,
        FormatError::Syntax(msg) => "Syntax error: "@ + msg@,
    }
}

impl FormatError {
    /// The error as `Display` writes it.
    pub fn message(&self) -> (r: String)
        ensures
            r@ == error_message(self),
    {
        match self {
            FormatError::Parser(msg) => {
                let mut r = string_from("Parser error: ");
                push_str(&mut r, msg.as_str());
                r
            },
            FormatError::Syntax(msg) => {
                let mut r = string_from("Syntax error: ");
                push_str(&mut r, msg.as_str());
                r
            },
        }
    }
}

} // verus!

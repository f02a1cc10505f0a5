//! Diagnostics: the structured records of recoverable parse failures.

use vstd::prelude::*;
use vstd::string::StringExecFns;
use crate::token::{Token, TokenKind, TokenView};

verus! {

/// A recoverable parse failure.
#[derive(Debug, PartialEq, Eq)]
pub enum Diagnostic {
    /// The grammar demands a token of kind `expected` next; `actual` stands
    /// there instead.
    UnexpectedToken { expected: TokenKind, actual: Token },
    /// No expression can start with a token of this kind.
    NoPrefixParser { kind: TokenKind },
    /// The text of an integer literal does not denote a 64-bit unsigned
    /// integer.
    InvalidInteger { text: String },
}

/// The mathematical value of a diagnostic.
pub enum DiagnosticView {
    UnexpectedToken { expected: TokenKind, actual: TokenView },
    NoPrefixParser { kind: TokenKind },
    InvalidInteger { text: Seq<char> },
}

impl View for Diagnostic {
    type V = DiagnosticView;

    open spec fn view(&self) -> DiagnosticView {
        match self {
            Diagnostic::UnexpectedToken { expected, actual } => DiagnosticView::UnexpectedToken {
                expected: *expected,
                actual: actual@,
            },
            Diagnostic::NoPrefixParser { kind } => DiagnosticView::NoPrefixParser { kind: *kind },
            Diagnostic::InvalidInteger { text } => DiagnosticView::InvalidInteger { text: text@ },
        }
    }
}

impl DiagnosticView {
    /// The sentence that reports the failure.
    pub open spec fn message(self) -> Seq<char> {
        match self {
            DiagnosticView::UnexpectedToken { expected, actual } => "expected next token to be "@
                + expected.spec_name() + ", got "@ + actual.description() + " instead"@,
            DiagnosticView::NoPrefixParser { kind } => "no prefix parse function for "@
                + kind.spec_name() + " found"@,
            DiagnosticView::InvalidInteger { text } => "could not parse "@ + text
                + " as integer"@,
        }
    }
}

impl Diagnostic {
    /// The sentence that reports the failure.
    pub fn message(&self) -> (text: String)
        ensures
            text@ == self@.message(),
    {
        match self {
            Diagnostic::UnexpectedToken { expected, actual } => {
                let mut text = String::from_str("expected next token to be ");
                text.append(expected.name().as_str());
                text.append(", got ");
                text.append(actual.describe().as_str());
                text.append(" instead");
                text
            },
            Diagnostic::NoPrefixParser { kind } => {
                let mut text = String::from_str("no prefix parse function for ");
                text.append(kind.name().as_str());
                text.append(" found");
                text
            },
            Diagnostic::InvalidInteger { text: literal } => {
                let mut text = String::from_str("could not parse ");
                text.append(literal.as_str());
                text.append(" as integer");
                text
            },
        }
    }
}

} // verus!

use crate::interpreter::{RuntimeError, RuntimeErrorView};
use crate::lexer::{LexerError, LexerErrorView};
use crate::parser::{ParseError, ParseErrorView};
use crate::resolver::{ResolveError, ResolveErrorView};
use vstd::string::StringExecFns;
use vstd::prelude::*;

verus! {

/// An error of one of the stages that a program goes through.
#[derive(Debug)]
pub enum LoxError {
    LexerError(LexerError),
    ParseError(ParseError),
    ResolveError(ResolveError),
    RuntimeError(RuntimeError),
}

/// The mathematical value of a [`LoxError`].
pub enum LoxErrorView {
    LexerError(LexerErrorView),
    ParseError(ParseErrorView),
    ResolveError(ResolveErrorView),
    RuntimeError(RuntimeErrorView),
}

impl LoxErrorView {
    /// How an error is written in diagnostics: behind the name of the
    /// stage that found it.
    pub open spec fn text(self) -> Seq<char> {
        match self {
            LoxErrorView::LexerError(error) => "LexerError: "@ + error.text(),
            LoxErrorView::ParseError(error) => "ParseError: "@ + error.text(),
            LoxErrorView::ResolveError(error) => "ResolveError: "@ + error.text(),
            LoxErrorView::RuntimeError(error) => "RuntimeError: "@ + error.text(),
        }
    }
}

impl LoxError {
    /// How this error is written in diagnostics.
    pub fn to_text(&self) -> (text: String)
        ensures
            text@ == self@.text(),
    {
        match self {
            LoxError::LexerError(error) => {
                let mut text = String::from_str("LexerError: ");
                text.append(error.to_text().as_str());
                text
            },
            LoxError::ParseError(error) => {
                let mut text = String::from_str("ParseError: ");
                text.append(error.to_text().as_str());
                text
            },
            LoxError::ResolveError(error) => {
                let mut text = String::from_str("ResolveError: ");
                text.append(error.to_text().as_str());
                text
            },
            LoxError::RuntimeError(error) => {
                let mut text = String::from_str("RuntimeError: ");
                text.append(error.to_text().as_str());
                text
            },
        }
    }
}

impl View for LoxError {
    type V = LoxErrorView;

    open spec fn view(&self) -> LoxErrorView {
        match self {
            LoxError::LexerError(error) => LoxErrorView::LexerError(error@),
            LoxError::ParseError(error) => LoxErrorView::ParseError(error@),
            LoxError::ResolveError(error) => LoxErrorView::ResolveError(error@),
            LoxError::RuntimeError(error) => LoxErrorView::RuntimeError(error@),
        }
    }
}

/// The mathematical values of a run of errors.
pub open spec fn errors_view(errors: Seq<LoxError>) -> Seq<LoxErrorView> {
    Seq::new(errors.len(), |i: int| errors[i]@)
}

} // verus!

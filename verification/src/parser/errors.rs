use crate::lexer::{Token, TokenView};
use vstd::string::StringExecFns;
use vstd::prelude::*;

verus! {

/// What the parser missed.
#[derive(Debug)]
pub enum ParseErrorKind {
    ExpectedExpression,
    Expected(&'static str),
}

/// The mathematical value of a [`ParseErrorKind`].
pub enum ParseErrorKindView {
    ExpectedExpression,
    Expected(Seq<char>),
}

impl ParseErrorKindView {
    /// How the kind of an error is written in diagnostics.
    pub open spec fn text(self) -> Seq<char> {
        match self {
            ParseErrorKindView::ExpectedExpression => "expected an expression"@,
            ParseErrorKindView::Expected(word) => "expected '"@ + word + "'"@,
        }
    }
}

impl ParseErrorKind {
    /// How this kind of an error is written in diagnostics.
    pub fn to_text(&self) -> (text: String)
        ensures
            text@ == self@.text(),
    {
        match self {
            ParseErrorKind::ExpectedExpression => String::from_str("expected an expression"),
            ParseErrorKind::Expected(word) => {
                let mut text = String::from_str("expected '");
                text.append(word);
                text.append("'");
                text
            },
        }
    }
}

impl View for ParseErrorKind {
    type V = ParseErrorKindView;

    open spec fn view(&self) -> ParseErrorKindView {
        match self {
            ParseErrorKind::ExpectedExpression => ParseErrorKindView::ExpectedExpression,
            ParseErrorKind::Expected(word) => ParseErrorKindView::Expected(word@),
        }
    }
}

/// A parse error: the token at which the parser missed something, and
/// what it missed.
#[derive(Debug)]
pub struct ParseError {
    token: Token,
    kind: ParseErrorKind,
}

/// The mathematical value of a [`ParseError`].
pub struct ParseErrorView {
    pub token: TokenView,
    pub kind: ParseErrorKindView,
}

impl ParseErrorView {
    /// How an error is written in diagnostics.
    pub open spec fn text(self) -> Seq<char> {
        self.token.text() + ", "@ + self.kind.text()
    }
}

impl View for ParseError {
    type V = ParseErrorView;

    closed spec fn view(&self) -> ParseErrorView {
        ParseErrorView { token: self.token@, kind: self.kind@ }
    }
}

impl Clone for ParseError {
    fn clone(&self) -> (copy: ParseError)
        ensures
            copy@ == self@,
    {
        let kind = match &self.kind {
            ParseErrorKind::ExpectedExpression => ParseErrorKind::ExpectedExpression,
            ParseErrorKind::Expected(word) => ParseErrorKind::Expected(*word),
        };
        ParseError { token: self.token.clone(), kind }
    }
}

impl ParseError {
    pub fn at(token: Token, kind: ParseErrorKind) -> (error: ParseError)
        ensures
            error@ == (ParseErrorView { token: token@, kind: kind@ }),
    {
        ParseError { token, kind }
    }

    /// How this error is written in diagnostics.
    pub fn to_text(&self) -> (text: String)
        ensures
            text@ == self@.text(),
    {
        let mut text = self.token.to_text();
        text.append(", ");
        text.append(self.kind.to_text().as_str());
        text
    }

    pub fn token(&self) -> (token: &Token)
        ensures
            token@ == self@.token,
    {
        &self.token
    }

    pub fn kind(&self) -> (kind: &ParseErrorKind)
        ensures
            kind@ == self@.kind,
    {
        &self.kind
    }
}

} // verus!

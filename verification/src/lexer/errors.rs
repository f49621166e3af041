use crate::text::{decimal, decimal_text};
use vstd::prelude::*;
use vstd::string::StringExecFns;

verus! {

/// Why the lexer gave up.
#[derive(Debug)]
pub enum LexerErrorKind {
    UnexpectedChar(char),
    UnterminatedString,
    InvalidNumber(String),
}

/// The mathematical value of a [`LexerErrorKind`].
pub enum LexerErrorKindView {
    UnexpectedChar(char),
    UnterminatedString,
    InvalidNumber(Seq<char>),
}

impl LexerErrorKindView {
    /// How the kind of an error is written in diagnostics.
    pub open spec fn text(self) -> Seq<char> {
        match self {
            LexerErrorKindView::UnexpectedChar(c) => "unexpected char (code point "@ + decimal(
                c as nat,
            ) + ")"@,
            LexerErrorKindView::UnterminatedString => "unterminated string"@,
            LexerErrorKindView::InvalidNumber(digits) => "invalid number '"@ + digits + "'"@,
        }
    }
}

impl View for LexerErrorKind {
    type V = LexerErrorKindView;

    open spec fn view(&self) -> LexerErrorKindView {
        match self {
            LexerErrorKind::UnexpectedChar(c) => LexerErrorKindView::UnexpectedChar(*c),
            LexerErrorKind::UnterminatedString => LexerErrorKindView::UnterminatedString,
            LexerErrorKind::InvalidNumber(text) => LexerErrorKindView::InvalidNumber(text@),
        }
    }
}

impl LexerErrorKind {
    /// How this kind of an error is written in diagnostics.
    pub fn to_text(&self) -> (text: String)
        ensures
            text@ == self@.text(),
    {
        match self {
            LexerErrorKind::UnexpectedChar(c) => {
                let code = *c as u32;
                let mut text = String::from_str("unexpected char (code point ");
                text.append(decimal_text(code as usize).as_str());
                text.append(")");
                text
            },
            LexerErrorKind::UnterminatedString => String::from_str("unterminated string"),
            LexerErrorKind::InvalidNumber(digits) => {
                let mut text = String::from_str("invalid number '");
                text.append(digits.as_str());
                text.append("'");
                text
            },
        }
    }
}

/// The one error that ends a lex, with the line and column the lexer had
/// reached when it met it.
#[derive(Debug)]
pub struct LexerError {
    line: usize,
    col: usize,
    kind: LexerErrorKind,
}

/// The mathematical value of a [`LexerError`].
pub struct LexerErrorView {
    pub line: nat,
    pub col: nat,
    pub kind: LexerErrorKindView,
}

impl LexerErrorView {
    /// How an error is written in diagnostics.
    pub open spec fn text(self) -> Seq<char> {
        "l"@ + decimal(self.line) + ":c"@ + decimal(self.col) + " "@ + self.kind.text()
    }
}

impl View for LexerError {
    type V = LexerErrorView;

    closed spec fn view(&self) -> LexerErrorView {
        LexerErrorView { line: self.line as nat, col: self.col as nat, kind: self.kind@ }
    }
}

impl LexerError {
    pub fn new(line: usize, col: usize, kind: LexerErrorKind) -> (error: LexerError)
        ensures
            error@ == (LexerErrorView { line: line as nat, col: col as nat, kind: kind@ }),
    {
        LexerError { line, col, kind }
    }

    pub fn line(&self) -> (line: usize)
        ensures
            line == self@.line,
    {
        self.line
    }

    pub fn col(&self) -> (col: usize)
        ensures
            col == self@.col,
    {
        self.col
    }

    /// How this error is written in diagnostics.
    pub fn to_text(&self) -> (text: String)
        ensures
            text@ == self@.text(),
    {
        let mut text = String::from_str("l");
        text.append(decimal_text(self.line).as_str());
        text.append(":c");
        text.append(decimal_text(self.col).as_str());
        text.append(" ");
        text.append(self.kind.to_text().as_str());
        text
    }

    pub fn kind(&self) -> (kind: &LexerErrorKind)
        ensures
            kind@ == self@.kind,
    {
        &self.kind
    }
}

} // verus!

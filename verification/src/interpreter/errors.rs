use crate::lexer::{Token, TokenView};
use crate::parser::{Value, ValueView};
use vstd::string::StringExecFns;
use vstd::prelude::*;

verus! {

/// Why the evaluation of a program ended before its last statement.
#[derive(Debug)]
pub enum RuntimeError {
    /// The operator of the token is not defined between the two values.
    UndefinedOpBetween(Value, Token, Value),
    ExpectedNumber(Token),
    CallableBadArgsCount(Token),
    ExpectedCallable(Token),
}

/// The mathematical value of a [`RuntimeError`].
pub enum RuntimeErrorView {
    UndefinedOpBetween(ValueView, TokenView, ValueView),
    ExpectedNumber(TokenView),
    CallableBadArgsCount(TokenView),
    ExpectedCallable(TokenView),
}

impl RuntimeErrorView {
    /// How an error is written in diagnostics.
    pub open spec fn text(self) -> Seq<char> {
        match self {
            RuntimeErrorView::UndefinedOpBetween(left, op, right) => op.text()
                + " is not defined between "@ + left.kind_name() + " and "@ + right.kind_name(),
            RuntimeErrorView::ExpectedNumber(token) => token.text() + " expected a number"@,
            RuntimeErrorView::CallableBadArgsCount(token) => token.text()
                + " called with too few or too many args"@,
            RuntimeErrorView::ExpectedCallable(token) => token.text() + " expected callable"@,
        }
    }
}

impl RuntimeError {
    /// How this error is written in diagnostics.
    pub fn to_text(&self) -> (text: String)
        ensures
            text@ == self@.text(),
    {
        match self {
            RuntimeError::UndefinedOpBetween(left, op, right) => {
                let mut text = op.to_text();
                text.append(" is not defined between ");
                text.append(left.kind_name());
                text.append(" and ");
                text.append(right.kind_name());
                text
            },
            RuntimeError::ExpectedNumber(token) => {
                let mut text = token.to_text();
                text.append(" expected a number");
                text
            },
            RuntimeError::CallableBadArgsCount(token) => {
                let mut text = token.to_text();
                text.append(" called with too few or too many args");
                text
            },
            RuntimeError::ExpectedCallable(token) => {
                let mut text = token.to_text();
                text.append(" expected callable");
                text
            },
        }
    }
}

impl View for RuntimeError {
    type V = RuntimeErrorView;

    open spec fn view(&self) -> RuntimeErrorView {
        match self {
            RuntimeError::UndefinedOpBetween(left, op, right) => RuntimeErrorView::UndefinedOpBetween(
                left@,
                op@,
                right@,
            ),
            RuntimeError::ExpectedNumber(token) => RuntimeErrorView::ExpectedNumber(token@),
            RuntimeError::CallableBadArgsCount(token) => RuntimeErrorView::CallableBadArgsCount(
                token@,
            ),
            RuntimeError::ExpectedCallable(token) => RuntimeErrorView::ExpectedCallable(token@),
        }
    }
}

} // verus!

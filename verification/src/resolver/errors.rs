use crate::lexer::{Token, TokenView};
use vstd::string::StringExecFns;
use vstd::prelude::*;

verus! {

/// What the resolver finds wrong with the use of a variable, and the
/// token of the variable.
#[derive(Debug)]
pub enum ResolveError {
    UnassignedVariable(Token),
    UnusedVariable(Token),
    UndeclaredVariable(Token),
    OvershadowingSameBlock(Token),
}

/// The mathematical value of a [`ResolveError`].
pub enum ResolveErrorView {
    UnassignedVariable(TokenView),
    UnusedVariable(TokenView),
    UndeclaredVariable(TokenView),
    OvershadowingSameBlock(TokenView),
}

impl ResolveErrorView {
    /// How an error is written in diagnostics.
    pub open spec fn text(self) -> Seq<char> {
        match self {
            ResolveErrorView::UnassignedVariable(token) => token.text() + " unassigned reference"@,
            ResolveErrorView::UnusedVariable(token) => token.text() + " unused reference"@,
            ResolveErrorView::UndeclaredVariable(token) => token.text() + " undeclared reference"@,
            ResolveErrorView::OvershadowingSameBlock(token) => token.text()
                + " overshadowing reference in the same block"@,
        }
    }
}

impl View for ResolveError {
    type V = ResolveErrorView;

    open spec fn view(&self) -> ResolveErrorView {
        match self {
            ResolveError::UnassignedVariable(token) => ResolveErrorView::UnassignedVariable(token@),
            ResolveError::UnusedVariable(token) => ResolveErrorView::UnusedVariable(token@),
            ResolveError::UndeclaredVariable(token) => ResolveErrorView::UndeclaredVariable(token@),
            ResolveError::OvershadowingSameBlock(token) => ResolveErrorView::OvershadowingSameBlock(
                token@,
            ),
        }
    }
}

impl Clone for ResolveError {
    fn clone(&self) -> (copy: ResolveError)
        ensures
            copy@ == self@,
    {
        match self {
            ResolveError::UnassignedVariable(token) => ResolveError::UnassignedVariable(
                token.clone(),
            ),
            ResolveError::UnusedVariable(token) => ResolveError::UnusedVariable(token.clone()),
            ResolveError::UndeclaredVariable(token) => ResolveError::UndeclaredVariable(
                token.clone(),
            ),
            ResolveError::OvershadowingSameBlock(token) => ResolveError::OvershadowingSameBlock(
                token.clone(),
            ),
        }
    }
}

impl ResolveError {
    /// How this error is written in diagnostics.
    pub fn to_text(&self) -> (text: String)
        ensures
            text@ == self@.text(),
    {
        match self {
            ResolveError::UnassignedVariable(token) => {
                let mut text = token.to_text();
                text.append(" unassigned reference");
                text
            },
            ResolveError::UnusedVariable(token) => {
                let mut text = token.to_text();
                text.append(" unused reference");
                text
            },
            ResolveError::UndeclaredVariable(token) => {
                let mut text = token.to_text();
                text.append(" undeclared reference");
                text
            },
            ResolveError::OvershadowingSameBlock(token) => {
                let mut text = token.to_text();
                text.append(" overshadowing reference in the same block");
                text
            },
        }
    }

    /// The token of the variable.
    pub fn token(&self) -> (token: &Token)
        ensures
            token@ == match self@ {
                ResolveErrorView::UnassignedVariable(token) => token,
                ResolveErrorView::UnusedVariable(token) => token,
                ResolveErrorView::UndeclaredVariable(token) => token,
                ResolveErrorView::OvershadowingSameBlock(token) => token,
            },
    {
        match self {
            ResolveError::UnassignedVariable(token) => token,
            ResolveError::UnusedVariable(token) => token,
            ResolveError::UndeclaredVariable(token) => token,
            ResolveError::OvershadowingSameBlock(token) => token,
        }
    }
}

} // verus!

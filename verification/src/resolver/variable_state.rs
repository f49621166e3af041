use super::errors::{ResolveError, ResolveErrorView};
use crate::lexer::{Token, TokenView};
use vstd::prelude::*;

verus! {

/// What the resolver knows of a declared variable: the token that
/// declared it, and whether it was ever assigned and ever read.
#[derive(Debug)]
pub struct VariableState {
    token: Token,
    ever_assigned: bool,
    ever_read: bool,
}

/// The mathematical value of a [`VariableState`].
pub struct VariableStateView {
    pub token: TokenView,
    pub ever_assigned: bool,
    pub ever_read: bool,
}

impl VariableStateView {
    /// What is wrong with the variable when its scope ends: that it was
    /// never assigned; else, that it was never read.
    pub open spec fn check(self) -> Result<(), ResolveErrorView> {
        if !self.ever_assigned {
            Err(ResolveErrorView::UnassignedVariable(self.token))
        } else if !self.ever_read {
            Err(ResolveErrorView::UnusedVariable(self.token))
        } else {
            Ok(())
        }
    }
}

impl View for VariableState {
    type V = VariableStateView;

    closed spec fn view(&self) -> VariableStateView {
        VariableStateView {
            token: self.token@,
            ever_assigned: self.ever_assigned,
            ever_read: self.ever_read,
        }
    }
}

impl VariableState {
    pub fn new(token: Token) -> (state: VariableState)
        ensures
            state@ == (VariableStateView { token: token@, ever_assigned: false, ever_read: false }),
    {
        VariableState { token, ever_assigned: false, ever_read: false }
    }

    /// The token that declared the variable.
    pub fn token(&self) -> (token: &Token)
        ensures
            token@ == self@.token,
    {
        &self.token
    }

    pub fn mark_assigned(&mut self)
        ensures
            final(self)@ == (VariableStateView { ever_assigned: true, ..old(self)@ }),
    {
        self.ever_assigned = true;
    }

    pub fn mark_read(&mut self)
        ensures
            final(self)@ == (VariableStateView { ever_read: true, ..old(self)@ }),
    {
        self.ever_read = true;
    }

    /// What is wrong with the variable when its scope ends, without
    /// giving the variable up.
    pub fn verdict(&self) -> (result: Result<(), ResolveError>)
        ensures
            match result {
                Ok(_) => self@.check() is Ok,
                Err(error) => self@.check() == Err::<(), ResolveErrorView>(error@),
            },
    {
        if !self.ever_assigned {
            return Err(ResolveError::UnassignedVariable(self.token.clone()));
        }
        if !self.ever_read {
            return Err(ResolveError::UnusedVariable(self.token.clone()));
        }
        Ok(())
    }

    /// What is wrong with the variable when its scope ends.
    pub fn check(self) -> (result: Result<(), ResolveError>)
        ensures
            match result {
                Ok(_) => self@.check() is Ok,
                Err(error) => self@.check() == Err::<(), ResolveErrorView>(error@),
            },
    {
        if !self.ever_assigned {
            return Err(ResolveError::UnassignedVariable(self.token));
        }
        if !self.ever_read {
            return Err(ResolveError::UnusedVariable(self.token));
        }
        Ok(())
    }
}

} // verus!

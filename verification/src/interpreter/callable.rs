use crate::lexer::{tokens_view, Token, TokenView};
use crate::parser::{Stmt, StmtView};
use vstd::prelude::*;

verus! {

/// A function at run time: its declaration, and the place of the frame
/// of the environment in which it was declared.
#[derive(Debug, Clone, Copy)]
pub struct LoxFunction<'a> {
    name: &'a Token,
    params: &'a Vec<Token>,
    body: &'a Stmt,
    environment: usize,
}

/// The mathematical value of a [`LoxFunction`].
pub struct LoxFunctionView {
    pub name: TokenView,
    pub params: Seq<TokenView>,
    pub body: StmtView,
    pub environment: nat,
}

impl<'a> View for LoxFunction<'a> {
    type V = LoxFunctionView;

    closed spec fn view(&self) -> LoxFunctionView {
        LoxFunctionView {
            name: self.name@,
            params: tokens_view(self.params@),
            body: self.body@,
            environment: self.environment as nat,
        }
    }
}

impl<'a> LoxFunction<'a> {
    pub fn new(name: &'a Token, params: &'a Vec<Token>, body: &'a Stmt, environment: usize) -> (function:
        LoxFunction<'a>)
        ensures
            function@ == (LoxFunctionView {
                name: name@,
                params: tokens_view(params@),
                body: body@,
                environment: environment as nat,
            }),
    {
        LoxFunction { name, params, body, environment }
    }

    pub fn params(&self) -> (params: &'a Vec<Token>)
        ensures
            tokens_view(params@) == self@.params,
    {
        self.params
    }

    pub fn body(&self) -> (body: &'a Stmt)
        ensures
            body@ == self@.body,
    {
        self.body
    }

    /// The place of the frame in which the function was declared.
    pub fn environment(&self) -> (environment: usize)
        ensures
            environment == self@.environment,
    {
        self.environment
    }
}

/// What can be called: it has a name and takes a number of arguments.
pub trait LoxCallable {
    /// The name, if there is one.
    spec fn name_view(&self) -> Option<Seq<char>>;

    /// How many arguments a call takes.
    spec fn arity_view(&self) -> nat;

    /// The name under which it was declared.
    fn name(&self) -> (name: Option<&String>)
        ensures
            match name {
                Some(name) => self.name_view() == Some(name@),
                None => self.name_view() is None,
            },
    ;

    /// How many arguments a call takes.
    fn arity(&self) -> (arity: usize)
        ensures
            arity == self.arity_view(),
    ;
}

impl<'a> LoxCallable for LoxFunction<'a> {
    /// The name that the token of the declaration carries, if it is an
    /// identifier.
    open spec fn name_view(&self) -> Option<Seq<char>> {
        self@.name.kind.identifier()
    }

    /// The number of the parameters.
    open spec fn arity_view(&self) -> nat {
        self@.params.len()
    }

    fn name(&self) -> (name: Option<&String>) {
        self.name.identifier()
    }

    fn arity(&self) -> (arity: usize) {
        self.params.len()
    }
}

} // verus!

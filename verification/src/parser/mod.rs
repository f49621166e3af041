pub mod errors;
pub mod expr;
pub mod grammar;
pub mod stmt;
pub mod value;

pub use errors::{ParseError, ParseErrorKind, ParseErrorKindView, ParseErrorView};
pub use expr::{Expr, ExprView, Literal, LiteralView};
pub use stmt::{Stmt, StmtView};
pub use value::{ControlSignal, ControlSignalView, Value, ValueView};

use crate::lexer::{tokens_view, Token, TokenKind, TokenKindView, TokenView};
use expr::{
    expr_formed, expr_ids, expr_ids_unique, exprs_formed, exprs_ids, exprs_ids_unique, exprs_view,
    ids_in, lemma_assignment_ids, lemma_call_ids,
};
use grammar::{after, holds, kind_at, token_at, Parsed, Progress};
use stmt::{
    are_identifiers, is_declaration, stmt_formed, stmt_ids, stmt_ids_unique, stmts_formed,
    stmts_ids, stmts_ids_unique, stmts_view,
};
use vstd::prelude::*;

verus! {

/// The mathematical values of a run of parse errors.
pub open spec fn errors_view(errors: Seq<ParseError>) -> Seq<ParseErrorView> {
    Seq::new(errors.len(), |i: int| errors[i]@)
}

pub open spec fn expr_result(result: Result<Expr, ParseError>) -> Result<ExprView, ParseErrorView> {
    match result {
        Ok(expr) => Ok(expr@),
        Err(error) => Err(error@),
    }
}

pub open spec fn stmt_result(result: Result<Stmt, ParseError>) -> Result<StmtView, ParseErrorView> {
    match result {
        Ok(stmt) => Ok(stmt@),
        Err(error) => Err(error@),
    }
}

pub open spec fn stmt_option(stmt: Option<Stmt>) -> Option<StmtView> {
    match stmt {
        Some(stmt) => Some(stmt@),
        None => None,
    }
}

pub open spec fn expr_option(expr: Option<Expr>) -> Option<ExprView> {
    match expr {
        Some(expr) => Some(expr@),
        None => None,
    }
}

/// The parser: the tokens, the place in them that has been reached, the
/// errors met so far and the last id given to a use of a variable.
pub struct Parser {
    tokens: Vec<Token>,
    pos: usize,
    errors: Vec<ParseError>,
    curr_var_id: usize,
}

impl Parser {
    /// The tokens that are parsed.
    pub closed spec fn tokens(&self) -> Seq<TokenView> {
        tokens_view(self.tokens@)
    }

    /// How many tokens have been read.
    pub closed spec fn position(&self) -> int {
        self.pos as int
    }

    /// The last id given to a use of a variable; 0 before the first.
    pub closed spec fn last_id(&self) -> nat {
        self.curr_var_id as nat
    }

    /// The errors met so far.
    pub closed spec fn reported(&self) -> Seq<ParseErrorView> {
        errors_view(self.errors@)
    }

    /// The tokens end with the end of input, the place reached is one of
    /// them, and no more ids were given than tokens were read.
    pub closed spec fn wf(&self) -> bool {
        &&& self.tokens.len() > 0
        &&& self.tokens[self.tokens.len() - 1]@.kind is Eof
        &&& self.pos < self.tokens.len()
        &&& self.curr_var_id <= self.pos
    }

    /// `self` is `before` after some parsing: further on in the same
    /// tokens, with the same errors.
    pub open spec fn follows(&self, before: Parser) -> bool {
        &&& self.wf()
        &&& self.tokens() == before.tokens()
        &&& self.reported() == before.reported()
        &&& before.position() <= self.position()
        &&& before.last_id() <= self.last_id()
        &&& self.last_id() - before.last_id() <= self.position() - before.position()
    }

    /// Where `self` stands, as the end of a parsing function that
    /// returned `result`.
    pub open spec fn stopped<T>(&self, result: Result<T, ParseErrorView>) -> Parsed<T> {
        Parsed { result, pos: self.position(), id: self.last_id() }
    }

    /// A parsing function that led from `before` to `self` and returned
    /// `result` did what `model` says, read at least one token if it
    /// succeeded, formed what it returned as the parser forms it, and
    /// gave the uses of variables in it ids of their own, all of them
    /// new.
    pub open spec fn parsed_expr(
        &self,
        before: Parser,
        result: Result<Expr, ParseError>,
        model: Parsed<ExprView>,
    ) -> bool {
        &&& self.follows(before)
        &&& model == self.stopped(expr_result(result))
        &&& result matches Ok(expr) ==> {
            &&& before.position() < self.position()
            &&& expr_formed(expr@)
            &&& expr_ids_unique(expr@)
            &&& ids_in(expr_ids(expr@), before.last_id(), self.last_id())
        }
    }

    /// As [`Parser::parsed_expr`], of a function that returns a
    /// statement.
    pub open spec fn parsed_stmt(
        &self,
        before: Parser,
        result: Result<Stmt, ParseError>,
        model: Parsed<StmtView>,
    ) -> bool {
        &&& self.follows(before)
        &&& model == self.stopped(stmt_result(result))
        &&& result matches Ok(stmt) ==> {
            &&& before.position() < self.position()
            &&& stmt_formed(stmt@)
            &&& stmt_ids_unique(stmt@)
            &&& ids_in(stmt_ids(stmt@), before.last_id(), self.last_id())
        }
    }

    /// A parser at the start of `tokens`, which end with the end of
    /// input.
    pub fn new(tokens: Vec<Token>) -> (parser: Parser)
        requires
            tokens.len() > 0,
            tokens[tokens.len() - 1]@.kind is Eof,
        ensures
            parser.wf(),
            parser.tokens() == tokens_view(tokens@),
            parser.position() == 0,
            parser.last_id() == 0,
            parser.reported() == Seq::<ParseErrorView>::empty(),
    {
        let parser = Parser { tokens, pos: 0, errors: Vec::new(), curr_var_id: 0 };
        assert(parser.reported() =~= Seq::<ParseErrorView>::empty());
        parser
    }

    /// The errors met so far.
    pub fn errors(&self) -> (errors: &Vec<ParseError>)
        ensures
            errors_view(errors@) == self.reported(),
    {
        &self.errors
    }

    fn incr_var_id(&mut self) -> (id: usize)
        requires
            old(self).wf(),
            old(self).last_id() < old(self).position(),
        ensures
            final(self).wf(),
            final(self).tokens() == old(self).tokens(),
            final(self).reported() == old(self).reported(),
            final(self).position() == old(self).position(),
            final(self).last_id() == old(self).last_id() + 1,
            id == final(self).last_id(),
    {
        self.curr_var_id = self.curr_var_id + 1;
        self.curr_var_id
    }

    fn peek(&self) -> (token: &Token)
        requires
            self.wf(),
        ensures
            token@ == token_at(self.tokens(), self.position()),
            0 <= self.position() < self.tokens().len(),
    {
        &self.tokens[self.pos]
    }

    fn peek_kind(&self) -> (kind: &TokenKind)
        requires
            self.wf(),
        ensures
            kind@ == kind_at(self.tokens(), self.position()),
            0 <= self.position() < self.tokens().len(),
    {
        self.peek().kind()
    }

    /// The token `offset` places before the one that comes next.
    fn prev(&self, offset: usize) -> (token: &Token)
        requires
            self.wf(),
            offset <= self.position(),
        ensures
            token@ == token_at(self.tokens(), self.position() - offset),
    {
        &self.tokens[self.pos - offset]
    }

    fn is_at_end(&self) -> (at_end: bool)
        requires
            self.wf(),
        ensures
            at_end == (kind_at(self.tokens(), self.position()) is Eof),
    {
        self.next_is(TokenKind::Eof)
    }

    /// Whether the token that comes next is of the variant of `kind`.
    fn next_is(&self, kind: TokenKind) -> (same: bool)
        requires
            self.wf(),
        ensures
            same == holds(self.tokens(), self.position(), kind@),
    {
        self.peek_kind().same_variant(&kind)
    }

    /// Reads one token, unless it is the end of input.
    fn consume(&mut self)
        requires
            old(self).wf(),
        ensures
            final(self).follows(*old(self)),
            final(self).position() == after(old(self).tokens(), old(self).position()),
            final(self).last_id() == old(self).last_id(),
    {
        if self.is_at_end() {
            return ;
        }
        self.pos += 1;
    }

    /// Reads the next token if it is of the variant of `kind`.
    fn consume_optional(&mut self, kind: TokenKind) -> (read: bool)
        requires
            old(self).wf(),
        ensures
            final(self).follows(*old(self)),
            final(self).last_id() == old(self).last_id(),
            read == holds(old(self).tokens(), old(self).position(), kind@),
            final(self).position() == if read {
                after(old(self).tokens(), old(self).position())
            } else {
                old(self).position()
            },
    {
        if self.next_is(kind) {
            self.consume();
            return true;
        }
        false
    }

    /// Reads the next token and returns it if it is of the variant of
    /// `kind`; else the error of missing it.
    fn consume_expect(&mut self, kind: TokenKind) -> (result: Result<Token, ParseError>)
        requires
            old(self).wf(),
        ensures
            final(self).follows(*old(self)),
            final(self).last_id() == old(self).last_id(),
            match result {
                Ok(token) => {
                    &&& holds(old(self).tokens(), old(self).position(), kind@)
                    &&& token@ == token_at(old(self).tokens(), old(self).position())
                    &&& final(self).position() == after(old(self).tokens(), old(self).position())
                },
                Err(error) => {
                    &&& !holds(old(self).tokens(), old(self).position(), kind@)
                    &&& final(self).position() == old(self).position()
                    &&& Err::<(), ParseErrorView>(error@) == grammar::expected::<()>(
                        old(self).tokens(),
                        old(self).position(),
                        old(self).last_id(),
                        kind@,
                    ).result
                },
            },
    {
        let token = self.peek().clone();
        if token.kind().same_variant(&kind) {
            self.consume();
            Ok(token)
        } else {
            Err(ParseError::at(token, ParseErrorKind::Expected(kind.name())))
        }
    }

    /// Reads the next token and returns it if it is an identifier; else
    /// the error of missing one.
    fn consume_expect_identifier(&mut self) -> (result: Result<Token, ParseError>)
        requires
            old(self).wf(),
        ensures
            final(self).follows(*old(self)),
            final(self).last_id() == old(self).last_id(),
            match result {
                Ok(token) => {
                    &&& token@.kind is Identifier
                    &&& token@ == token_at(old(self).tokens(), old(self).position())
                    &&& final(self).position() == old(self).position() + 1
                },
                Err(error) => {
                    &&& !(kind_at(old(self).tokens(), old(self).position()) is Identifier)
                    &&& final(self).position() == old(self).position()
                    &&& Err::<(), ParseErrorView>(error@) == grammar::expected_identifier::<()>(
                        old(self).tokens(),
                        old(self).position(),
                        old(self).last_id(),
                    ).result
                },
            },
    {
        let token = self.peek().clone();
        match token.kind() {
            TokenKind::Identifier(_) => {
                self.consume();
                Ok(token)
            },
            _ => {
                let word = TokenKind::Identifier(String::new()).name();
                Err(ParseError::at(token, ParseErrorKind::Expected(word)))
            },
        }
    }

    fn primary(&mut self) -> (result: Result<Expr, ParseError>)
        requires
            old(self).wf(),
        ensures
            final(self).parsed_expr(
                *old(self),
                result,
                grammar::primary(old(self).tokens(), old(self).position(), old(self).last_id()),
            ),
        decreases old(self).tokens.len() - old(self).pos, 0nat, 0nat,
    {
        proof {
            reveal(grammar::primary);
            reveal(grammar::expression);
        }
        let token = self.peek().clone();
        let expr = match token.kind() {
            TokenKind::Number(digits) => Expr::Literal(Literal::Number(digits.clone())),
            TokenKind::String(text) => Expr::Literal(Literal::Str(text.clone())),
            TokenKind::True => Expr::Literal(Literal::Bool(true)),
            TokenKind::False => Expr::Literal(Literal::Bool(false)),
            TokenKind::Nil => Expr::Literal(Literal::Nil),
            TokenKind::Identifier(_) => {
                self.consume();
                let id = self.incr_var_id();
                return Ok(Expr::Variable { id, variable: token });
            },
            TokenKind::LeftParen => {
                self.consume();
                let expr = self.expression()?;
                self.consume_expect(TokenKind::RightParen)?;
                return Ok(Expr::Grouping(Box::new(expr)));
            },
            _ => {
                return Err(ParseError::at(token, ParseErrorKind::ExpectedExpression));
            },
        };
        self.consume();
        Ok(expr)
    }

    #[verifier::rlimit(50)]
    fn call(&mut self) -> (result: Result<Expr, ParseError>)
        requires
            old(self).wf(),
        ensures
            final(self).parsed_expr(
                *old(self),
                result,
                grammar::call(old(self).tokens(), old(self).position(), old(self).last_id()),
            ),
        decreases old(self).tokens.len() - old(self).pos, 1nat, 0nat,
    {
        proof {
            reveal(grammar::call);
            reveal(grammar::primary);
            reveal(grammar::arguments);
        }
        let callee = self.primary()?;
        if self.next_is(TokenKind::LeftParen) {
            self.consume();
            let ghost before_args = *self;
            let args = self.arguments()?;
            let paren = self.consume_expect(TokenKind::RightParen)?;
            let ghost list = exprs_view(args@);
            let ghost target = callee@;
            let ghost middle = before_args.last_id();
            let expr = Expr::FunCall { callee: Box::new(callee), paren, args };
            proof {
                assert(expr@->FunCall_args =~= list);
                lemma_call_ids(
                    target,
                    paren@,
                    list,
                    old(self).last_id(),
                    middle,
                    self.last_id(),
                );
            }
            return Ok(expr);
        }
        Ok(callee)
    }

    #[verifier::rlimit(50)]
    fn arguments(&mut self) -> (result: Result<Vec<Box<Expr>>, ParseError>)
        requires
            old(self).wf(),
        ensures
            final(self).follows(*old(self)),
            grammar::arguments(old(self).tokens(), old(self).position(), old(self).last_id())
                == final(self).stopped(
                match result {
                    Ok(args) => Ok(exprs_view(args@)),
                    Err(error) => Err(error@),
                },
            ),
            result matches Ok(args) ==> {
                &&& exprs_formed(exprs_view(args@))
                &&& exprs_ids_unique(exprs_view(args@))
                &&& ids_in(exprs_ids(exprs_view(args@)), old(self).last_id(), final(self).last_id())
            },
        decreases old(self).tokens.len() - old(self).pos, 12nat, 0nat,
    {
        proof {
            reveal(grammar::arguments);
            reveal(grammar::arguments_rest);
            reveal(grammar::expression);
        }
        let ghost before = *self;
        let mut args: Vec<Box<Expr>> = Vec::new();
        assert(exprs_view(args@) =~= Seq::empty());
        let mut more = !self.next_is(TokenKind::RightParen);
        while more
            invariant
                before == *old(self),
                self.follows(before),
                exprs_formed(exprs_view(args@)),
                exprs_ids_unique(exprs_view(args@)),
                ids_in(exprs_ids(exprs_view(args@)), before.last_id(), self.last_id()),
                more ==> grammar::arguments(before.tokens(), before.position(), before.last_id())
                    == grammar::arguments_rest(
                    self.tokens(),
                    self.position(),
                    self.last_id(),
                    exprs_view(args@),
                ),
                !more ==> grammar::arguments(
                    before.tokens(),
                    before.position(),
                    before.last_id(),
                ) == self.stopped(Ok::<Seq<ExprView>, ParseErrorView>(exprs_view(args@))),
            decreases self.tokens.len() - self.pos,
        {
            proof {
                reveal(grammar::arguments);
                reveal(grammar::arguments_rest);
                reveal(grammar::expression);
            }
            let ghost list = exprs_view(args@);
            let expr = self.expression()?;
            let ghost arg = expr@;
            args.push(Box::new(expr));
            assert(exprs_view(args@) =~= list.push(arg));
            assert(exprs_view(args@).drop_last() =~= list);
            if self.next_is(TokenKind::RightParen) {
                more = false;
            } else {
                self.consume_expect(TokenKind::Comma)?;
            }
        }
        Ok(args)
    }

    fn unary(&mut self) -> (result: Result<Expr, ParseError>)
        requires
            old(self).wf(),
        ensures
            final(self).parsed_expr(
                *old(self),
                result,
                grammar::unary(old(self).tokens(), old(self).position(), old(self).last_id()),
            ),
        decreases old(self).tokens.len() - old(self).pos, 2nat, 0nat,
    {
        proof {
            reveal(grammar::unary);
            reveal(grammar::call);
        }
        if self.next_is(TokenKind::Bang) || self.next_is(TokenKind::Minus) {
            let op = self.peek().clone();
            self.consume();
            let right = self.unary()?;
            return Ok(Expr::Unary { op, right: Box::new(right) });
        }
        self.call()
    }

    /// Whether `kind` is an operator of the binary expressions of
    /// `level`.
    fn is_binary_operator(level: u8, kind: &TokenKind) -> (operator: bool)
        ensures
            operator == grammar::is_binary_operator(level as nat, kind@),
    {
        if level == 0 {
            matches!(kind, TokenKind::EqualEqual | TokenKind::BangEqual)
        } else if level == 1 {
            matches!(
                kind,
                TokenKind::Greater | TokenKind::GreaterEqual | TokenKind::Less | TokenKind::LessEqual
            )
        } else if level == 2 {
            matches!(kind, TokenKind::Plus | TokenKind::Minus)
        } else {
            matches!(kind, TokenKind::Star | TokenKind::Slash)
        }
    }

    /// The operand of a binary expression of `level`.
    fn binary_operand(&mut self, level: u8) -> (result: Result<Expr, ParseError>)
        requires
            old(self).wf(),
        ensures
            final(self).parsed_expr(
                *old(self),
                result,
                if level >= 3 {
                    grammar::unary(old(self).tokens(), old(self).position(), old(self).last_id())
                } else {
                    grammar::binary(
                        old(self).tokens(),
                        old(self).position(),
                        old(self).last_id(),
                        level as nat + 1,
                    )
                },
            ),
        decreases old(self).tokens.len() - old(self).pos,
            if level >= 3 {
                3nat
            } else {
                (6 - level) as nat
            },
            0nat,
    {
        if level >= 3 {
            self.unary()
        } else {
            self.parse_binary(level + 1)
        }
    }

    /// A binary expression of `level`: operands of the next level with
    /// the operators of this one between them, joined from the left.
    #[verifier::rlimit(50)]
    fn parse_binary(&mut self, level: u8) -> (result: Result<Expr, ParseError>)
        requires
            old(self).wf(),
        ensures
            final(self).parsed_expr(
                *old(self),
                result,
                grammar::binary(
                    old(self).tokens(),
                    old(self).position(),
                    old(self).last_id(),
                    level as nat,
                ),
            ),
        decreases old(self).tokens.len() - old(self).pos,
            if level >= 3 {
                3nat
            } else {
                (6 - level) as nat
            },
            1nat,
    {
        proof {
            reveal(grammar::binary);
            reveal(grammar::binary_rest);
            reveal(grammar::unary);
        }
        let ghost before = *self;
        let mut expr = self.binary_operand(level)?;
        while Self::is_binary_operator(level, self.peek_kind())
            invariant
                before == *old(self),
                before.wf(),
                self.follows(before),
                before.position() < self.position(),
                expr_formed(expr@),
                expr_ids_unique(expr@),
                ids_in(expr_ids(expr@), before.last_id(), self.last_id()),
                grammar::binary(
                    before.tokens(),
                    before.position(),
                    before.last_id(),
                    level as nat,
                ) == grammar::binary_rest(
                    self.tokens(),
                    self.position(),
                    self.last_id(),
                    level as nat,
                    expr@,
                ),
            decreases self.tokens.len() - self.pos,
        {
            proof {
                reveal(grammar::binary);
                reveal(grammar::binary_rest);
                reveal(grammar::unary);
            }
            let op = self.peek().clone();
            self.consume();
            let right = self.binary_operand(level)?;
            expr = Expr::Binary { left: Box::new(expr), op, right: Box::new(right) };
        }
        Ok(expr)
    }

    fn equality(&mut self) -> (result: Result<Expr, ParseError>)
        requires
            old(self).wf(),
        ensures
            final(self).parsed_expr(
                *old(self),
                result,
                grammar::binary(old(self).tokens(), old(self).position(), old(self).last_id(), 0),
            ),
        decreases old(self).tokens.len() - old(self).pos, 6nat, 2nat,
    {
        self.parse_binary(0)
    }

    fn comparison(&mut self) -> (result: Result<Expr, ParseError>)
        requires
            old(self).wf(),
        ensures
            final(self).parsed_expr(
                *old(self),
                result,
                grammar::binary(old(self).tokens(), old(self).position(), old(self).last_id(), 1),
            ),
        decreases old(self).tokens.len() - old(self).pos, 5nat, 2nat,
    {
        self.parse_binary(1)
    }

    fn term(&mut self) -> (result: Result<Expr, ParseError>)
        requires
            old(self).wf(),
        ensures
            final(self).parsed_expr(
                *old(self),
                result,
                grammar::binary(old(self).tokens(), old(self).position(), old(self).last_id(), 2),
            ),
        decreases old(self).tokens.len() - old(self).pos, 4nat, 2nat,
    {
        self.parse_binary(2)
    }

    fn factor(&mut self) -> (result: Result<Expr, ParseError>)
        requires
            old(self).wf(),
        ensures
            final(self).parsed_expr(
                *old(self),
                result,
                grammar::binary(old(self).tokens(), old(self).position(), old(self).last_id(), 3),
            ),
        decreases old(self).tokens.len() - old(self).pos, 3nat, 2nat,
    {
        self.parse_binary(3)
    }

    /// The operand of a logical expression: of an `or`, an `and`; of an
    /// `and`, an equality.
    fn logical_operand(&mut self, or: bool) -> (result: Result<Expr, ParseError>)
        requires
            old(self).wf(),
        ensures
            final(self).parsed_expr(
                *old(self),
                result,
                if or {
                    grammar::logical(
                        old(self).tokens(),
                        old(self).position(),
                        old(self).last_id(),
                        false,
                    )
                } else {
                    grammar::binary(
                        old(self).tokens(),
                        old(self).position(),
                        old(self).last_id(),
                        0,
                    )
                },
            ),
        decreases old(self).tokens.len() - old(self).pos,
            if or {
                8nat
            } else {
                7nat
            },
            0nat,
    {
        if or {
            self.and()
        } else {
            self.equality()
        }
    }

    /// A logical expression: operands with `or`, or with `and`, between
    /// them, joined from the left.
    #[verifier::rlimit(50)]
    fn parse_logical(&mut self, or: bool) -> (result: Result<Expr, ParseError>)
        requires
            old(self).wf(),
        ensures
            final(self).parsed_expr(
                *old(self),
                result,
                grammar::logical(old(self).tokens(), old(self).position(), old(self).last_id(), or),
            ),
        decreases old(self).tokens.len() - old(self).pos,
            if or {
                8nat
            } else {
                7nat
            },
            1nat,
    {
        proof {
            reveal(grammar::logical);
            reveal(grammar::logical_rest);
            reveal(grammar::binary);
        }
        let ghost before = *self;
        let mut expr = self.logical_operand(or)?;
        while (or && self.next_is(TokenKind::Or)) || (!or && self.next_is(TokenKind::And))
            invariant
                before == *old(self),
                before.wf(),
                self.follows(before),
                before.position() < self.position(),
                expr_formed(expr@),
                expr_ids_unique(expr@),
                ids_in(expr_ids(expr@), before.last_id(), self.last_id()),
                grammar::logical(before.tokens(), before.position(), before.last_id(), or)
                    == grammar::logical_rest(
                    self.tokens(),
                    self.position(),
                    self.last_id(),
                    or,
                    expr@,
                ),
            decreases self.tokens.len() - self.pos,
        {
            proof {
                reveal(grammar::logical);
                reveal(grammar::logical_rest);
                reveal(grammar::binary);
            }
            let op = self.peek().clone();
            self.consume();
            let right = self.logical_operand(or)?;
            expr = Expr::Logical { left: Box::new(expr), op, right: Box::new(right) };
        }
        Ok(expr)
    }

    fn or(&mut self) -> (result: Result<Expr, ParseError>)
        requires
            old(self).wf(),
        ensures
            final(self).parsed_expr(
                *old(self),
                result,
                grammar::logical(
                    old(self).tokens(),
                    old(self).position(),
                    old(self).last_id(),
                    true,
                ),
            ),
        decreases old(self).tokens.len() - old(self).pos, 8nat, 2nat,
    {
        self.parse_logical(true)
    }

    fn and(&mut self) -> (result: Result<Expr, ParseError>)
        requires
            old(self).wf(),
        ensures
            final(self).parsed_expr(
                *old(self),
                result,
                grammar::logical(
                    old(self).tokens(),
                    old(self).position(),
                    old(self).last_id(),
                    false,
                ),
            ),
        decreases old(self).tokens.len() - old(self).pos, 7nat, 2nat,
    {
        self.parse_logical(false)
    }

    #[verifier::rlimit(50)]
    fn assignment(&mut self) -> (result: Result<Expr, ParseError>)
        requires
            old(self).wf(),
        ensures
            final(self).parsed_expr(
                *old(self),
                result,
                grammar::assignment(old(self).tokens(), old(self).position(), old(self).last_id()),
            ),
        decreases old(self).tokens.len() - old(self).pos, 9nat, 0nat,
    {
        proof {
            reveal(grammar::assignment);
            reveal(grammar::logical);
        }
        let expr = self.or()?;
        let ghost target = expr@;
        if self.consume_optional(TokenKind::Equal) {
            if let Expr::Variable { id, variable } = expr {
                let ghost middle = self.last_id();
                let value = self.assignment()?;
                proof {
                    assert(expr_ids(target).contains(id as nat));
                    lemma_assignment_ids(
                        id as nat,
                        variable@,
                        value@,
                        old(self).last_id(),
                        middle,
                        self.last_id(),
                    );
                }
                return Ok(Expr::Assignment { id, variable, expr: Box::new(value) });
            } else {
                let word = TokenKind::Identifier(String::new()).name();
                return Err(ParseError::at(self.prev(2).clone(), ParseErrorKind::Expected(word)));
            }
        }
        Ok(expr)
    }

    fn expression(&mut self) -> (result: Result<Expr, ParseError>)
        requires
            old(self).wf(),
        ensures
            final(self).parsed_expr(
                *old(self),
                result,
                grammar::expression(old(self).tokens(), old(self).position(), old(self).last_id()),
            ),
        decreases old(self).tokens.len() - old(self).pos, 10nat, 0nat,
    {
        proof {
            reveal(grammar::expression);
            reveal(grammar::assignment);
        }
        self.assignment()
    }

    fn expr_stmt(&mut self) -> (result: Result<Stmt, ParseError>)
        requires
            old(self).wf(),
        ensures
            final(self).parsed_stmt(
                *old(self),
                result,
                grammar::expr_stmt(old(self).tokens(), old(self).position(), old(self).last_id()),
            ),
            result matches Ok(stmt) ==> !is_declaration(stmt@),
        decreases old(self).tokens.len() - old(self).pos, 13nat, 0nat,
    {
        proof {
            reveal(grammar::expr_stmt);
            reveal(grammar::expression);
        }
        let expr = self.expression()?;
        self.consume_expect(TokenKind::Semicolon)?;
        Ok(Stmt::ExprStmt { expr: Box::new(expr) })
    }

    fn print_stmt(&mut self) -> (result: Result<Stmt, ParseError>)
        requires
            old(self).wf(),
        ensures
            final(self).parsed_stmt(
                *old(self),
                result,
                grammar::print_stmt(old(self).tokens(), old(self).position(), old(self).last_id()),
            ),
            result matches Ok(stmt) ==> !is_declaration(stmt@),
        decreases old(self).tokens.len() - old(self).pos, 14nat, 0nat,
    {
        proof {
            reveal(grammar::print_stmt);
            reveal(grammar::expression);
        }
        self.consume_expect(TokenKind::Print)?;
        let expr = self.expression()?;
        self.consume_expect(TokenKind::Semicolon)?;
        Ok(Stmt::PrintStmt { expr: Box::new(expr) })
    }

    fn return_stmt(&mut self) -> (result: Result<Stmt, ParseError>)
        requires
            old(self).wf(),
        ensures
            final(self).parsed_stmt(
                *old(self),
                result,
                grammar::return_stmt(old(self).tokens(), old(self).position(), old(self).last_id()),
            ),
            result matches Ok(stmt) ==> !is_declaration(stmt@),
        decreases old(self).tokens.len() - old(self).pos, 14nat, 0nat,
    {
        proof {
            reveal(grammar::return_stmt);
            reveal(grammar::expression);
        }
        self.consume_expect(TokenKind::Return)?;
        let expr = self.expression()?;
        self.consume_expect(TokenKind::Semicolon)?;
        Ok(Stmt::Return { expr: Box::new(expr) })
    }

    #[verifier::rlimit(50)]
    fn var_decl(&mut self) -> (result: Result<Stmt, ParseError>)
        requires
            old(self).wf(),
        ensures
            final(self).parsed_stmt(
                *old(self),
                result,
                grammar::var_decl(old(self).tokens(), old(self).position(), old(self).last_id()),
            ),
            result matches Ok(stmt) ==> stmt@ is VarDecl,
        decreases old(self).tokens.len() - old(self).pos, 14nat, 0nat,
    {
        proof {
            reveal(grammar::var_decl);
            reveal(grammar::expression);
        }
        self.consume_expect(TokenKind::Var)?;
        let variable = self.consume_expect_identifier()?;
        if self.consume_optional(TokenKind::Equal) {
            let value = self.expression()?;
            self.consume_expect(TokenKind::Semicolon)?;
            Ok(Stmt::VarDecl { variable, expr: Some(Box::new(value)) })
        } else {
            self.consume_expect(TokenKind::Semicolon)?;
            Ok(Stmt::VarDecl { variable, expr: None })
        }
    }

    fn parameters(&mut self) -> (result: Result<Vec<Token>, ParseError>)
        requires
            old(self).wf(),
        ensures
            final(self).follows(*old(self)),
            final(self).last_id() == old(self).last_id(),
            grammar::parameters(old(self).tokens(), old(self).position(), old(self).last_id())
                == final(self).stopped(
                match result {
                    Ok(params) => Ok(tokens_view(params@)),
                    Err(error) => Err(error@),
                },
            ),
            result matches Ok(params) ==> are_identifiers(tokens_view(params@)),
    {
        proof {
            reveal(grammar::parameters_rest);
        }
        let ghost before = *self;
        let mut params: Vec<Token> = Vec::new();
        assert(tokens_view(params@) =~= Seq::empty());
        let mut more = !self.next_is(TokenKind::RightParen);
        while more
            invariant
                before == *old(self),
                self.follows(before),
                self.last_id() == before.last_id(),
                are_identifiers(tokens_view(params@)),
                more ==> grammar::parameters(
                    before.tokens(),
                    before.position(),
                    before.last_id(),
                ) == grammar::parameters_rest(
                    self.tokens(),
                    self.position(),
                    self.last_id(),
                    tokens_view(params@),
                ),
                !more ==> grammar::parameters(
                    before.tokens(),
                    before.position(),
                    before.last_id(),
                ) == self.stopped(Ok::<Seq<TokenView>, ParseErrorView>(tokens_view(params@))),
            decreases self.tokens.len() - self.pos,
        {
            proof {
                reveal(grammar::parameters_rest);
            }
            let ghost list = tokens_view(params@);
            let param = self.consume_expect_identifier()?;
            let ghost name = param@;
            params.push(param);
            assert(tokens_view(params@) =~= list.push(name));
            if self.next_is(TokenKind::RightParen) {
                more = false;
            } else {
                self.consume_expect(TokenKind::Comma)?;
            }
        }
        Ok(params)
    }

    #[verifier::rlimit(50)]
    fn fun_decl(&mut self) -> (result: Result<Stmt, ParseError>)
        requires
            old(self).wf(),
        ensures
            final(self).parsed_stmt(
                *old(self),
                result,
                grammar::fun_decl(old(self).tokens(), old(self).position(), old(self).last_id()),
            ),
        decreases old(self).tokens.len() - old(self).pos, 14nat, 0nat,
    {
        proof {
            reveal(grammar::fun_decl);
            reveal(grammar::parameters_rest);
            reveal(grammar::block_stmt);
        }
        self.consume_expect(TokenKind::Fun)?;
        let name = self.consume_expect_identifier()?;
        self.consume_expect(TokenKind::LeftParen)?;
        let params = self.parameters()?;
        self.consume_expect(TokenKind::RightParen)?;
        let body = self.block_stmt()?;
        Ok(Stmt::FunDecl { name, params, body: Box::new(body) })
    }

    #[verifier::rlimit(50)]
    fn block_stmt(&mut self) -> (result: Result<Stmt, ParseError>)
        requires
            old(self).wf(),
        ensures
            final(self).parsed_stmt(
                *old(self),
                result,
                grammar::block_stmt(old(self).tokens(), old(self).position(), old(self).last_id()),
            ),
            result matches Ok(stmt) ==> stmt@ is Block,
        decreases old(self).tokens.len() - old(self).pos, 14nat, 0nat,
    {
        proof {
            reveal(grammar::block_stmt);
            reveal(grammar::block_items);
            reveal(grammar::declaration);
        }
        let ghost before = *self;
        self.consume_expect(TokenKind::LeftBrace)?;
        let mut stmts: Vec<Stmt> = Vec::new();
        assert(stmts_view(stmts@) =~= Seq::empty());
        while !(self.next_is(TokenKind::RightBrace) || self.next_is(TokenKind::Eof))
            invariant
                before == *old(self),
                before.wf(),
                self.follows(before),
                before.position() < self.position(),
                holds(before.tokens(), before.position(), TokenKindView::LeftBrace),
                stmts_formed(stmts_view(stmts@)),
                stmts_ids_unique(stmts_view(stmts@)),
                ids_in(stmts_ids(stmts_view(stmts@)), before.last_id(), self.last_id()),
                grammar::block_items(
                    before.tokens(),
                    before.position() + 1,
                    before.last_id(),
                    Seq::empty(),
                ) == grammar::block_items(
                    self.tokens(),
                    self.position(),
                    self.last_id(),
                    stmts_view(stmts@),
                ),
            decreases self.tokens.len() - self.pos,
        {
            proof {
                reveal(grammar::block_stmt);
                reveal(grammar::block_items);
                reveal(grammar::declaration);
            }
            let ghost list = stmts_view(stmts@);
            let stmt = self.declaration()?;
            let ghost item = stmt@;
            stmts.push(stmt);
            assert(stmts_view(stmts@) =~= list.push(item));
            assert(stmts_view(stmts@).drop_last() =~= list);
        }
        self.consume_expect(TokenKind::RightBrace)?;
        let ghost list = stmts_view(stmts@);
        let block = Stmt::Block { stmts };
        assert(block@->Block_stmts =~= list);
        Ok(block)
    }

    #[verifier::rlimit(50)]
    fn if_stmt(&mut self) -> (result: Result<Stmt, ParseError>)
        requires
            old(self).wf(),
        ensures
            final(self).parsed_stmt(
                *old(self),
                result,
                grammar::if_stmt(old(self).tokens(), old(self).position(), old(self).last_id()),
            ),
            result matches Ok(stmt) ==> !is_declaration(stmt@),
        decreases old(self).tokens.len() - old(self).pos, 14nat, 0nat,
    {
        proof {
            reveal(grammar::if_stmt);
            reveal(grammar::expression);
            reveal(grammar::statement);
        }
        self.consume_expect(TokenKind::If)?;
        self.consume_expect(TokenKind::LeftParen)?;
        let condition = self.expression()?;
        self.consume_expect(TokenKind::RightParen)?;
        let then_stmt = self.statement()?;
        if self.consume_optional(TokenKind::Else) {
            let else_stmt = self.statement()?;
            Ok(
                Stmt::If {
                    condition: Box::new(condition),
                    then_stmt: Box::new(then_stmt),
                    else_stmt: Some(Box::new(else_stmt)),
                },
            )
        } else {
            Ok(
                Stmt::If {
                    condition: Box::new(condition),
                    then_stmt: Box::new(then_stmt),
                    else_stmt: None,
                },
            )
        }
    }

    #[verifier::rlimit(50)]
    fn while_stmt(&mut self) -> (result: Result<Stmt, ParseError>)
        requires
            old(self).wf(),
        ensures
            final(self).parsed_stmt(
                *old(self),
                result,
                grammar::while_stmt(old(self).tokens(), old(self).position(), old(self).last_id()),
            ),
            result matches Ok(stmt) ==> !is_declaration(stmt@),
        decreases old(self).tokens.len() - old(self).pos, 14nat, 0nat,
    {
        proof {
            reveal(grammar::while_stmt);
            reveal(grammar::expression);
            reveal(grammar::statement);
        }
        self.consume_expect(TokenKind::While)?;
        self.consume_expect(TokenKind::LeftParen)?;
        let condition = self.expression()?;
        self.consume_expect(TokenKind::RightParen)?;
        let body = self.statement()?;
        Ok(Stmt::While { condition: Box::new(condition), body: Box::new(body) })
    }

    /// The first clause of a `for`, with its semicolon.
    fn for_initializer(&mut self) -> (result: Result<Option<Stmt>, ParseError>)
        requires
            old(self).wf(),
        ensures
            final(self).follows(*old(self)),
            grammar::for_initializer(old(self).tokens(), old(self).position(), old(self).last_id())
                == final(self).stopped(
                match result {
                    Ok(first) => Ok(stmt_option(first)),
                    Err(error) => Err(error@),
                },
            ),
            result matches Ok(first) ==> {
                &&& old(self).position() < final(self).position()
                &&& first matches Some(stmt) ==> stmt_formed(stmt@) && stmt_ids_unique(stmt@)
                    && ids_in(stmt_ids(stmt@), old(self).last_id(), final(self).last_id())
            },
    {
        proof {
            reveal(grammar::for_initializer);
        }
        if self.next_is(TokenKind::Semicolon) {
            self.consume();
            Ok(None)
        } else if self.next_is(TokenKind::Var) {
            Ok(Some(self.var_decl()?))
        } else {
            Ok(Some(self.expr_stmt()?))
        }
    }

    /// The second clause of a `for`, with its semicolon: where there is
    /// no condition, `true`.
    fn for_condition(&mut self) -> (result: Result<Expr, ParseError>)
        requires
            old(self).wf(),
        ensures
            final(self).parsed_expr(
                *old(self),
                result,
                grammar::for_condition(
                    old(self).tokens(),
                    old(self).position(),
                    old(self).last_id(),
                ),
            ),
    {
        proof {
            reveal(grammar::for_condition);
        }
        let condition: Expr;
        if self.next_is(TokenKind::Semicolon) {
            condition = Expr::Literal(Literal::Bool(true));
        } else {
            condition = self.expression()?;
        }
        self.consume_expect(TokenKind::Semicolon)?;
        Ok(condition)
    }

    /// The third clause of a `for`, with the closing bracket.
    fn for_increment(&mut self) -> (result: Result<Option<Expr>, ParseError>)
        requires
            old(self).wf(),
        ensures
            final(self).follows(*old(self)),
            grammar::for_increment(old(self).tokens(), old(self).position(), old(self).last_id())
                == final(self).stopped(
                match result {
                    Ok(step) => Ok(expr_option(step)),
                    Err(error) => Err(error@),
                },
            ),
            result matches Ok(step) ==> {
                &&& old(self).position() < final(self).position()
                &&& step matches Some(expr) ==> expr_formed(expr@) && expr_ids_unique(expr@)
                    && ids_in(expr_ids(expr@), old(self).last_id(), final(self).last_id())
            },
    {
        proof {
            reveal(grammar::for_increment);
        }
        let increment: Option<Expr>;
        if self.next_is(TokenKind::RightParen) {
            increment = None;
        } else {
            increment = Some(self.expression()?);
        }
        self.consume_expect(TokenKind::RightParen)?;
        Ok(increment)
    }

    /// The loop that a `for` stands for: a `while` over the body, behind
    /// which the increment runs, in a block that starts with the
    /// initializer if there is one.
    fn for_loop(
        initializer: Option<Stmt>,
        condition: Expr,
        increment: Option<Expr>,
        body: Stmt,
    ) -> (stmt: Stmt)
        ensures
            stmt@ == grammar::for_loop(
                stmt_option(initializer),
                condition@,
                expr_option(increment),
                body@,
            ),
    {
        let mut body = body;
        if let Some(increment) = increment {
            let step = Stmt::ExprStmt { expr: Box::new(increment) };
            assert(step@ == StmtView::ExprStmt { expr: increment@ });
            let ghost inner = seq![body@, step@];
            let mut stmts: Vec<Stmt> = Vec::new();
            stmts.push(body);
            stmts.push(step);
            body = Stmt::Block { stmts };
            assert(body@->Block_stmts =~= inner);
        }
        let while_stmt = Stmt::While { condition: Box::new(condition), body: Box::new(body) };
        if let Some(initializer) = initializer {
            let ghost outer = seq![initializer@, while_stmt@];
            let mut stmts: Vec<Stmt> = Vec::new();
            stmts.push(initializer);
            stmts.push(while_stmt);
            let block = Stmt::Block { stmts };
            assert(block@->Block_stmts =~= outer);
            block
        } else {
            let ghost outer = seq![while_stmt@];
            let mut stmts: Vec<Stmt> = Vec::new();
            stmts.push(while_stmt);
            let block = Stmt::Block { stmts };
            assert(block@->Block_stmts =~= outer);
            block
        }
    }

    /// A `for` is parsed into the loop that it stands for.
    #[verifier::rlimit(50)]
    fn for_stmt(&mut self) -> (result: Result<Stmt, ParseError>)
        requires
            old(self).wf(),
        ensures
            final(self).parsed_stmt(
                *old(self),
                result,
                grammar::for_stmt(old(self).tokens(), old(self).position(), old(self).last_id()),
            ),
            result matches Ok(stmt) ==> !is_declaration(stmt@),
        decreases old(self).tokens.len() - old(self).pos, 16nat, 0nat,
    {
        proof {
            reveal(grammar::for_stmt);
            reveal(grammar::statement);
        }
        self.consume_expect(TokenKind::For)?;
        self.consume_expect(TokenKind::LeftParen)?;
        let ghost id0 = self.last_id();
        let initializer = self.for_initializer()?;
        let ghost id1 = self.last_id();
        let condition = self.for_condition()?;
        let ghost id2 = self.last_id();
        let increment = self.for_increment()?;
        let ghost id3 = self.last_id();
        let body = self.statement()?;
        let ghost id4 = self.last_id();
        proof {
            grammar::lemma_for_loop_ids(
                stmt_option(initializer),
                condition@,
                expr_option(increment),
                body@,
                seq![id0, id1, id2, id3, id4],
            );
        }
        Ok(Self::for_loop(initializer, condition, increment, body))
    }

    fn statement(&mut self) -> (result: Result<Stmt, ParseError>)
        requires
            old(self).wf(),
        ensures
            final(self).parsed_stmt(
                *old(self),
                result,
                grammar::statement(old(self).tokens(), old(self).position(), old(self).last_id()),
            ),
            result matches Ok(stmt) ==> !is_declaration(stmt@),
        decreases old(self).tokens.len() - old(self).pos, 19nat, 0nat,
    {
        proof {
            reveal(grammar::statement);
            reveal(grammar::print_stmt);
            reveal(grammar::block_stmt);
            reveal(grammar::if_stmt);
            reveal(grammar::while_stmt);
            reveal(grammar::for_stmt);
            reveal(grammar::return_stmt);
            reveal(grammar::expr_stmt);
        }
        match self.peek_kind() {
            TokenKind::Print => self.print_stmt(),
            TokenKind::LeftBrace => self.block_stmt(),
            TokenKind::If => self.if_stmt(),
            TokenKind::While => self.while_stmt(),
            TokenKind::For => self.for_stmt(),
            TokenKind::Return => self.return_stmt(),
            _ => self.expr_stmt(),
        }
    }

    fn declaration(&mut self) -> (result: Result<Stmt, ParseError>)
        requires
            old(self).wf(),
        ensures
            final(self).parsed_stmt(
                *old(self),
                result,
                grammar::declaration(old(self).tokens(), old(self).position(), old(self).last_id()),
            ),
        decreases old(self).tokens.len() - old(self).pos, 20nat, 0nat,
    {
        proof {
            reveal(grammar::declaration);
            reveal(grammar::var_decl);
            reveal(grammar::fun_decl);
            reveal(grammar::statement);
        }
        match self.peek_kind() {
            TokenKind::Var => self.var_decl(),
            TokenKind::Fun => self.fun_decl(),
            _ => self.statement(),
        }
    }

    /// Whether the parser takes up its work at a token of `kind` after an
    /// error.
    fn is_restart(kind: &TokenKind) -> (restart: bool)
        ensures
            restart == grammar::is_restart(kind@),
    {
        matches!(
            kind,
            TokenKind::Class | TokenKind::Fun | TokenKind::Var | TokenKind::For | TokenKind::If
                | TokenKind::While | TokenKind::Print | TokenKind::Return | TokenKind::Eof
        )
    }

    /// Records `error` and skips to the next token at which a declaration
    /// may start.
    fn synchronize(&mut self, error: ParseError)
        requires
            old(self).wf(),
        ensures
            final(self).wf(),
            final(self).tokens() == old(self).tokens(),
            final(self).last_id() == old(self).last_id(),
            final(self).reported() == old(self).reported().push(error@),
            final(self).position() == grammar::synchronize(
                old(self).tokens(),
                old(self).position(),
            ),
            final(self).position() >= old(self).position(),
    {
        proof {
            reveal(grammar::synchronize);
        }
        let ghost before = *self;
        let ghost reported = self.reported();
        self.errors.push(error);
        assert(self.reported() =~= reported.push(error@));
        while !Self::is_restart(self.peek_kind())
            invariant
                self.wf(),
                self.tokens() == before.tokens(),
                self.last_id() == before.last_id(),
                self.reported() == reported.push(error@),
                self.position() >= before.position(),
                grammar::synchronize(before.tokens(), before.position()) == grammar::synchronize(
                    self.tokens(),
                    self.position(),
                ),
            decreases self.tokens.len() - self.pos,
        {
            proof {
                reveal(grammar::synchronize);
            }
            self.consume();
        }
    }

    /// Parses the tokens from the place reached up to the end of input,
    /// where it stops. Returns the declarations that parsed; the errors
    /// of the others are added to those kept, at most one for each token
    /// read, and [`Parser::errors`] returns them. What is returned is
    /// formed as the grammar says, and no two uses of a variable in it
    /// have the same id.
    #[verifier::rlimit(50)]
    pub fn parse(&mut self) -> (stmts: Vec<Stmt>)
        requires
            old(self).wf(),
        ensures
            final(self).wf(),
            final(self).tokens() == old(self).tokens(),
            grammar::program(
                old(self).tokens(),
                Progress {
                    stmts: Seq::empty(),
                    errors: old(self).reported(),
                    pos: old(self).position(),
                    id: old(self).last_id(),
                },
            ) == (Progress {
                stmts: stmts_view(stmts@),
                errors: final(self).reported(),
                pos: final(self).position(),
                id: final(self).last_id(),
            }),
            kind_at(final(self).tokens(), final(self).position()) is Eof,
            old(self).position() <= final(self).position(),
            old(self).reported().len() <= final(self).reported().len(),
            final(self).reported().take(old(self).reported().len() as int) == old(self).reported(),
            final(self).reported().len() - old(self).reported().len() <= final(self).position()
                - old(self).position(),
            stmts_formed(stmts_view(stmts@)),
            stmts_ids_unique(stmts_view(stmts@)),
            ids_in(stmts_ids(stmts_view(stmts@)), old(self).last_id(), final(self).last_id()),
    {
        proof {
            reveal(grammar::program);
            reveal(grammar::declaration);
            reveal(grammar::synchronize);
        }
        let ghost before = *self;
        let mut stmts: Vec<Stmt> = Vec::new();
        assert(stmts_view(stmts@) =~= Seq::empty());
        assert(self.reported().take(self.reported().len() as int) =~= self.reported());
        while !self.is_at_end()
            invariant
                self.wf(),
                self.tokens() == before.tokens(),
                before.last_id() <= self.last_id(),
                before.position() <= self.position(),
                before.reported().len() <= self.reported().len(),
                self.reported().take(before.reported().len() as int) == before.reported(),
                self.reported().len() - before.reported().len() <= self.position()
                    - before.position(),
                stmts_formed(stmts_view(stmts@)),
                stmts_ids_unique(stmts_view(stmts@)),
                ids_in(stmts_ids(stmts_view(stmts@)), before.last_id(), self.last_id()),
                grammar::program(
                    before.tokens(),
                    Progress {
                        stmts: Seq::empty(),
                        errors: before.reported(),
                        pos: before.position(),
                        id: before.last_id(),
                    },
                ) == grammar::program(
                    self.tokens(),
                    Progress {
                        stmts: stmts_view(stmts@),
                        errors: self.reported(),
                        pos: self.position(),
                        id: self.last_id(),
                    },
                ),
            decreases self.tokens.len() - self.pos,
        {
            proof {
                reveal(grammar::program);
                reveal(grammar::declaration);
                reveal(grammar::synchronize);
            }
            let start = self.pos;
            let ghost list = stmts_view(stmts@);
            let ghost errors = self.reported();
            match self.declaration() {
                Ok(stmt) => {
                    let ghost item = stmt@;
                    stmts.push(stmt);
                    assert(stmts_view(stmts@) =~= list.push(item));
                    assert(stmts_view(stmts@).drop_last() =~= list);
                },
                Err(error) => {
                    self.synchronize(error);
                    assert(self.reported().take(before.reported().len() as int) =~= errors.take(
                        before.reported().len() as int,
                    ));
                    if self.pos == start {
                        self.consume();
                    }
                },
            }
        }
        stmts
    }
}

} // verus!

//! The grammar, as functions from a run of tokens and a place in it to
//! what is parsed there.
//!
//! Each function takes the tokens, the place to start at and the last id
//! given to a use of a variable, and returns what was parsed or the error,
//! with the place and the id that parsing stopped at. Before a function
//! starts again behind something it has parsed, it checks that the place
//! has moved on, which is always so; the check is what keeps the
//! definitions well-founded.
use super::errors::{ParseErrorKindView, ParseErrorView};
use super::expr::{expr_formed, expr_ids, expr_ids_unique, ids_in, ExprView, LiteralView};
use super::stmt::{
    is_declaration, lemma_pair_ids, lemma_single_ids, stmt_formed, stmt_ids, stmt_ids_unique,
    StmtView,
};
use crate::lexer::{TokenKindView, TokenView};
use vstd::prelude::*;

verus! {

/// What a parsing function returns, and where it stopped.
pub struct Parsed<T> {
    pub result: Result<T, ParseErrorView>,
    pub pos: int,
    pub id: nat,
}

pub open spec fn done<T>(value: T, pos: int, id: nat) -> Parsed<T> {
    Parsed { result: Ok(value), pos, id }
}

pub open spec fn failed<T>(error: ParseErrorView, pos: int, id: nat) -> Parsed<T> {
    Parsed { result: Err(error), pos, id }
}

/// The token at `pos`; behind the tokens, an end-of-input token.
pub open spec fn token_at(tokens: Seq<TokenView>, pos: int) -> TokenView {
    if 0 <= pos < tokens.len() {
        tokens[pos]
    } else {
        TokenView { line: 0, col: 0, kind: TokenKindView::Eof }
    }
}

pub open spec fn kind_at(tokens: Seq<TokenView>, pos: int) -> TokenKindView {
    token_at(tokens, pos).kind
}

/// Whether the token at `pos` is of the variant of `kind`.
pub open spec fn holds(tokens: Seq<TokenView>, pos: int, kind: TokenKindView) -> bool {
    kind_at(tokens, pos).same_variant(kind)
}

/// The place behind the token at `pos`. Nothing lies behind the end of
/// input.
pub open spec fn after(tokens: Seq<TokenView>, pos: int) -> int {
    if kind_at(tokens, pos) is Eof {
        pos
    } else {
        pos + 1
    }
}

/// Whether `to` lies behind `from`, both in the tokens.
pub open spec fn ahead(tokens: Seq<TokenView>, from: int, to: int) -> bool {
    0 <= from < to <= tokens.len()
}

/// The error of a token of `kind` missed at `pos`.
pub open spec fn expected<T>(
    tokens: Seq<TokenView>,
    pos: int,
    id: nat,
    kind: TokenKindView,
) -> Parsed<T> {
    failed(
        ParseErrorView {
            token: token_at(tokens, pos),
            kind: ParseErrorKindView::Expected(kind.name()),
        },
        pos,
        id,
    )
}

/// The error of an identifier missed at `pos`.
pub open spec fn expected_identifier<T>(tokens: Seq<TokenView>, pos: int, id: nat) -> Parsed<T> {
    expected(tokens, pos, id, TokenKindView::Identifier(Seq::empty()))
}

/// `parsed`, and behind it a token of `kind`.
pub open spec fn then_expect<T>(
    tokens: Seq<TokenView>,
    parsed: Parsed<T>,
    kind: TokenKindView,
) -> Parsed<T> {
    if parsed.result is Err {
        parsed
    } else if holds(tokens, parsed.pos, kind) {
        Parsed { result: parsed.result, pos: after(tokens, parsed.pos), id: parsed.id }
    } else {
        expected(tokens, parsed.pos, parsed.id, kind)
    }
}

/// primary := NUMBER | STRING | "true" | "false" | "nil" | IDENT
///          | "(" expression ")"
#[verifier::opaque]
pub open spec fn primary(tokens: Seq<TokenView>, pos: int, id: nat) -> Parsed<ExprView>
    decreases tokens.len() - pos, 0nat,
{
    let token = token_at(tokens, pos);
    match token.kind {
        TokenKindView::Number(digits) => done(
            ExprView::Literal(LiteralView::Number(digits)),
            pos + 1,
            id,
        ),
        TokenKindView::String(text) => done(ExprView::Literal(LiteralView::Str(text)), pos + 1, id),
        TokenKindView::True => done(ExprView::Literal(LiteralView::Bool(true)), pos + 1, id),
        TokenKindView::False => done(ExprView::Literal(LiteralView::Bool(false)), pos + 1, id),
        TokenKindView::Nil => done(ExprView::Literal(LiteralView::Nil), pos + 1, id),
        TokenKindView::Identifier(_) => done(
            ExprView::Variable { id: id + 1, variable: token },
            pos + 1,
            id + 1,
        ),
        TokenKindView::LeftParen => {
            let inner = then_expect(
                tokens,
                expression(tokens, pos + 1, id),
                TokenKindView::RightParen,
            );
            match inner.result {
                Ok(expr) => done(ExprView::Grouping(Box::new(expr)), inner.pos, inner.id),
                Err(error) => failed(error, inner.pos, inner.id),
            }
        },
        _ => failed(
            ParseErrorView { token, kind: ParseErrorKindView::ExpectedExpression },
            pos,
            id,
        ),
    }
}

/// call := primary ( "(" arguments? ")" )?
#[verifier::opaque]
pub open spec fn call(tokens: Seq<TokenView>, pos: int, id: nat) -> Parsed<ExprView>
    decreases tokens.len() - pos, 1nat,
{
    let callee = primary(tokens, pos, id);
    match callee.result {
        Err(_) => callee,
        Ok(target) => {
            if holds(tokens, callee.pos, TokenKindView::LeftParen) && ahead(
                tokens,
                pos,
                callee.pos,
            ) {
                let args = arguments(tokens, callee.pos + 1, callee.id);
                match args.result {
                    Err(error) => failed(error, args.pos, args.id),
                    Ok(list) => {
                        if holds(tokens, args.pos, TokenKindView::RightParen) {
                            done(
                                ExprView::FunCall {
                                    callee: Box::new(target),
                                    paren: token_at(tokens, args.pos),
                                    args: list,
                                },
                                args.pos + 1,
                                args.id,
                            )
                        } else {
                            expected(tokens, args.pos, args.id, TokenKindView::RightParen)
                        }
                    },
                }
            } else {
                callee
            }
        },
    }
}

/// arguments := expression ( "," expression )*, up to a closing bracket
/// that is left in place.
#[verifier::opaque]
pub open spec fn arguments(tokens: Seq<TokenView>, pos: int, id: nat) -> Parsed<Seq<ExprView>>
    decreases tokens.len() - pos, 12nat,
{
    if holds(tokens, pos, TokenKindView::RightParen) {
        done(Seq::empty(), pos, id)
    } else {
        arguments_rest(tokens, pos, id, Seq::empty())
    }
}

/// The arguments from `pos` on, behind those in `list`.
#[verifier::opaque]
pub open spec fn arguments_rest(
    tokens: Seq<TokenView>,
    pos: int,
    id: nat,
    list: Seq<ExprView>,
) -> Parsed<Seq<ExprView>>
    decreases tokens.len() - pos, 11nat,
{
    let arg = expression(tokens, pos, id);
    match arg.result {
        Err(error) => failed(error, arg.pos, arg.id),
        Ok(expr) => {
            if holds(tokens, arg.pos, TokenKindView::RightParen) {
                done(list.push(expr), arg.pos, arg.id)
            } else if !holds(tokens, arg.pos, TokenKindView::Comma) {
                expected(tokens, arg.pos, arg.id, TokenKindView::Comma)
            } else if ahead(tokens, pos, arg.pos) {
                arguments_rest(tokens, arg.pos + 1, arg.id, list.push(expr))
            } else {
                done(list, pos, id)
            }
        },
    }
}

/// unary := ( "!" | "-" ) unary | call
#[verifier::opaque]
pub open spec fn unary(tokens: Seq<TokenView>, pos: int, id: nat) -> Parsed<ExprView>
    decreases tokens.len() - pos, 2nat,
{
    if kind_at(tokens, pos) is Bang || kind_at(tokens, pos) is Minus {
        let right = unary(tokens, pos + 1, id);
        match right.result {
            Ok(expr) => done(
                ExprView::Unary { op: token_at(tokens, pos), right: Box::new(expr) },
                right.pos,
                right.id,
            ),
            Err(_) => right,
        }
    } else {
        call(tokens, pos, id)
    }
}

/// The operators of one level of binary expressions. The levels are
/// 0: equality, 1: comparison, 2: term, 3: factor.
pub open spec fn is_binary_operator(level: nat, kind: TokenKindView) -> bool {
    if level == 0 {
        kind is EqualEqual || kind is BangEqual
    } else if level == 1 {
        kind is Greater || kind is GreaterEqual || kind is Less || kind is LessEqual
    } else if level == 2 {
        kind is Plus || kind is Minus
    } else {
        kind is Star || kind is Slash
    }
}

pub open spec fn binary_rank(level: nat) -> nat {
    if level >= 3 {
        3
    } else {
        (6 - level) as nat
    }
}

/// equality   := comparison ( ("==" | "!=") comparison )*
/// comparison := term ( (">" | ">=" | "<" | "<=") term )*
/// term       := factor ( ("+" | "-") factor )*
/// factor     := unary ( ("*" | "/") unary )*
#[verifier::opaque]
pub open spec fn binary(tokens: Seq<TokenView>, pos: int, id: nat, level: nat) -> Parsed<ExprView>
    decreases tokens.len() - pos, binary_rank(level),
{
    let left = if level >= 3 {
        unary(tokens, pos, id)
    } else {
        binary(tokens, pos, id, level + 1)
    };
    match left.result {
        Err(_) => left,
        Ok(expr) => {
            if ahead(tokens, pos, left.pos) {
                binary_rest(tokens, left.pos, left.id, level, expr)
            } else {
                left
            }
        },
    }
}

/// What follows the operand `left` of a binary expression of `level`:
/// operators and operands, joined from the left.
#[verifier::opaque]
pub open spec fn binary_rest(
    tokens: Seq<TokenView>,
    pos: int,
    id: nat,
    level: nat,
    left: ExprView,
) -> Parsed<ExprView>
    decreases tokens.len() - pos, 0nat,
{
    if is_binary_operator(level, kind_at(tokens, pos)) {
        let right = if level >= 3 {
            unary(tokens, pos + 1, id)
        } else {
            binary(tokens, pos + 1, id, level + 1)
        };
        match right.result {
            Err(_) => right,
            Ok(expr) => {
                let joined = ExprView::Binary {
                    left: Box::new(left),
                    op: token_at(tokens, pos),
                    right: Box::new(expr),
                };
                if ahead(tokens, pos, right.pos) {
                    binary_rest(tokens, right.pos, right.id, level, joined)
                } else {
                    done(joined, right.pos, right.id)
                }
            },
        }
    } else {
        done(left, pos, id)
    }
}

pub open spec fn is_logical_operator(or: bool, kind: TokenKindView) -> bool {
    if or {
        kind is Or
    } else {
        kind is And
    }
}

/// or  := and ( "or" and )*
/// and := equality ( "and" equality )*
#[verifier::opaque]
pub open spec fn logical(tokens: Seq<TokenView>, pos: int, id: nat, or: bool) -> Parsed<ExprView>
    decreases tokens.len() - pos,
        if or {
            8nat
        } else {
            7nat
        },
{
    let left = if or {
        logical(tokens, pos, id, false)
    } else {
        binary(tokens, pos, id, 0)
    };
    match left.result {
        Err(_) => left,
        Ok(expr) => {
            if ahead(tokens, pos, left.pos) {
                logical_rest(tokens, left.pos, left.id, or, expr)
            } else {
                left
            }
        },
    }
}

/// What follows the operand `left` of a logical expression.
#[verifier::opaque]
pub open spec fn logical_rest(
    tokens: Seq<TokenView>,
    pos: int,
    id: nat,
    or: bool,
    left: ExprView,
) -> Parsed<ExprView>
    decreases tokens.len() - pos, 0nat,
{
    if is_logical_operator(or, kind_at(tokens, pos)) {
        let right = if or {
            logical(tokens, pos + 1, id, false)
        } else {
            binary(tokens, pos + 1, id, 0)
        };
        match right.result {
            Err(_) => right,
            Ok(expr) => {
                let joined = ExprView::Logical {
                    left: Box::new(left),
                    op: token_at(tokens, pos),
                    right: Box::new(expr),
                };
                if ahead(tokens, pos, right.pos) {
                    logical_rest(tokens, right.pos, right.id, or, joined)
                } else {
                    done(joined, right.pos, right.id)
                }
            },
        }
    } else {
        done(left, pos, id)
    }
}

/// assignment := or ( "=" assignment )?, where only a variable may
/// stand before the equals sign. The error of another target names
/// the token before the equals sign.
#[verifier::opaque]
pub open spec fn assignment(tokens: Seq<TokenView>, pos: int, id: nat) -> Parsed<ExprView>
    decreases tokens.len() - pos, 9nat,
{
    let left = logical(tokens, pos, id, true);
    match left.result {
        Err(_) => left,
        Ok(target) => {
            if holds(tokens, left.pos, TokenKindView::Equal) && ahead(tokens, pos, left.pos) {
                match target {
                    ExprView::Variable { id: use_id, variable } => {
                        let value = assignment(tokens, left.pos + 1, left.id);
                        match value.result {
                            Ok(expr) => done(
                                ExprView::Assignment {
                                    id: use_id,
                                    variable,
                                    expr: Box::new(expr),
                                },
                                value.pos,
                                value.id,
                            ),
                            Err(_) => value,
                        }
                    },
                    _ => failed(
                        ParseErrorView {
                            token: token_at(tokens, left.pos - 1),
                            kind: ParseErrorKindView::Expected(
                                TokenKindView::Identifier(Seq::empty()).name(),
                            ),
                        },
                        left.pos + 1,
                        left.id,
                    ),
                }
            } else {
                left
            }
        },
    }
}

/// expression := assignment
#[verifier::opaque]
pub open spec fn expression(tokens: Seq<TokenView>, pos: int, id: nat) -> Parsed<ExprView>
    decreases tokens.len() - pos, 10nat,
{
    assignment(tokens, pos, id)
}

/// `parsed` as a statement made by `wrap`.
pub open spec fn as_stmt(parsed: Parsed<ExprView>, wrap: spec_fn(ExprView) -> StmtView) -> Parsed<
    StmtView,
> {
    match parsed.result {
        Ok(expr) => done(wrap(expr), parsed.pos, parsed.id),
        Err(error) => failed(error, parsed.pos, parsed.id),
    }
}

/// expr_stmt := expression ";"
#[verifier::opaque]
pub open spec fn expr_stmt(tokens: Seq<TokenView>, pos: int, id: nat) -> Parsed<StmtView>
    decreases tokens.len() - pos, 13nat,
{
    as_stmt(
        then_expect(tokens, expression(tokens, pos, id), TokenKindView::Semicolon),
        |expr: ExprView| StmtView::ExprStmt { expr },
    )
}

/// print_stmt := "print" expression ";"
#[verifier::opaque]
pub open spec fn print_stmt(tokens: Seq<TokenView>, pos: int, id: nat) -> Parsed<StmtView>
    decreases tokens.len() - pos, 14nat,
{
    if !holds(tokens, pos, TokenKindView::Print) {
        expected(tokens, pos, id, TokenKindView::Print)
    } else {
        as_stmt(
            then_expect(tokens, expression(tokens, pos + 1, id), TokenKindView::Semicolon),
            |expr: ExprView| StmtView::PrintStmt { expr },
        )
    }
}

/// return_stmt := "return" expression ";"
#[verifier::opaque]
pub open spec fn return_stmt(tokens: Seq<TokenView>, pos: int, id: nat) -> Parsed<StmtView>
    decreases tokens.len() - pos, 14nat,
{
    if !holds(tokens, pos, TokenKindView::Return) {
        expected(tokens, pos, id, TokenKindView::Return)
    } else {
        as_stmt(
            then_expect(tokens, expression(tokens, pos + 1, id), TokenKindView::Semicolon),
            |expr: ExprView| StmtView::Return { expr },
        )
    }
}

/// var_decl := "var" IDENT ( "=" expression )? ";"
#[verifier::opaque]
pub open spec fn var_decl(tokens: Seq<TokenView>, pos: int, id: nat) -> Parsed<StmtView>
    decreases tokens.len() - pos, 14nat,
{
    let variable = token_at(tokens, pos + 1);
    if !holds(tokens, pos, TokenKindView::Var) {
        expected(tokens, pos, id, TokenKindView::Var)
    } else if !(variable.kind is Identifier) {
        expected_identifier(tokens, pos + 1, id)
    } else if holds(tokens, pos + 2, TokenKindView::Equal) {
        as_stmt(
            then_expect(tokens, expression(tokens, pos + 3, id), TokenKindView::Semicolon),
            |expr: ExprView| StmtView::VarDecl { variable, expr: Some(expr) },
        )
    } else if holds(tokens, pos + 2, TokenKindView::Semicolon) {
        done(StmtView::VarDecl { variable, expr: None }, pos + 3, id)
    } else {
        expected(tokens, pos + 2, id, TokenKindView::Semicolon)
    }
}

/// parameters := IDENT ( "," IDENT )*, up to a closing bracket that is
/// left in place.
pub open spec fn parameters(tokens: Seq<TokenView>, pos: int, id: nat) -> Parsed<Seq<TokenView>> {
    if holds(tokens, pos, TokenKindView::RightParen) {
        done(Seq::empty(), pos, id)
    } else {
        parameters_rest(tokens, pos, id, Seq::empty())
    }
}

/// The parameters from `pos` on, behind those in `list`.
#[verifier::opaque]
pub open spec fn parameters_rest(
    tokens: Seq<TokenView>,
    pos: int,
    id: nat,
    list: Seq<TokenView>,
) -> Parsed<Seq<TokenView>>
    decreases tokens.len() - pos,
{
    if !(kind_at(tokens, pos) is Identifier) {
        expected_identifier(tokens, pos, id)
    } else if holds(tokens, pos + 1, TokenKindView::RightParen) {
        done(list.push(token_at(tokens, pos)), pos + 1, id)
    } else if holds(tokens, pos + 1, TokenKindView::Comma) {
        parameters_rest(tokens, pos + 2, id, list.push(token_at(tokens, pos)))
    } else {
        expected(tokens, pos + 1, id, TokenKindView::Comma)
    }
}

/// fun_decl := "fun" IDENT "(" parameters? ")" block
#[verifier::opaque]
pub open spec fn fun_decl(tokens: Seq<TokenView>, pos: int, id: nat) -> Parsed<StmtView>
    decreases tokens.len() - pos, 14nat,
{
    let name = token_at(tokens, pos + 1);
    if !holds(tokens, pos, TokenKindView::Fun) {
        expected(tokens, pos, id, TokenKindView::Fun)
    } else if !(name.kind is Identifier) {
        expected_identifier(tokens, pos + 1, id)
    } else if !holds(tokens, pos + 2, TokenKindView::LeftParen) {
        expected(tokens, pos + 2, id, TokenKindView::LeftParen)
    } else {
        let params = then_expect(
            tokens,
            parameters(tokens, pos + 3, id),
            TokenKindView::RightParen,
        );
        match params.result {
            Err(error) => failed(error, params.pos, params.id),
            Ok(list) => {
                if ahead(tokens, pos, params.pos) {
                    let body = block_stmt(tokens, params.pos, params.id);
                    match body.result {
                        Err(_) => body,
                        Ok(block) => done(
                            StmtView::FunDecl { name, params: list, body: Box::new(block) },
                            body.pos,
                            body.id,
                        ),
                    }
                } else {
                    failed(arbitrary(), pos, id)
                }
            },
        }
    }
}

/// block := "{" declaration* "}"
#[verifier::opaque]
pub open spec fn block_stmt(tokens: Seq<TokenView>, pos: int, id: nat) -> Parsed<StmtView>
    decreases tokens.len() - pos, 14nat,
{
    if !holds(tokens, pos, TokenKindView::LeftBrace) {
        expected(tokens, pos, id, TokenKindView::LeftBrace)
    } else {
        let items = then_expect(
            tokens,
            block_items(tokens, pos + 1, id, Seq::empty()),
            TokenKindView::RightBrace,
        );
        match items.result {
            Err(error) => failed(error, items.pos, items.id),
            Ok(stmts) => done(StmtView::Block { stmts }, items.pos, items.id),
        }
    }
}

/// The declarations from `pos` up to a closing brace or the end of
/// input, behind those in `list`.
#[verifier::opaque]
pub open spec fn block_items(
    tokens: Seq<TokenView>,
    pos: int,
    id: nat,
    list: Seq<StmtView>,
) -> Parsed<Seq<StmtView>>
    decreases tokens.len() - pos, 21nat,
{
    if kind_at(tokens, pos) is RightBrace || kind_at(tokens, pos) is Eof {
        done(list, pos, id)
    } else {
        let item = declaration(tokens, pos, id);
        match item.result {
            Err(error) => failed(error, item.pos, item.id),
            Ok(stmt) => {
                if ahead(tokens, pos, item.pos) {
                    block_items(tokens, item.pos, item.id, list.push(stmt))
                } else {
                    done(list, pos, id)
                }
            },
        }
    }
}

/// if_stmt := "if" "(" expression ")" statement ( "else" statement )?
#[verifier::opaque]
pub open spec fn if_stmt(tokens: Seq<TokenView>, pos: int, id: nat) -> Parsed<StmtView>
    decreases tokens.len() - pos, 14nat,
{
    if !holds(tokens, pos, TokenKindView::If) {
        expected(tokens, pos, id, TokenKindView::If)
    } else if !holds(tokens, pos + 1, TokenKindView::LeftParen) {
        expected(tokens, pos + 1, id, TokenKindView::LeftParen)
    } else {
        let head = then_expect(
            tokens,
            expression(tokens, pos + 2, id),
            TokenKindView::RightParen,
        );
        match head.result {
            Err(error) => failed(error, head.pos, head.id),
            Ok(condition) => {
                if !ahead(tokens, pos, head.pos) {
                    failed(arbitrary(), pos, id)
                } else {
                    let then_part = statement(tokens, head.pos, head.id);
                    match then_part.result {
                        Err(_) => then_part,
                        Ok(then_stmt) => {
                            if holds(tokens, then_part.pos, TokenKindView::Else) && ahead(
                                tokens,
                                pos,
                                then_part.pos,
                            ) {
                                let else_part = statement(
                                    tokens,
                                    then_part.pos + 1,
                                    then_part.id,
                                );
                                match else_part.result {
                                    Err(_) => else_part,
                                    Ok(else_stmt) => done(
                                        StmtView::If {
                                            condition,
                                            then_stmt: Box::new(then_stmt),
                                            else_stmt: Some(Box::new(else_stmt)),
                                        },
                                        else_part.pos,
                                        else_part.id,
                                    ),
                                }
                            } else {
                                done(
                                    StmtView::If {
                                        condition,
                                        then_stmt: Box::new(then_stmt),
                                        else_stmt: None,
                                    },
                                    then_part.pos,
                                    then_part.id,
                                )
                            }
                        },
                    }
                }
            },
        }
    }
}

/// while_stmt := "while" "(" expression ")" statement
#[verifier::opaque]
pub open spec fn while_stmt(tokens: Seq<TokenView>, pos: int, id: nat) -> Parsed<StmtView>
    decreases tokens.len() - pos, 14nat,
{
    if !holds(tokens, pos, TokenKindView::While) {
        expected(tokens, pos, id, TokenKindView::While)
    } else if !holds(tokens, pos + 1, TokenKindView::LeftParen) {
        expected(tokens, pos + 1, id, TokenKindView::LeftParen)
    } else {
        let head = then_expect(
            tokens,
            expression(tokens, pos + 2, id),
            TokenKindView::RightParen,
        );
        match head.result {
            Err(error) => failed(error, head.pos, head.id),
            Ok(condition) => {
                if !ahead(tokens, pos, head.pos) {
                    failed(arbitrary(), pos, id)
                } else {
                    let body = statement(tokens, head.pos, head.id);
                    match body.result {
                        Err(_) => body,
                        Ok(stmt) => done(
                            StmtView::While { condition, body: Box::new(stmt) },
                            body.pos,
                            body.id,
                        ),
                    }
                }
            },
        }
    }
}

/// The first clause of a `for`: nothing, a variable declaration or an
/// expression statement, each with its semicolon.
#[verifier::opaque]
pub open spec fn for_initializer(tokens: Seq<TokenView>, pos: int, id: nat) -> Parsed<
    Option<StmtView>,
>
    decreases tokens.len() - pos, 15nat,
{
    if holds(tokens, pos, TokenKindView::Semicolon) {
        done(None, pos + 1, id)
    } else {
        let first = if holds(tokens, pos, TokenKindView::Var) {
            var_decl(tokens, pos, id)
        } else {
            expr_stmt(tokens, pos, id)
        };
        match first.result {
            Ok(stmt) => done(Some(stmt), first.pos, first.id),
            Err(error) => failed(error, first.pos, first.id),
        }
    }
}

/// The second clause of a `for`, with its semicolon: an expression, or
/// `true` where there is none.
#[verifier::opaque]
pub open spec fn for_condition(tokens: Seq<TokenView>, pos: int, id: nat) -> Parsed<ExprView>
    decreases tokens.len() - pos, 15nat,
{
    if holds(tokens, pos, TokenKindView::Semicolon) {
        done(ExprView::Literal(LiteralView::Bool(true)), pos + 1, id)
    } else {
        then_expect(tokens, expression(tokens, pos, id), TokenKindView::Semicolon)
    }
}

/// The third clause of a `for`, with the closing bracket: an expression
/// or nothing.
#[verifier::opaque]
pub open spec fn for_increment(tokens: Seq<TokenView>, pos: int, id: nat) -> Parsed<
    Option<ExprView>,
>
    decreases tokens.len() - pos, 15nat,
{
    if holds(tokens, pos, TokenKindView::RightParen) {
        done(None, pos + 1, id)
    } else {
        let step = then_expect(tokens, expression(tokens, pos, id), TokenKindView::RightParen);
        match step.result {
            Ok(expr) => done(Some(expr), step.pos, step.id),
            Err(error) => failed(error, step.pos, step.id),
        }
    }
}

/// The statement that a `for` stands for: a loop over the body, behind
/// which the increment runs, in a block that starts with the initializer
/// if there is one. The block is there without an initializer too; a body
/// with no increment behind it is the body of the loop as it is.
pub open spec fn for_loop(
    initializer: Option<StmtView>,
    condition: ExprView,
    increment: Option<ExprView>,
    body: StmtView,
) -> StmtView {
    let round = match increment {
        Some(expr) => StmtView::Block { stmts: seq![body, StmtView::ExprStmt { expr }] },
        None => body,
    };
    let repeat = StmtView::While { condition, body: Box::new(round) };
    match initializer {
        Some(first) => StmtView::Block { stmts: seq![first, repeat] },
        None => StmtView::Block { stmts: seq![repeat] },
    }
}

/// for_stmt := "for" "(" ( var_decl | expr_stmt | ";" ) expression? ";"
///             expression? ")" statement
#[verifier::opaque]
pub open spec fn for_stmt(tokens: Seq<TokenView>, pos: int, id: nat) -> Parsed<StmtView>
    decreases tokens.len() - pos, 16nat,
{
    if !holds(tokens, pos, TokenKindView::For) {
        expected(tokens, pos, id, TokenKindView::For)
    } else if !holds(tokens, pos + 1, TokenKindView::LeftParen) {
        expected(tokens, pos + 1, id, TokenKindView::LeftParen)
    } else {
        let first = for_initializer(tokens, pos + 2, id);
        match first.result {
            Err(error) => failed(error, first.pos, first.id),
            Ok(initializer) => {
                if !ahead(tokens, pos, first.pos) {
                    failed(arbitrary(), pos, id)
                } else {
                    let second = for_condition(tokens, first.pos, first.id);
                    match second.result {
                        Err(error) => failed(error, second.pos, second.id),
                        Ok(condition) => {
                            if !ahead(tokens, pos, second.pos) {
                                failed(arbitrary(), pos, id)
                            } else {
                                let third = for_increment(tokens, second.pos, second.id);
                                match third.result {
                                    Err(error) => failed(error, third.pos, third.id),
                                    Ok(increment) => {
                                        if !ahead(tokens, pos, third.pos) {
                                            failed(arbitrary(), pos, id)
                                        } else {
                                            let body = statement(tokens, third.pos, third.id);
                                            match body.result {
                                                Err(_) => body,
                                                Ok(stmt) => done(
                                                    for_loop(
                                                        initializer,
                                                        condition,
                                                        increment,
                                                        stmt,
                                                    ),
                                                    body.pos,
                                                    body.id,
                                                ),
                                            }
                                        }
                                    },
                                }
                            }
                        },
                    }
                }
            },
        }
    }
}

/// statement := print_stmt | block | if_stmt | while_stmt | for_stmt
///            | return_stmt | expr_stmt
#[verifier::opaque]
pub open spec fn statement(tokens: Seq<TokenView>, pos: int, id: nat) -> Parsed<StmtView>
    decreases tokens.len() - pos, 19nat,
{
    match kind_at(tokens, pos) {
        TokenKindView::Print => print_stmt(tokens, pos, id),
        TokenKindView::LeftBrace => block_stmt(tokens, pos, id),
        TokenKindView::If => if_stmt(tokens, pos, id),
        TokenKindView::While => while_stmt(tokens, pos, id),
        TokenKindView::For => for_stmt(tokens, pos, id),
        TokenKindView::Return => return_stmt(tokens, pos, id),
        _ => expr_stmt(tokens, pos, id),
    }
}

/// declaration := var_decl | fun_decl | statement
#[verifier::opaque]
pub open spec fn declaration(tokens: Seq<TokenView>, pos: int, id: nat) -> Parsed<StmtView>
    decreases tokens.len() - pos, 20nat,
{
    match kind_at(tokens, pos) {
        TokenKindView::Var => var_decl(tokens, pos, id),
        TokenKindView::Fun => fun_decl(tokens, pos, id),
        _ => statement(tokens, pos, id),
    }
}

/// The tokens at which the parser takes up its work after an error.
pub open spec fn is_restart(kind: TokenKindView) -> bool {
    kind is Class || kind is Fun || kind is Var || kind is For || kind is If || kind is While
        || kind is Print || kind is Return || kind is Eof
}

/// The first place at or behind `pos` that holds a token to restart at.
#[verifier::opaque]
pub open spec fn synchronize(tokens: Seq<TokenView>, pos: int) -> int
    decreases tokens.len() - pos,
{
    if is_restart(kind_at(tokens, pos)) {
        pos
    } else {
        synchronize(tokens, pos + 1)
    }
}

/// Where the parser goes on after a declaration that started at `start`
/// failed at `stop`: at the next token to restart at; and behind it, if
/// that is where the failed declaration started, so that no declaration
/// is tried twice at one place.
pub open spec fn recover(tokens: Seq<TokenView>, start: int, stop: int) -> int {
    let restart = synchronize(tokens, stop);
    if restart == start {
        after(tokens, restart)
    } else {
        restart
    }
}

/// What a whole parse returns: the statements that parsed, and the errors
/// of those that did not.
pub struct Progress {
    pub stmts: Seq<StmtView>,
    pub errors: Seq<ParseErrorView>,
    pub pos: int,
    pub id: nat,
}

/// program := declaration* EOF, from `pos` on and behind what `read`
/// holds.
#[verifier::opaque]
pub open spec fn program(tokens: Seq<TokenView>, read: Progress) -> Progress
    decreases tokens.len() - read.pos,
{
    if kind_at(tokens, read.pos) is Eof {
        read
    } else {
        let item = declaration(tokens, read.pos, read.id);
        let next = match item.result {
            Ok(stmt) => Progress {
                stmts: read.stmts.push(stmt),
                errors: read.errors,
                pos: item.pos,
                id: item.id,
            },
            Err(error) => Progress {
                stmts: read.stmts,
                errors: read.errors.push(error),
                pos: recover(tokens, read.pos, item.pos),
                id: item.id,
            },
        };
        if ahead(tokens, read.pos, next.pos) {
            program(tokens, next)
        } else {
            read
        }
    }
}

/// The statement that a `for` stands for holds each id once, where its
/// four parts do and their ids lie in four ranges, one above the other,
/// in the order in which the parts are written.
pub proof fn lemma_for_loop_ids(
    initializer: Option<StmtView>,
    condition: ExprView,
    increment: Option<ExprView>,
    body: StmtView,
    bounds: Seq<nat>,
)
    requires
        bounds.len() == 5,
        bounds[0] <= bounds[1] <= bounds[2] <= bounds[3] <= bounds[4],
        initializer matches Some(first) ==> stmt_ids_unique(first) && ids_in(
            stmt_ids(first),
            bounds[0],
            bounds[1],
        ),
        expr_ids_unique(condition),
        ids_in(expr_ids(condition), bounds[1], bounds[2]),
        increment matches Some(step) ==> expr_ids_unique(step) && ids_in(
            expr_ids(step),
            bounds[2],
            bounds[3],
        ),
        stmt_ids_unique(body),
        ids_in(stmt_ids(body), bounds[3], bounds[4]),
    ensures
        stmt_ids_unique(for_loop(initializer, condition, increment, body)),
        ids_in(stmt_ids(for_loop(initializer, condition, increment, body)), bounds[0], bounds[4]),
        ({
            &&& initializer matches Some(first) ==> stmt_formed(first)
            &&& expr_formed(condition)
            &&& increment matches Some(step) ==> expr_formed(step)
            &&& stmt_formed(body)
            &&& !is_declaration(body)
        }) ==> {
            &&& stmt_formed(for_loop(initializer, condition, increment, body))
            &&& !is_declaration(for_loop(initializer, condition, increment, body))
        },
{
    let round = match increment {
        Some(expr) => StmtView::Block { stmts: seq![body, StmtView::ExprStmt { expr }] },
        None => body,
    };
    if let Some(expr) = increment {
        lemma_pair_ids(body, StmtView::ExprStmt { expr });
    }
    let formed = {
        &&& initializer matches Some(first) ==> stmt_formed(first)
        &&& expr_formed(condition)
        &&& increment matches Some(step) ==> expr_formed(step)
        &&& stmt_formed(body)
        &&& !is_declaration(body)
    };
    assert(formed ==> stmt_formed(round) && !is_declaration(round));
    assert(stmt_ids_unique(round));
    assert(ids_in(stmt_ids(round), bounds[2], bounds[4]));
    let repeat = StmtView::While { condition, body: Box::new(round) };
    assert(formed ==> stmt_formed(repeat));
    assert(stmt_ids_unique(repeat));
    assert(ids_in(stmt_ids(repeat), bounds[1], bounds[4]));
    match initializer {
        Some(first) => lemma_pair_ids(first, repeat),
        None => lemma_single_ids(repeat),
    }
}

} // verus!

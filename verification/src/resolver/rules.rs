//! The rules of resolution, as functions from the state of the resolver
//! and a piece of the program to the state after it.
use super::errors::ResolveErrorView;
use super::variable_state::VariableStateView;
use crate::lexer::TokenView;
use crate::parser::{ExprView, StmtView};
use vstd::prelude::*;

verus! {

/// The state of the resolver: the scopes that are open, the outermost
/// first, each with its variables in the order of their declarations;
/// the depth found for each use of a variable, by the id of the use; and
/// the errors met.
pub struct ResolverView {
    pub scopes: Seq<Seq<VariableStateView>>,
    pub bindings: Map<nat, nat>,
    pub errors: Seq<ResolveErrorView>,
}

/// The state after a step of resolution, and the error that ended the
/// step, if one did.
pub struct Resolved {
    pub state: ResolverView,
    pub result: Result<(), ResolveErrorView>,
}

pub open spec fn passed(state: ResolverView) -> Resolved {
    Resolved { state, result: Ok(()) }
}

pub open spec fn failed(state: ResolverView, error: ResolveErrorView) -> Resolved {
    Resolved { state, result: Err(error) }
}

/// The place of the variable `name` in `scope`, looked for from `from`
/// on.
pub open spec fn find(scope: Seq<VariableStateView>, name: Seq<char>, from: int) -> Option<int>
    decreases scope.len() - from,
{
    if from < 0 || from >= scope.len() {
        None
    } else if scope[from].token.kind.identifier() == Some(name) {
        Some(from)
    } else {
        find(scope, name, from + 1)
    }
}

/// The innermost scope that holds the variable `name`, by its depth (0 is
/// the innermost scope of all), looked for from `depth` outwards; and the
/// place of the variable in it.
pub open spec fn lookup(scopes: Seq<Seq<VariableStateView>>, name: Seq<char>, depth: nat) -> Option<
    (nat, int),
>
    decreases scopes.len() - depth,
{
    if depth >= scopes.len() {
        None
    } else {
        match find(scopes[scopes.len() - 1 - depth], name, 0) {
            Some(place) => Some((depth, place)),
            None => lookup(scopes, name, depth + 1),
        }
    }
}

pub open spec fn begin_scope(state: ResolverView) -> ResolverView {
    ResolverView { scopes: state.scopes.push(Seq::empty()), ..state }
}

/// The name of the variable that `token` names.
pub open spec fn name_of(token: TokenView) -> Seq<char>
    recommends
        token.kind is Identifier,
{
    token.kind->Identifier_0
}

/// Declares the variable of `token` in the innermost scope, as assigned
/// or not. The name must be new to that scope.
pub open spec fn declare(state: ResolverView, token: TokenView, assigned: bool) -> Resolved
    recommends
        token.kind is Identifier,
        state.scopes.len() > 0,
{
    let last = state.scopes.last();
    if find(last, name_of(token), 0) is Some {
        failed(state, ResolveErrorView::OvershadowingSameBlock(token))
    } else {
        let declared = VariableStateView { token, ever_assigned: assigned, ever_read: false };
        passed(
            ResolverView {
                scopes: state.scopes.update(state.scopes.len() - 1, last.push(declared)),
                ..state
            },
        )
    }
}

/// Binds the use `id` of the variable of `token`: finds the innermost
/// scope that holds the variable, notes its depth for `id`, and marks the
/// variable as assigned or as read.
pub open spec fn bind(state: ResolverView, id: nat, token: TokenView, assign: bool) -> Resolved
    recommends
        token.kind is Identifier,
{
    match lookup(state.scopes, name_of(token), 0) {
        Some((depth, place)) => {
            let at = state.scopes.len() - 1 - depth;
            let found = state.scopes[at][place];
            let marked = if assign {
                VariableStateView { ever_assigned: true, ..found }
            } else {
                VariableStateView { ever_read: true, ..found }
            };
            passed(
                ResolverView {
                    scopes: state.scopes.update(at, state.scopes[at].update(place, marked)),
                    bindings: state.bindings.insert(id, depth),
                    ..state
                },
            )
        },
        None => failed(state, ResolveErrorView::UndeclaredVariable(token)),
    }
}

/// The first thing wrong with a variable of `scope`, from `from` on.
pub open spec fn first_failure(scope: Seq<VariableStateView>, from: int) -> Result<
    (),
    ResolveErrorView,
>
    decreases scope.len() - from,
{
    if from < 0 || from >= scope.len() {
        Ok(())
    } else {
        match scope[from].check() {
            Err(error) => Err(error),
            Ok(_) => first_failure(scope, from + 1),
        }
    }
}

/// All that is wrong with the variables of `scope`, from `from` on,
/// behind `found`.
pub open spec fn failures(
    scope: Seq<VariableStateView>,
    from: int,
    found: Seq<ResolveErrorView>,
) -> Seq<ResolveErrorView>
    decreases scope.len() - from,
{
    if from < 0 || from >= scope.len() {
        found
    } else {
        match scope[from].check() {
            Err(error) => failures(scope, from + 1, found.push(error)),
            Ok(_) => failures(scope, from + 1, found),
        }
    }
}

/// Closes the innermost scope, with the first thing wrong with one of
/// its variables.
pub open spec fn end_scope(state: ResolverView) -> Resolved {
    if state.scopes.len() == 0 {
        passed(state)
    } else {
        Resolved {
            state: ResolverView { scopes: state.scopes.drop_last(), ..state },
            result: first_failure(state.scopes.last(), 0),
        }
    }
}

/// Closes the innermost scope behind what was resolved in it. An error
/// met in the scope stays the result; where none was met, the result is
/// the first thing wrong with one of the variables of the scope.
pub open spec fn close(inner: Resolved) -> Resolved {
    let closed = end_scope(inner.state);
    match inner.result {
        Ok(_) => closed,
        Err(_) => Resolved { state: closed.state, result: inner.result },
    }
}

/// Closes the innermost scope, and adds all that is wrong with its
/// variables to the errors.
pub open spec fn end_scope_extensive(state: ResolverView) -> ResolverView {
    if state.scopes.len() == 0 {
        state
    } else {
        ResolverView {
            scopes: state.scopes.drop_last(),
            bindings: state.bindings,
            errors: state.errors + failures(state.scopes.last(), 0, Seq::empty()),
        }
    }
}

/// Resolves `expr`: its parts from left to right, up to the first error;
/// of an assignment, the value before the variable.
pub open spec fn resolve_expr(state: ResolverView, expr: ExprView) -> Resolved
    decreases expr, 0nat,
{
    match expr {
        ExprView::Unary { op, right } => resolve_expr(state, *right),
        ExprView::Binary { left, op, right } => {
            let first = resolve_expr(state, *left);
            if first.result is Err {
                first
            } else {
                resolve_expr(first.state, *right)
            }
        },
        ExprView::Grouping(inner) => resolve_expr(state, *inner),
        ExprView::Literal(_) => passed(state),
        ExprView::Variable { id, variable } => bind(state, id, variable, false),
        ExprView::Assignment { id, variable, expr } => {
            let first = resolve_expr(state, *expr);
            if first.result is Err {
                first
            } else {
                bind(first.state, id, variable, true)
            }
        },
        ExprView::Logical { left, op, right } => {
            let first = resolve_expr(state, *left);
            if first.result is Err {
                first
            } else {
                resolve_expr(first.state, *right)
            }
        },
        ExprView::FunCall { callee, paren, args } => {
            let first = resolve_expr(state, *callee);
            if first.result is Err {
                first
            } else {
                resolve_exprs(first.state, args, 0)
            }
        },
    }
}

/// Resolves the expressions of `exprs` from `from` on, up to the first
/// error.
pub open spec fn resolve_exprs(state: ResolverView, exprs: Seq<ExprView>, from: int) -> Resolved
    decreases exprs, exprs.len() - from,
{
    if from < 0 || from >= exprs.len() {
        passed(state)
    } else {
        let first = resolve_expr(state, exprs[from]);
        if first.result is Err {
            first
        } else {
            resolve_exprs(first.state, exprs, from + 1)
        }
    }
}

/// Declares the tokens of `params` from `from` on as assigned variables,
/// up to the first error.
pub open spec fn declare_params(state: ResolverView, params: Seq<TokenView>, from: int) -> Resolved
    decreases params.len() - from,
{
    if from < 0 || from >= params.len() {
        passed(state)
    } else {
        let first = declare(state, params[from], true);
        if first.result is Err {
            first
        } else {
            declare_params(first.state, params, from + 1)
        }
    }
}

/// Resolves `stmt`, up to the first error. A block opens a scope and
/// closes it behind its last statement; a function declares its name,
/// opens a scope for its parameters and closes it behind its body. The
/// scope is closed too where an error ends the block or the function
/// early, so that a statement leaves as many scopes open as it found.
pub open spec fn resolve_stmt(state: ResolverView, stmt: StmtView) -> Resolved
    recommends
        crate::parser::stmt::stmt_formed(stmt),
    decreases stmt, 0nat,
{
    match stmt {
        StmtView::ExprStmt { expr } => resolve_expr(state, expr),
        StmtView::PrintStmt { expr } => resolve_expr(state, expr),
        StmtView::VarDecl { variable, expr } => match expr {
            Some(expr) => {
                let first = resolve_expr(state, expr);
                if first.result is Err {
                    first
                } else {
                    declare(first.state, variable, true)
                }
            },
            None => declare(state, variable, false),
        },
        StmtView::Block { stmts } => close(resolve_stmts(begin_scope(state), stmts, 0)),
        StmtView::If { condition, then_stmt, else_stmt } => {
            let first = resolve_expr(state, condition);
            if first.result is Err {
                first
            } else {
                let second = resolve_stmt(first.state, *then_stmt);
                match else_stmt {
                    Some(else_stmt) if second.result is Ok => resolve_stmt(
                        second.state,
                        *else_stmt,
                    ),
                    _ => second,
                }
            }
        },
        StmtView::While { condition, body } => {
            let first = resolve_expr(state, condition);
            if first.result is Err {
                first
            } else {
                resolve_stmt(first.state, *body)
            }
        },
        StmtView::FunDecl { name, params, body } => {
            let named = declare(state, name, true);
            if named.result is Err {
                named
            } else {
                let declared = declare_params(begin_scope(named.state), params, 0);
                if declared.result is Err {
                    close(declared)
                } else {
                    close(resolve_stmt(declared.state, *body))
                }
            }
        },
        StmtView::Return { expr } => resolve_expr(state, expr),
    }
}

/// Resolves the statements of `stmts` from `from` on, up to the first
/// error.
pub open spec fn resolve_stmts(state: ResolverView, stmts: Seq<StmtView>, from: int) -> Resolved
    decreases stmts, stmts.len() - from,
{
    if from < 0 || from >= stmts.len() {
        passed(state)
    } else {
        let first = resolve_stmt(state, stmts[from]);
        if first.result is Err {
            first
        } else {
            resolve_stmts(first.state, stmts, from + 1)
        }
    }
}

/// Resolves each statement of `stmts` from `from` on. The error of a
/// statement is added to the errors, and the next statement is resolved
/// in the state that the error left: with the variables declared and the
/// uses bound before the error.
pub open spec fn resolve_each(state: ResolverView, stmts: Seq<StmtView>, from: int) -> ResolverView
    decreases stmts.len() - from,
{
    if from < 0 || from >= stmts.len() {
        state
    } else {
        let first = resolve_stmt(state, stmts[from]);
        let next = match first.result {
            Ok(_) => first.state,
            Err(error) => ResolverView { errors: first.state.errors.push(error), ..first.state },
        };
        resolve_each(next, stmts, from + 1)
    }
}

/// Resolves a program: its statements in a scope of their own, at the
/// end of which all that is wrong with its variables is added to the
/// errors.
pub open spec fn resolve(state: ResolverView, stmts: Seq<StmtView>) -> ResolverView
    recommends
        crate::parser::stmt::stmts_formed(stmts),
{
    end_scope_extensive(resolve_each(begin_scope(state), stmts, 0))
}

/// The scope in which a variable is found is one of the scopes.
pub proof fn lemma_lookup_in_scopes(scopes: Seq<Seq<VariableStateView>>, name: Seq<char>, depth: nat)
    ensures
        lookup(scopes, name, depth) matches Some((found, place)) ==> depth <= found < scopes.len(),
    decreases scopes.len() - depth,
{
    if depth < scopes.len() {
        lemma_lookup_in_scopes(scopes, name, depth + 1);
    }
}

/// To resolve an expression opens and closes no scope.
pub proof fn lemma_expr_keeps_scopes(state: ResolverView, expr: ExprView)
    ensures
        resolve_expr(state, expr).state.scopes.len() == state.scopes.len(),
    decreases expr, 0nat,
{
    match expr {
        ExprView::Unary { op, right } => lemma_expr_keeps_scopes(state, *right),
        ExprView::Binary { left, op, right } => {
            lemma_expr_keeps_scopes(state, *left);
            lemma_expr_keeps_scopes(resolve_expr(state, *left).state, *right);
        },
        ExprView::Grouping(inner) => lemma_expr_keeps_scopes(state, *inner),
        ExprView::Literal(_) => {},
        ExprView::Variable { id, variable } => {
            lemma_lookup_in_scopes(state.scopes, name_of(variable), 0);
        },
        ExprView::Assignment { id, variable, expr } => {
            lemma_expr_keeps_scopes(state, *expr);
            lemma_lookup_in_scopes(resolve_expr(state, *expr).state.scopes, name_of(variable), 0);
        },
        ExprView::Logical { left, op, right } => {
            lemma_expr_keeps_scopes(state, *left);
            lemma_expr_keeps_scopes(resolve_expr(state, *left).state, *right);
        },
        ExprView::FunCall { callee, paren, args } => {
            lemma_expr_keeps_scopes(state, *callee);
            lemma_exprs_keep_scopes(resolve_expr(state, *callee).state, args, 0);
        },
    }
}

/// As [`lemma_expr_keeps_scopes`], of a run of expressions.
pub proof fn lemma_exprs_keep_scopes(state: ResolverView, exprs: Seq<ExprView>, from: int)
    ensures
        resolve_exprs(state, exprs, from).state.scopes.len() == state.scopes.len(),
    decreases exprs, exprs.len() - from,
{
    if 0 <= from < exprs.len() {
        lemma_expr_keeps_scopes(state, exprs[from]);
        lemma_exprs_keep_scopes(resolve_expr(state, exprs[from]).state, exprs, from + 1);
    }
}

/// To declare parameters opens and closes no scope.
pub proof fn lemma_params_keep_scopes(state: ResolverView, params: Seq<TokenView>, from: int)
    requires
        state.scopes.len() > 0,
    ensures
        declare_params(state, params, from).state.scopes.len() == state.scopes.len(),
    decreases params.len() - from,
{
    if 0 <= from < params.len() {
        lemma_params_keep_scopes(declare(state, params[from], true).state, params, from + 1);
    }
}

/// Scopes are opened and closed in pairs: a statement leaves as many
/// scopes open as it found, whether an error ended it or not.
pub proof fn lemma_stmt_keeps_scopes(state: ResolverView, stmt: StmtView)
    requires
        state.scopes.len() > 0,
    ensures
        resolve_stmt(state, stmt).state.scopes.len() == state.scopes.len(),
    decreases stmt, 0nat,
{
    match stmt {
        StmtView::ExprStmt { expr } => lemma_expr_keeps_scopes(state, expr),
        StmtView::PrintStmt { expr } => lemma_expr_keeps_scopes(state, expr),
        StmtView::VarDecl { variable, expr } => {
            if let Some(expr) = expr {
                lemma_expr_keeps_scopes(state, expr);
            }
        },
        StmtView::Block { stmts } => lemma_stmts_keep_scopes(begin_scope(state), stmts, 0),
        StmtView::If { condition, then_stmt, else_stmt } => {
            lemma_expr_keeps_scopes(state, condition);
            let first = resolve_expr(state, condition);
            lemma_stmt_keeps_scopes(first.state, *then_stmt);
            if let Some(else_stmt) = else_stmt {
                lemma_stmt_keeps_scopes(resolve_stmt(first.state, *then_stmt).state, *else_stmt);
            }
        },
        StmtView::While { condition, body } => {
            lemma_expr_keeps_scopes(state, condition);
            lemma_stmt_keeps_scopes(resolve_expr(state, condition).state, *body);
        },
        StmtView::FunDecl { name, params, body } => {
            let named = declare(state, name, true);
            let opened = begin_scope(named.state);
            lemma_params_keep_scopes(opened, params, 0);
            lemma_stmt_keeps_scopes(declare_params(opened, params, 0).state, *body);
        },
        StmtView::Return { expr } => lemma_expr_keeps_scopes(state, expr),
    }
}

/// As [`lemma_stmt_keeps_scopes`], of a run of statements.
pub proof fn lemma_stmts_keep_scopes(state: ResolverView, stmts: Seq<StmtView>, from: int)
    requires
        state.scopes.len() > 0,
    ensures
        resolve_stmts(state, stmts, from).state.scopes.len() == state.scopes.len(),
    decreases stmts, stmts.len() - from,
{
    if 0 <= from < stmts.len() {
        lemma_stmt_keeps_scopes(state, stmts[from]);
        lemma_stmts_keep_scopes(resolve_stmt(state, stmts[from]).state, stmts, from + 1);
    }
}

/// The statements of a program are each resolved in the scope of the
/// program, whatever errors the statements before them met.
pub proof fn lemma_each_keeps_scopes(state: ResolverView, stmts: Seq<StmtView>, from: int)
    requires
        state.scopes.len() > 0,
    ensures
        resolve_each(state, stmts, from).scopes.len() == state.scopes.len(),
    decreases stmts.len() - from,
{
    if 0 <= from < stmts.len() {
        lemma_stmt_keeps_scopes(state, stmts[from]);
        let first = resolve_stmt(state, stmts[from]);
        let next = match first.result {
            Ok(_) => first.state,
            Err(error) => ResolverView { errors: first.state.errors.push(error), ..first.state },
        };
        lemma_each_keeps_scopes(next, stmts, from + 1);
    }
}

/// When a program is resolved, the scopes that were open before are open
/// again, and no other, whatever errors were met.
pub proof fn lemma_resolve_keeps_scopes(state: ResolverView, stmts: Seq<StmtView>)
    ensures
        resolve(state, stmts).scopes.len() == state.scopes.len(),
{
    lemma_each_keeps_scopes(begin_scope(state), stmts, 0);
}

} // verus!

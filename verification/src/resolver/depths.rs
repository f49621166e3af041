//! What a resolution that met no error has found: a depth for each use
//! of a variable, no greater than the number of scopes around the scope
//! that the use stands in.
use crate::parser::expr::{expr_ids, expr_ids_unique, exprs_ids, exprs_ids_unique};
use crate::parser::stmt::{stmt_ids, stmt_ids_unique, stmts_ids, stmts_ids_unique};
use crate::parser::{ExprView, StmtView};
use vstd::prelude::*;

verus! {

/// The use `id` of a variable, with `nesting` scopes around the scope
/// that it stands in, has a depth that leads to its own scope, which is
/// depth 0, or to one of the scopes around it.
pub open spec fn use_bound(id: nat, bindings: Map<nat, nat>, nesting: nat) -> bool {
    bindings.contains_key(id) && bindings[id] <= nesting
}

/// Every use of a variable in `expr`, which stands in a scope with
/// `nesting` scopes around it, has a depth that leads to this scope or to
/// one of those around it.
pub open spec fn expr_bound(expr: ExprView, bindings: Map<nat, nat>, nesting: nat) -> bool
    decreases expr,
{
    match expr {
        ExprView::Unary { op, right } => expr_bound(*right, bindings, nesting),
        ExprView::Binary { left, op, right } => expr_bound(*left, bindings, nesting) && expr_bound(
            *right,
            bindings,
            nesting,
        ),
        ExprView::Grouping(inner) => expr_bound(*inner, bindings, nesting),
        ExprView::Literal(_) => true,
        ExprView::Variable { id, variable } => use_bound(id, bindings, nesting),
        ExprView::Assignment { id, variable, expr } => use_bound(id, bindings, nesting)
            && expr_bound(*expr, bindings, nesting),
        ExprView::Logical { left, op, right } => expr_bound(*left, bindings, nesting)
            && expr_bound(*right, bindings, nesting),
        ExprView::FunCall { callee, paren, args } => expr_bound(*callee, bindings, nesting)
            && exprs_bound(args, bindings, nesting),
    }
}

/// As [`expr_bound`], of each of `exprs`.
pub open spec fn exprs_bound(exprs: Seq<ExprView>, bindings: Map<nat, nat>, nesting: nat) -> bool
    decreases exprs,
{
    if exprs.len() == 0 {
        true
    } else {
        exprs_bound(exprs.drop_last(), bindings, nesting) && expr_bound(
            exprs.last(),
            bindings,
            nesting,
        )
    }
}

/// Every use of a variable in `stmt`, which stands in a scope with
/// `nesting` scopes around it, has a depth that leads to the scope of the
/// use or to one of the scopes around the use. A block opens one scope
/// more for its statements, and a function one for its parameters, in
/// which its body stands.
pub open spec fn stmt_bound(stmt: StmtView, bindings: Map<nat, nat>, nesting: nat) -> bool
    decreases stmt,
{
    match stmt {
        StmtView::ExprStmt { expr } => expr_bound(expr, bindings, nesting),
        StmtView::PrintStmt { expr } => expr_bound(expr, bindings, nesting),
        StmtView::VarDecl { variable, expr } => match expr {
            Some(expr) => expr_bound(expr, bindings, nesting),
            None => true,
        },
        StmtView::Block { stmts } => stmts_bound(stmts, bindings, nesting + 1),
        StmtView::If { condition, then_stmt, else_stmt } => {
            &&& expr_bound(condition, bindings, nesting)
            &&& stmt_bound(*then_stmt, bindings, nesting)
            &&& match else_stmt {
                Some(else_stmt) => stmt_bound(*else_stmt, bindings, nesting),
                None => true,
            }
        },
        StmtView::While { condition, body } => expr_bound(condition, bindings, nesting)
            && stmt_bound(*body, bindings, nesting),
        StmtView::FunDecl { name, params, body } => stmt_bound(*body, bindings, nesting + 1),
        StmtView::Return { expr } => expr_bound(expr, bindings, nesting),
    }
}

/// As [`stmt_bound`], of each of `stmts`.
pub open spec fn stmts_bound(stmts: Seq<StmtView>, bindings: Map<nat, nat>, nesting: nat) -> bool
    decreases stmts,
{
    if stmts.len() == 0 {
        true
    } else {
        stmts_bound(stmts.drop_last(), bindings, nesting) && stmt_bound(
            stmts.last(),
            bindings,
            nesting,
        )
    }
}

/// `after` holds what `before` holds, but for the ids in `ids`.
pub open spec fn kept_outside(before: Map<nat, nat>, after: Map<nat, nat>, ids: Set<nat>) -> bool {
    forall|id: nat|
        #![trigger after.contains_key(id)]
        #![trigger before.contains_key(id)]
        !ids.contains(id) ==> {
            &&& after.contains_key(id) <==> before.contains_key(id)
            &&& before.contains_key(id) ==> after[id] == before[id]
        }
}

/// What is bound stays bound when the depths of other ids change.
pub proof fn lemma_expr_bound_kept(
    expr: ExprView,
    before: Map<nat, nat>,
    after: Map<nat, nat>,
    changed: Set<nat>,
    nesting: nat,
)
    requires
        expr_bound(expr, before, nesting),
        kept_outside(before, after, changed),
        changed.disjoint(expr_ids(expr)),
    ensures
        expr_bound(expr, after, nesting),
    decreases expr,
{
    match expr {
        ExprView::Unary { op, right } => {
            lemma_expr_bound_kept(*right, before, after, changed, nesting);
        },
        ExprView::Binary { left, op, right } => {
            lemma_expr_bound_kept(*left, before, after, changed, nesting);
            lemma_expr_bound_kept(*right, before, after, changed, nesting);
        },
        ExprView::Grouping(inner) => {
            lemma_expr_bound_kept(*inner, before, after, changed, nesting);
        },
        ExprView::Literal(_) => {},
        ExprView::Variable { id, variable } => {
            assert(expr_ids(expr).contains(id));
            assert(before.contains_key(id));
        },
        ExprView::Assignment { id, variable, expr: value } => {
            assert(expr_ids(expr).contains(id));
            assert(before.contains_key(id));
            lemma_expr_bound_kept(*value, before, after, changed, nesting);
        },
        ExprView::Logical { left, op, right } => {
            lemma_expr_bound_kept(*left, before, after, changed, nesting);
            lemma_expr_bound_kept(*right, before, after, changed, nesting);
        },
        ExprView::FunCall { callee, paren, args } => {
            lemma_expr_bound_kept(*callee, before, after, changed, nesting);
            lemma_exprs_bound_kept(args, before, after, changed, nesting);
        },
    }
}

/// As [`lemma_expr_bound_kept`], of a run of expressions.
pub proof fn lemma_exprs_bound_kept(
    exprs: Seq<ExprView>,
    before: Map<nat, nat>,
    after: Map<nat, nat>,
    changed: Set<nat>,
    nesting: nat,
)
    requires
        exprs_bound(exprs, before, nesting),
        kept_outside(before, after, changed),
        changed.disjoint(exprs_ids(exprs)),
    ensures
        exprs_bound(exprs, after, nesting),
    decreases exprs,
{
    if exprs.len() > 0 {
        lemma_exprs_bound_kept(exprs.drop_last(), before, after, changed, nesting);
        lemma_expr_bound_kept(exprs.last(), before, after, changed, nesting);
    }
}

/// As [`lemma_expr_bound_kept`], of a statement.
pub proof fn lemma_stmt_bound_kept(
    stmt: StmtView,
    before: Map<nat, nat>,
    after: Map<nat, nat>,
    changed: Set<nat>,
    nesting: nat,
)
    requires
        stmt_bound(stmt, before, nesting),
        kept_outside(before, after, changed),
        changed.disjoint(stmt_ids(stmt)),
    ensures
        stmt_bound(stmt, after, nesting),
    decreases stmt,
{
    match stmt {
        StmtView::ExprStmt { expr } => {
            lemma_expr_bound_kept(expr, before, after, changed, nesting);
        },
        StmtView::PrintStmt { expr } => {
            lemma_expr_bound_kept(expr, before, after, changed, nesting);
        },
        StmtView::VarDecl { variable, expr } => {
            if let Some(expr) = expr {
                lemma_expr_bound_kept(expr, before, after, changed, nesting);
            }
        },
        StmtView::Block { stmts } => {
            lemma_stmts_bound_kept(stmts, before, after, changed, nesting + 1);
        },
        StmtView::If { condition, then_stmt, else_stmt } => {
            lemma_expr_bound_kept(condition, before, after, changed, nesting);
            lemma_stmt_bound_kept(*then_stmt, before, after, changed, nesting);
            if let Some(else_stmt) = else_stmt {
                lemma_stmt_bound_kept(*else_stmt, before, after, changed, nesting);
            }
        },
        StmtView::While { condition, body } => {
            lemma_expr_bound_kept(condition, before, after, changed, nesting);
            lemma_stmt_bound_kept(*body, before, after, changed, nesting);
        },
        StmtView::FunDecl { name, params, body } => {
            lemma_stmt_bound_kept(*body, before, after, changed, nesting + 1);
        },
        StmtView::Return { expr } => {
            lemma_expr_bound_kept(expr, before, after, changed, nesting);
        },
    }
}

/// As [`lemma_expr_bound_kept`], of a run of statements.
pub proof fn lemma_stmts_bound_kept(
    stmts: Seq<StmtView>,
    before: Map<nat, nat>,
    after: Map<nat, nat>,
    changed: Set<nat>,
    nesting: nat,
)
    requires
        stmts_bound(stmts, before, nesting),
        kept_outside(before, after, changed),
        changed.disjoint(stmts_ids(stmts)),
    ensures
        stmts_bound(stmts, after, nesting),
    decreases stmts,
{
    if stmts.len() > 0 {
        lemma_stmts_bound_kept(stmts.drop_last(), before, after, changed, nesting);
        lemma_stmt_bound_kept(stmts.last(), before, after, changed, nesting);
    }
}

/// The first `count` of a run of expressions that hold each id once hold
/// each id once, and none that the next holds.
pub proof fn lemma_exprs_unique_prefix(exprs: Seq<ExprView>, count: int)
    requires
        exprs_ids_unique(exprs),
        0 <= count < exprs.len(),
    ensures
        exprs_ids_unique(exprs.take(count)),
        expr_ids_unique(exprs[count]),
        exprs_ids(exprs.take(count)).disjoint(expr_ids(exprs[count])),
        exprs_ids(exprs.take(count + 1)) == exprs_ids(exprs.take(count)).union(
            expr_ids(exprs[count]),
        ),
        exprs_ids(exprs.take(count + 1)).subset_of(exprs_ids(exprs)),
    decreases exprs.len(),
{
    assert(exprs.take(count + 1).drop_last() =~= exprs.take(count));
    assert(exprs.take(count + 1).last() == exprs[count]);
    if count == exprs.len() - 1 {
        assert(exprs.take(count) =~= exprs.drop_last());
        assert(exprs.take(count + 1) =~= exprs);
    } else {
        lemma_exprs_unique_prefix(exprs.drop_last(), count);
        assert(exprs.drop_last().take(count) =~= exprs.take(count));
        assert(exprs.drop_last().take(count + 1) =~= exprs.take(count + 1));
    }
}

/// As [`lemma_exprs_unique_prefix`], of a run of statements.
pub proof fn lemma_stmts_unique_prefix(stmts: Seq<StmtView>, count: int)
    requires
        stmts_ids_unique(stmts),
        0 <= count < stmts.len(),
    ensures
        stmts_ids_unique(stmts.take(count)),
        stmt_ids_unique(stmts[count]),
        stmts_ids(stmts.take(count)).disjoint(stmt_ids(stmts[count])),
        stmts_ids(stmts.take(count + 1)) == stmts_ids(stmts.take(count)).union(
            stmt_ids(stmts[count]),
        ),
        stmts_ids(stmts.take(count + 1)).subset_of(stmts_ids(stmts)),
    decreases stmts.len(),
{
    assert(stmts.take(count + 1).drop_last() =~= stmts.take(count));
    assert(stmts.take(count + 1).last() == stmts[count]);
    if count == stmts.len() - 1 {
        assert(stmts.take(count) =~= stmts.drop_last());
        assert(stmts.take(count + 1) =~= stmts);
    } else {
        lemma_stmts_unique_prefix(stmts.drop_last(), count);
        assert(stmts.drop_last().take(count) =~= stmts.take(count));
        assert(stmts.drop_last().take(count + 1) =~= stmts.take(count + 1));
    }
}

} // verus!

//! What a resolution that met no error has found, by name: each use of a
//! variable has a depth that leads to a scope in which a variable of its
//! name is declared.
use super::variable_state::VariableStateView;
use crate::lexer::TokenView;
use crate::parser::expr::{expr_ids, exprs_ids};
use crate::parser::stmt::{stmt_ids, stmts_ids};
use crate::parser::{ExprView, StmtView};
use super::depths::kept_outside;
use vstd::prelude::*;

verus! {

/// The names that are declared in each of the scopes that are open, the
/// outermost scope first.
pub type Names = Seq<Set<Seq<char>>>;

/// The names of the variables of `scope`.
pub open spec fn scope_names(scope: Seq<VariableStateView>) -> Set<Seq<char>>
    decreases scope.len(),
{
    if scope.len() == 0 {
        Set::empty()
    } else {
        match scope.last().token.kind.identifier() {
            Some(name) => scope_names(scope.drop_last()).insert(name),
            None => scope_names(scope.drop_last()),
        }
    }
}

/// The names of the variables of each of `scopes`.
pub open spec fn scopes_names(scopes: Seq<Seq<VariableStateView>>) -> Names {
    Seq::new(scopes.len(), |i: int| scope_names(scopes[i]))
}

/// `names` with `name` declared in the innermost scope.
pub open spec fn with_name(names: Names, name: Seq<char>) -> Names {
    if names.len() == 0 {
        names
    } else {
        names.update(names.len() - 1, names.last().insert(name))
    }
}

/// `names` with the variable of `token` declared in the innermost scope.
pub open spec fn with_token(names: Names, token: TokenView) -> Names {
    match token.kind.identifier() {
        Some(name) => with_name(names, name),
        None => names,
    }
}

/// `names` with the variables of the first `count` of `tokens` declared
/// in the innermost scope.
pub open spec fn with_tokens(names: Names, tokens: Seq<TokenView>, count: nat) -> Names
    decreases count,
{
    if count == 0 || count > tokens.len() {
        names
    } else {
        with_token(with_tokens(names, tokens, (count - 1) as nat), tokens[count - 1])
    }
}

/// `names` after `stmt`: a declaration declares its name in the innermost
/// scope.
pub open spec fn after_stmt(names: Names, stmt: StmtView) -> Names {
    match stmt {
        StmtView::VarDecl { variable, expr } => with_token(names, variable),
        StmtView::FunDecl { name, params, body } => with_token(names, name),
        _ => names,
    }
}

/// The use `id` of the variable of `token` has a depth that leads to a
/// scope of `names` in which the name of the token is declared.
pub open spec fn use_scoped(id: nat, token: TokenView, bindings: Map<nat, nat>, names: Names) -> bool {
    &&& bindings.contains_key(id)
    &&& bindings[id] < names.len()
    &&& token.kind.identifier() matches Some(name) && names[names.len() - 1
        - bindings[id]].contains(name)
}

/// Every use of a variable in `expr`, which stands where `names` are
/// declared, has a depth that leads to a scope in which its name is
/// declared.
pub open spec fn expr_scoped(expr: ExprView, bindings: Map<nat, nat>, names: Names) -> bool
    decreases expr,
{
    match expr {
        ExprView::Unary { op, right } => expr_scoped(*right, bindings, names),
        ExprView::Binary { left, op, right } => expr_scoped(*left, bindings, names) && expr_scoped(
            *right,
            bindings,
            names,
        ),
        ExprView::Grouping(inner) => expr_scoped(*inner, bindings, names),
        ExprView::Literal(_) => true,
        ExprView::Variable { id, variable } => use_scoped(id, variable, bindings, names),
        ExprView::Assignment { id, variable, expr } => use_scoped(id, variable, bindings, names)
            && expr_scoped(*expr, bindings, names),
        ExprView::Logical { left, op, right } => expr_scoped(*left, bindings, names)
            && expr_scoped(*right, bindings, names),
        ExprView::FunCall { callee, paren, args } => expr_scoped(*callee, bindings, names)
            && exprs_scoped(args, bindings, names),
    }
}

/// As [`expr_scoped`], of each of `exprs`.
pub open spec fn exprs_scoped(exprs: Seq<ExprView>, bindings: Map<nat, nat>, names: Names) -> bool
    decreases exprs,
{
    if exprs.len() == 0 {
        true
    } else {
        exprs_scoped(exprs.drop_last(), bindings, names) && expr_scoped(
            exprs.last(),
            bindings,
            names,
        )
    }
}

/// Every use of a variable in `stmt`, which stands where `names` are
/// declared, has a depth that leads to a scope in which its name is
/// declared. The statements of a block stand in a scope of their own;
/// the body of a function stands in the scope of its parameters, around
/// which the name of the function is declared.
pub open spec fn stmt_scoped(stmt: StmtView, bindings: Map<nat, nat>, names: Names) -> bool
    decreases stmt, 0nat,
{
    match stmt {
        StmtView::ExprStmt { expr } => expr_scoped(expr, bindings, names),
        StmtView::PrintStmt { expr } => expr_scoped(expr, bindings, names),
        StmtView::VarDecl { variable, expr } => match expr {
            Some(expr) => expr_scoped(expr, bindings, names),
            None => true,
        },
        StmtView::Block { stmts } => stmts_scoped(stmts, 0, bindings, names.push(Set::empty())),
        StmtView::If { condition, then_stmt, else_stmt } => {
            &&& expr_scoped(condition, bindings, names)
            &&& stmt_scoped(*then_stmt, bindings, names)
            &&& match else_stmt {
                Some(else_stmt) => stmt_scoped(
                    *else_stmt,
                    bindings,
                    after_stmt(names, *then_stmt),
                ),
                None => true,
            }
        },
        StmtView::While { condition, body } => expr_scoped(condition, bindings, names)
            && stmt_scoped(*body, bindings, names),
        StmtView::FunDecl { name, params, body } => stmt_scoped(
            *body,
            bindings,
            with_tokens(with_token(names, name).push(Set::empty()), params, params.len()),
        ),
        StmtView::Return { expr } => expr_scoped(expr, bindings, names),
    }
}

/// As [`stmt_scoped`], of the statements of `stmts` from `from` on, each
/// of which stands where the declarations before it are declared.
pub open spec fn stmts_scoped(
    stmts: Seq<StmtView>,
    from: int,
    bindings: Map<nat, nat>,
    names: Names,
) -> bool
    decreases stmts, stmts.len() - from,
{
    if from < 0 || from >= stmts.len() {
        true
    } else {
        stmt_scoped(stmts[from], bindings, names) && stmts_scoped(
            stmts,
            from + 1,
            bindings,
            after_stmt(names, stmts[from]),
        )
    }
}

/// The names that are declared where the statements of `stmts` from
/// `from` on have run.
pub open spec fn after_stmts(names: Names, stmts: Seq<StmtView>, from: int) -> Names
    decreases stmts.len() - from,
{
    if from < 0 || from >= stmts.len() {
        names
    } else {
        after_stmts(after_stmt(names, stmts[from]), stmts, from + 1)
    }
}

/// A variable that is found in a scope has its name among the names of
/// the scope.
pub proof fn lemma_found_is_named(scope: Seq<VariableStateView>, place: int, name: Seq<char>)
    requires
        0 <= place < scope.len(),
        scope[place].token.kind.identifier() == Some(name),
    ensures
        scope_names(scope).contains(name),
    decreases scope.len(),
{
    if place < scope.len() - 1 {
        lemma_found_is_named(scope.drop_last(), place, name);
    }
}

/// To mark a variable changes no name.
pub proof fn lemma_marked_keeps_names(
    scope: Seq<VariableStateView>,
    place: int,
    marked: VariableStateView,
)
    requires
        0 <= place < scope.len(),
        marked.token == scope[place].token,
    ensures
        scope_names(scope.update(place, marked)) == scope_names(scope),
    decreases scope.len(),
{
    let updated = scope.update(place, marked);
    if place == scope.len() - 1 {
        assert(updated.drop_last() =~= scope.drop_last());
    } else {
        lemma_marked_keeps_names(scope.drop_last(), place, marked);
        assert(updated.drop_last() =~= scope.drop_last().update(place, marked));
        assert(updated.last() == scope.last());
    }
}

/// What is scoped stays scoped when the depths of other ids change.
pub proof fn lemma_expr_scoped_kept(
    expr: ExprView,
    before: Map<nat, nat>,
    after: Map<nat, nat>,
    changed: Set<nat>,
    names: Names,
)
    requires
        expr_scoped(expr, before, names),
        kept_outside(before, after, changed),
        changed.disjoint(expr_ids(expr)),
    ensures
        expr_scoped(expr, after, names),
    decreases expr,
{
    match expr {
        ExprView::Unary { op, right } => {
            lemma_expr_scoped_kept(*right, before, after, changed, names);
        },
        ExprView::Binary { left, op, right } => {
            lemma_expr_scoped_kept(*left, before, after, changed, names);
            lemma_expr_scoped_kept(*right, before, after, changed, names);
        },
        ExprView::Grouping(inner) => {
            lemma_expr_scoped_kept(*inner, before, after, changed, names);
        },
        ExprView::Literal(_) => {},
        ExprView::Variable { id, variable } => {
            assert(expr_ids(expr).contains(id));
            assert(before.contains_key(id));
        },
        ExprView::Assignment { id, variable, expr: value } => {
            assert(expr_ids(expr).contains(id));
            assert(before.contains_key(id));
            lemma_expr_scoped_kept(*value, before, after, changed, names);
        },
        ExprView::Logical { left, op, right } => {
            lemma_expr_scoped_kept(*left, before, after, changed, names);
            lemma_expr_scoped_kept(*right, before, after, changed, names);
        },
        ExprView::FunCall { callee, paren, args } => {
            lemma_expr_scoped_kept(*callee, before, after, changed, names);
            lemma_exprs_scoped_kept(args, before, after, changed, names);
        },
    }
}

/// As [`lemma_expr_scoped_kept`], of a run of expressions.
pub proof fn lemma_exprs_scoped_kept(
    exprs: Seq<ExprView>,
    before: Map<nat, nat>,
    after: Map<nat, nat>,
    changed: Set<nat>,
    names: Names,
)
    requires
        exprs_scoped(exprs, before, names),
        kept_outside(before, after, changed),
        changed.disjoint(exprs_ids(exprs)),
    ensures
        exprs_scoped(exprs, after, names),
    decreases exprs,
{
    if exprs.len() > 0 {
        lemma_exprs_scoped_kept(exprs.drop_last(), before, after, changed, names);
        lemma_expr_scoped_kept(exprs.last(), before, after, changed, names);
    }
}

/// The ids of the statements of `stmts` from `from` on are among the ids
/// of `stmts`, and those of the statement at `from` among them.
pub proof fn lemma_stmts_ids_from(stmts: Seq<StmtView>, from: int)
    requires
        0 <= from < stmts.len(),
    ensures
        stmt_ids(stmts[from]).subset_of(stmts_ids(stmts)),
    decreases stmts.len(),
{
    if from < stmts.len() - 1 {
        lemma_stmts_ids_from(stmts.drop_last(), from);
    }
}

/// As [`lemma_expr_scoped_kept`], of a statement.
pub proof fn lemma_stmt_scoped_kept(
    stmt: StmtView,
    before: Map<nat, nat>,
    after: Map<nat, nat>,
    changed: Set<nat>,
    names: Names,
)
    requires
        stmt_scoped(stmt, before, names),
        kept_outside(before, after, changed),
        changed.disjoint(stmt_ids(stmt)),
    ensures
        stmt_scoped(stmt, after, names),
    decreases stmt, 0nat,
{
    match stmt {
        StmtView::ExprStmt { expr } => {
            lemma_expr_scoped_kept(expr, before, after, changed, names);
        },
        StmtView::PrintStmt { expr } => {
            lemma_expr_scoped_kept(expr, before, after, changed, names);
        },
        StmtView::VarDecl { variable, expr } => {
            if let Some(expr) = expr {
                lemma_expr_scoped_kept(expr, before, after, changed, names);
            }
        },
        StmtView::Block { stmts } => {
            lemma_stmts_scoped_kept(stmts, 0, before, after, changed, names.push(Set::empty()));
        },
        StmtView::If { condition, then_stmt, else_stmt } => {
            lemma_expr_scoped_kept(condition, before, after, changed, names);
            lemma_stmt_scoped_kept(*then_stmt, before, after, changed, names);
            if let Some(else_stmt) = else_stmt {
                lemma_stmt_scoped_kept(
                    *else_stmt,
                    before,
                    after,
                    changed,
                    after_stmt(names, *then_stmt),
                );
            }
        },
        StmtView::While { condition, body } => {
            lemma_expr_scoped_kept(condition, before, after, changed, names);
            lemma_stmt_scoped_kept(*body, before, after, changed, names);
        },
        StmtView::FunDecl { name, params, body } => {
            lemma_stmt_scoped_kept(
                *body,
                before,
                after,
                changed,
                with_tokens(with_token(names, name).push(Set::empty()), params, params.len()),
            );
        },
        StmtView::Return { expr } => {
            lemma_expr_scoped_kept(expr, before, after, changed, names);
        },
    }
}

/// As [`lemma_expr_scoped_kept`], of a run of statements.
pub proof fn lemma_stmts_scoped_kept(
    stmts: Seq<StmtView>,
    from: int,
    before: Map<nat, nat>,
    after: Map<nat, nat>,
    changed: Set<nat>,
    names: Names,
)
    requires
        stmts_scoped(stmts, from, before, names),
        kept_outside(before, after, changed),
        changed.disjoint(stmts_ids(stmts)),
    ensures
        stmts_scoped(stmts, from, after, names),
    decreases stmts, stmts.len() - from,
{
    if 0 <= from < stmts.len() {
        lemma_stmts_ids_from(stmts, from);
        lemma_stmt_scoped_kept(stmts[from], before, after, changed, names);
        lemma_stmts_scoped_kept(
            stmts,
            from + 1,
            before,
            after,
            changed,
            after_stmt(names, stmts[from]),
        );
    }
}

/// The names that are declared where the first `count` of `stmts` have
/// run.
pub open spec fn names_upto(names: Names, stmts: Seq<StmtView>, count: nat) -> Names
    decreases count,
{
    if count == 0 || count > stmts.len() {
        names
    } else {
        after_stmt(names_upto(names, stmts, (count - 1) as nat), stmts[count - 1])
    }
}

/// As [`stmt_scoped`], of the first `count` of `stmts`, each of which
/// stands where the declarations before it are declared.
pub open spec fn stmts_scoped_upto(
    stmts: Seq<StmtView>,
    count: nat,
    bindings: Map<nat, nat>,
    names: Names,
) -> bool
    decreases count,
{
    if count == 0 || count > stmts.len() {
        true
    } else {
        stmts_scoped_upto(stmts, (count - 1) as nat, bindings, names) && stmt_scoped(
            stmts[count - 1],
            bindings,
            names_upto(names, stmts, (count - 1) as nat),
        )
    }
}

/// Statements that are scoped up to a place and from it on are scoped.
pub proof fn lemma_scoped_upto_and_from(
    stmts: Seq<StmtView>,
    count: nat,
    bindings: Map<nat, nat>,
    names: Names,
)
    requires
        count <= stmts.len(),
        stmts_scoped_upto(stmts, count, bindings, names),
        stmts_scoped(stmts, count as int, bindings, names_upto(names, stmts, count)),
    ensures
        stmts_scoped(stmts, 0, bindings, names),
    decreases count,
{
    if count > 0 {
        lemma_scoped_upto_and_from(stmts, (count - 1) as nat, bindings, names);
    }
}

/// As [`lemma_expr_scoped_kept`], of the first `count` of a run of
/// statements.
pub proof fn lemma_stmts_scoped_upto_kept(
    stmts: Seq<StmtView>,
    count: nat,
    before: Map<nat, nat>,
    after: Map<nat, nat>,
    changed: Set<nat>,
    names: Names,
)
    requires
        count <= stmts.len(),
        stmts_scoped_upto(stmts, count, before, names),
        kept_outside(before, after, changed),
        changed.disjoint(stmts_ids(stmts.take(count as int))),
    ensures
        stmts_scoped_upto(stmts, count, after, names),
    decreases count,
{
    if count > 0 {
        assert(stmts.take(count as int).drop_last() =~= stmts.take(count - 1));
        assert(stmts.take(count as int).last() == stmts[count - 1]);
        lemma_stmts_scoped_upto_kept(stmts, (count - 1) as nat, before, after, changed, names);
        lemma_stmt_scoped_kept(
            stmts[count - 1],
            before,
            after,
            changed,
            names_upto(names, stmts, (count - 1) as nat),
        );
    }
}

/// Declarations touch the innermost scope alone.
pub proof fn lemma_with_token_inner(names: Names, token: TokenView)
    requires
        names.len() > 0,
    ensures
        with_token(names, token).len() == names.len(),
        with_token(names, token).drop_last() == names.drop_last(),
{
    assert(with_token(names, token).drop_last() =~= names.drop_last());
}

/// As [`lemma_with_token_inner`], of the declarations of parameters.
pub proof fn lemma_with_tokens_inner(names: Names, tokens: Seq<TokenView>, count: nat)
    requires
        names.len() > 0,
    ensures
        with_tokens(names, tokens, count).len() == names.len(),
        with_tokens(names, tokens, count).drop_last() == names.drop_last(),
    decreases count,
{
    if count != 0 && count <= tokens.len() {
        lemma_with_tokens_inner(names, tokens, (count - 1) as nat);
        lemma_with_token_inner(with_tokens(names, tokens, (count - 1) as nat), tokens[count - 1]);
    }
}

/// As [`lemma_with_token_inner`], of the declarations among statements.
pub proof fn lemma_names_upto_inner(names: Names, stmts: Seq<StmtView>, count: nat)
    requires
        names.len() > 0,
    ensures
        names_upto(names, stmts, count).len() == names.len(),
        names_upto(names, stmts, count).drop_last() == names.drop_last(),
    decreases count,
{
    if count != 0 && count <= stmts.len() {
        lemma_names_upto_inner(names, stmts, (count - 1) as nat);
        let before = names_upto(names, stmts, (count - 1) as nat);
        match stmts[count - 1] {
            StmtView::VarDecl { variable, expr } => lemma_with_token_inner(before, variable),
            StmtView::FunDecl { name, params, body } => lemma_with_token_inner(before, name),
            _ => {},
        }
    }
}

/// Each of a run of statements that are formed as the parser forms them
/// is so formed.
pub proof fn lemma_each_formed(stmts: Seq<StmtView>, place: int)
    requires
        crate::parser::stmt::stmts_formed(stmts),
        0 <= place < stmts.len(),
    ensures
        crate::parser::stmt::stmt_formed(stmts[place]),
    decreases stmts.len(),
{
    if place < stmts.len() - 1 {
        lemma_each_formed(stmts.drop_last(), place);
    }
}

/// As [`lemma_each_formed`], of a run of expressions.
pub proof fn lemma_each_expr_formed(exprs: Seq<ExprView>, place: int)
    requires
        crate::parser::expr::exprs_formed(exprs),
        0 <= place < exprs.len(),
    ensures
        crate::parser::expr::expr_formed(exprs[place]),
    decreases exprs.len(),
{
    if place < exprs.len() - 1 {
        lemma_each_expr_formed(exprs.drop_last(), place);
    }
}

/// Each scope of `more` holds the names that the scope at its place in
/// `less` holds.
pub open spec fn names_within(less: Names, more: Names) -> bool {
    &&& less.len() == more.len()
    &&& forall|i: int| 0 <= i < less.len() ==> (#[trigger] less[i]).subset_of(more[i])
}

/// Declarations keep the order of names.
pub proof fn lemma_with_token_within(less: Names, more: Names, token: TokenView)
    requires
        names_within(less, more),
    ensures
        names_within(with_token(less, token), with_token(more, token)),
{
}

/// As [`lemma_with_token_within`], of the declarations of parameters.
pub proof fn lemma_with_tokens_within(
    less: Names,
    more: Names,
    tokens: Seq<TokenView>,
    count: nat,
)
    requires
        names_within(less, more),
    ensures
        names_within(with_tokens(less, tokens, count), with_tokens(more, tokens, count)),
    decreases count,
{
    if count != 0 && count <= tokens.len() {
        lemma_with_tokens_within(less, more, tokens, (count - 1) as nat);
        lemma_with_token_within(
            with_tokens(less, tokens, (count - 1) as nat),
            with_tokens(more, tokens, (count - 1) as nat),
            tokens[count - 1],
        );
    }
}

/// As [`lemma_with_token_within`], of the declaration of a statement.
pub proof fn lemma_after_stmt_within(less: Names, more: Names, stmt: StmtView)
    requires
        names_within(less, more),
    ensures
        names_within(after_stmt(less, stmt), after_stmt(more, stmt)),
{
    match stmt {
        StmtView::VarDecl { variable, expr } => lemma_with_token_within(less, more, variable),
        StmtView::FunDecl { name, params, body } => lemma_with_token_within(less, more, name),
        _ => {},
    }
}

/// What is scoped stays scoped where more names are declared.
pub proof fn lemma_expr_scoped_within(
    expr: ExprView,
    bindings: Map<nat, nat>,
    less: Names,
    more: Names,
)
    requires
        expr_scoped(expr, bindings, less),
        names_within(less, more),
    ensures
        expr_scoped(expr, bindings, more),
    decreases expr,
{
    match expr {
        ExprView::Unary { op, right } => {
            lemma_expr_scoped_within(*right, bindings, less, more);
        },
        ExprView::Binary { left, op, right } => {
            lemma_expr_scoped_within(*left, bindings, less, more);
            lemma_expr_scoped_within(*right, bindings, less, more);
        },
        ExprView::Grouping(inner) => {
            lemma_expr_scoped_within(*inner, bindings, less, more);
        },
        ExprView::Literal(_) => {},
        ExprView::Variable { id, variable } => {},
        ExprView::Assignment { id, variable, expr: value } => {
            lemma_expr_scoped_within(*value, bindings, less, more);
        },
        ExprView::Logical { left, op, right } => {
            lemma_expr_scoped_within(*left, bindings, less, more);
            lemma_expr_scoped_within(*right, bindings, less, more);
        },
        ExprView::FunCall { callee, paren, args } => {
            lemma_expr_scoped_within(*callee, bindings, less, more);
            lemma_exprs_scoped_within(args, bindings, less, more);
        },
    }
}

/// As [`lemma_expr_scoped_within`], of a run of expressions.
pub proof fn lemma_exprs_scoped_within(
    exprs: Seq<ExprView>,
    bindings: Map<nat, nat>,
    less: Names,
    more: Names,
)
    requires
        exprs_scoped(exprs, bindings, less),
        names_within(less, more),
    ensures
        exprs_scoped(exprs, bindings, more),
    decreases exprs,
{
    if exprs.len() > 0 {
        lemma_exprs_scoped_within(exprs.drop_last(), bindings, less, more);
        lemma_expr_scoped_within(exprs.last(), bindings, less, more);
    }
}

/// As [`lemma_expr_scoped_within`], of a statement.
pub proof fn lemma_stmt_scoped_within(
    stmt: StmtView,
    bindings: Map<nat, nat>,
    less: Names,
    more: Names,
)
    requires
        stmt_scoped(stmt, bindings, less),
        names_within(less, more),
    ensures
        stmt_scoped(stmt, bindings, more),
    decreases stmt, 0nat,
{
    match stmt {
        StmtView::ExprStmt { expr } => {
            lemma_expr_scoped_within(expr, bindings, less, more);
        },
        StmtView::PrintStmt { expr } => {
            lemma_expr_scoped_within(expr, bindings, less, more);
        },
        StmtView::VarDecl { variable, expr } => {
            if let Some(expr) = expr {
                lemma_expr_scoped_within(expr, bindings, less, more);
            }
        },
        StmtView::Block { stmts } => {
            assert(names_within(less.push(Set::empty()), more.push(Set::empty())));
            lemma_stmts_scoped_within(
                stmts,
                0,
                bindings,
                less.push(Set::empty()),
                more.push(Set::empty()),
            );
        },
        StmtView::If { condition, then_stmt, else_stmt } => {
            lemma_expr_scoped_within(condition, bindings, less, more);
            lemma_stmt_scoped_within(*then_stmt, bindings, less, more);
            if let Some(else_stmt) = else_stmt {
                lemma_after_stmt_within(less, more, *then_stmt);
                lemma_stmt_scoped_within(
                    *else_stmt,
                    bindings,
                    after_stmt(less, *then_stmt),
                    after_stmt(more, *then_stmt),
                );
            }
        },
        StmtView::While { condition, body } => {
            lemma_expr_scoped_within(condition, bindings, less, more);
            lemma_stmt_scoped_within(*body, bindings, less, more);
        },
        StmtView::FunDecl { name, params, body } => {
            lemma_with_token_within(less, more, name);
            let inner_less = with_token(less, name).push(Set::empty());
            let inner_more = with_token(more, name).push(Set::empty());
            assert(names_within(inner_less, inner_more));
            lemma_with_tokens_within(inner_less, inner_more, params, params.len());
            lemma_stmt_scoped_within(
                *body,
                bindings,
                with_tokens(inner_less, params, params.len()),
                with_tokens(inner_more, params, params.len()),
            );
        },
        StmtView::Return { expr } => {
            lemma_expr_scoped_within(expr, bindings, less, more);
        },
    }
}

/// As [`lemma_expr_scoped_within`], of a run of statements.
pub proof fn lemma_stmts_scoped_within(
    stmts: Seq<StmtView>,
    from: int,
    bindings: Map<nat, nat>,
    less: Names,
    more: Names,
)
    requires
        stmts_scoped(stmts, from, bindings, less),
        names_within(less, more),
    ensures
        stmts_scoped(stmts, from, bindings, more),
    decreases stmts, stmts.len() - from,
{
    if 0 <= from < stmts.len() {
        lemma_stmt_scoped_within(stmts[from], bindings, less, more);
        lemma_after_stmt_within(less, more, stmts[from]);
        lemma_stmts_scoped_within(
            stmts,
            from + 1,
            bindings,
            after_stmt(less, stmts[from]),
            after_stmt(more, stmts[from]),
        );
    }
}

} // verus!

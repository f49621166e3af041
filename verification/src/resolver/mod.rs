pub mod depths;
pub mod errors;
pub mod rules;
pub mod scoping;
pub mod variable_state;

pub use errors::{ResolveError, ResolveErrorView};
pub use rules::ResolverView;
pub use variable_state::{VariableState, VariableStateView};

use crate::lexer::Token;
use crate::parser::expr::{expr_formed, expr_ids, expr_ids_unique, exprs_ids};
use crate::parser::stmt::{
    stmt_formed, stmt_ids, stmt_ids_unique, stmts_formed, stmts_ids, stmts_ids_unique, stmts_view,
};
use crate::parser::{Expr, ExprView, Stmt, StmtView};
use depths::{
    expr_bound, exprs_bound, kept_outside, lemma_expr_bound_kept, lemma_exprs_bound_kept,
    lemma_exprs_unique_prefix, lemma_stmt_bound_kept, lemma_stmts_bound_kept,
    lemma_stmts_unique_prefix, stmt_bound, stmts_bound, use_bound,
};
use rules::Resolved;
use scoping::{
    after_stmt, expr_scoped, exprs_scoped, lemma_each_expr_formed, lemma_each_formed,
    lemma_expr_scoped_kept,
    lemma_exprs_scoped_kept, lemma_found_is_named, lemma_marked_keeps_names,
    lemma_names_upto_inner, lemma_scoped_upto_and_from, lemma_stmt_scoped_kept,
    lemma_stmts_scoped_upto_kept, lemma_with_tokens_inner, names_upto, scopes_names,
    stmt_scoped, stmts_scoped, stmts_scoped_upto, use_scoped, with_token, with_tokens, Names,
};
use std::collections::HashMap;
use vstd::prelude::*;
use vstd::std_specs::hash::*;

verus! {

broadcast use vstd::std_specs::hash::group_hash_axioms;

/// The mathematical value of a scope.
pub open spec fn scope_view(scope: Seq<VariableState>) -> Seq<VariableStateView> {
    Seq::new(scope.len(), |i: int| scope[i]@)
}

/// The mathematical values of the scopes that are open.
pub open spec fn scopes_view(scopes: Seq<Vec<VariableState>>) -> Seq<Seq<VariableStateView>> {
    Seq::new(scopes.len(), |i: int| scope_view(scopes[i]@))
}

/// The depths found, by the ids of the uses.
pub open spec fn bindings_view(bindings: Map<usize, usize>) -> Map<nat, nat> {
    Map::new(
        |id: nat| id <= usize::MAX && bindings.contains_key(id as usize),
        |id: nat| bindings[id as usize] as nat,
    )
}

/// The mathematical values of a run of errors.
pub open spec fn errors_view(errors: Seq<ResolveError>) -> Seq<ResolveErrorView> {
    Seq::new(errors.len(), |i: int| errors[i]@)
}

pub open spec fn result_view(result: Result<(), ResolveError>) -> Result<(), ResolveErrorView> {
    match result {
        Ok(_) => Ok(()),
        Err(error) => Err(error@),
    }
}

/// The resolver: for each use of a variable, it finds how many scopes
/// lie between the use and the declaration, and it reports the variables
/// that are used wrongly.
pub struct Resolver {
    scopes: Vec<Vec<VariableState>>,
    bindings: HashMap<usize, usize>,
    errors: Vec<ResolveError>,
}

impl View for Resolver {
    type V = ResolverView;

    closed spec fn view(&self) -> ResolverView {
        ResolverView {
            scopes: scopes_view(self.scopes@),
            bindings: bindings_view(self.bindings@),
            errors: errors_view(self.errors@),
        }
    }
}

impl Resolver {
    /// A scope is open, and the outermost scope is empty: it stays so,
    /// because a program is resolved in a scope of its own.
    pub open spec fn wf(&self) -> bool {
        self@.scopes.len() > 0 && self@.scopes[0].len() == 0
    }

    /// The resolver is inside a program: a scope is open beside the
    /// outermost.
    pub open spec fn inside(&self) -> bool {
        self.wf() && self@.scopes.len() >= 2
    }

    /// How many scopes are open around the place that the resolver has
    /// reached: those beside the outermost, but for the one that the place
    /// stands in.
    pub open spec fn nesting(&self) -> nat {
        (self@.scopes.len() - 2) as nat
    }

    /// What `self` is after a step that returned `result`.
    pub open spec fn stopped(&self, result: Result<(), ResolveError>) -> Resolved {
        Resolved { state: self@, result: result_view(result) }
    }

    /// `self` is `before` after a step that has opened and closed no
    /// scope and added no error.
    pub open spec fn follows(&self, before: Resolver) -> bool {
        &&& self.inside()
        &&& self@.errors == before@.errors
        &&& self@.scopes.len() == before@.scopes.len()
    }

    /// `self` is `before` after resolving `expr`: each use of a variable
    /// in `expr` has its depth, which leads to the scope that the use
    /// stands in or to one of the scopes around it, and the depths of
    /// other uses are what they were.
    pub open spec fn resolved_expr(&self, before: Resolver, expr: ExprView) -> bool {
        &&& kept_outside(before@.bindings, self@.bindings, expr_ids(expr))
        &&& expr_bound(expr, self@.bindings, before.nesting())
    }

    /// The names that are declared in each of the scopes that are open.
    pub open spec fn names(&self) -> Names {
        scopes_names(self@.scopes)
    }

    /// `self` is `before` after resolving `stmt`: what `stmt` declares is
    /// declared; and if no two uses of a variable in `stmt` have the same
    /// id, each use has a depth that leads to a scope in which a variable
    /// of its name was declared.
    pub open spec fn scoped_stmt(&self, before: Resolver, stmt: StmtView) -> bool {
        &&& self.names() == after_stmt(before.names(), stmt)
        &&& stmt_ids_unique(stmt) ==> stmt_scoped(stmt, self@.bindings, before.names())
    }

    /// As [`Resolver::resolved_expr`], of a statement.
    pub open spec fn resolved_stmt(&self, before: Resolver, stmt: StmtView) -> bool {
        &&& kept_outside(before@.bindings, self@.bindings, stmt_ids(stmt))
        &&& stmt_bound(stmt, self@.bindings, before.nesting())
    }

    /// A resolver with one scope, which stays empty.
    pub fn new() -> (resolver: Resolver)
        ensures
            resolver.wf(),
            resolver@ == (ResolverView {
                scopes: seq![Seq::empty()],
                bindings: Map::empty(),
                errors: Seq::empty(),
            }),
    {
        let mut scopes: Vec<Vec<VariableState>> = Vec::new();
        scopes.push(Vec::new());
        let resolver = Resolver { scopes, bindings: HashMap::new(), errors: Vec::new() };
        assert(resolver@.scopes =~= seq![Seq::empty()]) by {
            assert(resolver@.scopes[0] =~= Seq::empty());
        }
        assert(resolver@.bindings =~= Map::empty());
        assert(resolver@.errors =~= Seq::empty());
        resolver
    }

    /// The errors met.
    pub fn errors(&self) -> (errors: &Vec<ResolveError>)
        ensures
            errors_view(errors@) == self@.errors,
    {
        &self.errors
    }

    /// The depth found for the use `id`, if it was bound.
    pub fn bound_depth(&self, id: usize) -> (depth: Option<usize>)
        ensures
            match depth {
                Some(depth) => self@.bindings.contains_key(id as nat) && self@.bindings[id as nat]
                    == depth,
                None => !self@.bindings.contains_key(id as nat),
            },
    {
        match self.bindings.get(&id) {
            Some(depth) => Some(*depth),
            None => None,
        }
    }

    /// The depth found for the use `id`, which was bound.
    pub fn get_bound_depth(&self, id: usize) -> (depth: usize)
        requires
            self@.bindings.contains_key(id as nat),
        ensures
            depth == self@.bindings[id as nat],
    {
        match self.bindings.get(&id) {
            Some(depth) => *depth,
            None => {
                proof {
                    assert(false);
                }
                vstd::pervasive::unreached()
            },
        }
    }

    fn begin_scope(&mut self)
        ensures
            final(self)@ == rules::begin_scope(old(self)@),
            old(self).wf() ==> final(self).inside(),
            final(self).names() == old(self).names().push(Set::empty()),
    {
        let ghost before = self@.scopes;
        self.scopes.push(Vec::new());
        assert(self@.scopes =~= before.push(Seq::empty())) by {
            assert(self@.scopes[before.len() as int] =~= Seq::empty());
        }
        assert(self.names() =~= scopes_names(before).push(Set::empty()));
    }

    fn pop_last_scope(&mut self) -> (scope: Vec<VariableState>)
        requires
            old(self).wf(),
        ensures
            scope_view(scope@) == old(self)@.scopes.last(),
            final(self)@ == (ResolverView { scopes: old(self)@.scopes.drop_last(), ..old(self)@ }),
            old(self)@.scopes.len() > 1 ==> final(self).wf(),
            final(self).names() == old(self).names().drop_last(),
    {
        let ghost before = self@.scopes;
        match self.scopes.pop() {
            Some(scope) => {
                assert(self@.scopes =~= before.drop_last());
                assert(self.names() =~= scopes_names(before).drop_last());
                scope
            },
            None => {
                proof {
                    assert(false);
                }
                vstd::pervasive::unreached()
            },
        }
    }

    /// Closes the innermost scope and returns the first thing wrong with
    /// one of its variables, in the order of their declarations.
    #[verifier::loop_isolation(false)]
    fn end_scope(&mut self) -> (result: Result<(), ResolveError>)
        requires
            old(self).wf(),
        ensures
            rules::end_scope(old(self)@) == final(self).stopped(result),
            old(self)@.scopes.len() > 1 ==> final(self).wf(),
            final(self).names() == old(self).names().drop_last(),
    {
        let scope = self.pop_last_scope();
        let ghost all = scope_view(scope@);
        let mut from: usize = 0;
        while from < scope.len()
            invariant
                from <= scope.len(),
                scope_view(scope@) == all,
                rules::first_failure(all, 0) == rules::first_failure(all, from as int),
            decreases scope.len() - from,
        {
            self::verdict_at(&scope, from)?;
            from += 1;
        }
        Ok(())
    }

    /// Closes the innermost scope and adds all that is wrong with its
    /// variables to the errors, in the order of their declarations.
    fn end_scope_extensive(&mut self)
        requires
            old(self).wf(),
        ensures
            final(self)@ == rules::end_scope_extensive(old(self)@),
            old(self)@.scopes.len() > 1 ==> final(self).wf(),
    {
        let scope = self.pop_last_scope();
        let ghost all = scope_view(scope@);
        let ghost before = self@;
        let ghost mut found: Seq<ResolveErrorView> = Seq::empty();
        let mut from: usize = 0;
        while from < scope.len()
            invariant
                from <= scope.len(),
                scope_view(scope@) == all,
                self@.scopes == before.scopes,
                self@.bindings == before.bindings,
                self@.errors == before.errors + found,
                old(self)@.scopes.len() > 1 ==> self.wf(),
                rules::failures(all, 0, Seq::empty()) == rules::failures(all, from as int, found),
            decreases scope.len() - from,
        {
            if let Err(error) = self::verdict_at(&scope, from) {
                let ghost errors = self@.errors;
                proof {
                    found = found.push(error@);
                }
                self.errors.push(error);
                assert(self@.errors =~= errors.push(error@));
                assert(self@.errors =~= before.errors + found);
            }
            from += 1;
        }
    }

    /// Declares the variable of `variable` in the innermost scope, as
    /// assigned or not.
    fn declare_optional_assigned(&mut self, variable: &Token, assigned: bool) -> (result: Result<
        (),
        ResolveError,
    >)
        requires
            old(self).inside(),
            variable@.kind is Identifier,
        ensures
            final(self).follows(*old(self)),
            final(self)@.bindings == old(self)@.bindings,
            rules::declare(old(self)@, variable@, assigned) == final(self).stopped(result),
            result is Ok ==> final(self).names() == with_token(old(self).names(), variable@),
    {
        let name = variable.extract_identifier();
        let last = self.scopes.len() - 1;
        if self::find(&self.scopes[last], name).is_some() {
            return Err(ResolveError::OvershadowingSameBlock(variable.clone()));
        }
        let mut state = VariableState::new(variable.clone());
        if assigned {
            state.mark_assigned();
        }
        let ghost before = self@.scopes;
        let ghost declared = state@;
        self.scopes[last].push(state);
        assert(self@.scopes =~= before.update(last as int, before[last as int].push(declared)))
            by {
            assert(self@.scopes[last as int] =~= before[last as int].push(declared));
            assert forall|k: int| 0 <= k < before.len() && k != last implies self@.scopes[k]
                == before[k] by {}
        }
        proof {
            assert(before[last as int].push(declared).drop_last() =~= before[last as int]);
            assert(self.names() =~= with_token(scopes_names(before), variable@));
        }
        Ok(())
    }

    fn declare(&mut self, variable: &Token) -> (result: Result<(), ResolveError>)
        requires
            old(self).inside(),
            variable@.kind is Identifier,
        ensures
            final(self).follows(*old(self)),
            final(self)@.bindings == old(self)@.bindings,
            rules::declare(old(self)@, variable@, false) == final(self).stopped(result),
            result is Ok ==> final(self).names() == with_token(old(self).names(), variable@),
    {
        self.declare_optional_assigned(variable, false)
    }

    fn declare_assigned(&mut self, variable: &Token) -> (result: Result<(), ResolveError>)
        requires
            old(self).inside(),
            variable@.kind is Identifier,
        ensures
            final(self).follows(*old(self)),
            final(self)@.bindings == old(self)@.bindings,
            rules::declare(old(self)@, variable@, true) == final(self).stopped(result),
            result is Ok ==> final(self).names() == with_token(old(self).names(), variable@),
    {
        self.declare_optional_assigned(variable, true)
    }

    /// Binds the use `id` of the variable of `token` to the innermost
    /// scope that holds the variable, and marks the variable as assigned
    /// or as read. The depth that it notes leads to a scope that is
    /// open.
    fn bind_assign_or_access(&mut self, id: usize, token: &Token, should_assign: bool) -> (result:
        Result<(), ResolveError>)
        requires
            old(self).inside(),
            token@.kind is Identifier,
        ensures
            final(self).follows(*old(self)),
            rules::bind(old(self)@, id as nat, token@, should_assign) == final(self).stopped(result),
            kept_outside(old(self)@.bindings, final(self)@.bindings, set![id as nat]),
            result is Ok ==> use_bound(id as nat, final(self)@.bindings, old(self).nesting()),
            final(self).names() == old(self).names(),
            result is Ok ==> use_scoped(
                id as nat,
                token@,
                final(self)@.bindings,
                old(self).names(),
            ),
    {
        let name = token.extract_identifier();
        let ghost before = self@;
        let mut depth: usize = 0;
        while depth < self.scopes.len()
            invariant
                depth <= self.scopes.len(),
                self@ == before,
                *self == *old(self),
                before.scopes.len() >= 2,
                before.scopes[0].len() == 0,
                token@.kind.identifier() == Some(name@),
                rules::lookup(before.scopes, name@, 0) == rules::lookup(
                    before.scopes,
                    name@,
                    depth as nat,
                ),
            decreases self.scopes.len() - depth,
        {
            let at = self.scopes.len() - 1 - depth;
            if let Some(place) = self::find(&self.scopes[at], name) {
                if should_assign {
                    self.scopes[at][place].mark_assigned();
                } else {
                    self.scopes[at][place].mark_read();
                }
                let ghost bindings = self@.bindings;
                self.bindings.insert(id, depth);
                proof {
                    let marked = self@.scopes[at as int][place as int];
                    assert(self@.scopes[at as int] =~= before.scopes[at as int].update(
                        place as int,
                        marked,
                    ));
                    assert forall|k: int| 0 <= k < before.scopes.len() && k != at implies self@.scopes[k]
                        == before.scopes[k] by {}
                    assert(self@.scopes =~= before.scopes.update(
                        at as int,
                        before.scopes[at as int].update(place as int, marked),
                    ));
                    assert(self@.bindings =~= bindings.insert(id as nat, depth as nat));
                    lemma_found_is_named(before.scopes[at as int], place as int, name@);
                    lemma_marked_keeps_names(before.scopes[at as int], place as int, marked);
                    assert(self.names() =~= scopes_names(before.scopes));
                }
                return Ok(());
            }
            depth += 1;
        }
        Err(ResolveError::UndeclaredVariable(token.clone()))
    }

    fn bind_assign(&mut self, id: usize, variable: &Token) -> (result: Result<(), ResolveError>)
        requires
            old(self).inside(),
            variable@.kind is Identifier,
        ensures
            final(self).follows(*old(self)),
            rules::bind(old(self)@, id as nat, variable@, true) == final(self).stopped(result),
            kept_outside(old(self)@.bindings, final(self)@.bindings, set![id as nat]),
            result is Ok ==> use_bound(id as nat, final(self)@.bindings, old(self).nesting()),
            final(self).names() == old(self).names(),
            result is Ok ==> use_scoped(
                id as nat,
                variable@,
                final(self)@.bindings,
                old(self).names(),
            ),
    {
        self.bind_assign_or_access(id, variable, true)
    }

    fn bind_access(&mut self, id: usize, variable: &Token) -> (result: Result<(), ResolveError>)
        requires
            old(self).inside(),
            variable@.kind is Identifier,
        ensures
            final(self).follows(*old(self)),
            rules::bind(old(self)@, id as nat, variable@, false) == final(self).stopped(result),
            kept_outside(old(self)@.bindings, final(self)@.bindings, set![id as nat]),
            result is Ok ==> use_bound(id as nat, final(self)@.bindings, old(self).nesting()),
            final(self).names() == old(self).names(),
            result is Ok ==> use_scoped(
                id as nat,
                variable@,
                final(self)@.bindings,
                old(self).names(),
            ),
    {
        self.bind_assign_or_access(id, variable, false)
    }

    /// Resolves `expr`. Where that meets no error and no two uses of a
    /// variable in `expr` have the same id, each use has its depth, which
    /// leads to a scope that is open, and the depths of other uses are
    /// what they were.
    fn resolve_expr(&mut self, expr: &Expr) -> (result: Result<(), ResolveError>)
        requires
            old(self).inside(),
            expr_formed(expr@),
        ensures
            final(self).follows(*old(self)),
            rules::resolve_expr(old(self)@, expr@) == final(self).stopped(result),
            result is Ok && expr_ids_unique(expr@) ==> final(self).resolved_expr(*old(self), expr@),
            final(self).names() == old(self).names(),
            result is Ok && expr_ids_unique(expr@) ==> expr_scoped(
                expr@,
                final(self)@.bindings,
                old(self).names(),
            ),
        decreases expr, 1nat,
    {
        let ghost nesting = self.nesting();
        let ghost names = self.names();
        match expr {
            Expr::Unary { op, right } => self.resolve_expr(right),
            Expr::Binary { left, op, right } => {
                self.resolve_expr(left)?;
                let ghost middle = self@.bindings;
                let result = self.resolve_expr(right);
                proof {
                    if result is Ok && expr_ids_unique(expr@) {
                        lemma_expr_bound_kept(
                            left@,
                            middle,
                            self@.bindings,
                            expr_ids(right@),
                            nesting,
                        );
                        lemma_expr_scoped_kept(
                            left@,
                            middle,
                            self@.bindings,
                            expr_ids(right@),
                            names,
                        );
                    }
                }
                result
            },
            Expr::Grouping(inner) => self.resolve_expr(inner),
            Expr::Literal(_) => Ok(()),
            Expr::Variable { id, variable } => self.bind_access(*id, variable),
            Expr::Assignment { id, variable, expr: value } => {
                self.resolve_expr(value)?;
                let ghost middle = self@.bindings;
                let result = self.bind_assign(*id, variable);
                proof {
                    if result is Ok && expr_ids_unique(expr@) {
                        lemma_expr_bound_kept(
                            value@,
                            middle,
                            self@.bindings,
                            set![*id as nat],
                            nesting,
                        );
                        lemma_expr_scoped_kept(
                            value@,
                            middle,
                            self@.bindings,
                            set![*id as nat],
                            names,
                        );
                    }
                }
                result
            },
            Expr::Logical { left, op, right } => {
                self.resolve_expr(left)?;
                let ghost middle = self@.bindings;
                let result = self.resolve_expr(right);
                proof {
                    if result is Ok && expr_ids_unique(expr@) {
                        lemma_expr_bound_kept(
                            left@,
                            middle,
                            self@.bindings,
                            expr_ids(right@),
                            nesting,
                        );
                        lemma_expr_scoped_kept(
                            left@,
                            middle,
                            self@.bindings,
                            expr_ids(right@),
                            names,
                        );
                    }
                }
                result
            },
            Expr::FunCall { .. } => self.resolve_fun_call(expr),
        }
    }

    /// Resolves a call: the callee, then the arguments from left to
    /// right.
    #[verifier::loop_isolation(false)]
    fn resolve_fun_call(&mut self, call: &Expr) -> (result: Result<(), ResolveError>)
        requires
            old(self).inside(),
            call is FunCall,
            expr_formed(call@),
        ensures
            final(self).follows(*old(self)),
            rules::resolve_expr(old(self)@, call@) == final(self).stopped(result),
            result is Ok && expr_ids_unique(call@) ==> final(self).resolved_expr(*old(self), call@),
            final(self).names() == old(self).names(),
            result is Ok && expr_ids_unique(call@) ==> expr_scoped(
                call@,
                final(self)@.bindings,
                old(self).names(),
            ),
        decreases call, 0nat,
    {
        if let Expr::FunCall { callee, paren, args } = call {
            let ghost unique = expr_ids_unique(call@);
            let ghost nesting = self.nesting();
            let ghost names = self.names();
            self.resolve_expr(callee)?;
            let ghost list = call@->FunCall_args;
            let ghost start = self@;
            let mut from: usize = 0;
            assert(list.take(0) =~= Seq::<ExprView>::empty());
            while from < args.len()
                invariant
                    from <= args.len(),
                    self.follows(*old(self)),
                    self@.scopes.len() == start.scopes.len(),
                    rules::resolve_exprs(start, list, 0) == rules::resolve_exprs(
                        self@,
                        list,
                        from as int,
                    ),
                    unique ==> kept_outside(
                        start.bindings,
                        self@.bindings,
                        exprs_ids(list.take(from as int)),
                    ),
                    unique ==> exprs_bound(list.take(from as int), self@.bindings, nesting),
                    self.names() == names,
                    unique ==> exprs_scoped(list.take(from as int), self@.bindings, names),
                decreases args.len() - from,
            {
                let ghost middle = self@.bindings;
                proof {
                    lemma_each_expr_formed(list, from as int);
                }
                self.resolve_expr(&args[from])?;
                proof {
                    if unique {
                        lemma_exprs_unique_prefix(list, from as int);
                        lemma_exprs_bound_kept(
                            list.take(from as int),
                            middle,
                            self@.bindings,
                            expr_ids(list[from as int]),
                            nesting,
                        );
                        lemma_exprs_scoped_kept(
                            list.take(from as int),
                            middle,
                            self@.bindings,
                            expr_ids(list[from as int]),
                            names,
                        );
                        assert(list.take(from + 1).drop_last() =~= list.take(from as int));
                    }
                }
                from += 1;
            }
            proof {
                assert(list.take(from as int) =~= list);
                if unique {
                    lemma_expr_bound_kept(
                        callee@,
                        start.bindings,
                        self@.bindings,
                        exprs_ids(list),
                        nesting,
                    );
                    lemma_expr_scoped_kept(
                        callee@,
                        start.bindings,
                        self@.bindings,
                        exprs_ids(list),
                        names,
                    );
                }
            }
        }
        Ok(())
    }

    /// Resolves `stmt`, and leaves as many scopes open as it found. Where
    /// that meets no error and no two uses of a variable in `stmt` have
    /// the same id, each use has its depth, which leads to one of the
    /// scopes around the use, and the depths of other uses are what they
    /// were.
    fn resolve_stmt(&mut self, stmt: &Stmt) -> (result: Result<(), ResolveError>)
        requires
            old(self).inside(),
            stmt_formed(stmt@),
        ensures
            final(self).follows(*old(self)),
            rules::resolve_stmt(old(self)@, stmt@) == final(self).stopped(result),
            result is Ok ==> final(self).scoped_stmt(*old(self), stmt@),
            result is Ok && stmt_ids_unique(stmt@) ==> final(self).resolved_stmt(*old(self), stmt@),
        decreases stmt, 1nat,
    {
        let ghost nesting = self.nesting();
        let ghost names = self.names();
        match stmt {
            Stmt::PrintStmt { expr } => self.resolve_expr(expr),
            Stmt::ExprStmt { expr } => self.resolve_expr(expr),
            Stmt::VarDecl { variable, expr } => self.resolve_var_decl(variable, expr),
            Stmt::Block { .. } => self.resolve_block_stmt(stmt),
            Stmt::If { .. } => self.resolve_if_stmt(stmt),
            Stmt::While { condition, body } => {
                self.resolve_expr(condition)?;
                let ghost middle = self@.bindings;
                let result = self.resolve_stmt(body);
                proof {
                    if result is Ok && stmt_ids_unique(stmt@) {
                        lemma_expr_bound_kept(
                            condition@,
                            middle,
                            self@.bindings,
                            stmt_ids(body@),
                            nesting,
                        );
                        lemma_expr_scoped_kept(
                            condition@,
                            middle,
                            self@.bindings,
                            stmt_ids(body@),
                            names,
                        );
                    }
                }
                result
            },
            Stmt::FunDecl { .. } => self.resolve_fun_decl(stmt),
            Stmt::Return { expr } => self.resolve_expr(expr),
        }
    }

    /// Resolves the declaration of a variable: the initializer, if there
    /// is one, before the variable is declared.
    fn resolve_var_decl(&mut self, variable: &Token, expr: &Option<Box<Expr>>) -> (result: Result<
        (),
        ResolveError,
    >)
        requires
            old(self).inside(),
            stmt_formed(var_decl_view(variable, expr)),
        ensures
            final(self).follows(*old(self)),
            rules::resolve_stmt(old(self)@, var_decl_view(variable, expr)) == final(self).stopped(
                result,
            ),
            result is Ok ==> final(self).scoped_stmt(*old(self), var_decl_view(variable, expr)),
            result is Ok && stmt_ids_unique(var_decl_view(variable, expr))
                ==> final(self).resolved_stmt(*old(self), var_decl_view(variable, expr)),
    {
        match expr {
            Some(expr) => {
                self.resolve_expr(expr)?;
                self.declare_assigned(variable)
            },
            None => self.declare(variable),
        }
    }

    /// Resolves a block in a scope of its own, which is closed behind the
    /// last statement, or behind the statement that met an error.
    #[verifier::loop_isolation(false)]
    fn resolve_block_stmt(&mut self, block: &Stmt) -> (result: Result<(), ResolveError>)
        requires
            old(self).inside(),
            block is Block,
            stmt_formed(block@),
        ensures
            final(self).follows(*old(self)),
            rules::resolve_stmt(old(self)@, block@) == final(self).stopped(result),
            result is Ok ==> final(self).scoped_stmt(*old(self), block@),
            result is Ok && stmt_ids_unique(block@) ==> final(self).resolved_stmt(
                *old(self),
                block@,
            ),
        decreases block, 0nat,
    {
        if let Stmt::Block { stmts } = block {
            let ghost unique = stmt_ids_unique(block@);
            let ghost around = self.names();
            self.begin_scope();
            let ghost list = block@->Block_stmts;
            let ghost start = self@;
            let ghost nesting = self.nesting();
            let ghost names = self.names();
            let mut from: usize = 0;
            assert(list.take(0) =~= Seq::<StmtView>::empty());
            while from < stmts.len()
                invariant
                    from <= stmts.len(),
                    self.inside(),
                    self@.errors == start.errors,
                    self@.scopes.len() == start.scopes.len(),
                    rules::resolve_stmts(start, list, 0) == rules::resolve_stmts(
                        self@,
                        list,
                        from as int,
                    ),
                    unique ==> kept_outside(
                        start.bindings,
                        self@.bindings,
                        stmts_ids(list.take(from as int)),
                    ),
                    unique ==> stmts_bound(list.take(from as int), self@.bindings, nesting),
                    self.names() == names_upto(names, list, from as nat),
                    unique ==> stmts_scoped_upto(list, from as nat, self@.bindings, names),
                decreases stmts.len() - from,
            {
                let ghost middle = self@.bindings;
                proof {
                    lemma_each_formed(list, from as int);
                }
                if let Err(error) = self.resolve_stmt(&stmts[from]) {
                    self.leave_scope();
                    return Err(error);
                }
                proof {
                    if unique {
                        lemma_stmts_unique_prefix(list, from as int);
                        lemma_stmts_bound_kept(
                            list.take(from as int),
                            middle,
                            self@.bindings,
                            stmt_ids(list[from as int]),
                            nesting,
                        );
                        assert(list.take(from + 1).drop_last() =~= list.take(from as int));
                        lemma_stmts_scoped_upto_kept(
                            list,
                            from as nat,
                            middle,
                            self@.bindings,
                            stmt_ids(list[from as int]),
                            names,
                        );
                    }
                }
                from += 1;
            }
            proof {
                assert(list.take(from as int) =~= list);
                lemma_names_upto_inner(names, list, from as nat);
                assert(names.drop_last() =~= around);
                if unique {
                    lemma_scoped_upto_and_from(list, from as nat, self@.bindings, names);
                }
            }
            return self.end_scope_checked();
        }
        Ok(())
    }

    fn resolve_if_stmt(&mut self, branch: &Stmt) -> (result: Result<(), ResolveError>)
        requires
            old(self).inside(),
            branch is If,
            stmt_formed(branch@),
        ensures
            final(self).follows(*old(self)),
            rules::resolve_stmt(old(self)@, branch@) == final(self).stopped(result),
            result is Ok ==> final(self).scoped_stmt(*old(self), branch@),
            result is Ok && stmt_ids_unique(branch@) ==> final(self).resolved_stmt(
                *old(self),
                branch@,
            ),
        decreases branch, 0nat,
    {
        if let Stmt::If { condition, then_stmt, else_stmt } = branch {
            let ghost unique = stmt_ids_unique(branch@);
            let ghost nesting = self.nesting();
            let ghost names = self.names();
            self.resolve_expr(condition)?;
            let ghost first = self@.bindings;
            self.resolve_stmt(then_stmt)?;
            let ghost second = self@.bindings;
            proof {
                if unique {
                    lemma_expr_bound_kept(condition@, first, second, stmt_ids(then_stmt@), nesting);
                    lemma_expr_scoped_kept(condition@, first, second, stmt_ids(then_stmt@), names);
                }
            }
            if let Some(else_stmt) = else_stmt {
                self.resolve_stmt(else_stmt)?;
                proof {
                    if unique {
                        lemma_expr_bound_kept(
                            condition@,
                            second,
                            self@.bindings,
                            stmt_ids(else_stmt@),
                            nesting,
                        );
                        lemma_stmt_bound_kept(
                            then_stmt@,
                            second,
                            self@.bindings,
                            stmt_ids(else_stmt@),
                            nesting,
                        );
                        lemma_expr_scoped_kept(
                            condition@,
                            second,
                            self@.bindings,
                            stmt_ids(else_stmt@),
                            names,
                        );
                        lemma_stmt_scoped_kept(
                            then_stmt@,
                            second,
                            self@.bindings,
                            stmt_ids(else_stmt@),
                            names,
                        );
                    }
                }
            }
        }
        Ok(())
    }

    /// Resolves the declaration of a function: declares the name, then
    /// the parameters in a scope of their own, in which the body is
    /// resolved. The scope is closed behind the body, or behind what met
    /// an error.
    #[verifier::loop_isolation(false)]
    fn resolve_fun_decl(&mut self, function: &Stmt) -> (result: Result<(), ResolveError>)
        requires
            old(self).inside(),
            function is FunDecl,
            stmt_formed(function@),
        ensures
            final(self).follows(*old(self)),
            rules::resolve_stmt(old(self)@, function@) == final(self).stopped(result),
            result is Ok ==> final(self).scoped_stmt(*old(self), function@),
            result is Ok && stmt_ids_unique(function@) ==> final(self).resolved_stmt(
                *old(self),
                function@,
            ),
        decreases function, 0nat,
    {
        if let Stmt::FunDecl { name, params, body } = function {
            self.declare_assigned(name)?;
            let ghost named = self.names();
            self.begin_scope();
            let ghost list = function@->FunDecl_params;
            let ghost start = self@;
            let ghost names = self.names();
            let mut from: usize = 0;
            while from < params.len()
                invariant
                    from <= params.len(),
                    self.inside(),
                    self@.errors == start.errors,
                    self@.bindings == start.bindings,
                    self@.scopes.len() == start.scopes.len(),
                    rules::declare_params(start, list, 0) == rules::declare_params(
                        self@,
                        list,
                        from as int,
                    ),
                    self.names() == with_tokens(names, list, from as nat),
                decreases params.len() - from,
            {
                if let Err(error) = self.declare_assigned(&params[from]) {
                    self.leave_scope();
                    return Err(error);
                }
                from += 1;
            }
            if let Err(error) = self.resolve_stmt(body) {
                self.leave_scope();
                return Err(error);
            }
            proof {
                lemma_with_tokens_inner(names, list, from as nat);
                assert(names.drop_last() =~= named);
            }
            return self.end_scope_checked();
        }
        Ok(())
    }

    /// Closes the innermost scope, of which there are at least two, and
    /// looks at none of its variables.
    fn leave_scope(&mut self)
        requires
            old(self).wf(),
            old(self)@.scopes.len() > 2,
        ensures
            final(self).inside(),
            final(self)@ == rules::end_scope(old(self)@).state,
    {
        let _ = self.pop_last_scope();
    }

    /// Closes the innermost scope, of which there are at least two.
    fn end_scope_checked(&mut self) -> (result: Result<(), ResolveError>)
        requires
            old(self).wf(),
            old(self)@.scopes.len() > 2,
        ensures
            final(self).inside(),
            final(self)@.errors == old(self)@.errors,
            final(self)@.bindings == old(self)@.bindings,
            final(self)@.scopes.len() == old(self)@.scopes.len() - 1,
            final(self).names() == old(self).names().drop_last(),
            rules::end_scope(old(self)@) == final(self).stopped(result),
    {
        self.end_scope()
    }

    /// Resolves a program, which is formed as the parser forms programs.
    /// Its statements stand in a scope of their own. The error of a
    /// statement is kept and the next statement resolved, in the scope in
    /// which the one before it started; at the end all that is wrong with
    /// the variables of that scope is added. [`Resolver::errors`] returns
    /// what was found.
    ///
    /// Where nothing was found and no two uses of a variable have the
    /// same id, each use has its depth, which leads to the scope that the
    /// use stands in or to one of the scopes around it.
    #[verifier::loop_isolation(false)]
    pub fn resolve(&mut self, stmts: &Vec<Stmt>)
        requires
            old(self).wf(),
            stmts_formed(stmts_view(stmts@)),
        ensures
            final(self).wf(),
            final(self)@ == rules::resolve(old(self)@, stmts_view(stmts@)),
            final(self)@.scopes.len() == old(self)@.scopes.len(),
            final(self)@.errors.len() == old(self)@.errors.len() && stmts_ids_unique(
                stmts_view(stmts@),
            ) ==> stmts_bound(
                stmts_view(stmts@),
                final(self)@.bindings,
                (old(self)@.scopes.len() - 1) as nat,
            ),
            final(self)@.errors.len() == old(self)@.errors.len() && stmts_ids_unique(
                stmts_view(stmts@),
            ) ==> stmts_scoped(
                stmts_view(stmts@),
                0,
                final(self)@.bindings,
                old(self).names().push(Set::empty()),
            ),
    {
        self.begin_scope();
        let ghost list = stmts_view(stmts@);
        let ghost unique = stmts_ids_unique(list);
        let ghost start = self@;
        let ghost nesting = self.nesting();
        let ghost names = self.names();
        let mut from: usize = 0;
        assert(list.take(0) =~= Seq::<StmtView>::empty());
        while from < stmts.len()
            invariant
                from <= stmts.len(),
                self.inside(),
                self@.errors.len() >= start.errors.len(),
                self@.scopes.len() == start.scopes.len(),
                rules::resolve_each(start, list, 0) == rules::resolve_each(self@, list, from as int),
                unique && self@.errors.len() == start.errors.len() ==> kept_outside(
                    start.bindings,
                    self@.bindings,
                    stmts_ids(list.take(from as int)),
                ),
                unique && self@.errors.len() == start.errors.len() ==> stmts_bound(
                    list.take(from as int),
                    self@.bindings,
                    nesting,
                ),
                self@.errors.len() == start.errors.len() ==> self.names() == names_upto(
                    names,
                    list,
                    from as nat,
                ),
                unique && self@.errors.len() == start.errors.len() ==> stmts_scoped_upto(
                    list,
                    from as nat,
                    self@.bindings,
                    names,
                ),
            decreases stmts.len() - from,
        {
            let ghost middle = self@.bindings;
            let ghost clean = self@.errors.len() == start.errors.len();
            proof {
                lemma_each_formed(list, from as int);
            }
            match self.resolve_stmt(&stmts[from]) {
                Ok(_) => {
                    proof {
                        if unique && clean {
                            lemma_stmts_unique_prefix(list, from as int);
                            lemma_stmts_bound_kept(
                                list.take(from as int),
                                middle,
                                self@.bindings,
                                stmt_ids(list[from as int]),
                                nesting,
                            );
                            assert(list.take(from + 1).drop_last() =~= list.take(from as int));
                            lemma_stmts_scoped_upto_kept(
                                list,
                                from as nat,
                                middle,
                                self@.bindings,
                                stmt_ids(list[from as int]),
                                names,
                            );
                        }
                    }
                },
                Err(error) => {
                    let ghost errors = self@.errors;
                    self.errors.push(error);
                    assert(self@.errors =~= errors.push(error@));
                },
            }
            from += 1;
        }
        proof {
            assert(list.take(from as int) =~= list);
            if unique && self@.errors.len() == start.errors.len() {
                lemma_scoped_upto_and_from(list, from as nat, self@.bindings, names);
            }
        }
        self.end_scope_extensive();
    }
}

/// The mathematical value of the declaration of `variable` with the
/// initializer `expr`.
pub open spec fn var_decl_view(variable: &Token, expr: &Option<Box<Expr>>) -> StmtView {
    StmtView::VarDecl {
        variable: variable@,
        expr: match expr {
            Some(expr) => Some(expr@),
            None => None,
        },
    }
}

/// The place of the variable `name` in `scope`.
fn find(scope: &Vec<VariableState>, name: &String) -> (place: Option<usize>)
    ensures
        match place {
            Some(place) => {
                &&& rules::find(scope_view(scope@), name@, 0) == Some(place as int)
                &&& place < scope.len()
                &&& scope_view(scope@)[place as int].token.kind.identifier() == Some(name@)
            },
            None => rules::find(scope_view(scope@), name@, 0) is None,
        },
{
    let mut from: usize = 0;
    while from < scope.len()
        invariant
            from <= scope.len(),
            rules::find(scope_view(scope@), name@, 0) == rules::find(
                scope_view(scope@),
                name@,
                from as int,
            ),
        decreases scope.len() - from,
    {
        if let Some(declared) = scope[from].token().identifier() {
            if *declared == *name {
                return Some(from);
            }
        }
        from += 1;
    }
    None
}

/// What is wrong with the variable at `place` in `scope`.
fn verdict_at(scope: &Vec<VariableState>, place: usize) -> (result: Result<(), ResolveError>)
    requires
        place < scope.len(),
    ensures
        match result {
            Ok(_) => scope_view(scope@)[place as int].check() is Ok,
            Err(error) => scope_view(scope@)[place as int].check() == Err::<(), ResolveErrorView>(
                error@,
            ),
        },
{
    scope[place].verdict()
}

} // verus!

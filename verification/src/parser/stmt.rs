use super::expr::{expr_formed, expr_ids, expr_ids_unique, Expr, ExprView};
use crate::lexer::{tokens_view, Token, TokenView};
use vstd::prelude::*;

verus! {

/// A statement.
#[derive(Debug)]
#[allow(inconsistent_fields)]
pub enum Stmt {
    ExprStmt { expr: Box<Expr> },
    PrintStmt { expr: Box<Expr> },
    VarDecl { variable: Token, expr: Option<Box<Expr>> },
    Block { stmts: Vec<Stmt> },
    If { condition: Box<Expr>, then_stmt: Box<Stmt>, else_stmt: Option<Box<Stmt>> },
    While { condition: Box<Expr>, body: Box<Stmt> },
    FunDecl { name: Token, params: Vec<Token>, body: Box<Stmt> },
    Return { expr: Box<Expr> },
}

/// The mathematical value of a [`Stmt`].
#[allow(inconsistent_fields)]
pub enum StmtView {
    ExprStmt { expr: ExprView },
    PrintStmt { expr: ExprView },
    VarDecl { variable: TokenView, expr: Option<ExprView> },
    Block { stmts: Seq<StmtView> },
    If { condition: ExprView, then_stmt: Box<StmtView>, else_stmt: Option<Box<StmtView>> },
    While { condition: ExprView, body: Box<StmtView> },
    FunDecl { name: TokenView, params: Seq<TokenView>, body: Box<StmtView> },
    Return { expr: ExprView },
}

impl Stmt {
    /// The mathematical value of this statement.
    pub open spec fn model(&self) -> StmtView
        decreases self,
    {
        match self {
            Stmt::ExprStmt { expr } => StmtView::ExprStmt { expr: expr.model() },
            Stmt::PrintStmt { expr } => StmtView::PrintStmt { expr: expr.model() },
            Stmt::VarDecl { variable, expr } => StmtView::VarDecl {
                variable: variable@,
                expr: match expr {
                    Some(expr) => Some(expr.model()),
                    None => None,
                },
            },
            Stmt::Block { stmts } => StmtView::Block {
                stmts: Seq::new(
                    stmts.len() as nat,
                    |i: int|
                        if 0 <= i < stmts.len() {
                            stmts[i].model()
                        } else {
                            StmtView::Block { stmts: Seq::empty() }
                        },
                ),
            },
            Stmt::If { condition, then_stmt, else_stmt } => StmtView::If {
                condition: condition.model(),
                then_stmt: Box::new(then_stmt.model()),
                else_stmt: match else_stmt {
                    Some(stmt) => Some(Box::new(stmt.model())),
                    None => None,
                },
            },
            Stmt::While { condition, body } => StmtView::While {
                condition: condition.model(),
                body: Box::new(body.model()),
            },
            Stmt::FunDecl { name, params, body } => StmtView::FunDecl {
                name: name@,
                params: tokens_view(params@),
                body: Box::new(body.model()),
            },
            Stmt::Return { expr } => StmtView::Return { expr: expr.model() },
        }
    }
}

impl View for Stmt {
    type V = StmtView;

    open spec fn view(&self) -> StmtView {
        self.model()
    }
}

/// The mathematical values of a run of statements.
pub open spec fn stmts_view(stmts: Seq<Stmt>) -> Seq<StmtView> {
    Seq::new(stmts.len(), |i: int| stmts[i].model())
}

/// Whether `stmt` declares a variable or a function.
pub open spec fn is_declaration(stmt: StmtView) -> bool {
    stmt is VarDecl || stmt is FunDecl
}

/// Whether each of `tokens` is an identifier.
pub open spec fn are_identifiers(tokens: Seq<TokenView>) -> bool {
    forall|i: int| 0 <= i < tokens.len() ==> (#[trigger] tokens[i]).kind is Identifier
}

/// `stmt` is as the parser builds statements: its expressions are formed
/// as the parser forms them, what it declares is named by identifiers,
/// and a declaration is a statement of a block or of the program, not
/// the branch of an `if` or the body of a loop.
pub open spec fn stmt_formed(stmt: StmtView) -> bool
    decreases stmt,
{
    match stmt {
        StmtView::ExprStmt { expr } => expr_formed(expr),
        StmtView::PrintStmt { expr } => expr_formed(expr),
        StmtView::VarDecl { variable, expr } => variable.kind is Identifier && match expr {
            Some(expr) => expr_formed(expr),
            None => true,
        },
        StmtView::Block { stmts } => stmts_formed(stmts),
        StmtView::If { condition, then_stmt, else_stmt } => {
            &&& expr_formed(condition)
            &&& stmt_formed(*then_stmt)
            &&& !is_declaration(*then_stmt)
            &&& match else_stmt {
                Some(else_stmt) => stmt_formed(*else_stmt) && !is_declaration(*else_stmt),
                None => true,
            }
        },
        StmtView::While { condition, body } => {
            &&& expr_formed(condition)
            &&& stmt_formed(*body)
            &&& !is_declaration(*body)
        },
        StmtView::FunDecl { name, params, body } => {
            &&& name.kind is Identifier
            &&& are_identifiers(params)
            &&& stmt_formed(*body)
            &&& *body is Block
        },
        StmtView::Return { expr } => expr_formed(expr),
    }
}

/// As [`stmt_formed`], of each of `stmts`.
pub open spec fn stmts_formed(stmts: Seq<StmtView>) -> bool
    decreases stmts,
{
    if stmts.len() == 0 {
        true
    } else {
        stmts_formed(stmts.drop_last()) && stmt_formed(stmts.last())
    }
}

/// The ids of the uses of variables in `stmt`.
pub open spec fn stmt_ids(stmt: StmtView) -> Set<nat>
    decreases stmt,
{
    match stmt {
        StmtView::ExprStmt { expr } => expr_ids(expr),
        StmtView::PrintStmt { expr } => expr_ids(expr),
        StmtView::VarDecl { variable, expr } => match expr {
            Some(expr) => expr_ids(expr),
            None => Set::empty(),
        },
        StmtView::Block { stmts } => stmts_ids(stmts),
        StmtView::If { condition, then_stmt, else_stmt } => match else_stmt {
            Some(else_stmt) => expr_ids(condition).union(stmt_ids(*then_stmt)).union(
                stmt_ids(*else_stmt),
            ),
            None => expr_ids(condition).union(stmt_ids(*then_stmt)),
        },
        StmtView::While { condition, body } => expr_ids(condition).union(stmt_ids(*body)),
        StmtView::FunDecl { name, params, body } => stmt_ids(*body),
        StmtView::Return { expr } => expr_ids(expr),
    }
}

/// The ids of the uses of variables in `stmts`.
pub open spec fn stmts_ids(stmts: Seq<StmtView>) -> Set<nat>
    decreases stmts,
{
    if stmts.len() == 0 {
        Set::empty()
    } else {
        stmts_ids(stmts.drop_last()).union(stmt_ids(stmts.last()))
    }
}

/// No id stands at two uses of a variable in `stmt`.
pub open spec fn stmt_ids_unique(stmt: StmtView) -> bool
    decreases stmt,
{
    match stmt {
        StmtView::ExprStmt { expr } => expr_ids_unique(expr),
        StmtView::PrintStmt { expr } => expr_ids_unique(expr),
        StmtView::VarDecl { variable, expr } => match expr {
            Some(expr) => expr_ids_unique(expr),
            None => true,
        },
        StmtView::Block { stmts } => stmts_ids_unique(stmts),
        StmtView::If { condition, then_stmt, else_stmt } => {
            &&& expr_ids_unique(condition)
            &&& stmt_ids_unique(*then_stmt)
            &&& expr_ids(condition).disjoint(stmt_ids(*then_stmt))
            &&& match else_stmt {
                Some(else_stmt) => {
                    &&& stmt_ids_unique(*else_stmt)
                    &&& expr_ids(condition).disjoint(stmt_ids(*else_stmt))
                    &&& stmt_ids(*then_stmt).disjoint(stmt_ids(*else_stmt))
                },
                None => true,
            }
        },
        StmtView::While { condition, body } => {
            &&& expr_ids_unique(condition)
            &&& stmt_ids_unique(*body)
            &&& expr_ids(condition).disjoint(stmt_ids(*body))
        },
        StmtView::FunDecl { name, params, body } => stmt_ids_unique(*body),
        StmtView::Return { expr } => expr_ids_unique(expr),
    }
}

/// No id stands at two uses of a variable in `stmts`.
pub open spec fn stmts_ids_unique(stmts: Seq<StmtView>) -> bool
    decreases stmts,
{
    if stmts.len() == 0 {
        true
    } else {
        &&& stmts_ids_unique(stmts.drop_last())
        &&& stmt_ids_unique(stmts.last())
        &&& stmts_ids(stmts.drop_last()).disjoint(stmt_ids(stmts.last()))
    }
}

/// The ids in a run of one statement are those of the statement.
pub proof fn lemma_single_ids(only: StmtView)
    ensures
        stmts_ids(seq![only]) == stmt_ids(only),
        stmts_ids_unique(seq![only]) <==> stmt_ids_unique(only),
        stmts_formed(seq![only]) <==> stmt_formed(only),
{
    assert(seq![only].drop_last() =~= Seq::<StmtView>::empty());
    assert(seq![only].last() == only);
    reveal_with_fuel(stmts_ids, 2);
    reveal_with_fuel(stmts_ids_unique, 2);
    reveal_with_fuel(stmts_formed, 2);
    assert(stmts_ids(seq![only]) =~= stmt_ids(only));
}

/// The ids in a run of two statements are those of the one and of the
/// other.
pub proof fn lemma_pair_ids(first: StmtView, second: StmtView)
    ensures
        stmts_ids(seq![first, second]) == stmt_ids(first).union(stmt_ids(second)),
        stmts_ids_unique(seq![first, second]) <==> {
            &&& stmt_ids_unique(first)
            &&& stmt_ids_unique(second)
            &&& stmt_ids(first).disjoint(stmt_ids(second))
        },
        stmts_formed(seq![first, second]) <==> stmt_formed(first) && stmt_formed(second),
{
    let pair = seq![first, second];
    assert(pair.drop_last() =~= seq![first]);
    assert(seq![first].drop_last() =~= Seq::<StmtView>::empty());
    assert(pair.last() == second);
    assert(seq![first].last() == first);
    reveal_with_fuel(stmts_ids, 3);
    reveal_with_fuel(stmts_ids_unique, 3);
    reveal_with_fuel(stmts_formed, 3);
    assert(stmts_ids(seq![first]) =~= stmt_ids(first));
    assert(stmts_ids(pair) =~= stmt_ids(first).union(stmt_ids(second)));
}

} // verus!

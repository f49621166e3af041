use crate::lexer::{Token, TokenKindView, TokenView};
use vstd::prelude::*;

verus! {

/// A value written out in the source text. A number keeps its digits.
#[derive(Debug)]
pub enum Literal {
    Number(String),
    Str(String),
    Bool(bool),
    Nil,
}

/// The mathematical value of a [`Literal`].
pub enum LiteralView {
    Number(Seq<char>),
    Str(Seq<char>),
    Bool(bool),
    Nil,
}

impl View for Literal {
    type V = LiteralView;

    open spec fn view(&self) -> LiteralView {
        match self {
            Literal::Number(digits) => LiteralView::Number(digits@),
            Literal::Str(text) => LiteralView::Str(text@),
            Literal::Bool(b) => LiteralView::Bool(*b),
            Literal::Nil => LiteralView::Nil,
        }
    }
}

/// An expression. Each use of a variable, read or assigned, carries an
/// `id` that no other use in the same parse has.
#[derive(Debug)]
pub enum Expr {
    Unary { op: Token, right: Box<Expr> },
    Binary { left: Box<Expr>, op: Token, right: Box<Expr> },
    Grouping(Box<Expr>),
    Literal(Literal),
    Variable { id: usize, variable: Token },
    Assignment { id: usize, variable: Token, expr: Box<Expr> },
    Logical { left: Box<Expr>, op: Token, right: Box<Expr> },
    FunCall { callee: Box<Expr>, paren: Token, args: Vec<Box<Expr>> },
}

/// The mathematical value of an [`Expr`].
pub enum ExprView {
    Unary { op: TokenView, right: Box<ExprView> },
    Binary { left: Box<ExprView>, op: TokenView, right: Box<ExprView> },
    Grouping(Box<ExprView>),
    Literal(LiteralView),
    Variable { id: nat, variable: TokenView },
    Assignment { id: nat, variable: TokenView, expr: Box<ExprView> },
    Logical { left: Box<ExprView>, op: TokenView, right: Box<ExprView> },
    FunCall { callee: Box<ExprView>, paren: TokenView, args: Seq<ExprView> },
}

impl Expr {
    /// The mathematical value of this expression.
    pub open spec fn model(&self) -> ExprView
        decreases self,
    {
        match self {
            Expr::Unary { op, right } => ExprView::Unary { op: op@, right: Box::new(right.model()) },
            Expr::Binary { left, op, right } => ExprView::Binary {
                left: Box::new(left.model()),
                op: op@,
                right: Box::new(right.model()),
            },
            Expr::Grouping(inner) => ExprView::Grouping(Box::new(inner.model())),
            Expr::Literal(literal) => ExprView::Literal(literal@),
            Expr::Variable { id, variable } => ExprView::Variable {
                id: *id as nat,
                variable: variable@,
            },
            Expr::Assignment { id, variable, expr } => ExprView::Assignment {
                id: *id as nat,
                variable: variable@,
                expr: Box::new(expr.model()),
            },
            Expr::Logical { left, op, right } => ExprView::Logical {
                left: Box::new(left.model()),
                op: op@,
                right: Box::new(right.model()),
            },
            Expr::FunCall { callee, paren, args } => ExprView::FunCall {
                callee: Box::new(callee.model()),
                paren: paren@,
                args: Seq::new(
                    args.len() as nat,
                    |i: int|
                        if 0 <= i < args.len() {
                            args[i].model()
                        } else {
                            ExprView::Literal(LiteralView::Nil)
                        },
                ),
            },
        }
    }
}

impl View for Expr {
    type V = ExprView;

    open spec fn view(&self) -> ExprView {
        self.model()
    }
}

/// The mathematical values of a run of expressions.
pub open spec fn exprs_view(exprs: Seq<Box<Expr>>) -> Seq<ExprView> {
    Seq::new(exprs.len(), |i: int| exprs[i].model())
}

/// Whether a token of `kind` is an operator on one operand.
pub open spec fn is_unary_operator(kind: TokenKindView) -> bool {
    kind is Bang || kind is Minus
}

/// Whether a token of `kind` is an operator on two operands, other than
/// `and` and `or`.
pub open spec fn is_binary_operator(kind: TokenKindView) -> bool {
    kind is Star || kind is Slash || kind is Plus || kind is Minus || kind is Greater
        || kind is GreaterEqual || kind is Less || kind is LessEqual || kind is EqualEqual
        || kind is BangEqual
}

/// Whether a token of `kind` is `and` or `or`.
pub open spec fn is_logical_operator(kind: TokenKindView) -> bool {
    kind is And || kind is Or
}

/// `expr` is as the parser builds expressions: its operators are
/// operators of their kind, and its variables are named by identifiers.
pub open spec fn expr_formed(expr: ExprView) -> bool
    decreases expr,
{
    match expr {
        ExprView::Unary { op, right } => is_unary_operator(op.kind) && expr_formed(*right),
        ExprView::Binary { left, op, right } => {
            &&& is_binary_operator(op.kind)
            &&& expr_formed(*left)
            &&& expr_formed(*right)
        },
        ExprView::Grouping(inner) => expr_formed(*inner),
        ExprView::Literal(_) => true,
        ExprView::Variable { id, variable } => variable.kind is Identifier,
        ExprView::Assignment { id, variable, expr } => variable.kind is Identifier && expr_formed(
            *expr,
        ),
        ExprView::Logical { left, op, right } => {
            &&& is_logical_operator(op.kind)
            &&& expr_formed(*left)
            &&& expr_formed(*right)
        },
        ExprView::FunCall { callee, paren, args } => expr_formed(*callee) && exprs_formed(args),
    }
}

/// As [`expr_formed`], of each of `exprs`.
pub open spec fn exprs_formed(exprs: Seq<ExprView>) -> bool
    decreases exprs,
{
    if exprs.len() == 0 {
        true
    } else {
        exprs_formed(exprs.drop_last()) && expr_formed(exprs.last())
    }
}

/// Every id in `ids` lies above `low` and not above `high`.
pub open spec fn ids_in(ids: Set<nat>, low: nat, high: nat) -> bool {
    forall|id: nat| ids.contains(id) ==> low < id <= high
}

/// The ids of the uses of variables in `expr`.
pub open spec fn expr_ids(expr: ExprView) -> Set<nat>
    decreases expr,
{
    match expr {
        ExprView::Unary { op, right } => expr_ids(*right),
        ExprView::Binary { left, op, right } => expr_ids(*left).union(expr_ids(*right)),
        ExprView::Grouping(inner) => expr_ids(*inner),
        ExprView::Literal(_) => Set::empty(),
        ExprView::Variable { id, variable } => set![id],
        ExprView::Assignment { id, variable, expr } => expr_ids(*expr).insert(id),
        ExprView::Logical { left, op, right } => expr_ids(*left).union(expr_ids(*right)),
        ExprView::FunCall { callee, paren, args } => expr_ids(*callee).union(exprs_ids(args)),
    }
}

/// The ids of the uses of variables in `exprs`.
pub open spec fn exprs_ids(exprs: Seq<ExprView>) -> Set<nat>
    decreases exprs,
{
    if exprs.len() == 0 {
        Set::empty()
    } else {
        exprs_ids(exprs.drop_last()).union(expr_ids(exprs.last()))
    }
}

/// No id stands at two uses of a variable in `expr`.
pub open spec fn expr_ids_unique(expr: ExprView) -> bool
    decreases expr,
{
    match expr {
        ExprView::Unary { op, right } => expr_ids_unique(*right),
        ExprView::Binary { left, op, right } => {
            &&& expr_ids_unique(*left)
            &&& expr_ids_unique(*right)
            &&& expr_ids(*left).disjoint(expr_ids(*right))
        },
        ExprView::Grouping(inner) => expr_ids_unique(*inner),
        ExprView::Literal(_) => true,
        ExprView::Variable { id, variable } => true,
        ExprView::Assignment { id, variable, expr } => {
            &&& expr_ids_unique(*expr)
            &&& !expr_ids(*expr).contains(id)
        },
        ExprView::Logical { left, op, right } => {
            &&& expr_ids_unique(*left)
            &&& expr_ids_unique(*right)
            &&& expr_ids(*left).disjoint(expr_ids(*right))
        },
        ExprView::FunCall { callee, paren, args } => {
            &&& expr_ids_unique(*callee)
            &&& exprs_ids_unique(args)
            &&& expr_ids(*callee).disjoint(exprs_ids(args))
        },
    }
}

/// No id stands at two uses of a variable in `exprs`.
pub open spec fn exprs_ids_unique(exprs: Seq<ExprView>) -> bool
    decreases exprs,
{
    if exprs.len() == 0 {
        true
    } else {
        &&& exprs_ids_unique(exprs.drop_last())
        &&& expr_ids_unique(exprs.last())
        &&& exprs_ids(exprs.drop_last()).disjoint(expr_ids(exprs.last()))
    }
}

/// A call whose callee and arguments hold ids of their own, those of the
/// arguments above those of the callee, holds each id once.
pub proof fn lemma_call_ids(
    callee: ExprView,
    paren: TokenView,
    args: Seq<ExprView>,
    low: nat,
    middle: nat,
    high: nat,
)
    requires
        expr_ids_unique(callee),
        ids_in(expr_ids(callee), low, middle),
        exprs_ids_unique(args),
        ids_in(exprs_ids(args), middle, high),
        low <= middle <= high,
    ensures
        expr_ids_unique(ExprView::FunCall { callee: Box::new(callee), paren, args }),
        ids_in(
            expr_ids(ExprView::FunCall { callee: Box::new(callee), paren, args }),
            low,
            high,
        ),
{
}

/// An assignment to a variable whose id lies below those of the value
/// holds each id once.
pub proof fn lemma_assignment_ids(
    id: nat,
    variable: TokenView,
    value: ExprView,
    low: nat,
    middle: nat,
    high: nat,
)
    requires
        low < id <= middle <= high,
        expr_ids_unique(value),
        ids_in(expr_ids(value), middle, high),
    ensures
        expr_ids_unique(ExprView::Assignment { id, variable, expr: Box::new(value) }),
        ids_in(
            expr_ids(ExprView::Assignment { id, variable, expr: Box::new(value) }),
            low,
            high,
        ),
{
}

} // verus!

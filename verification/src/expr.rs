//! The expression side of the AST: one variant per node shape, each carrying
//! the operator or literal exactly as the lexer spelled it, and the source
//! span it covers. A double-dispatch visitor contract lets downstream passes
//! walk the tree without the core knowing them.

use vstd::prelude::*;

use crate::results::{Loc, PhyResult};

verus! {

/// An expression node. Each variant owns its child subexpressions outright:
/// the tree is strict, with no sharing and no cycles. The literals `true`,
/// `false` and `null` are represented as `Identifier` nodes carrying that
/// text, not as dedicated variants.
#[derive(Debug, PartialEq)]
pub enum Expr {
    Binary(BinaryExpr),
    Grouping(GroupingExpr),
    IntLiteral(IntLiteralExpr),
    RealLiteral(RealLiteralExpr),
    StrLiteral(StrLiteralExpr),
    Identifier(IdentifierExpr),
    Unary(UnaryExpr),
    Assign(AssignExpr),
}

/// A left-leaning binary application; the operator is the lexeme text the
/// lexer produced, not a separate operator enumeration.
#[derive(Debug, PartialEq)]
pub struct BinaryExpr {
    pub left: Box<Expr>,
    pub operator: String,
    pub right: Box<Expr>,
    pub loc: Loc,
}

#[derive(Debug, PartialEq)]
pub struct GroupingExpr {
    pub expr: Box<Expr>,
    pub loc: Loc,
}

#[derive(Debug, PartialEq)]
pub struct IntLiteralExpr {
    pub value: i64,
    pub loc: Loc,
}

/// A real literal carries its lexeme text; turning it into a machine float is
/// the evaluator's business, outside this core.
#[derive(Debug, PartialEq)]
pub struct RealLiteralExpr {
    pub value: String,
    pub loc: Loc,
}

#[derive(Debug, PartialEq)]
pub struct StrLiteralExpr {
    pub value: String,
    pub loc: Loc,
}

#[derive(Debug, PartialEq)]
pub struct IdentifierExpr {
    pub name: String,
    pub loc: Loc,
}

#[derive(Debug, PartialEq)]
pub struct UnaryExpr {
    pub operator: String,
    pub right: Box<Expr>,
    pub loc: Loc,
}

#[derive(Debug, PartialEq)]
pub struct AssignExpr {
    pub name: String,
    pub value: Box<Expr>,
    pub loc: Loc,
}

/// Spec-level twin of `Expr`: texts as character sequences and span endpoints
/// as unbounded integers.
pub ghost enum ExprV {
    Binary { left: Box<ExprV>, operator: Seq<char>, right: Box<ExprV>, start: int, end: int },
    Grouping { expr: Box<ExprV>, start: int, end: int },
    IntLiteral { value: i64, start: int, end: int },
    RealLiteral { value: Seq<char>, start: int, end: int },
    StrLiteral { value: Seq<char>, start: int, end: int },
    Identifier { name: Seq<char>, start: int, end: int },
    Unary { operator: Seq<char>, right: Box<ExprV>, start: int, end: int },
    Assign { name: Seq<char>, value: Box<ExprV>, start: int, end: int },
}

impl ExprV {
    /// The span's start, whatever the variant.
    pub open spec fn start(self) -> int {
        match self {
            ExprV::Binary { start, .. } => start,
            ExprV::Grouping { start, .. } => start,
            ExprV::IntLiteral { start, .. } => start,
            ExprV::RealLiteral { start, .. } => start,
            ExprV::StrLiteral { start, .. } => start,
            ExprV::Identifier { start, .. } => start,
            ExprV::Unary { start, .. } => start,
            ExprV::Assign { start, .. } => start,
        }
    }

    /// The span's end, whatever the variant.
    pub open spec fn end(self) -> int {
        match self {
            ExprV::Binary { end, .. } => end,
            ExprV::Grouping { end, .. } => end,
            ExprV::IntLiteral { end, .. } => end,
            ExprV::RealLiteral { end, .. } => end,
            ExprV::StrLiteral { end, .. } => end,
            ExprV::Identifier { end, .. } => end,
            ExprV::Unary { end, .. } => end,
            ExprV::Assign { end, .. } => end,
        }
    }
}

/// The view of an expression tree, node by node.
pub open spec fn expr_view(e: &Expr) -> ExprV
    decreases e,
{
    match e {
        Expr::Binary(b) => ExprV::Binary {
            left: Box::new(expr_view(&b.left)),
            operator: b.operator@,
            right: Box::new(expr_view(&b.right)),
            start: b.loc.start as int,
            end: b.loc.end as int,
        },
        Expr::Grouping(g) => ExprV::Grouping {
            expr: Box::new(expr_view(&g.expr)),
            start: g.loc.start as int,
            end: g.loc.end as int,
        },
        Expr::IntLiteral(i) => ExprV::IntLiteral {
            value: i.value,
            start: i.loc.start as int,
            end: i.loc.end as int,
        },
        Expr::RealLiteral(r) => ExprV::RealLiteral {
            value: r.value@,
            start: r.loc.start as int,
            end: r.loc.end as int,
        },
        Expr::StrLiteral(s) => ExprV::StrLiteral {
            value: s.value@,
            start: s.loc.start as int,
            end: s.loc.end as int,
        },
        Expr::Identifier(i) => ExprV::Identifier {
            name: i.name@,
            start: i.loc.start as int,
            end: i.loc.end as int,
        },
        Expr::Unary(u) => ExprV::Unary {
            operator: u.operator@,
            right: Box::new(expr_view(&u.right)),
            start: u.loc.start as int,
            end: u.loc.end as int,
        },
        Expr::Assign(a) => ExprV::Assign {
            name: a.name@,
            value: Box::new(expr_view(&a.value)),
            start: a.loc.start as int,
            end: a.loc.end as int,
        },
    }
}

impl View for Expr {
    type V = ExprV;

    open spec fn view(&self) -> ExprV {
        expr_view(self)
    }
}

impl DeepView for Expr {
    type V = ExprV;

    open spec fn deep_view(&self) -> ExprV {
        expr_view(self)
    }
}

impl Expr {
    /// The span the node carries.
    pub fn get_loc(&self) -> (r: Loc)
        ensures
            r.start as int == self@.start(),
            r.end as int == self@.end(),
    {
        match self {
            Self::Binary(b) => b.loc.clone(),
            Self::Grouping(g) => g.loc.clone(),
            Self::IntLiteral(i) => i.loc.clone(),
            Self::RealLiteral(r) => r.loc.clone(),
            Self::StrLiteral(s) => s.loc.clone(),
            Self::Identifier(i) => i.loc.clone(),
            Self::Unary(u) => u.loc.clone(),
            Self::Assign(a) => a.loc.clone(),
        }
    }

    /// Double dispatch: hands this node to the visitor's operation for its
    /// variant — and to no other — with this variant's payload and the
    /// opaque environment handle passed through unchanged; the result is
    /// that call's result.
    pub fn accept<T, U, E, V: VisitExpr<T, U, E>>(&self, visitor: &V, env: E) -> (r: Result<
        T,
        PhyResult<U>,
    >)
        ensures
            (match self {
                Expr::Binary(e) => call_ensures(V::visit_binary_expr, (visitor, e, env), r),
                Expr::Grouping(e) => call_ensures(V::visit_grouping_expr, (visitor, e, env), r),
                Expr::IntLiteral(e) => call_ensures(
                    V::visit_int_literal_expr,
                    (visitor, e, env),
                    r,
                ),
                Expr::RealLiteral(e) => call_ensures(
                    V::visit_real_literal_expr,
                    (visitor, e, env),
                    r,
                ),
                Expr::StrLiteral(e) => call_ensures(
                    V::visit_str_literal_expr,
                    (visitor, e, env),
                    r,
                ),
                Expr::Identifier(e) => call_ensures(
                    V::visit_identifier_expr,
                    (visitor, e, env),
                    r,
                ),
                Expr::Unary(e) => call_ensures(V::visit_unary_expr, (visitor, e, env), r),
                Expr::Assign(e) => call_ensures(V::visit_assign_expr, (visitor, e, env), r),
            }),
    {
        match self {
            Expr::Binary(e) => visitor.visit_binary_expr(e, env),
            Expr::Grouping(e) => visitor.visit_grouping_expr(e, env),
            Expr::IntLiteral(e) => visitor.visit_int_literal_expr(e, env),
            Expr::RealLiteral(e) => visitor.visit_real_literal_expr(e, env),
            Expr::StrLiteral(e) => visitor.visit_str_literal_expr(e, env),
            Expr::Identifier(e) => visitor.visit_identifier_expr(e, env),
            Expr::Unary(e) => visitor.visit_unary_expr(e, env),
            Expr::Assign(e) => visitor.visit_assign_expr(e, env),
        }
    }
}

/// The visitor capability: one operation per expression variant. The
/// environment handle `E` is owned and defined by the external pass; the core
/// neither inspects nor constrains it.
pub trait VisitExpr<T, U, E> {
    fn visit_binary_expr(&self, expr: &BinaryExpr, env: E) -> Result<T, PhyResult<U>>;

    fn visit_grouping_expr(&self, expr: &GroupingExpr, env: E) -> Result<T, PhyResult<U>>;

    fn visit_int_literal_expr(&self, expr: &IntLiteralExpr, env: E) -> Result<T, PhyResult<U>>;

    fn visit_real_literal_expr(&self, expr: &RealLiteralExpr, env: E) -> Result<T, PhyResult<U>>;

    fn visit_str_literal_expr(&self, expr: &StrLiteralExpr, env: E) -> Result<T, PhyResult<U>>;

    fn visit_identifier_expr(&self, expr: &IdentifierExpr, env: E) -> Result<T, PhyResult<U>>;

    fn visit_unary_expr(&self, expr: &UnaryExpr, env: E) -> Result<T, PhyResult<U>>;

    fn visit_assign_expr(&self, expr: &AssignExpr, env: E) -> Result<T, PhyResult<U>>;
}

} // verus!

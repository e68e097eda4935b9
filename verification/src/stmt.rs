//! The statement side of the AST: expression statements, `print`, blocks and
//! `var` declarations, each carrying the span it covers, with the visitor
//! contract matching the expression side's.

use vstd::prelude::*;

use crate::expr::{Expr, ExprV, expr_view};
use crate::results::{Loc, PhyResult};

verus! {

/// A statement node. Blocks and declarations own their children outright.
#[derive(Debug, PartialEq)]
pub enum Stmt {
    Expr(ExprStmt),
    Print(PrintStmt),
    Block(BlockStmt),
    VarDecl(VarDeclStmt),
}

#[derive(Debug, PartialEq)]
pub struct ExprStmt {
    pub expr: Expr,
    pub loc: Loc,
}

#[derive(Debug, PartialEq)]
pub struct PrintStmt {
    pub expr: Expr,
    pub loc: Loc,
}

#[derive(Debug, PartialEq)]
pub struct BlockStmt {
    pub stmts: Vec<Stmt>,
    pub loc: Loc,
}

#[derive(Debug, PartialEq)]
pub struct VarDeclStmt {
    pub name: String,
    pub value: Option<Expr>,
    pub loc: Loc,
}

/// Spec-level twin of `Stmt`.
pub ghost enum StmtV {
    Expr { expr: ExprV, start: int, end: int },
    Print { expr: ExprV, start: int, end: int },
    Block { stmts: Seq<StmtV>, start: int, end: int },
    VarDecl { name: Seq<char>, value: Option<ExprV>, start: int, end: int },
}

/// The views of a sequence of statements, in order.
pub open spec fn stmts_view(ss: Seq<Stmt>) -> Seq<StmtV>
    decreases ss,
{
    if ss.len() == 0 {
        seq![]
    } else {
        seq![stmt_view(&ss[0])] + stmts_view(ss.subrange(1, ss.len() as int))
    }
}

/// The view of a statement tree, node by node.
pub open spec fn stmt_view(s: &Stmt) -> StmtV
    decreases s,
{
    match s {
        Stmt::Expr(e) => StmtV::Expr {
            expr: expr_view(&e.expr),
            start: e.loc.start as int,
            end: e.loc.end as int,
        },
        Stmt::Print(p) => StmtV::Print {
            expr: expr_view(&p.expr),
            start: p.loc.start as int,
            end: p.loc.end as int,
        },
        Stmt::Block(b) => StmtV::Block {
            stmts: stmts_view(b.stmts@),
            start: b.loc.start as int,
            end: b.loc.end as int,
        },
        Stmt::VarDecl(v) => StmtV::VarDecl {
            name: v.name@,
            value: match &v.value {
                Some(e) => Some(expr_view(e)),
                None => None,
            },
            start: v.loc.start as int,
            end: v.loc.end as int,
        },
    }
}

/// `stmts_view` is the elementwise view.
pub proof fn lemma_stmts_view(ss: Seq<Stmt>)
    ensures
        stmts_view(ss).len() == ss.len(),
        forall|i: int| 0 <= i < ss.len() ==> stmts_view(ss)[i] == stmt_view(&ss[i]),
    decreases ss.len(),
{
    if ss.len() > 0 {
        lemma_stmts_view(ss.subrange(1, ss.len() as int));
    }
}

impl View for Stmt {
    type V = StmtV;

    open spec fn view(&self) -> StmtV {
        stmt_view(self)
    }
}

impl DeepView for Stmt {
    type V = StmtV;

    open spec fn deep_view(&self) -> StmtV {
        stmt_view(self)
    }
}

impl Stmt {
    /// Double dispatch: hands this node to the visitor's operation for its
    /// variant — and to no other — with this variant's payload and the
    /// opaque environment handle passed through unchanged; the result is
    /// that call's result.
    pub fn accept<T, U, E, V: VisitStmt<T, U, E>>(&self, visitor: &V, env: E) -> (r: Result<
        T,
        PhyResult<U>,
    >)
        ensures
            (match self {
                Stmt::Expr(s) => call_ensures(V::visit_expr_stmt, (visitor, s, env), r),
                Stmt::Print(s) => call_ensures(V::visit_print_stmt, (visitor, s, env), r),
                Stmt::Block(s) => call_ensures(V::visit_block_stmt, (visitor, s, env), r),
                Stmt::VarDecl(s) => call_ensures(V::visit_var_decl_stmt, (visitor, s, env), r),
            }),
    {
        match self {
            Stmt::Expr(s) => visitor.visit_expr_stmt(s, env),
            Stmt::Print(s) => visitor.visit_print_stmt(s, env),
            Stmt::Block(s) => visitor.visit_block_stmt(s, env),
            Stmt::VarDecl(s) => visitor.visit_var_decl_stmt(s, env),
        }
    }
}

/// The visitor capability: one operation per statement variant.
pub trait VisitStmt<T, U, E> {
    fn visit_expr_stmt(&self, stmt: &ExprStmt, env: E) -> Result<T, PhyResult<U>>;

    fn visit_print_stmt(&self, stmt: &PrintStmt, env: E) -> Result<T, PhyResult<U>>;

    fn visit_block_stmt(&self, stmt: &BlockStmt, env: E) -> Result<T, PhyResult<U>>;

    fn visit_var_decl_stmt(&self, stmt: &VarDeclStmt, env: E) -> Result<T, PhyResult<U>>;
}

} // verus!

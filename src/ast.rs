use vstd::prelude::*;
use crate::lexer::BinOp;

verus! {

/// An expression of the language.
pub enum Expr {
    Int(i64),
    Bool(bool),
    Var(Vec<char>),
    Neg(Box<Expr>),
    Bin(BinOp, Box<Expr>, Box<Expr>),
}

/// A statement: a binding or an expression whose value is the statement's value.
pub enum Stmt {
    Let(Vec<char>, Expr),
    Expr(Expr),
}

/// The mathematical form of an expression.
pub enum SExpr {
    Int(i64),
    Bool(bool),
    Var(Seq<char>),
    Neg(Box<SExpr>),
    Bin(BinOp, Box<SExpr>, Box<SExpr>),
}

/// The mathematical form of a statement.
pub enum SStmt {
    Let(Seq<char>, SExpr),
    Expr(SExpr),
}

impl Expr {
    pub open spec fn view(&self) -> SExpr
        decreases self,
    {
        match self {
            Expr::Int(v) => SExpr::Int(*v),
            Expr::Bool(b) => SExpr::Bool(*b),
            Expr::Var(n) => SExpr::Var(n@),
            Expr::Neg(e) => SExpr::Neg(Box::new((**e).view())),
            Expr::Bin(op, l, r) => SExpr::Bin(*op, Box::new((**l).view()), Box::new((**r).view())),
        }
    }
}

impl Stmt {
    pub open spec fn view(&self) -> SStmt {
        match self {
            Stmt::Let(n, e) => SStmt::Let(n@, e.view()),
            Stmt::Expr(e) => SStmt::Expr(e.view()),
        }
    }
}

pub open spec fn stmts_view(s: Seq<Stmt>) -> Seq<SStmt> {
    s.map_values(|x: Stmt| x.view())
}

} // verus!

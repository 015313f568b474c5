//! The syntax tree: expressions, statements and the program, together with
//! their mathematical images (texts as character sequences, numbers as scaled
//! counts) and deep clones.
use vstd::prelude::*;
use crate::num::Num;

verus! {

/// A binary operator tag.
#[derive(Clone, Copy, PartialEq, Eq, Structural)]
pub enum BinOp {
    Add,
    Sub,
    Mul,
    Div,
    Eq,
    Ne,
    Gt,
    Lt,
    Ge,
    Le,
}

/// An expression.
pub enum Expr {
    Number(Num),
    StrLit(String),
    Bool(bool),
    Ident(String),
    Bin { op: BinOp, left: Box<Expr>, right: Box<Expr> },
    Call { name: String, args: Vec<Expr> },
    Assign { name: String, value: Box<Expr> },
}

/// A statement.
pub enum Stmt {
    Let { name: String, init: Expr },
    If { cond: Expr, then_branch: Vec<Stmt>, else_branch: Option<Vec<Stmt>> },
    While { cond: Expr, body: Vec<Stmt> },
    Return(Expr),
    Expr(Expr),
    FuncDecl { name: String, params: Vec<String>, body: Vec<Stmt> },
}

/// The parsed program: its top-level statements in order.
pub struct Program {
    pub statements: Vec<Stmt>,
}

/// Mathematical image of an expression.
pub enum ExprV {
    Number(int),
    StrLit(Seq<char>),
    Bool(bool),
    Ident(Seq<char>),
    Bin { op: BinOp, left: Box<ExprV>, right: Box<ExprV> },
    Call { name: Seq<char>, args: Seq<ExprV> },
    Assign { name: Seq<char>, value: Box<ExprV> },
}

/// Mathematical image of a statement.
pub enum StmtV {
    Let { name: Seq<char>, init: ExprV },
    If { cond: ExprV, then_branch: Seq<StmtV>, else_branch: Option<Seq<StmtV>> },
    While { cond: ExprV, body: Seq<StmtV> },
    Return(ExprV),
    Expr(ExprV),
    FuncDecl { name: Seq<char>, params: Seq<Seq<char>>, body: Seq<StmtV> },
}

pub open spec fn strings_view(ps: Seq<String>) -> Seq<Seq<char>> {
    Seq::new(ps.len(), |i: int| ps[i]@)
}

pub open spec fn expr_view(e: Expr) -> ExprV
    decreases e,
{
    match e {
        Expr::Number(n) => ExprV::Number(n@),
        Expr::StrLit(s) => ExprV::StrLit(s@),
        Expr::Bool(b) => ExprV::Bool(b),
        Expr::Ident(s) => ExprV::Ident(s@),
        Expr::Bin { op, left, right } => ExprV::Bin {
            op,
            left: Box::new(expr_view(*left)),
            right: Box::new(expr_view(*right)),
        },
        Expr::Call { name, args } => ExprV::Call { name: name@, args: exprs_view(args@) },
        Expr::Assign { name, value } => ExprV::Assign {
            name: name@,
            value: Box::new(expr_view(*value)),
        },
    }
}

pub open spec fn exprs_view(es: Seq<Expr>) -> Seq<ExprV>
    decreases es,
{
    if es.len() == 0 {
        Seq::empty()
    } else {
        exprs_view(es.drop_last()).push(expr_view(es.last()))
    }
}

pub open spec fn stmt_view(s: Stmt) -> StmtV
    decreases s,
{
    match s {
        Stmt::Let { name, init } => StmtV::Let { name: name@, init: expr_view(init) },
        Stmt::If { cond, then_branch, else_branch } => StmtV::If {
            cond: expr_view(cond),
            then_branch: stmts_view(then_branch@),
            else_branch: match else_branch {
                Some(eb) => Some(stmts_view(eb@)),
                None => None,
            },
        },
        Stmt::While { cond, body } => StmtV::While {
            cond: expr_view(cond),
            body: stmts_view(body@),
        },
        Stmt::Return(e) => StmtV::Return(expr_view(e)),
        Stmt::Expr(e) => StmtV::Expr(expr_view(e)),
        Stmt::FuncDecl { name, params, body } => StmtV::FuncDecl {
            name: name@,
            params: strings_view(params@),
            body: stmts_view(body@),
        },
    }
}

pub open spec fn stmts_view(ss: Seq<Stmt>) -> Seq<StmtV>
    decreases ss,
{
    if ss.len() == 0 {
        Seq::empty()
    } else {
        stmts_view(ss.drop_last()).push(stmt_view(ss.last()))
    }
}

/// Mathematical image of a program: its statements.
pub open spec fn program_view(p: Program) -> Seq<StmtV> {
    stmts_view(p.statements@)
}

pub broadcast proof fn lemma_exprs_view(es: Seq<Expr>)
    ensures
        (#[trigger] exprs_view(es)).len() == es.len(),
        forall|i: int| 0 <= i < es.len() ==> exprs_view(es)[i] == expr_view(es[i]),
    decreases es,
{
    if es.len() > 0 {
        lemma_exprs_view(es.drop_last());
    }
}

pub broadcast proof fn lemma_stmts_view(ss: Seq<Stmt>)
    ensures
        (#[trigger] stmts_view(ss)).len() == ss.len(),
        forall|i: int| 0 <= i < ss.len() ==> stmts_view(ss)[i] == stmt_view(ss[i]),
    decreases ss,
{
    if ss.len() > 0 {
        lemma_stmts_view(ss.drop_last());
    }
}

pub fn clone_strings(v: &Vec<String>) -> (r: Vec<String>)
    ensures
        strings_view(r@) == strings_view(v@),
{
    let mut r: Vec<String> = Vec::new();
    let mut i: usize = 0;
    while i < v.len()
        invariant
            i <= v@.len(),
            r@.len() == i,
            forall|k: int| 0 <= k < i ==> r@[k]@ == v@[k]@,
        decreases v@.len() - i,
    {
        r.push(v[i].clone());
        i = i + 1;
    }
    proof {
        assert(strings_view(r@) =~= strings_view(v@));
    }
    r
}

impl Clone for Expr {
    /// A deep copy with the same image.
    fn clone(&self) -> (r: Expr)
        ensures
            expr_view(r) == expr_view(*self),
        decreases self,
    {
        match self {
            Expr::Number(n) => Expr::Number(*n),
            Expr::StrLit(s) => Expr::StrLit(s.clone()),
            Expr::Bool(b) => Expr::Bool(*b),
            Expr::Ident(s) => Expr::Ident(s.clone()),
            Expr::Bin { op, left, right } => Expr::Bin {
                op: *op,
                left: Box::new((**left).clone()),
                right: Box::new((**right).clone()),
            },
            Expr::Call { name, args } => Expr::Call {
                name: name.clone(),
                args: clone_exprs(args),
            },
            Expr::Assign { name, value } => Expr::Assign {
                name: name.clone(),
                value: Box::new((**value).clone()),
            },
        }
    }
}

pub fn clone_exprs(v: &Vec<Expr>) -> (r: Vec<Expr>)
    ensures
        exprs_view(r@) == exprs_view(v@),
    decreases v,
{
    let mut r: Vec<Expr> = Vec::new();
    let mut i: usize = 0;
    while i < v.len()
        invariant
            i <= v@.len(),
            r@.len() == i,
            forall|k: int| 0 <= k < i ==> expr_view(r@[k]) == expr_view(v@[k]),
        decreases v@.len() - i,
    {
        r.push(v[i].clone());
        i = i + 1;
    }
    proof {
        lemma_exprs_view(r@);
        lemma_exprs_view(v@);
        assert(exprs_view(r@) =~= exprs_view(v@));
    }
    r
}

impl Clone for Stmt {
    /// A deep copy with the same image.
    fn clone(&self) -> (r: Stmt)
        ensures
            stmt_view(r) == stmt_view(*self),
        decreases self,
    {
        match self {
            Stmt::Let { name, init } => Stmt::Let { name: name.clone(), init: init.clone() },
            Stmt::If { cond, then_branch, else_branch } => Stmt::If {
                cond: cond.clone(),
                then_branch: clone_stmts(then_branch),
                else_branch: match else_branch {
                    Some(eb) => Some(clone_stmts(eb)),
                    None => None,
                },
            },
            Stmt::While { cond, body } => Stmt::While {
                cond: cond.clone(),
                body: clone_stmts(body),
            },
            Stmt::Return(e) => Stmt::Return(e.clone()),
            Stmt::Expr(e) => Stmt::Expr(e.clone()),
            Stmt::FuncDecl { name, params, body } => Stmt::FuncDecl {
                name: name.clone(),
                params: clone_strings(params),
                body: clone_stmts(body),
            },
        }
    }
}

pub fn clone_stmts(v: &Vec<Stmt>) -> (r: Vec<Stmt>)
    ensures
        stmts_view(r@) == stmts_view(v@),
    decreases v,
{
    let mut r: Vec<Stmt> = Vec::new();
    let mut i: usize = 0;
    while i < v.len()
        invariant
            i <= v@.len(),
            r@.len() == i,
            forall|k: int| 0 <= k < i ==> stmt_view(r@[k]) == stmt_view(v@[k]),
        decreases v@.len() - i,
    {
        r.push(v[i].clone());
        i = i + 1;
    }
    proof {
        lemma_stmts_view(r@);
        lemma_stmts_view(v@);
        assert(stmts_view(r@) =~= stmts_view(v@));
    }
    r
}

} // verus!

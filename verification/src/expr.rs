//! The abstract syntax tree an expression parses into.
//!
//! A tree is immutable once built and evaluation never mutates it.  A call
//! node stores the index the parser resolved its function name to in the
//! caller's function table, so no name is looked up again at evaluation time.

use vstd::prelude::*;

use crate::token::OpType;

verus! {

/// A binary operation node: an operator applied to two exclusively owned
/// subtrees.
#[derive(Debug, PartialEq)]
pub struct Op {
    pub op: OpType,
    pub lhs: Box<Expr>,
    pub rhs: Box<Expr>,
}

impl Op {
    pub fn new(op: OpType, lhs: Box<Expr>, rhs: Box<Expr>) -> (r: Self)
        ensures
            r.op == op,
            r.lhs == lhs,
            r.rhs == rhs,
    {
        Op { op, lhs, rhs }
    }
}

/// A function application node: the argument subtree and the index of the
/// resolved function in the table the parser was given.
#[derive(Debug, PartialEq)]
pub struct Function {
    pub arg: Box<Expr>,
    pub fun: usize,
}

/// An expression tree.
#[derive(Debug, PartialEq)]
pub enum Expr {
    /// A literal, as the radix-aware unsigned integer the lexer produced.
    Value(u64),
    /// A variable, resolved against the bindings at evaluation time.
    Variable(String),
    /// A binary operation.
    Operation(Op),
    /// A function application.
    Function(Function),
}

/// The mathematical model of an expression tree.
pub enum ExprModel {
    Value(u64),
    Variable(Seq<char>),
    Operation(OpType, Box<ExprModel>, Box<ExprModel>),
    Function(usize, Box<ExprModel>),
}

/// The model of `e`.
pub open spec fn expr_model(e: Expr) -> ExprModel
    decreases e,
{
    match e {
        Expr::Value(v) => ExprModel::Value(v),
        Expr::Variable(name) => ExprModel::Variable(name@),
        Expr::Operation(op) => ExprModel::Operation(
            op.op,
            Box::new(expr_model(*op.lhs)),
            Box::new(expr_model(*op.rhs)),
        ),
        Expr::Function(f) => ExprModel::Function(f.fun, Box::new(expr_model(*f.arg))),
    }
}

impl View for Expr {
    type V = ExprModel;

    open spec fn view(&self) -> ExprModel {
        expr_model(*self)
    }
}

/// Whether every function index in the tree lies below `n_funs`; trees the
/// parser builds against a table of `n_funs` names satisfy this.
pub open spec fn expr_wf(e: ExprModel, n_funs: nat) -> bool
    decreases e,
{
    match e {
        ExprModel::Value(_) => true,
        ExprModel::Variable(_) => true,
        ExprModel::Operation(_, lhs, rhs) => expr_wf(*lhs, n_funs) && expr_wf(*rhs, n_funs),
        ExprModel::Function(fun, arg) => fun < n_funs && expr_wf(*arg, n_funs),
    }
}

} // verus!

//! The evaluator: a pure recursive walk of an expression tree against a set
//! of variable bindings.
//!
//! Numeric values are opaque 64-bit scalars: the engine never interprets
//! them.  The caller supplies the arithmetic through [`ScalarHost`] — the
//! embedding of literals, the four operators, the unary function table, and
//! the order used by the plotter — and every structural decision (evaluation
//! order, variable resolution, error propagation) is verified against the
//! host's own model.  The shipped front end backs a host with IEEE-754
//! doubles, so division by zero yields an infinity that flows through as a
//! value, never as an error.

use vstd::prelude::*;

use crate::bindings::Bindings;
use crate::error::{ErrorModel, InvalidExpressionError};
use crate::expr::{Expr, ExprModel};
use crate::token::OpType;

verus! {

/// A numeric value, carried as its 64-bit encoding.  The engine moves
/// scalars between literals, bindings and applications without reading the
/// encoding; the host chooses it.
#[derive(Clone, Copy, Debug, PartialEq, Eq, Structural)]
pub struct Scalar {
    pub bits: u64,
}

/// The arithmetic a caller assembles once at startup and hands to the
/// engine: how literals embed into the scalar domain, what the four
/// operators and the indexed unary functions return, and the finiteness and
/// order the plotter ranges by.  Each executable method must return exactly
/// what its `spec` counterpart models, so everything the engine proves holds
/// relative to the host's own model of its arithmetic.  Nothing here checks
/// an implementation against its models: like the function table it
/// generalizes, the host is the caller's trusted arithmetic, and the
/// engine's guarantees hold of hosts that keep their word.
pub trait ScalarHost {
    /// The scalar the literal `v` denotes.
    spec fn literal_model(&self, v: u64) -> Scalar;

    /// The scalar `op` applied to `lhs` and `rhs` denotes.
    spec fn op_model(&self, op: OpType, lhs: Scalar, rhs: Scalar) -> Scalar;

    /// The scalar the function at index `fun` returns on `arg`.
    spec fn fun_model(&self, fun: usize, arg: Scalar) -> Scalar;

    /// Whether the host considers `a` finite.
    spec fn finite_model(&self, a: Scalar) -> bool;

    /// Whether the host orders `a` strictly below `b`.
    spec fn lt_model(&self, a: Scalar, b: Scalar) -> bool;

    fn literal(&self, v: u64) -> (r: Scalar)
        ensures
            r == self.literal_model(v),
    ;

    fn apply_op(&self, op: OpType, lhs: Scalar, rhs: Scalar) -> (r: Scalar)
        ensures
            r == self.op_model(op, lhs, rhs),
    ;

    fn apply_fun(&self, fun: usize, arg: Scalar) -> (r: Scalar)
        ensures
            r == self.fun_model(fun, arg),
    ;

    fn is_finite(&self, a: Scalar) -> (r: bool)
        ensures
            r == self.finite_model(a),
    ;

    fn lt(&self, a: Scalar, b: Scalar) -> (r: bool)
        ensures
            r == self.lt_model(a, b),
    ;
}

/// The value evaluating `e` under the bindings `env` yields with the host's
/// arithmetic, or the unknown variable it trips over first: the left operand
/// is evaluated before the right one, an argument before its function, and
/// the first failure propagates.  This is the mathematical model
/// [`Expr::calc`] is proved against.
pub open spec fn calc_model<H: ScalarHost>(
    e: ExprModel,
    env: Map<Seq<char>, Scalar>,
    host: &H,
) -> Result<Scalar, ErrorModel>
    decreases e,
{
    match e {
        ExprModel::Value(v) => Ok(host.literal_model(v)),
        ExprModel::Variable(name) => if env.dom().contains(name) {
            Ok(env[name])
        } else {
            Err(ErrorModel::UnknownVariable(name))
        },
        ExprModel::Operation(op, lhs, rhs) => match calc_model(*lhs, env, host) {
            Err(e) => Err(e),
            Ok(l) => match calc_model(*rhs, env, host) {
                Err(e) => Err(e),
                Ok(r) => Ok(host.op_model(op, l, r)),
            },
        },
        ExprModel::Function(fun, arg) => match calc_model(*arg, env, host) {
            Err(e) => Err(e),
            Ok(a) => Ok(host.fun_model(fun, a)),
        },
    }
}

impl Expr {
    /// Evaluates the tree under `variables` with the host's arithmetic.  The
    /// result is exactly the model [`calc_model`] gives: in particular the
    /// call returns `Ok` if and only if every variable the evaluation order
    /// reaches is bound, and otherwise names the first unbound one.
    pub fn calc<H: ScalarHost>(&self, variables: &Bindings, host: &H) -> (r: Result<
        Scalar,
        InvalidExpressionError,
    >)
        ensures
            ({
                let m = calc_model(self@, variables@, host);
                match r {
                    Ok(v) => m matches Ok(mv) && mv == v,
                    Err(e) => m matches Err(me) && me == e@,
                }
            }),
        decreases self,
    {
        match self {
            Expr::Value(v) => Ok(host.literal(*v)),
            Expr::Variable(name) => match variables.get(name) {
                Some(v) => Ok(v),
                None => Err(InvalidExpressionError::UnknownVariable(name.clone())),
            },
            Expr::Operation(op) => {
                let lhs = match op.lhs.calc(variables, host) {
                    Ok(v) => v,
                    Err(e) => {
                        return Err(e);
                    },
                };
                let rhs = match op.rhs.calc(variables, host) {
                    Ok(v) => v,
                    Err(e) => {
                        return Err(e);
                    },
                };
                Ok(host.apply_op(op.op, lhs, rhs))
            },
            Expr::Function(fun) => {
                let arg = match fun.arg.calc(variables, host) {
                    Ok(v) => v,
                    Err(e) => {
                        return Err(e);
                    },
                };
                Ok(host.apply_fun(fun.fun, arg))
            },
        }
    }
}

/// Evaluation is a mathematical function of the tree, the bindings and the
/// host: any two outcomes the evaluator's contract admits on equal inputs
/// are equal — evaluating an unchanged tree under unchanged bindings twice
/// yields identical scalars.
pub proof fn lemma_calc_deterministic<H: ScalarHost>(
    e: ExprModel,
    env: Map<Seq<char>, Scalar>,
    host: &H,
    r1: Result<Scalar, ErrorModel>,
    r2: Result<Scalar, ErrorModel>,
)
    requires
        r1 == calc_model(e, env, host),
        r2 == calc_model(e, env, host),
    ensures
        r1 == r2,
{
}

/// Whether an evaluation fails depends only on the tree and on which names
/// are bound, never on the bound values: under two binding sets with equal
/// domains, evaluation fails the same way.
pub proof fn lemma_calc_err_dom<H: ScalarHost>(
    e: ExprModel,
    env1: Map<Seq<char>, Scalar>,
    env2: Map<Seq<char>, Scalar>,
    host: &H,
)
    requires
        env1.dom() == env2.dom(),
    ensures
        calc_model(e, env1, host) is Err <==> calc_model(e, env2, host) is Err,
        calc_model(e, env1, host) is Err ==> calc_model(e, env1, host) == calc_model(
            e,
            env2,
            host,
        ),
    decreases e,
{
    match e {
        ExprModel::Value(_) => {},
        ExprModel::Variable(_) => {},
        ExprModel::Operation(_, lhs, rhs) => {
            lemma_calc_err_dom(*lhs, env1, env2, host);
            lemma_calc_err_dom(*rhs, env1, env2, host);
        },
        ExprModel::Function(_, arg) => {
            lemma_calc_err_dom(*arg, env1, env2, host);
        },
    }
}

} // verus!

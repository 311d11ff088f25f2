//! What an expression means: its value over the integers, once every variable and
//! every function has been given a meaning.

use crate::engine::{
    fold_node, lemma_trace_shape, normalize, rewrite, simplification_trace, simplify_step,
};
use crate::folding::apply;
use crate::node::{Expr, Operator};
use vstd::arithmetic::power::{lemma_pow0, lemma_pow1};
use vstd::prelude::*;

verus! {

/// A meaning for the names of an expression.
pub ghost struct Interpretation {
    /// The value of each variable.
    pub variable: spec_fn(Seq<char>) -> int,
    /// The value of each function at each argument.
    pub function: spec_fn(Seq<char>, int) -> int,
}

/// The value of an expression. Brackets do not change it. There is none where a
/// division is by zero or leaves a remainder, or an exponent is negative.
pub open spec fn value(e: Expr, meaning: Interpretation) -> Option<int>
    decreases e,
{
    match e {
        Expr::Bracket { inner } => value(*inner, meaning),
        Expr::Binary { op, lhs, rhs } => match (value(*lhs, meaning), value(*rhs, meaning)) {
            (Some(a), Some(b)) => apply(op, a, b),
            _ => None,
        },
        Expr::Constant { value } => Some(value),
        Expr::Variable { name } => Some((meaning.variable)(name)),
        Expr::Function { name, argument } => match value(*argument, meaning) {
            Some(a) => Some((meaning.function)(name, a)),
            None => None,
        },
    }
}

/// Normalization does not change what a tree means.
pub proof fn lemma_normalize_preserves_value(e: Expr, meaning: Interpretation)
    ensures
        value(normalize(e), meaning) == value(e, meaning),
    decreases e,
{
    match e {
        Expr::Bracket { inner } => {
            lemma_normalize_preserves_value(*inner, meaning);
        },
        Expr::Binary { op, lhs, rhs } => {
            lemma_normalize_preserves_value(*lhs, meaning);
            lemma_normalize_preserves_value(*rhs, meaning);
        },
        Expr::Function { name, argument } => {
            lemma_normalize_preserves_value(*argument, meaning);
        },
        _ => {},
    }
}

/// Every identity keeps the value of a tree that has one.
pub proof fn lemma_rewrite_preserves_value(e: Expr, meaning: Interpretation)
    requires
        value(e, meaning) is Some,
    ensures
        rewrite(e) matches Some(rewritten) ==> value(rewritten, meaning) == value(e, meaning),
{
    if let Expr::Binary { op, lhs, rhs } = e {
        let a = value(*lhs, meaning)->Some_0;
        let b = value(*rhs, meaning)->Some_0;
        if fold_node(op, *lhs, *rhs) is None {
            match op {
                Operator::Multiply => {
                    assert(a == 0 || b == 0 ==> a * b == 0) by (nonlinear_arith);
                    assert(a == 1 ==> a * b == b) by (nonlinear_arith);
                    assert(b == 1 ==> a * b == a) by (nonlinear_arith);
                },
                Operator::Power => {
                    lemma_pow0(a);
                    lemma_pow1(a);
                },
                _ => {},
            }
        }
    }
}

/// A simplification step keeps the value of a tree that has one.
pub proof fn lemma_step_preserves_value(e: Expr, meaning: Interpretation)
    requires
        value(e, meaning) is Some,
    ensures
        value(simplify_step(e), meaning) == value(e, meaning),
    decreases e,
{
    if rewrite(e) is Some {
        lemma_rewrite_preserves_value(e, meaning);
    } else {
        match e {
            Expr::Bracket { inner } => {
                lemma_step_preserves_value(*inner, meaning);
            },
            Expr::Binary { op, lhs, rhs } => {
                lemma_step_preserves_value(*lhs, meaning);
                lemma_step_preserves_value(*rhs, meaning);
            },
            Expr::Function { name, argument } => {
                lemma_step_preserves_value(*argument, meaning);
            },
            _ => {},
        }
    }
}

/// Every tree that the simplification loop goes through has the value of the first, if
/// the first has one.
pub proof fn lemma_trace_preserves_value(
    start: Expr,
    max_steps: nat,
    meaning: Interpretation,
    i: int,
)
    requires
        value(start, meaning) is Some,
        0 <= i < simplification_trace(start, max_steps).len(),
    ensures
        value(simplification_trace(start, max_steps)[i], meaning) == value(start, meaning),
    decreases i,
{
    let trace = simplification_trace(start, max_steps);
    lemma_trace_shape(start, max_steps);
    if i > 0 {
        lemma_trace_preserves_value(start, max_steps, meaning, i - 1);
        assert(trace[i - 1 + 1] == simplify_step(trace[i - 1]));
        lemma_step_preserves_value(trace[i - 1], meaning);
    }
}

} // verus!

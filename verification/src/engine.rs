//! The rewrite engine: normalization, the simplification step, and the loop that
//! repeats the step until the tree stops changing.

use crate::folding::{fold, fold_constants, folded_to};
use crate::node::{Expr, Node, Operator};
use vstd::prelude::*;

verus! {

/// The tree without redundant brackets: no bracket is left around a constant, a variable
/// or another bracket, so an operator or a function application keeps at most one.
/// Nothing else changes.
pub open spec fn normalize(e: Expr) -> Expr
    decreases e,
{
    match e {
        Expr::Bracket { inner } => {
            let inner = normalize(*inner);
            if inner.is_atom() || inner is Bracket {
                inner
            } else {
                Expr::Bracket { inner: Box::new(inner) }
            }
        },
        Expr::Binary { op, lhs, rhs } => Expr::Binary {
            op,
            lhs: Box::new(normalize(*lhs)),
            rhs: Box::new(normalize(*rhs)),
        },
        Expr::Function { name, argument } => Expr::Function {
            name,
            argument: Box::new(normalize(*argument)),
        },
        _ => e,
    }
}

/// Whether no bracket of the tree stands around a constant, a variable or a bracket.
pub open spec fn is_normal(e: Expr) -> bool
    decreases e,
{
    match e {
        Expr::Bracket { inner } => !inner.is_atom() && !(*inner is Bracket) && is_normal(*inner),
        Expr::Binary { op, lhs, rhs } => is_normal(*lhs) && is_normal(*rhs),
        Expr::Function { name, argument } => is_normal(*argument),
        _ => true,
    }
}

/// The constant `value`.
pub open spec fn constant(value: int) -> Expr {
    Expr::Constant { value }
}

/// The constant that an operator node folds to: both operands are constants, and the
/// operator folds them.
pub open spec fn fold_node(op: Operator, lhs: Expr, rhs: Expr) -> Option<int> {
    if lhs is Constant && rhs is Constant {
        fold(op, lhs->value, rhs->value)
    } else {
        None
    }
}

/// The first identity of the catalogue that applies to an operator node, with what it
/// rewrites the node to: folding of two constants; `x+0`, `0+x`, `x-0`, `x*1`, `1*x`,
/// `x/1` and `x^1` to `x`; `x*0` and `0*x` to `0`; `x^0` to `1`.
pub open spec fn rewrite_binary(op: Operator, lhs: Expr, rhs: Expr) -> Option<Expr> {
    if fold_node(op, lhs, rhs) is Some {
        Some(constant(fold_node(op, lhs, rhs)->Some_0))
    } else {
        match op {
            Operator::Plus => if rhs == constant(0) {
                Some(lhs)
            } else if lhs == constant(0) {
                Some(rhs)
            } else {
                None
            },
            Operator::Minus => if rhs == constant(0) {
                Some(lhs)
            } else {
                None
            },
            Operator::Multiply => if lhs == constant(0) || rhs == constant(0) {
                Some(constant(0))
            } else if rhs == constant(1) {
                Some(lhs)
            } else if lhs == constant(1) {
                Some(rhs)
            } else {
                None
            },
            Operator::Divide => if rhs == constant(1) {
                Some(lhs)
            } else {
                None
            },
            Operator::Power => if rhs == constant(0) {
                Some(constant(1))
            } else if rhs == constant(1) {
                Some(lhs)
            } else {
                None
            },
        }
    }
}

/// What the root of a tree is rewritten to, if an identity applies there: a bracket
/// around a constant, a variable or a bracket gives way to what it holds, and an operator
/// node is rewritten by [`rewrite_binary`].
pub open spec fn rewrite(e: Expr) -> Option<Expr> {
    match e {
        Expr::Bracket { inner } => if inner.is_atom() || *inner is Bracket {
            Some(*inner)
        } else {
            None
        },
        Expr::Binary { op, lhs, rhs } => rewrite_binary(op, *lhs, *rhs),
        _ => None,
    }
}

/// One simplification step, from the root down: where an identity applies to a node, the
/// node is rewritten and the result is not looked into; elsewhere the node stays and the
/// step goes on in its children.
pub open spec fn simplify_step(e: Expr) -> Expr
    decreases e,
{
    match rewrite(e) {
        Some(rewritten) => rewritten,
        None => match e {
            Expr::Bracket { inner } => Expr::Bracket { inner: Box::new(simplify_step(*inner)) },
            Expr::Binary { op, lhs, rhs } => Expr::Binary {
                op,
                lhs: Box::new(simplify_step(*lhs)),
                rhs: Box::new(simplify_step(*rhs)),
            },
            Expr::Function { name, argument } => Expr::Function {
                name,
                argument: Box::new(simplify_step(*argument)),
            },
            _ => e,
        },
    }
}

/// Whether one more step leaves the tree as it is.
pub open spec fn is_fixed_point(e: Expr) -> bool {
    simplify_step(e) == e
}

/// Removes the redundant brackets of a tree. See [`normalize`].
pub fn generalize(expr: Node) -> (out: Node)
    ensures
        out@ == normalize(expr@),
        is_normal(out@),
    decreases expr,
{
    match expr {
        Node::Bracket { expr: inner } => {
            let inner = generalize(*inner);
            match inner {
                Node::Constant { .. } | Node::Variable { .. } | Node::Bracket { .. } => inner,
                _ => Node::Bracket { expr: Box::new(inner) },
            }
        },
        Node::Plus { lhs, rhs } => Node::Plus {
            lhs: Box::new(generalize(*lhs)),
            rhs: Box::new(generalize(*rhs)),
        },
        Node::Minus { lhs, rhs } => Node::Minus {
            lhs: Box::new(generalize(*lhs)),
            rhs: Box::new(generalize(*rhs)),
        },
        Node::Multiply { lhs, rhs } => Node::Multiply {
            lhs: Box::new(generalize(*lhs)),
            rhs: Box::new(generalize(*rhs)),
        },
        Node::Divide { lhs, rhs } => Node::Divide {
            lhs: Box::new(generalize(*lhs)),
            rhs: Box::new(generalize(*rhs)),
        },
        Node::Power { lhs, rhs } => Node::Power {
            lhs: Box::new(generalize(*lhs)),
            rhs: Box::new(generalize(*rhs)),
        },
        Node::Function { name, expr: argument } => Node::Function {
            name,
            expr: Box::new(generalize(*argument)),
        },
        leaf => leaf,
    }
}

/// What the bracket rule makes of a tree: a bracket takes one simplification step, and a
/// tree that is no bracket stays as it is.
pub open spec fn bracket_step(e: Expr) -> Expr {
    if e is Bracket {
        simplify_step(e)
    } else {
        e
    }
}

/// Whether the tree is the constant `value`.
fn is_constant(expr: &Node, value: i64) -> (same: bool)
    ensures
        same == (expr@ == constant(value as int)),
{
    match expr {
        Node::Constant { value: held } => *held == value,
        _ => false,
    }
}

/// The constant that `op` folds the two operands to, if both are constants and the
/// result can be held.
fn fold_operands(op: Operator, lhs: &Node, rhs: &Node) -> (folded: Option<i64>)
    ensures
        folded_to(folded) == fold_node(op, lhs@, rhs@),
{
    match (lhs, rhs) {
        (Node::Constant { value: a }, Node::Constant { value: b }) => fold_constants(op, *a, *b),
        _ => None,
    }
}

/// One simplification step on the node that applies `op` to `lhs` and `rhs`.
pub fn simplify_binary(op: Operator, lhs: Node, rhs: Node) -> (out: Node)
    ensures
        out@ == simplify_step(Expr::Binary { op, lhs: Box::new(lhs@), rhs: Box::new(rhs@) }),
    decreases lhs@.size() + rhs@.size() + 1, 0int,
{
    if let Some(value) = fold_operands(op, &lhs, &rhs) {
        return Node::Constant { value };
    }
    match op {
        Operator::Plus => {
            if is_constant(&rhs, 0) {
                return lhs;
            }
            if is_constant(&lhs, 0) {
                return rhs;
            }
        },
        Operator::Minus => {
            if is_constant(&rhs, 0) {
                return lhs;
            }
        },
        Operator::Multiply => {
            if is_constant(&lhs, 0) || is_constant(&rhs, 0) {
                return Node::Constant { value: 0 };
            }
            if is_constant(&rhs, 1) {
                return lhs;
            }
            if is_constant(&lhs, 1) {
                return rhs;
            }
        },
        Operator::Divide => {
            if is_constant(&rhs, 1) {
                return lhs;
            }
        },
        Operator::Power => {
            if is_constant(&rhs, 0) {
                return Node::Constant { value: 1 };
            }
            if is_constant(&rhs, 1) {
                return lhs;
            }
        },
    }
    Node::binary(op, simplify(lhs), simplify(rhs))
}

/// One simplification step on a bracket: a bracket around a constant, a variable or a
/// bracket gives way to what it holds; any other bracket stays, and the step is taken
/// inside it. A tree that is no bracket is returned as it is.
pub fn simplify_bracket(expr: Node) -> (out: Node)
    ensures
        out@ == bracket_step(expr@),
    decreases expr@.size(), 0int,
{
    match expr {
        Node::Bracket { expr: inner } => {
            let inner: Node = *inner;
            match inner {
                Node::Constant { .. } | Node::Variable { .. } | Node::Bracket { .. } => inner,
                _ => Node::Bracket { expr: Box::new(simplify(inner)) },
            }
        },
        other => other,
    }
}

/// One simplification step. See [`simplify_step`].
///
/// No identity adds a node: the result never has more nodes than `expr`, and has fewer
/// whenever it differs from `expr`.
pub fn simplify(expr: Node) -> (out: Node)
    ensures
        out@ == simplify_step(expr@),
        out@.size() <= expr@.size(),
        out@ != expr@ ==> out@.size() < expr@.size(),
    decreases expr@.size(), 1int,
{
    proof {
        lemma_step_shrinks(expr@);
    }
    match expr {
        Node::Bracket { .. } => simplify_bracket(expr),
        Node::Plus { lhs, rhs } => simplify_binary(Operator::Plus, *lhs, *rhs),
        Node::Minus { lhs, rhs } => simplify_binary(Operator::Minus, *lhs, *rhs),
        Node::Multiply { lhs, rhs } => simplify_binary(Operator::Multiply, *lhs, *rhs),
        Node::Divide { lhs, rhs } => simplify_binary(Operator::Divide, *lhs, *rhs),
        Node::Power { lhs, rhs } => simplify_binary(Operator::Power, *lhs, *rhs),
        Node::Function { name, expr: argument } => Node::Function {
            name,
            expr: Box::new(simplify(*argument)),
        },
        leaf => leaf,
    }
}

/// The values of a sequence of trees, in order.
pub open spec fn trees(nodes: Seq<Node>) -> Seq<Expr> {
    nodes.map_values(|node: Node| node@)
}

/// The trees that the simplification loop goes through from `start`: each is one step
/// from the one before it and differs from it. The sequence ends with the first tree
/// that a step leaves unchanged, or after `max_steps` steps if none has been reached
/// by then.
pub open spec fn simplification_trace(start: Expr, max_steps: nat) -> Seq<Expr>
    decreases max_steps,
{
    if max_steps == 0 || is_fixed_point(start) {
        seq![start]
    } else {
        seq![start] + simplification_trace(simplify_step(start), (max_steps - 1) as nat)
    }
}

/// What the simplification loop went through.
#[derive(Debug)]
pub struct Trace {
    /// The trees, from the one the loop began with to the one it ended with.
    pub steps: Vec<Node>,
    /// Whether the last tree is a fixed point, that is, whether the loop ended because
    /// the tree stopped changing and not because it ran out of steps.
    pub converged: bool,
}

/// Normalization leaves no redundant bracket, and changes nothing where none is.
pub proof fn lemma_normalize_is_normal(e: Expr)
    ensures
        is_normal(normalize(e)),
        is_normal(e) ==> normalize(e) == e,
        normalize(e).size() <= e.size(),
    decreases e,
{
    match e {
        Expr::Bracket { inner } => {
            lemma_normalize_is_normal(*inner);
        },
        Expr::Binary { op, lhs, rhs } => {
            lemma_normalize_is_normal(*lhs);
            lemma_normalize_is_normal(*rhs);
        },
        Expr::Function { name, argument } => {
            lemma_normalize_is_normal(*argument);
        },
        _ => {},
    }
}

/// Normalizing twice is the same as normalizing once.
pub proof fn lemma_normalize_idempotent(e: Expr)
    ensures
        normalize(normalize(e)) == normalize(e),
{
    lemma_normalize_is_normal(e);
    lemma_normalize_is_normal(normalize(e));
}

/// A step never adds a node, and removes at least one wherever it changes the tree.
pub proof fn lemma_step_shrinks(e: Expr)
    ensures
        simplify_step(e).size() <= e.size(),
        simplify_step(e) != e ==> simplify_step(e).size() < e.size(),
    decreases e,
{
    match e {
        Expr::Bracket { inner } => {
            lemma_step_shrinks(*inner);
        },
        Expr::Binary { op, lhs, rhs } => {
            lemma_step_shrinks(*lhs);
            lemma_step_shrinks(*rhs);
        },
        Expr::Function { name, argument } => {
            lemma_step_shrinks(*argument);
        },
        _ => {},
    }
}

/// A tree that a step leaves unchanged has no redundant bracket.
pub proof fn lemma_fixed_point_is_normal(e: Expr)
    requires
        is_fixed_point(e),
    ensures
        is_normal(e),
    decreases e,
{
    if rewrite(e) is None {
        match e {
            Expr::Bracket { inner } => {
                lemma_fixed_point_is_normal(*inner);
            },
            Expr::Binary { op, lhs, rhs } => {
                lemma_fixed_point_is_normal(*lhs);
                lemma_fixed_point_is_normal(*rhs);
            },
            Expr::Function { name, argument } => {
                lemma_fixed_point_is_normal(*argument);
            },
            _ => {},
        }
    }
}

/// Every identity removes at least one node.
pub proof fn lemma_rewrite_shrinks(e: Expr)
    ensures
        rewrite(e) matches Some(rewritten) ==> rewritten.size() < e.size(),
{
    match e {
        Expr::Binary { op, lhs, rhs } => {
            lemma_size_positive(*lhs);
        },
        _ => {},
    }
}

/// The shape of a trace: it begins with `start`, each tree is one step from the one
/// before it and has fewer nodes, and it is no longer than the budget allows.
pub proof fn lemma_trace_shape(start: Expr, max_steps: nat)
    ensures
        ({
            let trace = simplification_trace(start, max_steps);
            &&& 1 <= trace.len() <= max_steps + 1
            &&& trace[0] == start
            &&& forall|i: int|
                0 <= i < trace.len() - 1 ==> #[trigger] trace[i + 1] == simplify_step(trace[i])
                    && trace[i + 1].size() < trace[i].size()
            &&& trace.len() <= max_steps ==> is_fixed_point(trace.last())
        }),
    decreases max_steps,
{
    let trace = simplification_trace(start, max_steps);
    if max_steps > 0 && !is_fixed_point(start) {
        let next = simplify_step(start);
        let tail = simplification_trace(next, (max_steps - 1) as nat);
        lemma_trace_shape(next, (max_steps - 1) as nat);
        lemma_step_shrinks(start);
        assert forall|i: int| 0 <= i < trace.len() - 1 implies #[trigger] trace[i + 1]
            == simplify_step(trace[i]) && trace[i + 1].size() < trace[i].size() by {
            if i > 0 {
                assert(trace[i + 1] == tail[i - 1 + 1]);
            }
        }
    }
}

/// The loop halts within as many steps as the tree has nodes: a trace is never longer
/// than the number of nodes of the tree it begins with, and with a budget of at least
/// that many steps it ends in a fixed point.
pub proof fn lemma_trace_terminates(start: Expr, max_steps: nat)
    ensures
        simplification_trace(start, max_steps).len() <= start.size(),
        max_steps + 1 >= start.size() ==> is_fixed_point(
            simplification_trace(start, max_steps).last(),
        ),
    decreases max_steps,
{
    if !is_fixed_point(start) {
        lemma_step_shrinks(start);
        if max_steps > 0 {
            lemma_trace_terminates(simplify_step(start), (max_steps - 1) as nat);
        }
    }
}

/// Every tree has at least one node.
pub proof fn lemma_size_positive(e: Expr)
    ensures
        e.size() >= 1,
{
}

/// No tree occurs twice in a trace.
pub proof fn lemma_trace_never_repeats(start: Expr, max_steps: nat, i: int, j: int)
    requires
        0 <= i < j < simplification_trace(start, max_steps).len(),
    ensures
        simplification_trace(start, max_steps)[i] != simplification_trace(start, max_steps)[j],
{
    let trace = simplification_trace(start, max_steps);
    lemma_trace_shape(start, max_steps);
    lemma_sizes_fall(trace, i, j);
}

/// In a sequence whose sizes fall from each tree to the next, they fall between any two.
proof fn lemma_sizes_fall(trace: Seq<Expr>, i: int, j: int)
    requires
        0 <= i < j < trace.len(),
        forall|k: int| 0 <= k < trace.len() - 1 ==> (#[trigger] trace[k + 1]).size() < trace[k].size(),
    ensures
        trace[j].size() < trace[i].size(),
    decreases j - i,
{
    if i + 1 < j {
        lemma_sizes_fall(trace, i, j - 1);
    }
    assert(trace[j - 1 + 1].size() < trace[j - 1].size());
}

/// The simplification loop: takes steps from `start` until a step leaves the tree
/// unchanged, at most `max_steps` of them, and returns every tree on the way.
///
/// A budget of as many steps as `start` has nodes is always enough to converge.
pub fn simplification_loop(start: Node, max_steps: usize) -> (trace: Trace)
    ensures
        trees(trace.steps@) == simplification_trace(start@, max_steps as nat),
        trace.converged == is_fixed_point(trees(trace.steps@).last()),
        trace.steps@.len() <= start@.size(),
        max_steps + 1 >= start@.size() ==> trace.converged,
{
    let mut steps: Vec<Node> = Vec::new();
    let mut current = start;
    let mut next = simplify(current.clone());
    let mut taken: usize = 0;
    while taken < max_steps && !current.eq(&next)
        invariant
            taken <= max_steps,
            next@ == simplify_step(current@),
            simplification_trace(start@, max_steps as nat) == trees(steps@) + simplification_trace(
                current@,
                (max_steps - taken) as nat,
            ),
        decreases max_steps - taken,
    {
        steps.push(current);
        current = next;
        next = simplify(current.clone());
        taken += 1;
    }
    let converged = current.eq(&next);
    proof {
        lemma_trace_terminates(start@, max_steps as nat);
    }
    steps.push(current);
    Trace { steps, converged }
}

} // verus!

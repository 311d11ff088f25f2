//! The expression tree.

use crate::chars::{decimal, push_decimal};
use vstd::prelude::*;
use vstd::string::StringExecFns;

verus! {

/// The five binary operators.
#[derive(Debug, Clone, Copy, PartialEq, Eq, Structural)]
pub enum Operator {
    Plus,
    Minus,
    Multiply,
    Divide,
    Power,
}

impl Operator {
    /// The character that writes the operator.
    pub open spec fn spec_symbol(self) -> char {
        match self {
            Operator::Plus => '+',
            Operator::Minus => '-',
            Operator::Multiply => '*',
            Operator::Divide => '/',
            Operator::Power => '^',
        }
    }

    /// The character that writes the operator.
    #[verifier::when_used_as_spec(spec_symbol)]
    pub fn symbol(self) -> (c: char)
        ensures
            c == self.spec_symbol(),
    {
        match self {
            Operator::Plus => '+',
            Operator::Minus => '-',
            Operator::Multiply => '*',
            Operator::Divide => '/',
            Operator::Power => '^',
        }
    }
}

/// An expression. Every node owns its children.
#[derive(Debug)]
pub enum Node {
    /// A parenthesised expression.
    Bracket { expr: Box<Node> },
    /// The sum `lhs + rhs`.
    Plus { lhs: Box<Node>, rhs: Box<Node> },
    /// The difference `lhs - rhs`.
    Minus { lhs: Box<Node>, rhs: Box<Node> },
    /// The product `lhs * rhs`.
    Multiply { lhs: Box<Node>, rhs: Box<Node> },
    /// The quotient `lhs / rhs`.
    Divide { lhs: Box<Node>, rhs: Box<Node> },
    /// The power `lhs ^ rhs`.
    Power { lhs: Box<Node>, rhs: Box<Node> },
    /// An integer.
    Constant { value: i64 },
    /// A free symbol.
    Variable { name: String },
    /// A named function applied to one argument.
    Function { name: String, expr: Box<Node> },
}

/// The mathematical value of a [`Node`]: the same tree, with the five operators told apart
/// by an [`Operator`], names as sequences of characters and constants as integers.
pub ghost enum Expr {
    /// A parenthesised expression.
    Bracket { inner: Box<Expr> },
    /// An operator applied to two operands.
    Binary { op: Operator, lhs: Box<Expr>, rhs: Box<Expr> },
    /// An integer.
    Constant { value: int },
    /// A free symbol.
    Variable { name: Seq<char> },
    /// A named function applied to one argument.
    Function { name: Seq<char>, argument: Box<Expr> },
}

impl Expr {
    /// The number of nodes of the tree.
    pub open spec fn size(self) -> nat
        decreases self,
    {
        match self {
            Expr::Bracket { inner } => 1 + inner.size(),
            Expr::Binary { op, lhs, rhs } => 1 + lhs.size() + rhs.size(),
            Expr::Constant { value } => 1,
            Expr::Variable { name } => 1,
            Expr::Function { name, argument } => 1 + argument.size(),
        }
    }

    /// Whether the tree is a single leaf: a constant or a variable.
    pub open spec fn is_atom(self) -> bool {
        self is Constant || self is Variable
    }

    /// The text of the expression: a bracket as `(` inner `)`, an operator between its
    /// operands, a constant in decimal, a variable by its name, a function as its name
    /// and its argument in brackets. No other bracket is written.
    pub open spec fn render(self) -> Seq<char>
        decreases self,
    {
        match self {
            Expr::Bracket { inner } => seq!['('] + inner.render() + seq![')'],
            Expr::Binary { op, lhs, rhs } => lhs.render() + seq![op.symbol()] + rhs.render(),
            Expr::Constant { value } => decimal(value),
            Expr::Variable { name } => name,
            Expr::Function { name, argument } => name + seq!['('] + argument.render() + seq![')'],
        }
    }
}

impl View for Node {
    type V = Expr;

    open spec fn view(&self) -> Expr
        decreases self,
    {
        match self {
            Node::Bracket { expr } => Expr::Bracket { inner: Box::new((**expr).view()) },
            Node::Plus { lhs, rhs } => Expr::Binary {
                op: Operator::Plus,
                lhs: Box::new((**lhs).view()),
                rhs: Box::new((**rhs).view()),
            },
            Node::Minus { lhs, rhs } => Expr::Binary {
                op: Operator::Minus,
                lhs: Box::new((**lhs).view()),
                rhs: Box::new((**rhs).view()),
            },
            Node::Multiply { lhs, rhs } => Expr::Binary {
                op: Operator::Multiply,
                lhs: Box::new((**lhs).view()),
                rhs: Box::new((**rhs).view()),
            },
            Node::Divide { lhs, rhs } => Expr::Binary {
                op: Operator::Divide,
                lhs: Box::new((**lhs).view()),
                rhs: Box::new((**rhs).view()),
            },
            Node::Power { lhs, rhs } => Expr::Binary {
                op: Operator::Power,
                lhs: Box::new((**lhs).view()),
                rhs: Box::new((**rhs).view()),
            },
            Node::Constant { value } => Expr::Constant { value: *value as int },
            Node::Variable { name } => Expr::Variable { name: name@ },
            Node::Function { name, expr } => Expr::Function {
                name: name@,
                argument: Box::new((**expr).view()),
            },
        }
    }
}

/// The value that a box holds.
pub fn unbox<T>(value: &Box<T>) -> (inner: &T)
    ensures
        *inner == **value,
{
    &**value
}

impl PartialEq for Node {
    fn eq(&self, other: &Node) -> (equal: bool)
        decreases self,
    {
        match (self, other) {
            (Node::Bracket { expr: a }, Node::Bracket { expr: b }) => unbox(a).eq(unbox(b)),
            (Node::Plus { lhs: a, rhs: b }, Node::Plus { lhs: c, rhs: d }) => unbox(a).eq(unbox(c))
                && unbox(b).eq(unbox(d)),
            (Node::Minus { lhs: a, rhs: b }, Node::Minus { lhs: c, rhs: d }) => unbox(a).eq(
                unbox(c),
            ) && unbox(b).eq(unbox(d)),
            (Node::Multiply { lhs: a, rhs: b }, Node::Multiply { lhs: c, rhs: d }) => unbox(a).eq(
                unbox(c),
            ) && unbox(b).eq(unbox(d)),
            (Node::Divide { lhs: a, rhs: b }, Node::Divide { lhs: c, rhs: d }) => unbox(a).eq(
                unbox(c),
            ) && unbox(b).eq(unbox(d)),
            (Node::Power { lhs: a, rhs: b }, Node::Power { lhs: c, rhs: d }) => unbox(a).eq(
                unbox(c),
            ) && unbox(b).eq(unbox(d)),
            (Node::Constant { value: a }, Node::Constant { value: b }) => *a == *b,
            (Node::Variable { name: a }, Node::Variable { name: b }) => a.eq(b),
            (Node::Function { name: a, expr: b }, Node::Function { name: c, expr: d }) => a.eq(c)
                && unbox(b).eq(unbox(d)),
            _ => false,
        }
    }
}

/// Two trees are equal when they have the same shape and the same payloads throughout.
impl vstd::std_specs::cmp::PartialEqSpecImpl for Node {
    open spec fn obeys_eq_spec() -> bool {
        true
    }

    open spec fn eq_spec(&self, other: &Node) -> bool {
        self@ == other@
    }
}

impl Eq for Node {

}

impl Clone for Node {
    /// A copy of the whole tree.
    fn clone(&self) -> (copy: Node)
        ensures
            copy@ == self@,
        decreases self,
    {
        match self {
            Node::Bracket { expr } => Node::Bracket { expr: Box::new(unbox(expr).clone()) },
            Node::Plus { lhs, rhs } => Node::Plus {
                lhs: Box::new(unbox(lhs).clone()),
                rhs: Box::new(unbox(rhs).clone()),
            },
            Node::Minus { lhs, rhs } => Node::Minus {
                lhs: Box::new(unbox(lhs).clone()),
                rhs: Box::new(unbox(rhs).clone()),
            },
            Node::Multiply { lhs, rhs } => Node::Multiply {
                lhs: Box::new(unbox(lhs).clone()),
                rhs: Box::new(unbox(rhs).clone()),
            },
            Node::Divide { lhs, rhs } => Node::Divide {
                lhs: Box::new(unbox(lhs).clone()),
                rhs: Box::new(unbox(rhs).clone()),
            },
            Node::Power { lhs, rhs } => Node::Power {
                lhs: Box::new(unbox(lhs).clone()),
                rhs: Box::new(unbox(rhs).clone()),
            },
            Node::Constant { value } => Node::Constant { value: *value },
            Node::Variable { name } => Node::Variable { name: name.clone() },
            Node::Function { name, expr } => Node::Function {
                name: name.clone(),
                expr: Box::new(unbox(expr).clone()),
            },
        }
    }
}

impl Node {
    /// The number of nodes of the tree, or `usize::MAX` if there are more than that.
    pub fn node_count(&self) -> (count: usize)
        ensures
            count == if self@.size() <= usize::MAX {
                self@.size()
            } else {
                usize::MAX as nat
            },
        decreases self,
    {
        match self {
            Node::Bracket { expr } => expr.node_count().saturating_add(1),
            Node::Plus { lhs, rhs }
            | Node::Minus { lhs, rhs }
            | Node::Multiply { lhs, rhs }
            | Node::Divide { lhs, rhs }
            | Node::Power { lhs, rhs } => lhs.node_count().saturating_add(
                rhs.node_count(),
            ).saturating_add(1),
            Node::Constant { .. } => 1,
            Node::Variable { .. } => 1,
            Node::Function { expr, .. } => expr.node_count().saturating_add(1),
        }
    }

    /// The node that applies `op` to two operands.
    pub fn binary(op: Operator, lhs: Node, rhs: Node) -> (node: Node)
        ensures
            node@ == (Expr::Binary { op, lhs: Box::new(lhs@), rhs: Box::new(rhs@) }),
    {
        match op {
            Operator::Plus => Node::Plus { lhs: Box::new(lhs), rhs: Box::new(rhs) },
            Operator::Minus => Node::Minus { lhs: Box::new(lhs), rhs: Box::new(rhs) },
            Operator::Multiply => Node::Multiply { lhs: Box::new(lhs), rhs: Box::new(rhs) },
            Operator::Divide => Node::Divide { lhs: Box::new(lhs), rhs: Box::new(rhs) },
            Operator::Power => Node::Power { lhs: Box::new(lhs), rhs: Box::new(rhs) },
        }
    }

    /// Appends the text of the expression to `out`.
    pub fn write(&self, out: &mut String)
        ensures
            final(out)@ == old(out)@ + self@.render(),
        decreases self,
    {
        match self {
            Node::Bracket { expr } => {
                out.push('(');
                expr.write(out);
                out.push(')');
            },
            Node::Plus { lhs, rhs } => {
                lhs.write(out);
                out.push('+');
                rhs.write(out);
            },
            Node::Minus { lhs, rhs } => {
                lhs.write(out);
                out.push('-');
                rhs.write(out);
            },
            Node::Multiply { lhs, rhs } => {
                lhs.write(out);
                out.push('*');
                rhs.write(out);
            },
            Node::Divide { lhs, rhs } => {
                lhs.write(out);
                out.push('/');
                rhs.write(out);
            },
            Node::Power { lhs, rhs } => {
                lhs.write(out);
                out.push('^');
                rhs.write(out);
            },
            Node::Constant { value } => {
                push_decimal(out, *value);
            },
            Node::Variable { name } => {
                out.append(name.as_str());
            },
            Node::Function { name, expr } => {
                out.append(name.as_str());
                out.push('(');
                expr.write(out);
                out.push(')');
            },
        }
    }

    /// The text of the expression. See [`Expr::render`].
    pub fn render(&self) -> (text: String)
        ensures
            text@ == self@.render(),
    {
        let mut text = String::new();
        self.write(&mut text);
        text
    }
}

} // verus!

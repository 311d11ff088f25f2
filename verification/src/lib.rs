//! Step-by-step simplification of arithmetic expressions.
//!
//! A text such as `(1+2)*x^1` is scanned into tokens ([`tokenizer`]) and parsed into an
//! expression tree ([`parser`], [`node`]). The tree is freed of redundant brackets and
//! then rewritten one step at a time until a step leaves it unchanged ([`engine`]); the
//! trees on the way can be rendered as text again.
//!
//! What the functions compute is stated over mathematical values: a text is a sequence
//! of characters, a token a [`token::Lexeme`], a tree a [`node::Expr`]. On top of the
//! contracts of the single functions the crate proves what holds between them: that a
//! rendered tree is read back as it was ([`round_trip`]), that normalizing twice is
//! normalizing once and that the loop halts in a fixed point within as many steps as
//! the tree has nodes ([`engine`]), and that rewriting keeps the value of an expression
//! ([`evaluation`]).

pub mod chars;
pub mod engine;
pub mod evaluation;
pub mod folding;
pub mod node;
pub mod parser;
pub mod round_trip;
pub mod segments;
pub mod token;
pub mod tokenizer;

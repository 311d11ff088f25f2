//! The parser: from tokens to an expression tree.
//!
//! The grammar has no operator precedence. A primary is an integer, a name, a name
//! applied to a bracketed expression, or a bracketed expression. An expression is a
//! primary, optionally followed by one operator and one more expression, so that
//! `a OP b OP c` is read as `OP(a, OP(b, c))`. Parsing stops after the first complete
//! expression: tokens that follow it are not looked at.

use crate::node::{Expr, Node, Operator};
use crate::segments::{lemma_occurs_split, occurs_at};
use crate::token::{lexemes, Lexeme, Token};
use vstd::pervasive::unreached;
use vstd::prelude::*;

verus! {

/// What went wrong in a token sequence.
#[derive(Debug, Clone, Copy, PartialEq, Eq, Structural)]
pub enum ParseErrorReason {
    /// There are no tokens at all.
    EmptyInput,
    /// The tokens end where an expression has to begin.
    UnexpectedEnd,
    /// An expression has to begin here, and the token is neither an integer, nor a name,
    /// nor a left bracket.
    UnexpectedToken,
    /// A bracketed expression is complete here, and the right bracket is missing.
    MissingRightBracket,
}

/// Why a token sequence could not be parsed, and at which token, counted from zero.
#[derive(Debug, Clone, Copy, PartialEq, Eq, Structural)]
pub struct ParseError {
    pub reason: ParseErrorReason,
    pub position: usize,
}

/// The operator that a token writes, if it writes one.
pub open spec fn operator_of(lexeme: Lexeme) -> Option<Operator> {
    match lexeme {
        Lexeme::Plus => Some(Operator::Plus),
        Lexeme::Minus => Some(Operator::Minus),
        Lexeme::Asterisk => Some(Operator::Multiply),
        Lexeme::Slash => Some(Operator::Divide),
        Lexeme::Circumflex => Some(Operator::Power),
        _ => None,
    }
}

/// The error for a position at which an expression has to begin and no token stands.
pub open spec fn nothing_at(tokens: Seq<Lexeme>, pos: int) -> ParseError {
    if tokens.len() == 0 {
        ParseError { reason: ParseErrorReason::EmptyInput, position: 0 }
    } else {
        ParseError { reason: ParseErrorReason::UnexpectedEnd, position: pos as usize }
    }
}

/// The expression that begins at `pos`, with the position after its last token.
pub open spec fn expression_at(tokens: Seq<Lexeme>, pos: int) -> Result<(Expr, int), ParseError>
    decreases tokens.len() - pos, 2int,
{
    match primary_at(tokens, pos) {
        Ok((lhs, next)) => {
            if pos < next < tokens.len() && operator_of(tokens[next]) is Some {
                match expression_at(tokens, next + 1) {
                    Ok((rhs, end)) => Ok(
                        (
                            Expr::Binary {
                                op: operator_of(tokens[next])->Some_0,
                                lhs: Box::new(lhs),
                                rhs: Box::new(rhs),
                            },
                            end,
                        ),
                    ),
                    Err(error) => Err(error),
                }
            } else {
                Ok((lhs, next))
            }
        },
        Err(error) => Err(error),
    }
}

/// The primary that begins at `pos`, with the position after its last token. A name in
/// front of a left bracket is a function: its argument is what the bracketed expression
/// after the name holds.
pub open spec fn primary_at(tokens: Seq<Lexeme>, pos: int) -> Result<(Expr, int), ParseError>
    decreases tokens.len() - pos, 1int,
{
    if 0 <= pos < tokens.len() {
        match tokens[pos] {
            Lexeme::IntegerLiteral(value) => Ok((Expr::Constant { value }, pos + 1)),
            Lexeme::Name(name) => {
                if pos + 1 < tokens.len() && tokens[pos + 1] is LeftBracket {
                    match bracketed_at(tokens, pos + 1) {
                        Ok((bracket, next)) => Ok(
                            (Expr::Function { name, argument: bracket->inner }, next),
                        ),
                        Err(error) => Err(error),
                    }
                } else {
                    Ok((Expr::Variable { name }, pos + 1))
                }
            },
            Lexeme::LeftBracket => bracketed_at(tokens, pos),
            _ => Err(
                ParseError { reason: ParseErrorReason::UnexpectedToken, position: pos as usize },
            ),
        }
    } else {
        Err(nothing_at(tokens, pos))
    }
}

/// The bracketed expression that begins at `pos`, with the position after its last
/// token. Where a left bracket stands at `pos` it is the bracket around the expression
/// that follows, which a right bracket has to close. Where none stands there it is the
/// plain expression that begins at `pos`.
pub open spec fn bracketed_at(tokens: Seq<Lexeme>, pos: int) -> Result<(Expr, int), ParseError>
    decreases tokens.len() - pos,
        (if 0 <= pos < tokens.len() && tokens[pos] is LeftBracket {
            0int
        } else {
            3int
        }),
{
    if 0 <= pos < tokens.len() && tokens[pos] is LeftBracket {
        match expression_at(tokens, pos + 1) {
            Ok((inner, next)) => {
                if 0 <= next < tokens.len() && tokens[next] is RightBracket {
                    Ok((Expr::Bracket { inner: Box::new(inner) }, next + 1))
                } else {
                    Err(
                        ParseError {
                            reason: ParseErrorReason::MissingRightBracket,
                            position: next as usize,
                        },
                    )
                }
            },
            Err(error) => Err(error),
        }
    } else {
        expression_at(tokens, pos)
    }
}

/// The expression that a token sequence begins with.
pub open spec fn parse_tokens(tokens: Seq<Lexeme>) -> Result<Expr, ParseError> {
    match expression_at(tokens, 0) {
        Ok((expr, _)) => Ok(expr),
        Err(error) => Err(error),
    }
}

/// What a parsing step says, with the tree taken by its value.
pub open spec fn parsed_at(result: Result<(Node, usize), ParseError>) -> Result<
    (Expr, int),
    ParseError,
> {
    match result {
        Ok((node, next)) => Ok((node@, next as int)),
        Err(error) => Err(error),
    }
}

/// What a parsing result says, with the tree taken by its value.
pub open spec fn parsed(result: Result<Node, ParseError>) -> Result<Expr, ParseError> {
    match result {
        Ok(node) => Ok(node@),
        Err(error) => Err(error),
    }
}

/// The token that writes an operator.
pub open spec fn operator_lexeme(op: Operator) -> Lexeme {
    match op {
        Operator::Plus => Lexeme::Plus,
        Operator::Minus => Lexeme::Minus,
        Operator::Multiply => Lexeme::Asterisk,
        Operator::Divide => Lexeme::Slash,
        Operator::Power => Lexeme::Circumflex,
    }
}

/// The tokens that write a tree: brackets where the tree has them, and around the
/// argument of a function.
pub open spec fn tokens_of(e: Expr) -> Seq<Lexeme>
    decreases e,
{
    match e {
        Expr::Bracket { inner } => seq![Lexeme::LeftBracket] + tokens_of(*inner)
            + seq![Lexeme::RightBracket],
        Expr::Binary { op, lhs, rhs } => tokens_of(*lhs) + seq![operator_lexeme(op)] + tokens_of(
            *rhs,
        ),
        Expr::Constant { value } => seq![Lexeme::IntegerLiteral(value)],
        Expr::Variable { name } => seq![Lexeme::Name(name)],
        Expr::Function { name, argument } => seq![Lexeme::Name(name), Lexeme::LeftBracket]
            + tokens_of(*argument) + seq![Lexeme::RightBracket],
    }
}

/// The shape of every tree that the grammar gives: the left operand of an operator is
/// never an operator node itself, so a chain of operators leans to the right.
pub open spec fn is_chain(e: Expr) -> bool
    decreases e,
{
    match e {
        Expr::Bracket { inner } => is_chain(*inner),
        Expr::Binary { op, lhs, rhs } => !(*lhs is Binary) && is_chain(*lhs) && is_chain(*rhs),
        Expr::Function { name, argument } => is_chain(*argument),
        _ => true,
    }
}

/// Whether a token ends an expression: it is neither an operator nor a left bracket.
pub open spec fn closes_expression(lexeme: Lexeme) -> bool {
    operator_of(lexeme) is None && !(lexeme is LeftBracket)
}

/// Every successful step consumes at least one token and stays within the sequence.
pub proof fn lemma_parse_advances(tokens: Seq<Lexeme>, pos: int)
    requires
        0 <= pos,
    ensures
        expression_at(tokens, pos) matches Ok((_, next)) ==> pos < next <= tokens.len(),
        primary_at(tokens, pos) matches Ok((_, next)) ==> pos < next <= tokens.len(),
        bracketed_at(tokens, pos) matches Ok((_, next)) ==> pos < next <= tokens.len(),
    decreases tokens.len() - pos,
{
    if pos < tokens.len() {
        lemma_parse_advances(tokens, pos + 1);
        if let Ok((_, next)) = primary_at(tokens, pos) {
            if next < tokens.len() {
                lemma_parse_advances(tokens, next + 1);
            }
        }
    }
}

/// The operator that a token writes, if it writes one.
pub fn token_operator(token: &Token) -> (op: Option<Operator>)
    ensures
        op == operator_of(token@),
{
    match token {
        Token::Plus => Some(Operator::Plus),
        Token::Minus => Some(Operator::Minus),
        Token::Asterisk => Some(Operator::Multiply),
        Token::Slash => Some(Operator::Divide),
        Token::Circumflex => Some(Operator::Power),
        _ => None,
    }
}

/// The error for a position at which an expression has to begin and no token stands.
fn nothing_to_parse(tokens: &Vec<Token>, pos: usize) -> (error: ParseError)
    ensures
        error == nothing_at(lexemes(tokens@), pos as int),
{
    if tokens.len() == 0 {
        ParseError { reason: ParseErrorReason::EmptyInput, position: 0 }
    } else {
        ParseError { reason: ParseErrorReason::UnexpectedEnd, position: pos }
    }
}

/// Parses the expression that begins at `pos` and returns it with the position after
/// its last token.
pub fn parse_expression(tokens: &Vec<Token>, pos: usize) -> (result: Result<
    (Node, usize),
    ParseError,
>)
    ensures
        parsed_at(result) == expression_at(lexemes(tokens@), pos as int),
    decreases tokens.len() - pos, 1int,
{
    proof {
        lemma_parse_advances(lexemes(tokens@), pos as int);
    }
    if pos >= tokens.len() {
        return Err(nothing_to_parse(tokens, pos));
    }
    let (lhs, next) = match &tokens[pos] {
        Token::IntegerLiteral(value) => (Node::Constant { value: *value }, pos + 1),
        Token::Name(name) => {
            if pos + 1 < tokens.len() && matches!(tokens[pos + 1], Token::LeftBracket) {
                // A left bracket stands there, so what comes back is a bracket: the
                // function takes what it holds.
                match parse_bracketed_expression(tokens, pos + 1)? {
                    (Node::Bracket { expr }, next) => (
                        Node::Function { name: name.clone(), expr },
                        next,
                    ),
                    _ => unreached(),
                }
            } else {
                (Node::Variable { name: name.clone() }, pos + 1)
            }
        },
        Token::LeftBracket => parse_bracketed_expression(tokens, pos)?,
        _ => {
            return Err(ParseError { reason: ParseErrorReason::UnexpectedToken, position: pos });
        },
    };
    if next < tokens.len() {
        if let Some(op) = token_operator(&tokens[next]) {
            let (rhs, end) = parse_expression(tokens, next + 1)?;
            return Ok((Node::binary(op, lhs, rhs), end));
        }
    }
    Ok((lhs, next))
}

/// Parses the bracketed expression that begins at `pos` and returns it with the position
/// after its last token. Where a left bracket stands at `pos`, the result is the bracket
/// around the expression that follows, and a right bracket has to close it. Where none
/// stands there, the result is the plain expression that begins at `pos`.
pub fn parse_bracketed_expression(tokens: &Vec<Token>, pos: usize) -> (result: Result<
    (Node, usize),
    ParseError,
>)
    ensures
        parsed_at(result) == bracketed_at(lexemes(tokens@), pos as int),
    decreases tokens.len() - pos,
        (if pos < tokens.len() && tokens[pos as int]@ is LeftBracket {
            0int
        } else {
            3int
        }),
{
    if pos < tokens.len() && matches!(tokens[pos], Token::LeftBracket) {
        let (inner, next) = parse_expression(tokens, pos + 1)?;
        if next < tokens.len() && matches!(tokens[next], Token::RightBracket) {
            Ok((Node::Bracket { expr: Box::new(inner) }, next + 1))
        } else {
            Err(ParseError { reason: ParseErrorReason::MissingRightBracket, position: next })
        }
    } else {
        parse_expression(tokens, pos)
    }
}

/// Parses the expression that a token sequence begins with.
///
/// Fails on an empty sequence, where an expression has to begin and the token there is
/// neither an integer, nor a name, nor a left bracket (or there is no token), and where
/// a left bracket is not closed. The error names the first such place.
pub fn parse(tokens: &Vec<Token>) -> (result: Result<Node, ParseError>)
    ensures
        parsed(result) == parse_tokens(lexemes(tokens@)),
        result matches Ok(node) ==> is_chain(node@) && occurs_at(
            lexemes(tokens@),
            0,
            tokens_of(node@),
        ),
{
    proof {
        lemma_parse_tokens_sound(lexemes(tokens@));
    }
    match parse_expression(tokens, 0) {
        Ok((node, _)) => Ok(node),
        Err(error) => Err(error),
    }
}

/// A tree is written by at least one token.
pub proof fn lemma_tokens_of_nonempty(e: Expr)
    ensures
        tokens_of(e).len() >= 1,
    decreases e,
{
}

/// What the parser accepts is what it returns: a successful step gives a right-leaning
/// tree, and the tokens it consumed are exactly the tokens that write that tree.
pub proof fn lemma_expression_sound(tokens: Seq<Lexeme>, pos: int)
    requires
        0 <= pos,
    ensures
        expression_at(tokens, pos) matches Ok((e, next)) ==> is_chain(e) && occurs_at(
            tokens,
            pos,
            tokens_of(e),
        ) && next == pos + tokens_of(e).len(),
    decreases tokens.len() - pos, 2int,
{
    lemma_primary_sound(tokens, pos);
    if let Ok((lhs, next)) = primary_at(tokens, pos) {
        if next < tokens.len() && operator_of(tokens[next]) is Some {
            lemma_expression_sound(tokens, next + 1);
        }
    }
}

/// A successful primary is a right-leaning tree that is no operator node, written by the
/// tokens that were consumed.
pub proof fn lemma_primary_sound(tokens: Seq<Lexeme>, pos: int)
    requires
        0 <= pos,
    ensures
        primary_at(tokens, pos) matches Ok((e, next)) ==> is_chain(e) && !(e is Binary)
            && occurs_at(tokens, pos, tokens_of(e)) && next == pos + tokens_of(e).len(),
    decreases tokens.len() - pos, 1int,
{
    if let Ok((e, next)) = primary_at(tokens, pos) {
        match e {
            Expr::Bracket { inner } => {
                lemma_bracketed_sound(tokens, pos);
            },
            Expr::Function { name, argument } => {
                lemma_bracketed_sound(tokens, pos + 1);
                let head = seq![Lexeme::Name(name)];
                let tail = seq![Lexeme::LeftBracket] + tokens_of(*argument)
                    + seq![Lexeme::RightBracket];
                assert(head + tail =~= tokens_of(e));
            },
            _ => {},
        }
    }
}

/// A successful bracketed expression is a right-leaning tree, written by the tokens that
/// were consumed. Where a left bracket stands at the position it is a bracket.
pub proof fn lemma_bracketed_sound(tokens: Seq<Lexeme>, pos: int)
    requires
        0 <= pos,
    ensures
        bracketed_at(tokens, pos) matches Ok((e, next)) ==> is_chain(e) && occurs_at(
            tokens,
            pos,
            tokens_of(e),
        ) && next == pos + tokens_of(e).len() && (pos < tokens.len() && tokens[pos]
            is LeftBracket ==> e is Bracket),
    decreases tokens.len() - pos,
        (if pos < tokens.len() && tokens[pos] is LeftBracket {
            0int
        } else {
            3int
        }),
{
    if bracketed_at(tokens, pos) is Ok {
        if pos < tokens.len() && tokens[pos] is LeftBracket {
            lemma_expression_sound(tokens, pos + 1);
        } else {
            lemma_expression_sound(tokens, pos);
        }
    }
}

/// What writes a tree parses to that tree: where the tokens of a right-leaning tree that
/// is no operator node stand, and no left bracket follows them, the parser finds that
/// tree as a primary.
pub proof fn lemma_primary_complete(tokens: Seq<Lexeme>, pos: int, e: Expr)
    requires
        is_chain(e),
        !(e is Binary),
        occurs_at(tokens, pos, tokens_of(e)),
        pos + tokens_of(e).len() < tokens.len() ==> !(tokens[pos + tokens_of(e).len()]
            is LeftBracket),
    ensures
        primary_at(tokens, pos) == Ok::<(Expr, int), ParseError>(
            (e, pos + tokens_of(e).len()),
        ),
    decreases e, 0int,
{
    lemma_tokens_of_nonempty(e);
    assert(tokens[pos + 0] == tokens_of(e)[0]);
    match e {
        Expr::Bracket { inner } => {
            let written = tokens_of(*inner);
            lemma_occurs_split(
                tokens,
                pos,
                seq![Lexeme::LeftBracket] + written,
                seq![Lexeme::RightBracket],
            );
            lemma_occurs_split(tokens, pos, seq![Lexeme::LeftBracket], written);
            let end = pos + 1 + written.len();
            assert(tokens[end + 0] == seq![Lexeme::RightBracket][0]);
            lemma_expression_complete(tokens, pos + 1, *inner);
        },
        Expr::Function { name, argument } => {
            let head = seq![Lexeme::Name(name), Lexeme::LeftBracket];
            let written = tokens_of(*argument);
            lemma_occurs_split(tokens, pos, head + written, seq![Lexeme::RightBracket]);
            lemma_occurs_split(tokens, pos, head, written);
            lemma_expression_complete(tokens, pos + 2, *argument);
        },
        _ => {},
    }
}

/// What writes a tree parses to that tree: where the tokens of a right-leaning tree
/// stand, and what follows them is neither an operator nor a left bracket, the parser
/// finds that tree.
pub proof fn lemma_expression_complete(tokens: Seq<Lexeme>, pos: int, e: Expr)
    requires
        is_chain(e),
        occurs_at(tokens, pos, tokens_of(e)),
        pos + tokens_of(e).len() < tokens.len() ==> closes_expression(
            tokens[pos + tokens_of(e).len()],
        ),
    ensures
        expression_at(tokens, pos) == Ok::<(Expr, int), ParseError>(
            (e, pos + tokens_of(e).len()),
        ),
    decreases e, 1int,
{
    match e {
        Expr::Binary { op, lhs, rhs } => {
            let left = tokens_of(*lhs);
            let middle = seq![operator_lexeme(op)];
            let right = tokens_of(*rhs);
            lemma_occurs_split(tokens, pos, left + middle, right);
            lemma_occurs_split(tokens, pos, left, middle);
            let next = pos + left.len();
            assert(tokens[next + 0] == middle[0]);
            lemma_primary_complete(tokens, pos, *lhs);
            lemma_expression_complete(tokens, next + 1, *rhs);
        },
        _ => {
            lemma_primary_complete(tokens, pos, e);
        },
    }
}

/// The parser returns right-leaning trees only, written by the tokens it was given.
pub proof fn lemma_parse_tokens_sound(tokens: Seq<Lexeme>)
    ensures
        parse_tokens(tokens) matches Ok(e) ==> is_chain(e) && occurs_at(tokens, 0, tokens_of(e)),
{
    lemma_expression_sound(tokens, 0);
}

/// The tokens that write a right-leaning tree parse to that tree.
pub proof fn lemma_parse_tokens_complete(e: Expr)
    requires
        is_chain(e),
    ensures
        parse_tokens(tokens_of(e)) == Ok::<Expr, ParseError>(e),
{
    let tokens = tokens_of(e);
    lemma_expression_complete(tokens, 0, e);
}

} // verus!

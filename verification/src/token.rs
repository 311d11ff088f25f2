//! The lexical alphabet of the expression language.

use vstd::prelude::*;

verus! {

/// One lexical unit of an expression.
#[derive(Debug)]
pub enum Token {
    /// `+`
    Plus,
    /// `-`
    Minus,
    /// `*`
    Asterisk,
    /// `/`
    Slash,
    /// `^`
    Circumflex,
    /// `(`
    LeftBracket,
    /// `)`
    RightBracket,
    /// A run of letters.
    Name(String),
    /// A run of decimal digits, by its value.
    IntegerLiteral(i64),
}

/// The mathematical value of a [`Token`]: a name is the sequence of its characters,
/// a literal is its integer.
pub ghost enum Lexeme {
    Plus,
    Minus,
    Asterisk,
    Slash,
    Circumflex,
    LeftBracket,
    RightBracket,
    Name(Seq<char>),
    IntegerLiteral(int),
}

impl View for Token {
    type V = Lexeme;

    open spec fn view(&self) -> Lexeme {
        match self {
            Token::Plus => Lexeme::Plus,
            Token::Minus => Lexeme::Minus,
            Token::Asterisk => Lexeme::Asterisk,
            Token::Slash => Lexeme::Slash,
            Token::Circumflex => Lexeme::Circumflex,
            Token::LeftBracket => Lexeme::LeftBracket,
            Token::RightBracket => Lexeme::RightBracket,
            Token::Name(name) => Lexeme::Name(name@),
            Token::IntegerLiteral(value) => Lexeme::IntegerLiteral(*value as int),
        }
    }
}

/// The values of a sequence of tokens, in order.
pub open spec fn lexemes(tokens: Seq<Token>) -> Seq<Lexeme> {
    tokens.map_values(|token: Token| token@)
}

impl PartialEq for Token {
    fn eq(&self, other: &Token) -> (equal: bool) {
        match (self, other) {
            (Token::Plus, Token::Plus) => true,
            (Token::Minus, Token::Minus) => true,
            (Token::Asterisk, Token::Asterisk) => true,
            (Token::Slash, Token::Slash) => true,
            (Token::Circumflex, Token::Circumflex) => true,
            (Token::LeftBracket, Token::LeftBracket) => true,
            (Token::RightBracket, Token::RightBracket) => true,
            (Token::Name(a), Token::Name(b)) => a.eq(b),
            (Token::IntegerLiteral(a), Token::IntegerLiteral(b)) => *a == *b,
            _ => false,
        }
    }
}

/// Two tokens are equal when their values are.
impl vstd::std_specs::cmp::PartialEqSpecImpl for Token {
    open spec fn obeys_eq_spec() -> bool {
        true
    }

    open spec fn eq_spec(&self, other: &Token) -> bool {
        self@ == other@
    }
}

impl Eq for Token {

}

impl Clone for Token {
    fn clone(&self) -> (copy: Token)
        ensures
            copy@ == self@,
    {
        match self {
            Token::Plus => Token::Plus,
            Token::Minus => Token::Minus,
            Token::Asterisk => Token::Asterisk,
            Token::Slash => Token::Slash,
            Token::Circumflex => Token::Circumflex,
            Token::LeftBracket => Token::LeftBracket,
            Token::RightBracket => Token::RightBracket,
            Token::Name(name) => Token::Name(name.clone()),
            Token::IntegerLiteral(value) => Token::IntegerLiteral(*value),
        }
    }
}

} // verus!

//! The scanner: from text to tokens.
//!
//! Digits are gathered greedily into one integer literal, letters into one name, and
//! each of `+ - * / ^ ( )` is a token by itself. Nothing is skipped: any other
//! character, white space included, is an error.

use crate::chars::{
    all_letters, decimal_value, digit_to_number, is_digit, is_letter, lemma_decimal_value_prefix,
    lemma_decimal_value_push, spec_is_digit, spec_is_letter,
};
use crate::token::{lexemes, Lexeme, Token};
use vstd::prelude::*;

verus! {

/// Why a text could not be scanned. Positions count characters from zero.
#[derive(Debug, Clone, Copy, PartialEq, Eq, Structural)]
pub enum LexError {
    /// The character at `position` begins no token.
    UnrecognizedCharacter { position: usize, character: char },
    /// The integer literal that begins at `position` is larger than `i64::MAX`.
    LiteralTooLarge { position: usize },
}

/// The two kinds of character that are gathered into runs.
pub ghost enum CharClass {
    Digit,
    Letter,
}

impl CharClass {
    /// Whether `c` belongs to the class.
    pub open spec fn contains(self, c: char) -> bool {
        match self {
            CharClass::Digit => spec_is_digit(c),
            CharClass::Letter => spec_is_letter(c),
        }
    }
}

/// The longest stretch of characters of one class that begins at `start`.
pub open spec fn run(s: Seq<char>, start: int, class: CharClass) -> Seq<char>
    decreases s.len() - start,
{
    if 0 <= start < s.len() && class.contains(s[start]) {
        seq![s[start]] + run(s, start + 1, class)
    } else {
        Seq::empty()
    }
}

/// The token that a single character makes by itself, if it makes one.
pub open spec fn punctuation(c: char) -> Option<Lexeme> {
    if c == '+' {
        Some(Lexeme::Plus)
    } else if c == '-' {
        Some(Lexeme::Minus)
    } else if c == '*' {
        Some(Lexeme::Asterisk)
    } else if c == '/' {
        Some(Lexeme::Slash)
    } else if c == '^' {
        Some(Lexeme::Circumflex)
    } else if c == '(' {
        Some(Lexeme::LeftBracket)
    } else if c == ')' {
        Some(Lexeme::RightBracket)
    } else {
        None
    }
}

/// The token that begins at `pos`, with the position after it, for `0 <= pos < s.len()`.
pub open spec fn scan_token(s: Seq<char>, pos: int) -> Result<(Lexeme, int), LexError> {
    let c = s[pos];
    if spec_is_digit(c) {
        let digits = run(s, pos, CharClass::Digit);
        if decimal_value(digits) <= i64::MAX {
            Ok((Lexeme::IntegerLiteral(decimal_value(digits)), pos + digits.len()))
        } else {
            Err(LexError::LiteralTooLarge { position: pos as usize })
        }
    } else if spec_is_letter(c) {
        let name = run(s, pos, CharClass::Letter);
        Ok((Lexeme::Name(name), pos + name.len()))
    } else {
        match punctuation(c) {
            Some(lexeme) => Ok((lexeme, pos + 1)),
            None => Err(LexError::UnrecognizedCharacter { position: pos as usize, character: c }),
        }
    }
}

/// The tokens `front` followed by what `rest` holds, or the error that `rest` is.
pub open spec fn followed_by(front: Seq<Lexeme>, rest: Result<Seq<Lexeme>, LexError>) -> Result<
    Seq<Lexeme>,
    LexError,
> {
    match rest {
        Ok(tokens) => Ok(front + tokens),
        Err(error) => Err(error),
    }
}

/// The tokens of `s` from `pos` on, or the first error met on the way.
pub open spec fn scan_from(s: Seq<char>, pos: int) -> Result<Seq<Lexeme>, LexError>
    decreases s.len() - pos,
{
    if 0 <= pos < s.len() {
        match scan_token(s, pos) {
            Ok((lexeme, next)) => {
                proof {
                    lemma_run_bounds(s, pos, CharClass::Digit);
                    lemma_run_bounds(s, pos, CharClass::Letter);
                }
                followed_by(seq![lexeme], scan_from(s, next))
            },
            Err(error) => Err(error),
        }
    } else {
        Ok(Seq::empty())
    }
}

/// The tokens of a text, or the first error in it.
pub open spec fn scan(s: Seq<char>) -> Result<Seq<Lexeme>, LexError> {
    scan_from(s, 0)
}

/// What a scanning result says, with each token taken by its value.
pub open spec fn scanned(result: Result<Vec<Token>, LexError>) -> Result<Seq<Lexeme>, LexError> {
    match result {
        Ok(tokens) => Ok(lexemes(tokens@)),
        Err(error) => Err(error),
    }
}

/// A run begins with any stretch of its class that begins where it does.
pub proof fn lemma_run_split(s: Seq<char>, start: int, mid: int, class: CharClass)
    requires
        0 <= start <= mid <= s.len(),
        forall|i: int| start <= i < mid ==> class.contains(#[trigger] s[i]),
    ensures
        run(s, start, class) == s.subrange(start, mid) + run(s, mid, class),
    decreases mid - start,
{
    if start < mid {
        lemma_run_split(s, start + 1, mid, class);
    }
}

/// A run lies within the text, is made of its class, and ends where the class does.
pub proof fn lemma_run_bounds(s: Seq<char>, start: int, class: CharClass)
    requires
        0 <= start <= s.len(),
    ensures
        start + run(s, start, class).len() <= s.len(),
        run(s, start, class) == s.subrange(start, start + run(s, start, class).len()),
        forall|i: int|
            0 <= i < run(s, start, class).len() ==> class.contains(
                #[trigger] run(s, start, class)[i],
            ),
        start + run(s, start, class).len() < s.len() ==> !class.contains(
            s[start + run(s, start, class).len()],
        ),
    decreases s.len() - start,
{
    if start < s.len() && class.contains(s[start]) {
        lemma_run_bounds(s, start + 1, class);
    }
}

/// Reads the integer literal that begins at `start`: the digits from there on, as far as
/// they go. Returns its value and the position after its last digit. Where no digit
/// stands at `start` the value is zero and the position is `start`.
pub fn read_number(input: &[char], start: usize) -> (result: Result<(i64, usize), LexError>)
    ensures
        ({
            let digits = run(input@, start as int, CharClass::Digit);
            match result {
                Ok((value, end)) => value == decimal_value(digits) && end == start + digits.len(),
                Err(error) => decimal_value(digits) > i64::MAX && error
                    == (LexError::LiteralTooLarge { position: start }),
            }
        }),
{
    if start >= input.len() {
        return Ok((0, start));
    }
    let ghost digits = run(input@, start as int, CharClass::Digit);
    let mut value: i64 = 0;
    let mut i: usize = start;
    while i < input.len() && is_digit(input[i])
        invariant
            start <= i <= input@.len(),
            digits == run(input@, start as int, CharClass::Digit),
            digits == input@.subrange(start as int, i as int) + run(
                input@,
                i as int,
                CharClass::Digit,
            ),
            value == decimal_value(input@.subrange(start as int, i as int)),
            0 <= value,
        decreases input@.len() - i,
    {
        let digit = digit_to_number(input[i]);
        proof {
            let read = input@.subrange(start as int, i as int);
            lemma_decimal_value_push(read, input@[i as int]);
            assert(read.push(input@[i as int]) =~= input@.subrange(start as int, i + 1));
            assert(digits.take(i + 1 - start) =~= input@.subrange(start as int, i + 1));
            lemma_run_bounds(input@, start as int, CharClass::Digit);
            lemma_decimal_value_prefix(digits, i + 1 - start);
        }
        if value > (i64::MAX - digit) / 10 {
            return Err(LexError::LiteralTooLarge { position: start });
        }
        value = 10 * value + digit;
        i += 1;
    }
    Ok((value, i))
}

/// Reads the name that begins at `start`: the letters from there on, as far as they go.
/// Returns the name and the position after its last letter. Where no letter stands at
/// `start` the name is empty and the position is `start`.
pub fn read_name(input: &[char], start: usize) -> (result: (String, usize))
    ensures
        result.0@ == run(input@, start as int, CharClass::Letter),
        result.1 == start + result.0@.len(),
{
    if start >= input.len() {
        return (String::new(), start);
    }
    let ghost letters = run(input@, start as int, CharClass::Letter);
    let mut name = String::new();
    let mut i: usize = start;
    while i < input.len() && is_letter(input[i])
        invariant
            start <= i <= input@.len(),
            letters == input@.subrange(start as int, i as int) + run(
                input@,
                i as int,
                CharClass::Letter,
            ),
            name@ == input@.subrange(start as int, i as int),
        decreases input@.len() - i,
    {
        name.push(input[i]);
        i += 1;
    }
    (name, i)
}

/// The characters of a text, in order.
fn characters(input: &str) -> (chars: Vec<char>)
    ensures
        chars@ == input@,
{
    broadcast use vstd::string::group_string_axioms;

    let mut chars: Vec<char> = Vec::new();
    for c in it: input.chars()
        invariant
            it.seq() == input@,
            chars@ == input@.take(it.index() as int),
    {
        chars.push(c);
    }
    chars
}

/// Scans a text into its tokens.
///
/// Fails at the first character that is no digit, no letter and none of `+ - * / ^ ( )`,
/// or at the first integer literal that does not fit in an `i64`, whichever comes first.
/// The empty text has no tokens.
pub fn tokenize(input: &str) -> (result: Result<Vec<Token>, LexError>)
    ensures
        scanned(result) == scan(input@),
{
    let chars = characters(input);
    let mut tokens: Vec<Token> = Vec::new();
    let mut i: usize = 0;
    while i < chars.len()
        invariant
            chars@ == input@,
            i <= chars@.len(),
            scan(input@) == followed_by(lexemes(tokens@), scan_from(input@, i as int)),
        decreases chars@.len() - i,
    {
        let c = chars[i];
        let ghost before = lexemes(tokens@);
        let next: usize;
        if is_digit(c) {
            match read_number(chars.as_slice(), i) {
                Ok((value, end)) => {
                    tokens.push(Token::IntegerLiteral(value));
                    next = end;
                },
                Err(error) => {
                    return Err(error);
                },
            }
        } else if is_letter(c) {
            let (name, end) = read_name(chars.as_slice(), i);
            tokens.push(Token::Name(name));
            next = end;
        } else {
            let token = if c == '+' {
                Token::Plus
            } else if c == '-' {
                Token::Minus
            } else if c == '*' {
                Token::Asterisk
            } else if c == '/' {
                Token::Slash
            } else if c == '^' {
                Token::Circumflex
            } else if c == '(' {
                Token::LeftBracket
            } else if c == ')' {
                Token::RightBracket
            } else {
                return Err(LexError::UnrecognizedCharacter { position: i, character: c });
            };
            tokens.push(token);
            next = i + 1;
        }
        proof {
            let lexeme = scan_token(input@, i as int)->Ok_0.0;
            lemma_run_bounds(input@, i as int, CharClass::Digit);
            lemma_run_bounds(input@, i as int, CharClass::Letter);
            match scan_from(input@, next as int) {
                Ok(rest) => {
                    assert(before + (seq![lexeme] + rest) =~= lexemes(tokens@) + rest);
                },
                Err(_) => {},
            }
        }
        i = next;
    }
    Ok(tokens)
}

/// What the scanner can give: a name is never empty and holds letters only, and an integer
/// literal is never negative.
pub open spec fn is_scanner_lexeme(lexeme: Lexeme) -> bool {
    match lexeme {
        Lexeme::Name(name) => name.len() >= 1 && all_letters(name),
        Lexeme::IntegerLiteral(value) => 0 <= value <= i64::MAX,
        _ => true,
    }
}

/// Every token that the scanner gives is one that it can give.
pub proof fn lemma_scan_lexemes(s: Seq<char>, pos: int)
    requires
        0 <= pos <= s.len(),
    ensures
        scan_from(s, pos) matches Ok(tokens) ==> forall|i: int|
            0 <= i < tokens.len() ==> is_scanner_lexeme(#[trigger] tokens[i]),
    decreases s.len() - pos,
{
    if pos < s.len() {
        lemma_run_bounds(s, pos, CharClass::Digit);
        lemma_run_bounds(s, pos, CharClass::Letter);
        if let Ok((lexeme, next)) = scan_token(s, pos) {
            lemma_scan_lexemes(s, next);
            if spec_is_digit(s[pos]) {
                let digits = run(s, pos, CharClass::Digit);
                lemma_decimal_value_prefix(digits, digits.len() as int);
            }
        }
    }
}

} // verus!

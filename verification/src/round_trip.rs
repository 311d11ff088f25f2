//! Rendering and reading back: the text of a parsed tree scans and parses to that tree.

use crate::chars::{all_letters, lemma_decimal_digits, spec_is_digit, spec_is_letter};
use crate::engine::{normalize, simplify_step};
use crate::node::Expr;
use crate::parser::{
    is_chain, lemma_parse_tokens_complete, lemma_parse_tokens_sound, operator_lexeme,
    parse_tokens, tokens_of, ParseError,
};
use crate::segments::{lemma_occurs_split, occurs_at};
use crate::token::Lexeme;
use crate::tokenizer::{
    followed_by, is_scanner_lexeme, lemma_run_split, lemma_scan_lexemes, punctuation, run, scan,
    scan_from, CharClass, LexError,
};
use vstd::prelude::*;

verus! {

/// Whether every constant of the tree is one that the scanner can read, from zero to
/// `i64::MAX`, and every name is one that it can read, not empty and made of letters.
pub open spec fn is_scannable(e: Expr) -> bool
    decreases e,
{
    match e {
        Expr::Bracket { inner } => is_scannable(*inner),
        Expr::Binary { op, lhs, rhs } => is_scannable(*lhs) && is_scannable(*rhs),
        Expr::Constant { value } => 0 <= value <= i64::MAX,
        Expr::Variable { name } => name.len() >= 1 && all_letters(name),
        Expr::Function { name, argument } => name.len() >= 1 && all_letters(name) && is_scannable(
            *argument,
        ),
    }
}

/// Whether a token ends at `pos`: the text ends there, or the character there is neither
/// a digit nor a letter.
pub open spec fn token_ends_at(s: Seq<char>, pos: int) -> bool {
    pos >= s.len() || (!spec_is_digit(s[pos]) && !spec_is_letter(s[pos]))
}

/// A tree written by tokens that the scanner can give is scannable.
pub proof fn lemma_scannable_from_tokens(e: Expr)
    requires
        forall|i: int| 0 <= i < tokens_of(e).len() ==> is_scanner_lexeme(#[trigger] tokens_of(e)[i]),
    ensures
        is_scannable(e),
    decreases e,
{
    let tokens = tokens_of(e);
    match e {
        Expr::Bracket { inner } => {
            let written = tokens_of(*inner);
            assert forall|i: int| 0 <= i < written.len() implies is_scanner_lexeme(
                #[trigger] written[i],
            ) by {
                assert(tokens[i + 1] == written[i]);
            }
            lemma_scannable_from_tokens(*inner);
        },
        Expr::Binary { op, lhs, rhs } => {
            let left = tokens_of(*lhs);
            let right = tokens_of(*rhs);
            assert forall|i: int| 0 <= i < left.len() implies is_scanner_lexeme(
                #[trigger] left[i],
            ) by {
                assert(tokens[i] == left[i]);
            }
            assert forall|i: int| 0 <= i < right.len() implies is_scanner_lexeme(
                #[trigger] right[i],
            ) by {
                assert(tokens[left.len() + 1 + i] == right[i]);
            }
            lemma_scannable_from_tokens(*lhs);
            lemma_scannable_from_tokens(*rhs);
        },
        Expr::Constant { value } => {
            assert(is_scanner_lexeme(tokens[0]));
        },
        Expr::Variable { name } => {
            assert(is_scanner_lexeme(tokens[0]));
        },
        Expr::Function { name, argument } => {
            let written = tokens_of(*argument);
            assert(is_scanner_lexeme(tokens[0]));
            assert forall|i: int| 0 <= i < written.len() implies is_scanner_lexeme(
                #[trigger] written[i],
            ) by {
                assert(tokens[i + 2] == written[i]);
            }
            lemma_scannable_from_tokens(*argument);
        },
    }
}

/// Where a word of one class stands and the class ends after it, the run there is the word.
pub proof fn lemma_run_of_word(s: Seq<char>, pos: int, word: Seq<char>, class: CharClass)
    requires
        occurs_at(s, pos, word),
        forall|i: int| 0 <= i < word.len() ==> class.contains(#[trigger] word[i]),
        pos + word.len() < s.len() ==> !class.contains(s[pos + word.len()]),
    ensures
        run(s, pos, class) == word,
{
    let end = pos + word.len();
    assert forall|i: int| pos <= i < end implies class.contains(#[trigger] s[i]) by {
        assert(s[pos + (i - pos)] == word[i - pos]);
    }
    lemma_run_split(s, pos, end, class);
}

/// Where a single character that is a token by itself stands, the scanner gives that
/// token and goes on behind it.
pub proof fn lemma_scan_punctuation(s: Seq<char>, pos: int, lexeme: Lexeme)
    requires
        0 <= pos < s.len(),
        punctuation(s[pos]) == Some(lexeme),
    ensures
        scan_from(s, pos) == followed_by(seq![lexeme], scan_from(s, pos + 1)),
{
}

/// Tokens in front of tokens in front of a rest are their concatenation in front of it.
pub proof fn lemma_followed_by_twice(
    first: Seq<Lexeme>,
    second: Seq<Lexeme>,
    rest: Result<Seq<Lexeme>, LexError>,
)
    ensures
        followed_by(first, followed_by(second, rest)) == followed_by(first + second, rest),
{
    if let Ok(tokens) = rest {
        assert(first + (second + tokens) =~= (first + second) + tokens);
    }
}

/// Where the text of a scannable tree stands and a token ends after it, the scanner gives
/// the tokens that write the tree and goes on behind the text.
pub proof fn lemma_scan_render(s: Seq<char>, pos: int, e: Expr)
    requires
        is_scannable(e),
        occurs_at(s, pos, e.render()),
        token_ends_at(s, pos + e.render().len()),
    ensures
        scan_from(s, pos) == followed_by(tokens_of(e), scan_from(s, pos + e.render().len())),
    decreases e,
{
    let text = e.render();
    let end = pos + text.len();
    let rest = scan_from(s, end);
    match e {
        Expr::Constant { value } => {
            lemma_decimal_digits(value as nat);
            lemma_run_of_word(s, pos, text, CharClass::Digit);
        },
        Expr::Variable { name } => {
            lemma_run_of_word(s, pos, name, CharClass::Letter);
        },
        Expr::Bracket { inner } => {
            let open = seq!['('];
            let close = seq![')'];
            let body = inner.render();
            lemma_occurs_split(s, pos, open + body, close);
            lemma_occurs_split(s, pos, open, body);
            assert(s[pos + 0] == open[0]);
            assert(s[pos + 1 + body.len() + 0] == close[0]);
            lemma_scan_punctuation(s, pos, Lexeme::LeftBracket);
            lemma_scan_render(s, pos + 1, *inner);
            lemma_scan_punctuation(s, pos + 1 + body.len(), Lexeme::RightBracket);
            lemma_followed_by_twice(tokens_of(*inner), seq![Lexeme::RightBracket], rest);
            lemma_followed_by_twice(
                seq![Lexeme::LeftBracket],
                tokens_of(*inner) + seq![Lexeme::RightBracket],
                rest,
            );
            assert(seq![Lexeme::LeftBracket] + (tokens_of(*inner) + seq![Lexeme::RightBracket])
                =~= tokens_of(e));
        },
        Expr::Function { name, argument } => {
            let open = seq!['('];
            let close = seq![')'];
            let body = argument.render();
            lemma_occurs_split(s, pos, name + open + body, close);
            lemma_occurs_split(s, pos, name + open, body);
            lemma_occurs_split(s, pos, name, open);
            let at_open = pos + name.len();
            assert(s[at_open + 0] == open[0]);
            assert(s[at_open + 1 + body.len() + 0] == close[0]);
            lemma_run_of_word(s, pos, name, CharClass::Letter);
            lemma_scan_punctuation(s, at_open, Lexeme::LeftBracket);
            lemma_scan_render(s, at_open + 1, *argument);
            lemma_scan_punctuation(s, at_open + 1 + body.len(), Lexeme::RightBracket);
            lemma_followed_by_twice(tokens_of(*argument), seq![Lexeme::RightBracket], rest);
            lemma_followed_by_twice(
                seq![Lexeme::LeftBracket],
                tokens_of(*argument) + seq![Lexeme::RightBracket],
                rest,
            );
            lemma_followed_by_twice(
                seq![Lexeme::Name(name)],
                seq![Lexeme::LeftBracket] + (tokens_of(*argument) + seq![Lexeme::RightBracket]),
                rest,
            );
            assert(seq![Lexeme::Name(name)] + (seq![Lexeme::LeftBracket] + (tokens_of(*argument)
                + seq![Lexeme::RightBracket])) =~= tokens_of(e));
        },
        Expr::Binary { op, lhs, rhs } => {
            let left = lhs.render();
            let sign = seq![op.symbol()];
            let right = rhs.render();
            lemma_occurs_split(s, pos, left + sign, right);
            lemma_occurs_split(s, pos, left, sign);
            let at_sign = pos + left.len();
            assert(s[at_sign + 0] == sign[0]);
            lemma_scan_render(s, pos, *lhs);
            lemma_scan_punctuation(s, at_sign, operator_lexeme(op));
            lemma_scan_render(s, at_sign + 1, *rhs);
            lemma_followed_by_twice(seq![operator_lexeme(op)], tokens_of(*rhs), rest);
            lemma_followed_by_twice(
                tokens_of(*lhs),
                seq![operator_lexeme(op)] + tokens_of(*rhs),
                rest,
            );
            assert(tokens_of(*lhs) + (seq![operator_lexeme(op)] + tokens_of(*rhs)) =~= tokens_of(
                e,
            ));
        },
    }
}

/// The text of a scannable tree scans to the tokens that write the tree.
pub proof fn lemma_scan_of_render(e: Expr)
    requires
        is_scannable(e),
    ensures
        scan(e.render()) == Ok::<Seq<Lexeme>, LexError>(tokens_of(e)),
{
    lemma_scan_render(e.render(), 0, e);
}

/// A tree that is right-leaning and scannable is read back from its text as it is.
pub proof fn lemma_render_reads_back(e: Expr)
    requires
        is_chain(e),
        is_scannable(e),
    ensures
        scan(e.render()) matches Ok(tokens) && parse_tokens(tokens) == Ok::<Expr, ParseError>(e),
{
    lemma_scan_of_render(e);
    lemma_parse_tokens_complete(e);
}

/// Round trip: a tree that was parsed from the tokens of a text is read back from its own
/// text as it is. Scanning the rendering succeeds, and parsing those tokens gives the
/// same tree.
pub proof fn lemma_round_trip(text: Seq<char>, tree: Expr)
    requires
        scan(text) matches Ok(tokens) && parse_tokens(tokens) == Ok::<Expr, ParseError>(tree),
    ensures
        scan(tree.render()) matches Ok(tokens) && parse_tokens(tokens) == Ok::<Expr, ParseError>(
            tree,
        ),
{
    lemma_parsed_tree_is_readable(text, tree);
    lemma_render_reads_back(tree);
}

/// A tree that was parsed from the tokens of a text is right-leaning and scannable.
pub proof fn lemma_parsed_tree_is_readable(text: Seq<char>, tree: Expr)
    requires
        scan(text) matches Ok(tokens) && parse_tokens(tokens) == Ok::<Expr, ParseError>(tree),
    ensures
        is_chain(tree),
        is_scannable(tree),
{
    let tokens = scan(text)->Ok_0;
    lemma_scan_lexemes(text, 0);
    lemma_parse_tokens_sound(tokens);
    let written = tokens_of(tree);
    assert forall|i: int| 0 <= i < written.len() implies is_scanner_lexeme(
        #[trigger] written[i],
    ) by {
        assert(tokens[0 + i] == written[i]);
    }
    lemma_scannable_from_tokens(tree);
}

/// Normalization keeps a tree right-leaning, and scannable if it was.
pub proof fn lemma_normalize_keeps_readable(e: Expr)
    ensures
        is_chain(e) ==> is_chain(normalize(e)),
        is_scannable(e) ==> is_scannable(normalize(e)),
        !(e is Binary) ==> !(normalize(e) is Binary),
    decreases e,
{
    match e {
        Expr::Bracket { inner } => {
            lemma_normalize_keeps_readable(*inner);
        },
        Expr::Binary { op, lhs, rhs } => {
            lemma_normalize_keeps_readable(*lhs);
            lemma_normalize_keeps_readable(*rhs);
        },
        Expr::Function { name, argument } => {
            lemma_normalize_keeps_readable(*argument);
        },
        _ => {},
    }
}

/// A simplification step keeps a tree right-leaning.
pub proof fn lemma_step_keeps_chain(e: Expr)
    requires
        is_chain(e),
    ensures
        is_chain(simplify_step(e)),
        !(e is Binary) ==> !(simplify_step(e) is Binary),
    decreases e,
{
    match e {
        Expr::Bracket { inner } => {
            lemma_step_keeps_chain(*inner);
        },
        Expr::Binary { op, lhs, rhs } => {
            lemma_step_keeps_chain(*lhs);
            lemma_step_keeps_chain(*rhs);
        },
        Expr::Function { name, argument } => {
            lemma_step_keeps_chain(*argument);
        },
        _ => {},
    }
}

/// Round trip after normalization: the normal form of a tree that was parsed from the
/// tokens of a text is read back from its own text as it is.
pub proof fn lemma_round_trip_normalized(text: Seq<char>, tree: Expr)
    requires
        scan(text) matches Ok(tokens) && parse_tokens(tokens) == Ok::<Expr, ParseError>(tree),
    ensures
        scan(normalize(tree).render()) matches Ok(tokens) && parse_tokens(tokens) == Ok::<
            Expr,
            ParseError,
        >(normalize(tree)),
{
    lemma_parsed_tree_is_readable(text, tree);
    lemma_normalize_keeps_readable(tree);
    lemma_render_reads_back(normalize(tree));
}

} // verus!

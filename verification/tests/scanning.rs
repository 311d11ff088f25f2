use expr_simplifier::chars::{is_digit, is_letter, push_decimal, push_decimal_digits};
use expr_simplifier::token::Token;
use expr_simplifier::tokenizer::{read_name, read_number, tokenize, LexError};

fn chars_of(text: &str) -> Vec<char> {
    text.chars().collect()
}

fn name(text: &str) -> Token {
    Token::Name(text.to_string())
}

#[test]
fn number_parsing_0() {
    assert_eq!(read_number(&chars_of("0"), 0), Ok((0, 1)));
}

#[test]
fn number_parsing_1() {
    assert_eq!(read_number(&chars_of("1"), 0), Ok((1, 1)));
}

#[test]
fn number_parsing_12() {
    assert_eq!(read_number(&chars_of("12"), 0), Ok((12, 2)));
}

#[test]
fn number_parsing_123() {
    assert_eq!(read_number(&chars_of("123"), 0), Ok((123, 3)));
}

#[test]
fn read_number_stops_at_the_first_non_digit() {
    assert_eq!(read_number(&chars_of("ab42+7"), 2), Ok((42, 4)));
}

#[test]
fn read_number_without_a_digit_reads_zero_and_stays() {
    assert_eq!(read_number(&chars_of("x1"), 0), Ok((0, 0)));
    assert_eq!(read_number(&chars_of("12"), 2), Ok((0, 2)));
}

#[test]
fn read_number_keeps_leading_zeros_out_of_the_value() {
    assert_eq!(read_number(&chars_of("007"), 0), Ok((7, 3)));
}

#[test]
fn read_number_reads_the_largest_integer() {
    assert_eq!(
        read_number(&chars_of("9223372036854775807"), 0),
        Ok((i64::MAX, 19))
    );
}

#[test]
fn read_number_refuses_one_more_than_the_largest_integer() {
    assert_eq!(
        read_number(&chars_of("9223372036854775808"), 0),
        Err(LexError::LiteralTooLarge { position: 0 })
    );
}

#[test]
fn read_number_refuses_a_very_long_literal() {
    assert_eq!(
        read_number(&chars_of("x100000000000000000000000000"), 1),
        Err(LexError::LiteralTooLarge { position: 1 })
    );
}

#[test]
fn read_name_reads_the_letters() {
    assert_eq!(read_name(&chars_of("sin(x)"), 0), ("sin".to_string(), 3));
    assert_eq!(read_name(&chars_of("sin(x)"), 4), ("x".to_string(), 5));
}

#[test]
fn read_name_without_a_letter_reads_nothing_and_stays() {
    assert_eq!(read_name(&chars_of("1a"), 0), (String::new(), 0));
    assert_eq!(read_name(&chars_of("ab"), 2), (String::new(), 2));
}

#[test]
fn read_name_counts_characters_not_bytes() {
    assert_eq!(read_name(&chars_of("é+ñu"), 2), ("ñu".to_string(), 4));
}

#[test]
fn digits_are_the_ten_ascii_digits() {
    for c in "0123456789".chars() {
        assert!(is_digit(c));
    }
    assert!(!is_digit('/'));
    assert!(!is_digit(':'));
    assert!(!is_digit('a'));
    assert!(!is_digit('٣'));
}

#[test]
fn decimal_digits_of_naturals() {
    let cases: [(u64, &str); 5] = [
        (0, "0"),
        (9, "9"),
        (10, "10"),
        (909, "909"),
        (u64::MAX, "18446744073709551615"),
    ];
    for (value, text) in cases {
        let mut out = String::new();
        push_decimal_digits(&mut out, value);
        assert_eq!(out, text);
    }
}

#[test]
fn read_number_beyond_the_end_reads_zero_and_stays() {
    assert_eq!(read_number(&chars_of("12"), 5), Ok((0, 5)));
    assert_eq!(read_name(&chars_of("ab"), 5), (String::new(), 5));
}

#[test]
fn letters_are_ascii_letters_and_unicode_alphabetic_characters() {
    assert!(is_letter('a'));
    assert!(is_letter('z'));
    assert!(is_letter('A'));
    assert!(is_letter('Z'));
    assert!(is_letter('é'));
    assert!(is_letter('京'));
    assert!(!is_letter('@'));
    assert!(!is_letter('['));
    assert!(!is_letter('`'));
    assert!(!is_letter('{'));
    assert!(!is_letter('5'));
    assert!(!is_letter(' '));
    assert!(!is_letter('€'));
    assert!(!is_letter('💝'));
}

#[test]
fn decimal_notation() {
    let cases: [(i64, &str); 8] = [
        (0, "0"),
        (7, "7"),
        (10, "10"),
        (1234567890, "1234567890"),
        (-1, "-1"),
        (-120, "-120"),
        (i64::MAX, "9223372036854775807"),
        (i64::MIN, "-9223372036854775808"),
    ];
    for (value, text) in cases {
        let mut out = String::from("=");
        push_decimal(&mut out, value);
        assert_eq!(out, format!("={}", text));
    }
}

#[test]
fn tokenize_integer() {
    assert_eq!(tokenize("12"), Ok(vec![Token::IntegerLiteral(12)]));
}

#[test]
fn tokenize_name() {
    assert_eq!(tokenize("x"), Ok(vec![name("x")]));
}

#[test]
fn tokenize_rejects_at_sign() {
    assert_eq!(
        tokenize("@"),
        Err(LexError::UnrecognizedCharacter { position: 0, character: '@' })
    );
}

#[test]
fn tokenize_empty_text() {
    assert_eq!(tokenize(""), Ok(vec![]));
}

#[test]
fn tokenize_every_kind_of_token() {
    assert_eq!(
        tokenize("+-*/^()ab12"),
        Ok(vec![
            Token::Plus,
            Token::Minus,
            Token::Asterisk,
            Token::Slash,
            Token::Circumflex,
            Token::LeftBracket,
            Token::RightBracket,
            name("ab"),
            Token::IntegerLiteral(12),
        ])
    );
}

#[test]
fn tokenize_gathers_digits_and_letters_greedily() {
    assert_eq!(
        tokenize("12ab34"),
        Ok(vec![Token::IntegerLiteral(12), name("ab"), Token::IntegerLiteral(34)])
    );
}

#[test]
fn tokenize_leaves_the_sign_to_the_parser() {
    assert_eq!(tokenize("-5"), Ok(vec![Token::Minus, Token::IntegerLiteral(5)]));
}

#[test]
fn tokenize_an_expression() {
    assert_eq!(
        tokenize("sin(x)+2*y"),
        Ok(vec![
            name("sin"),
            Token::LeftBracket,
            name("x"),
            Token::RightBracket,
            Token::Plus,
            Token::IntegerLiteral(2),
            Token::Asterisk,
            name("y"),
        ])
    );
}

#[test]
fn tokenize_rejects_white_space() {
    assert_eq!(
        tokenize("1 + 2"),
        Err(LexError::UnrecognizedCharacter { position: 1, character: ' ' })
    );
}

#[test]
fn tokenize_reports_the_first_bad_character() {
    assert_eq!(
        tokenize("ab+#c$"),
        Err(LexError::UnrecognizedCharacter { position: 3, character: '#' })
    );
}

#[test]
fn tokenize_reports_positions_in_characters() {
    assert_eq!(
        tokenize("é+€"),
        Err(LexError::UnrecognizedCharacter { position: 2, character: '€' })
    );
}

#[test]
fn tokenize_accepts_letters_beyond_ascii() {
    assert_eq!(tokenize("京x"), Ok(vec![name("京x")]));
}

#[test]
fn tokenize_rejects_digits_beyond_ascii() {
    assert_eq!(
        tokenize("1٣"),
        Err(LexError::UnrecognizedCharacter { position: 1, character: '٣' })
    );
}

#[test]
fn tokenize_refuses_a_literal_that_is_too_large() {
    assert_eq!(
        tokenize("x+9223372036854775808"),
        Err(LexError::LiteralTooLarge { position: 2 })
    );
}

#[test]
fn tokenize_reports_whichever_error_comes_first() {
    assert_eq!(
        tokenize("99999999999999999999@"),
        Err(LexError::LiteralTooLarge { position: 0 })
    );
    assert_eq!(
        tokenize("@99999999999999999999"),
        Err(LexError::UnrecognizedCharacter { position: 0, character: '@' })
    );
}

#[test]
fn tokens_compare_by_value() {
    assert_eq!(name("x"), name("x").clone());
    assert_ne!(name("x"), name("y"));
    assert_ne!(Token::IntegerLiteral(1), Token::IntegerLiteral(2));
    assert_ne!(Token::Plus, Token::Minus);
    assert_ne!(name("x"), Token::IntegerLiteral(0));
}

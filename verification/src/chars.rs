//! Character classes and decimal notation.

use vstd::prelude::*;

verus! {

/// Whether Unicode classes a character as `Alphabetic`, as `char::is_alphabetic` reports it.
pub uninterp spec fn unicode_alphabetic(c: char) -> bool;

/// `char::is_alphabetic` answers from the character alone whether Unicode classes it as
/// `Alphabetic`. Nothing more is claimed of it: which characters those are is left to the
/// standard library's tables.
pub assume_specification[ char::is_alphabetic ](c: char) -> (alphabetic: bool)
    ensures
        alphabetic == unicode_alphabetic(c),
;

/// `String::push` appends one character to the end of the string.
pub assume_specification[ String::push ](text: &mut String, c: char)
    ensures
        final(text)@ == old(text)@.push(c),
;

/// The ASCII decimal digits.
pub open spec fn spec_is_digit(c: char) -> bool {
    '0' <= c <= '9'
}

/// The letters of the ASCII alphabet, in either case.
pub open spec fn is_ascii_letter(c: char) -> bool {
    'a' <= c <= 'z' || 'A' <= c <= 'Z'
}

/// The characters a name is made of: within ASCII exactly the letters, beyond ASCII
/// whatever Unicode calls alphabetic.
pub open spec fn spec_is_letter(c: char) -> bool {
    if c <= '\x7f' {
        is_ascii_letter(c)
    } else {
        unicode_alphabetic(c)
    }
}

/// The number a decimal digit stands for.
pub open spec fn digit_value(c: char) -> int {
    c as int - '0' as int
}

/// The decimal digit that stands for `d`, for `0 <= d <= 9`.
pub open spec fn digit_char(d: int) -> char {
    (d + '0' as int) as char
}

/// The number written by a sequence of decimal digits, most significant first.
/// The empty sequence writes zero.
pub open spec fn decimal_value(digits: Seq<char>) -> int
    decreases digits.len(),
{
    if digits.len() == 0 {
        0
    } else {
        10 * decimal_value(digits.drop_last()) + digit_value(digits.last())
    }
}

/// The shortest decimal notation of a natural number.
pub open spec fn decimal_digits(n: nat) -> Seq<char>
    decreases n,
{
    if n < 10 {
        seq![digit_char(n as int)]
    } else {
        decimal_digits(n / 10).push(digit_char((n % 10) as int))
    }
}

/// The decimal notation of an integer: a minus sign in front of a negative one.
pub open spec fn decimal(value: int) -> Seq<char> {
    if value < 0 {
        seq!['-'] + decimal_digits((-value) as nat)
    } else {
        decimal_digits(value as nat)
    }
}

/// Whether every character of `s` is a decimal digit.
pub open spec fn all_digits(s: Seq<char>) -> bool {
    forall|i: int| 0 <= i < s.len() ==> spec_is_digit(#[trigger] s[i])
}

/// Whether every character of `s` may stand in a name.
pub open spec fn all_letters(s: Seq<char>) -> bool {
    forall|i: int| 0 <= i < s.len() ==> spec_is_letter(#[trigger] s[i])
}

/// Whether `c` is one of the ten ASCII decimal digits.
#[verifier::when_used_as_spec(spec_is_digit)]
pub fn is_digit(c: char) -> (digit: bool)
    ensures
        digit == spec_is_digit(c),
{
    '0' <= c && c <= '9'
}

/// Whether `c` may stand in a name: an ASCII letter, or a character beyond ASCII that
/// Unicode calls alphabetic.
#[verifier::when_used_as_spec(spec_is_letter)]
pub fn is_letter(c: char) -> (letter: bool)
    ensures
        letter == spec_is_letter(c),
{
    if c <= '\x7f' {
        ('a' <= c && c <= 'z') || ('A' <= c && c <= 'Z')
    } else {
        c.is_alphabetic()
    }
}

/// The number a decimal digit stands for.
pub(crate) fn digit_to_number(c: char) -> (value: i64)
    requires
        is_digit(c),
    ensures
        value == digit_value(c),
        0 <= value <= 9,
{
    (c as u32 - '0' as u32) as i64
}

/// The notation of a natural number is made of digits only, and reads back as the number.
pub proof fn lemma_decimal_digits(n: nat)
    ensures
        decimal_digits(n).len() >= 1,
        all_digits(decimal_digits(n)),
        decimal_value(decimal_digits(n)) == n,
    decreases n,
{
    let digits = decimal_digits(n);
    if n < 10 {
        assert(decimal_value(digits.drop_last()) == 0);
    } else {
        lemma_decimal_digits(n / 10);
        let head = decimal_digits(n / 10);
        assert(digits.drop_last() =~= head);
    }
}

/// Reading one more digit multiplies by ten and adds the digit.
pub proof fn lemma_decimal_value_push(digits: Seq<char>, c: char)
    ensures
        decimal_value(digits.push(c)) == 10 * decimal_value(digits) + digit_value(c),
{
    assert(digits.push(c).drop_last() =~= digits);
}

/// A number is at least any number written by a prefix of its digits.
pub proof fn lemma_decimal_value_prefix(digits: Seq<char>, k: int)
    requires
        all_digits(digits),
        0 <= k <= digits.len(),
    ensures
        0 <= decimal_value(digits.take(k)) <= decimal_value(digits),
    decreases digits.len(),
{
    if digits.len() > 0 {
        let shorter = digits.drop_last();
        if k < digits.len() {
            lemma_decimal_value_prefix(shorter, k);
            assert(shorter.take(k) =~= digits.take(k));
        } else {
            lemma_decimal_value_prefix(shorter, k - 1);
            assert(digits.take(k) =~= digits);
        }
    }
}

/// Appends the decimal digits of `n` to `out`.
pub fn push_decimal_digits(out: &mut String, n: u64)
    ensures
        final(out)@ == old(out)@ + decimal_digits(n as nat),
    decreases n,
{
    if n >= 10 {
        push_decimal_digits(out, n / 10);
    }
    let digit: u8 = (n % 10) as u8;
    out.push((('0' as u8) + digit) as char);
}

/// Appends the decimal notation of `value` to `out`.
pub fn push_decimal(out: &mut String, value: i64)
    ensures
        final(out)@ == old(out)@ + decimal(value as int),
{
    if value < 0 {
        out.push('-');
        let magnitude: u64 = (-(value as i128)) as u64;
        push_decimal_digits(out, magnitude);
    } else {
        push_decimal_digits(out, value as u64);
    }
}

} // verus!

//! Text building blocks: string comparison and decimal notation.

use vstd::prelude::*;

verus! {

/// `str`'s `==` from the standard library: two strings are equal exactly
/// when they hold the same characters in the same order.
#[verifier::external_body]
pub(crate) fn str_eq(a: &str, b: &str) -> (same: bool)
    ensures
        same == (a@ == b@),
{
    a == b
}

/// `String::push` from the standard library: the character is appended at
/// the end and nothing else changes.
#[verifier::external_body]
pub(crate) fn push_char(text: &mut String, c: char)
    ensures
        final(text)@ == old(text)@.push(c),
{
    text.push(c)
}

/// The views of a sequence of strings, in order.
pub open spec fn string_views(strings: Seq<String>) -> Seq<Seq<char>> {
    strings.map_values(|s: String| s@)
}

/// The character that writes the digit `d`.
pub open spec fn digit_char(d: int) -> char {
    seq!['0', '1', '2', '3', '4', '5', '6', '7', '8', '9'][d]
}

/// Decimal notation of `n`, without leading zeros.
pub open spec fn decimal(n: nat) -> Seq<char>
    decreases n,
{
    if n < 10 {
        seq![digit_char(n as int)]
    } else {
        decimal(n / 10).push(digit_char((n % 10) as int))
    }
}

/// Decimal notation of `v` hundredths: a minus sign where `v` is negative,
/// the whole part, a point, and exactly two decimals.
pub open spec fn hundredths(v: int) -> Seq<char> {
    let size = if v < 0 {
        -v
    } else {
        v
    };
    let digits = decimal((size / 100) as nat) + seq![
        '.',
        digit_char(size % 100 / 10),
        digit_char(size % 10),
    ];
    if v < 0 {
        seq!['-'] + digits
    } else {
        digits
    }
}

/// The character for one decimal digit.
pub fn digit(d: u8) -> (c: char)
    requires
        d < 10,
    ensures
        c == digit_char(d as int),
{
    match d {
        0 => '0',
        1 => '1',
        2 => '2',
        3 => '3',
        4 => '4',
        5 => '5',
        6 => '6',
        7 => '7',
        8 => '8',
        _ => '9',
    }
}

/// Appends the decimal notation of `n` to `text`.
pub fn push_decimal(text: &mut String, n: u64)
    ensures
        final(text)@ == old(text)@ + decimal(n as nat),
    decreases n,
{
    if n >= 10 {
        push_decimal(text, n / 10);
    }
    push_char(text, digit((n % 10) as u8));
    assert(text@ =~= old(text)@ + decimal(n as nat));
}

/// Appends `v` hundredths in decimal notation with two decimals to `text`.
pub fn push_hundredths(text: &mut String, v: i64)
    ensures
        final(text)@ == old(text)@ + hundredths(v as int),
{
    if v < 0 {
        push_char(text, '-');
    }
    let size: u64 = if v < 0 {
        (-(v as i128)) as u64
    } else {
        v as u64
    };
    push_decimal(text, size / 100);
    push_char(text, '.');
    push_char(text, digit((size % 100 / 10) as u8));
    push_char(text, digit((size % 10) as u8));
    assert(text@ =~= old(text)@ + hundredths(v as int));
}

/// Decimal notation of `n`.
pub fn format_decimal(n: u64) -> (text: String)
    ensures
        text@ == decimal(n as nat),
{
    let mut text = String::new();
    push_decimal(&mut text, n);
    assert(text@ =~= decimal(n as nat));
    text
}

/// Decimal notation of `v` hundredths, with two decimals.
pub fn format_hundredths(v: i64) -> (text: String)
    ensures
        text@ == hundredths(v as int),
{
    let mut text = String::new();
    push_hundredths(&mut text, v);
    assert(text@ =~= hundredths(v as int));
    text
}

} // verus!

//! Numbers as text.

use vstd::prelude::*;
use vstd::string::*;

verus! {

/// The character of the decimal digit `digit`.
pub open spec fn spec_digit_char(digit: nat) -> char {
    if digit == 0 {
        '0'
    } else if digit == 1 {
        '1'
    } else if digit == 2 {
        '2'
    } else if digit == 3 {
        '3'
    } else if digit == 4 {
        '4'
    } else if digit == 5 {
        '5'
    } else if digit == 6 {
        '6'
    } else if digit == 7 {
        '7'
    } else if digit == 8 {
        '8'
    } else {
        '9'
    }
}

/// `n` in decimal digits, without leading zeros.
pub open spec fn spec_decimal(n: nat) -> Seq<char>
    decreases n,
{
    if n < 10 {
        seq![spec_digit_char(n)]
    } else {
        spec_decimal(n / 10).push(spec_digit_char(n % 10))
    }
}

/// The three decimal digits of `n`, which is below 1000.
pub open spec fn spec_three_digits(n: nat) -> Seq<char> {
    seq![spec_digit_char(n / 100), spec_digit_char(n / 10 % 10), spec_digit_char(n % 10)]
}

/// `n` in decimal digits, with a comma before every group of three digits
/// but the first.
pub open spec fn spec_number_with_commas(n: nat) -> Seq<char>
    decreases n,
{
    if n < 1000 {
        spec_decimal(n)
    } else {
        spec_number_with_commas(n / 1000) + seq![','] + spec_three_digits(n % 1000)
    }
}

/// The decimal digit `digit` as text.
fn digit_str(digit: usize) -> (text: &'static str)
    requires
        digit < 10,
    ensures
        text@ == seq![spec_digit_char(digit as nat)],
{
    proof {
        reveal_strlit("0");
        reveal_strlit("1");
        reveal_strlit("2");
        reveal_strlit("3");
        reveal_strlit("4");
        reveal_strlit("5");
        reveal_strlit("6");
        reveal_strlit("7");
        reveal_strlit("8");
        reveal_strlit("9");
    }
    let text: &'static str = if digit == 0 {
        "0"
    } else if digit == 1 {
        "1"
    } else if digit == 2 {
        "2"
    } else if digit == 3 {
        "3"
    } else if digit == 4 {
        "4"
    } else if digit == 5 {
        "5"
    } else if digit == 6 {
        "6"
    } else if digit == 7 {
        "7"
    } else if digit == 8 {
        "8"
    } else {
        "9"
    };
    assert(text@ =~= seq![spec_digit_char(digit as nat)]);
    text
}

/// Appends `n` in decimal digits to `text`.
pub fn push_decimal(text: &mut String, n: usize)
    ensures
        final(text)@ == old(text)@ + spec_decimal(n as nat),
    decreases n,
{
    if n >= 10 {
        push_decimal(text, n / 10);
    }
    let ghost before = text@;
    text.append(digit_str(n % 10));
    assert(text@ =~= old(text)@ + spec_decimal(n as nat));
}

/// Appends `n` to `text`, with commas between its groups of three digits.
pub fn push_number_with_commas(text: &mut String, n: usize)
    ensures
        final(text)@ == old(text)@ + spec_number_with_commas(n as nat),
    decreases n,
{
    if n < 1000 {
        push_decimal(text, n);
    } else {
        push_number_with_commas(text, n / 1000);
        proof {
            reveal_strlit(",");
        }
        text.append(",");
        let group: usize = n % 1000;
        text.append(digit_str(group / 100));
        text.append(digit_str(group / 10 % 10));
        text.append(digit_str(group % 10));
        assert(text@ =~= old(text)@ + spec_number_with_commas(n as nat));
    }
}

/// `n` in decimal digits.
pub fn decimal_string(n: usize) -> (text: String)
    ensures
        text@ == spec_decimal(n as nat),
{
    let mut text = String::new();
    push_decimal(&mut text, n);
    assert(text@ =~= spec_decimal(n as nat));
    text
}

/// `n` with a comma between its groups of three digits: `1234567` becomes
/// `1,234,567`.
pub fn format_number_with_commas(n: usize) -> (text: String)
    ensures
        text@ == spec_number_with_commas(n as nat),
{
    let mut text = String::new();
    push_number_with_commas(&mut text, n);
    assert(text@ =~= spec_number_with_commas(n as nat));
    text
}

} // verus!

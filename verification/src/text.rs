//! Numbers as decimal text.

use vstd::prelude::*;

verus! {

/// `String::push` appends the given character to the end of the string.
pub assume_specification[ String::push ](s: &mut String, c: char)
    ensures
        final(s)@ == old(s)@.push(c),
;

/// The character of the decimal digit `d`.
pub open spec fn digit(d: int) -> char {
    ('0' as int + d) as char
}

/// The decimal numeral of a natural number, without leading zeros.
pub open spec fn digits(n: nat) -> Seq<char>
    decreases n,
{
    if n < 10 {
        seq![digit(n as int)]
    } else {
        digits(n / 10).push(digit(n as int % 10))
    }
}

/// The decimal numeral of an integer: a minus sign in front of a negative
/// one.
pub open spec fn numeral(n: int) -> Seq<char> {
    if n < 0 {
        seq!['-'] + digits((-n) as nat)
    } else {
        digits(n as nat)
    }
}

/// The character of a decimal digit.
pub fn digit_char(d: u8) -> (c: char)
    requires
        d < 10,
    ensures
        c == digit(d as int),
{
    (48u8 + d) as char
}

/// Appends the decimal numeral of `n` to `string`.
pub fn push_digits(string: &mut String, n: u32)
    ensures
        final(string)@ == old(string)@ + digits(n as nat),
    decreases n,
{
    if n >= 10 {
        push_digits(string, n / 10);
    }
    string.push(digit_char((n % 10) as u8));
}

/// Appends the decimal numeral of `n` to `string`.
pub fn push_numeral(string: &mut String, n: i16)
    ensures
        final(string)@ == old(string)@ + numeral(n as int),
{
    if n < 0 {
        string.push('-');
        push_digits(string, (-(n as i32)) as u32);
    } else {
        push_digits(string, n as u32);
    }
}

} // verus!

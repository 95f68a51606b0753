//! Decimal digits and the decimal representation of numbers.
use vstd::prelude::*;

verus! {

/// The decimal digit `d` as a character.
pub open spec fn digit_char(d: int) -> char {
    if d == 0 {
        '0'
    } else if d == 1 {
        '1'
    } else if d == 2 {
        '2'
    } else if d == 3 {
        '3'
    } else if d == 4 {
        '4'
    } else if d == 5 {
        '5'
    } else if d == 6 {
        '6'
    } else if d == 7 {
        '7'
    } else if d == 8 {
        '8'
    } else {
        '9'
    }
}

/// The decimal digit `d` as a character.
pub fn from_digit(d: u16) -> (r: char)
    requires
        d < 10,
    ensures
        r == digit_char(d as int),
        r as u32 == '0' as u32 + d,
{
    proof {
        law_digit_char(d as int);
    }
    match d {
        0 => '0',
        1 => '1',
        2 => '2',
        3 => '3',
        4 => '4',
        5 => '5',
        6 => '6',
        7 => '7',
        8 => '8',
        _ => '9',
    }
}

/// Law: the character of a decimal digit `d` is the `d`-th character after
/// `'0'`, so the ten digits are `'0'` to `'9'` in order.
pub proof fn law_digit_char(d: int)
    requires
        0 <= d < 10,
    ensures
        digit_char(d) as int == '0' as int + d,
        '0' <= digit_char(d) <= '9',
{
}

/// The decimal representation of `n`: its digits, most significant first,
/// without leading zeros; `0` is written as one digit.
pub open spec fn decimal(n: nat) -> Seq<char>
    decreases n,
{
    if n < 10 {
        seq![digit_char(n as int)]
    } else {
        decimal(n / 10).push(digit_char((n % 10) as int))
    }
}

/// Formats `n` in decimal with the `itoa` crate: `Buffer::format` prints an
/// integer into the buffer and returns its string representation, which is
/// its decimal digits without leading zeros (a single `0` for zero).
#[verifier::external_body]
fn format_decimal(n: usize) -> (s: String)
    ensures
        s@ == decimal(n as nat),
{
    let mut buffer = itoa::Buffer::new();
    buffer.format(n).to_string()
}

/// The decimal representation of a process id, as a program prints it.
pub fn pid_text(pid: usize) -> (r: String)
    ensures
        r@ == decimal(pid as nat),
{
    format_decimal(pid)
}

} // verus!

//! Building the human-readable parts of error values.

use vstd::prelude::*;

verus! {

/// The ASCII digit for `d` (which is below 10).
pub open spec fn digit_char(d: nat) -> char {
    ((d + 48) as u8) as char
}

/// The decimal representation of `n`, most significant digit first, without leading zeros.
pub open spec fn decimal(n: nat) -> Seq<char>
    decreases n,
{
    if n < 10 {
        seq![digit_char(n)]
    } else {
        decimal(n / 10).push(digit_char(n % 10))
    }
}

/// Appends `t` to `s` (`String::push_str`).
#[verifier::external_body]
pub(crate) fn push_str(s: &mut String, t: &str)
    ensures
        final(s)@ == old(s)@ + t@,
{
    s.push_str(t);
}

/// Appends `c` to `s` (`String::push`).
#[verifier::external_body]
pub(crate) fn push_char(s: &mut String, c: char)
    ensures
        final(s)@ == old(s)@.push(c),
{
    s.push(c);
}

fn digit(d: u64) -> (c: char)
    requires
        d < 10,
    ensures
        c == digit_char(d as nat),
{
    let b: u8 = (d as u8) + 48u8;
    b as char
}

/// Appends the decimal representation of `n` to `s`.
pub fn push_decimal(s: &mut String, n: u64)
    ensures
        final(s)@ == old(s)@ + decimal(n as nat),
    decreases n,
{
    if n >= 10 {
        push_decimal(s, n / 10);
        push_char(s, digit(n % 10));
        assert(decimal(n as nat) == decimal((n / 10) as nat).push(digit_char((n % 10) as nat)));
    } else {
        push_char(s, digit(n));
    }
}

/// The text `prefix` followed by the decimal form of `n`.
pub fn text_with_number(prefix: &str, n: u64) -> (s: String)
    ensures
        s@ == prefix@ + decimal(n as nat),
{
    let mut s = prefix.to_owned();
    push_decimal(&mut s, n);
    s
}

/// The text `"window: {window}, data: {data}"`.
pub fn window_data_text(window: u64, data: u64) -> (s: String)
    ensures
        s@ == "window: "@ + decimal(window as nat) + ", data: "@ + decimal(data as nat),
{
    let mut s = text_with_number("window: ", window);
    push_str(&mut s, ", data: ");
    push_decimal(&mut s, data);
    s
}

/// The text `"window overflow: {window} + {increment}"`.
pub fn window_overflow_text(window: u64, increment: u64) -> (s: String)
    ensures
        s@ == "window overflow: "@ + decimal(window as nat) + " + "@ + decimal(increment as nat),
{
    let mut s = text_with_number("window overflow: ", window);
    push_str(&mut s, " + ");
    push_decimal(&mut s, increment);
    s
}

} // verus!

//! Numbers in decimal.
use crate::text;
use vstd::prelude::*;

verus! {

/// The digit character of a number below ten.
pub open spec fn digit_char(n: nat) -> char {
    (n + 48) as char
}

/// A number written in decimal, without leading zeros.
pub open spec fn decimal(n: nat) -> Seq<char>
    decreases n,
{
    if n < 10 {
        seq![digit_char(n)]
    } else {
        decimal(n / 10).push(digit_char(n % 10))
    }
}

/// Writes a number in decimal.
pub fn decimal_chars(n: u128) -> (result: Vec<char>)
    ensures
        result@ == decimal(n as nat),
    decreases n,
{
    if n < 10 {
        let code: u8 = n as u8 + 48;
        let mut out: Vec<char> = Vec::new();
        out.push(code as char);
        assert(out@ =~= seq![digit_char(n as nat)]);
        out
    } else {
        let code: u8 = (n % 10) as u8 + 48;
        let mut out = decimal_chars(n / 10);
        out.push(code as char);
        out
    }
}

/// Writes a number in decimal, as a string.
pub fn decimal_string(n: u128) -> (result: String)
    ensures
        result@ == decimal(n as nat),
{
    text::string_of(decimal_chars(n).as_slice())
}

/// A number in decimal, with a sign where it is negative.
pub open spec fn signed(n: int) -> Seq<char> {
    if n < 0 {
        "-"@ + decimal((-n) as nat)
    } else {
        decimal(n as nat)
    }
}

/// Writes a number in decimal, with a sign where it is negative.
pub fn signed_string(n: i32) -> (result: String)
    ensures
        result@ == signed(n as int),
{
    let wide: i64 = n as i64;
    if wide < 0 {
        let size: i64 = -wide;
        text::concat("-", decimal_string(size as u128).as_str())
    } else {
        decimal_string(wide as u128)
    }
}

} // verus!

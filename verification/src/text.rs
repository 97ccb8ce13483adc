//! Numbers said the way a person reads them, built without any formatting
//! machinery so that what a line says can be stated exactly.

use vstd::prelude::*;

verus! {

/// The character for one decimal digit.
pub open spec fn spec_digit(d: int) -> char {
    if d == 0 { '0' }
    else if d == 1 { '1' }
    else if d == 2 { '2' }
    else if d == 3 { '3' }
    else if d == 4 { '4' }
    else if d == 5 { '5' }
    else if d == 6 { '6' }
    else if d == 7 { '7' }
    else if d == 8 { '8' }
    else { '9' }
}

/// The decimal digits of `n`, most significant first, with no leading zero.
pub open spec fn spec_digits(n: nat) -> Seq<char>
    decreases n,
{
    if n < 10 {
        seq![spec_digit(n as int)]
    } else {
        spec_digits(n / 10).push(spec_digit((n % 10) as int))
    }
}

/// An integer in decimal, with a leading minus sign when it is negative.
pub open spec fn spec_int_text(n: int) -> Seq<char> {
    if n < 0 {
        seq!['-'] + spec_digits((-n) as nat)
    } else {
        spec_digits(n as nat)
    }
}

/// The text of one digit.
pub fn digit_str(d: u64) -> (r: &'static str)
    requires
        d < 10,
    ensures
        r@ == seq![spec_digit(d as int)],
{
    proof {
        reveal_strlit("0");
        reveal_strlit("1");
        reveal_strlit("2");
        reveal_strlit("3");
        reveal_strlit("4");
        reveal_strlit("5");
        reveal_strlit("6");
        reveal_strlit("7");
        reveal_strlit("8");
        reveal_strlit("9");
    }
    if d == 0 { "0" }
    else if d == 1 { "1" }
    else if d == 2 { "2" }
    else if d == 3 { "3" }
    else if d == 4 { "4" }
    else if d == 5 { "5" }
    else if d == 6 { "6" }
    else if d == 7 { "7" }
    else if d == 8 { "8" }
    else { "9" }
}

/// Append the decimal digits of `n` to `s`.
pub fn push_digits(s: &mut String, n: u64)
    ensures
        final(s)@ == old(s)@ + spec_digits(n as nat),
    decreases n,
{
    if n >= 10 {
        push_digits(s, n / 10);
    }
    let d = digit_str(n % 10);
    s.append(d);
    proof {
        if n >= 10 {
            assert(spec_digits(n as nat) == spec_digits((n / 10) as nat).push(spec_digit((n % 10) as int)));
        }
    }
}

/// An integer in decimal.
pub fn int_text(n: i64) -> (r: String)
    ensures
        r@ == spec_int_text(n as int),
{
    let mut s = String::new();
    if n < 0 {
        s.append("-");
        proof { reveal_strlit("-"); }
        let m: u64 = ((-(n + 1)) as u64) + 1;
        push_digits(&mut s, m);
    } else {
        push_digits(&mut s, n as u64);
    }
    s
}


/// Calls `String::push`. Claimed of it, as std documents: the string
/// afterwards is the string before with `c` appended.
#[verifier::external_body]
pub(crate) fn push_char(s: &mut String, c: char)
    ensures
        final(s)@ == old(s)@.push(c),
{
    s.push(c);
}

/// Two digits, zero-padded: `v` in 0..=99.
pub open spec fn spec_pad2(v: int) -> Seq<char> {
    seq![spec_digit(v / 10), spec_digit(v % 10)]
}

/// Three digits, zero-padded: `v` in 0..=999.
pub open spec fn spec_pad3(v: int) -> Seq<char> {
    seq![spec_digit(v / 100), spec_digit((v / 10) % 10), spec_digit(v % 10)]
}

/// Append `v` (below a hundred) as two zero-padded digits.
pub fn push_pad2(s: &mut String, v: u64)
    requires
        v < 100,
    ensures
        final(s)@ == old(s)@ + spec_pad2(v as int),
{
    s.append(digit_str(v / 10));
    s.append(digit_str(v % 10));
}

/// Append `v` (below a thousand) as three zero-padded digits.
pub fn push_pad3(s: &mut String, v: u64)
    requires
        v < 1000,
    ensures
        final(s)@ == old(s)@ + spec_pad3(v as int),
{
    s.append(digit_str(v / 100));
    s.append(digit_str((v / 10) % 10));
    s.append(digit_str(v % 10));
}

} // verus!

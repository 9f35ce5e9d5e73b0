//! Decimal formatting of integers.
use vstd::prelude::*;
use vstd::string::*;
use crate::text::push_char;

verus! {

/// The character of a decimal digit.
pub open spec fn digit(d: nat) -> char {
    if d == 0 { '0' } else if d == 1 { '1' } else if d == 2 { '2' } else if d == 3 { '3' } else if d == 4 { '4' }
    else if d == 5 { '5' } else if d == 6 { '6' } else if d == 7 { '7' } else if d == 8 { '8' } else { '9' }
}

/// The decimal representation of `n`, without leading zeros.
pub open spec fn dec(n: nat) -> Seq<char>
    decreases n,
{
    if n < 10 {
        seq![digit(n)]
    } else {
        dec(n / 10).push(digit(n % 10))
    }
}

fn digit_char(d: u64) -> (r: char)
    requires
        d < 10,
    ensures
        r == digit(d as nat),
{
    if d == 0 { '0' } else if d == 1 { '1' } else if d == 2 { '2' } else if d == 3 { '3' } else if d == 4 { '4' }
    else if d == 5 { '5' } else if d == 6 { '6' } else if d == 7 { '7' } else if d == 8 { '8' } else { '9' }
}

/// The decimal representation of `n`.
pub fn u64_str(n: u64) -> (r: String)
    ensures
        r@ == dec(n as nat),
    decreases n,
{
    if n < 10 {
        let mut s = String::new();
        push_char(&mut s, digit_char(n));
        assert(s@ =~= seq![digit(n as nat)]);
        s
    } else {
        let mut s = u64_str(n / 10);
        push_char(&mut s, digit_char(n % 10));
        s
    }
}

/// The decimal representation of `n`.
pub fn u128_str(n: u128) -> (r: String)
    ensures
        r@ == dec(n as nat),
    decreases n,
{
    if n < 10 {
        let mut s = String::new();
        push_char(&mut s, digit_char(n as u64));
        assert(s@ =~= seq![digit(n as nat)]);
        s
    } else {
        let mut s = u128_str(n / 10);
        push_char(&mut s, digit_char((n % 10) as u64));
        s
    }
}

/// The decimal representation of `n`.
pub fn usize_str(n: usize) -> (r: String)
    ensures
        r@ == dec(n as nat),
{
    u64_str(n as u64)
}

/// `n` padded on the left with zeros to `width` digits.
pub open spec fn dec_padded(n: nat, width: nat) -> Seq<char>
    decreases width,
{
    if dec(n).len() >= width {
        dec(n)
    } else {
        seq!['0'] + dec_padded(n, (width - 1) as nat)
    }
}

/// The decimal representation of `n`, zero-padded to `width` digits.
pub fn u64_str_padded(n: u64, width: usize) -> (r: String)
    ensures
        r@ == dec_padded(n as nat, width as nat),
    decreases width,
{
    let s = u64_str(n);
    if s.unicode_len() >= width {
        s
    } else {
        let rest = u64_str_padded(n, width - 1);
        let mut out = String::new();
        push_char(&mut out, '0');
        out.append(rest.as_str());
        assert(out@ =~= seq!['0'] + rest@);
        out
    }
}

} // verus!

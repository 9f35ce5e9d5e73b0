//! The elapsed-time line of a report.
use vstd::prelude::*;
use vstd::string::*;
use crate::fmt::{dec, dec_padded, u128_str, u64_str_padded};

verus! {

/// `10` to the power `p`.
pub open spec fn pow10(p: nat) -> nat
    decreases p,
{
    if p == 0 { 1 } else { 10 * pow10((p - 1) as nat) }
}

/// `n / d` rounded to the nearest integer, halves rounded up.
pub open spec fn round_div(n: nat, d: nat) -> nat {
    (n + d / 2) / d
}

/// `n / 10^places` written with `places` decimals.
pub open spec fn fixed(n: nat, places: nat) -> Seq<char> {
    dec(n / pow10(places)) + "."@ + dec_padded(n % pow10(places), places)
}

/// The short form of a duration of `nanos` nanoseconds: seconds, then
/// milliseconds, then microseconds with three decimals, then whole
/// nanoseconds.
pub open spec fn compact_duration(nanos: nat) -> Seq<char> {
    if nanos >= 1_000_000_000 {
        fixed(round_div(nanos, 1_000_000), 3) + " s"@
    } else if nanos >= 1_000_000 {
        fixed(round_div(nanos, 1_000), 3) + " ms"@
    } else if nanos >= 1_000 {
        fixed(nanos, 3) + " us"@
    } else {
        dec(nanos) + " ns"@
    }
}

/// The elapsed-time line: the short form and the seconds with six decimals.
pub open spec fn elapsed_line(nanos: nat) -> Seq<char> {
    "Elapsed: "@ + compact_duration(nanos) + " ("@ + fixed(round_div(nanos, 1_000), 6) + " s)"@
}

/// `n / 10^places` written with `places` decimals.
fn fixed_point(n: u128, places: u32) -> (r: String)
    requires
        places == 3 || places == 6,
    ensures
        r@ == fixed(n as nat, places as nat),
{
    let p: u128 = if places == 3 { 1000 } else { 1_000_000 };
    assert(pow10(3) == 1000 && pow10(6) == 1_000_000) by {
        reveal_with_fuel(pow10, 7);
    }
    let mut s = u128_str(n / p);
    s.append(".");
    let frac = u64_str_padded((n % p) as u64, places as usize);
    s.append(frac.as_str());
    s
}

/// The short form of a duration of `nanos` nanoseconds.
fn format_compact_duration(nanos: u128) -> (r: String)
    ensures
        r@ == compact_duration(nanos as nat),
{
    let mut s;
    if nanos >= 1_000_000_000 {
        s = fixed_point((nanos / 500_000 + 1) / 2, 3);
        assert((nanos / 500_000 + 1) / 2 == round_div(nanos as nat, 1_000_000));
        s.append(" s");
    } else if nanos >= 1_000_000 {
        s = fixed_point((nanos / 500 + 1) / 2, 3);
        assert((nanos / 500 + 1) / 2 == round_div(nanos as nat, 1_000));
        s.append(" ms");
    } else if nanos >= 1_000 {
        s = fixed_point(nanos, 3);
        s.append(" us");
    } else {
        s = u128_str(nanos);
        s.append(" ns");
    }
    s
}

/// The elapsed-time line of a report for a duration of `elapsed_nanos`
/// nanoseconds, such as `Elapsed: 1.234 s (1.234000 s)`.
pub fn render_elapsed_line(elapsed_nanos: u128) -> (r: String)
    ensures
        r@ == elapsed_line(elapsed_nanos as nat),
{
    let mut s = "Elapsed: ".to_owned();
    s.append(format_compact_duration(elapsed_nanos).as_str());
    s.append(" (");
    let secs = fixed_point((elapsed_nanos / 500 + 1) / 2, 6);
    assert((elapsed_nanos / 500 + 1) / 2 == round_div(elapsed_nanos as nat, 1_000));
    s.append(secs.as_str());
    s.append(" s)");
    s
}

} // verus!

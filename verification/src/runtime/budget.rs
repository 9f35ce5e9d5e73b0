//! Token budgets written as integers with an optional `k` or `m` suffix.
use vstd::prelude::*;
use vstd::string::*;
use crate::strops::{is_ws, lead_len, trail_len, trim, trim_spec, ws_class};
use crate::text::{chars_of, string_from_chars};

verus! {

/// Why a text is not an unsigned 64-bit integer.
#[derive(Debug, Clone, Copy, PartialEq, Eq)]
pub enum IntErrorKind {
    Empty,
    InvalidDigit,
    PosOverflow,
}

impl IntErrorKind {
    /// The standard wording of the error.
    pub open spec fn spec_message(self) -> Seq<char> {
        match self {
            IntErrorKind::Empty => "cannot parse integer from empty string"@,
            IntErrorKind::InvalidDigit => "invalid digit found in string"@,
            IntErrorKind::PosOverflow => "number too large to fit in target type"@,
        }
    }

    /// The standard wording of the error.
    pub fn message(self) -> (r: String)
        ensures
            r@ == self.spec_message(),
    {
        proof {
            reveal_strlit("cannot parse integer from empty string");
            reveal_strlit("invalid digit found in string");
            reveal_strlit("number too large to fit in target type");
        }
        match self {
            IntErrorKind::Empty => "cannot parse integer from empty string".to_owned(),
            IntErrorKind::InvalidDigit => "invalid digit found in string".to_owned(),
            IntErrorKind::PosOverflow => "number too large to fit in target type".to_owned(),
        }
    }
}

pub open spec fn is_ascii_digit(c: char) -> bool {
    '0' <= c && c <= '9'
}

pub open spec fn digit_value(c: char) -> nat {
    (c as int - '0' as int) as nat
}

/// Digits read left to right onto `acc`, stopping at the first character that
/// is not a digit or that takes the value past `u64::MAX`.
pub open spec fn scan_digits(s: Seq<char>, acc: nat) -> Result<nat, IntErrorKind>
    decreases s.len(),
{
    if s.len() == 0 {
        Ok(acc)
    } else if !is_ascii_digit(s[0]) {
        Err(IntErrorKind::InvalidDigit)
    } else if acc * 10 + digit_value(s[0]) > u64::MAX {
        Err(IntErrorKind::PosOverflow)
    } else {
        scan_digits(s.drop_first(), acc * 10 + digit_value(s[0]))
    }
}

/// Reading `s` as an unsigned 64-bit integer: an optional `+` followed by
/// decimal digits.
pub open spec fn u64_from_text(s: Seq<char>) -> Result<nat, IntErrorKind> {
    if s.len() == 0 {
        Err(IntErrorKind::Empty)
    } else if s =~= seq!['+'] || s =~= seq!['-'] {
        Err(IntErrorKind::InvalidDigit)
    } else if s[0] == '+' {
        scan_digits(s.drop_first(), 0)
    } else {
        scan_digits(s, 0)
    }
}

proof fn lemma_scan_bounded(s: Seq<char>, acc: nat)
    requires
        acc <= u64::MAX,
    ensures
        scan_digits(s, acc) matches Ok(v) ==> v <= u64::MAX,
    decreases s.len(),
{
    if s.len() > 0 && is_ascii_digit(s[0]) && acc * 10 + digit_value(s[0]) <= u64::MAX {
        lemma_scan_bounded(s.drop_first(), acc * 10 + digit_value(s[0]));
    }
}

/// Reads `s` as an unsigned 64-bit integer.
pub fn parse_u64(s: &str) -> (r: Result<u64, IntErrorKind>)
    ensures
        match r {
            Ok(v) => u64_from_text(s@) == Ok::<nat, IntErrorKind>(v as nat),
            Err(e) => u64_from_text(s@) == Err::<nat, IntErrorKind>(e),
        },
{
    let cs = chars_of(s);
    let n = cs.len();
    if n == 0 {
        return Err(IntErrorKind::Empty);
    }
    if n == 1 && (cs[0] == '+' || cs[0] == '-') {
        assert(s@ =~= seq![cs@[0]]);
        return Err(IntErrorKind::InvalidDigit);
    }
    let mut i: usize = if cs[0] == '+' { 1 } else { 0 };
    let ghost d = if cs@[0] == '+' { cs@.drop_first() } else { cs@ };
    assert(!(s@ =~= seq!['+']) && !(s@ =~= seq!['-'])) by {
        if n == 1 {
            assert(s@[0] != '+' && s@[0] != '-');
        }
    }
    assert(d =~= cs@.skip(i as int));
    let mut acc: u64 = 0;
    while i < n
        invariant
            i <= n,
            n == cs@.len(),
            cs@ == s@,
            u64_from_text(s@) == scan_digits(cs@.skip(i as int), acc as nat),
        decreases n - i,
    {
        let c = cs[i];
        assert(cs@.skip(i as int)[0] == c);
        assert(cs@.skip(i as int).drop_first() =~= cs@.skip(i as int + 1));
        if !('0' <= c && c <= '9') {
            return Err(IntErrorKind::InvalidDigit);
        }
        let dv: u64 = (c as u32 - '0' as u32) as u64;
        assert(dv == digit_value(c));
        if acc > (u64::MAX - dv) / 10 {
            assert(acc * 10 + dv > u64::MAX) by (nonlinear_arith)
                requires acc > (u64::MAX - dv) / 10, dv <= 9;
            return Err(IntErrorKind::PosOverflow);
        }
        assert(acc * 10 + dv <= u64::MAX) by (nonlinear_arith)
            requires acc <= (u64::MAX - dv) / 10, dv <= 9;
        acc = acc * 10 + dv;
        i = i + 1;
    }
    assert(cs@.skip(i as int).len() == 0);
    Ok(acc)
}

/// `raw` trimmed, then split into its digits and the multiplier that a
/// trailing `k`/`K` (thousands) or `m`/`M` (millions) stands for.
pub open spec fn budget_parts(t: Seq<char>) -> (Seq<char>, nat) {
    if t.len() > 0 && (t.last() == 'k' || t.last() == 'K') {
        (t.drop_last(), 1000)
    } else if t.len() > 0 && (t.last() == 'm' || t.last() == 'M') {
        (t.drop_last(), 1000000)
    } else {
        (t, 1)
    }
}

/// What the command line makes of a token budget: the number of tokens, or
/// the error text.
pub open spec fn cli_budget(raw: Seq<char>) -> Result<nat, Seq<char>> {
    let t = trim_spec(raw);
    let (digits, mult) = budget_parts(t);
    if t.len() == 0 {
        Err("token budget cannot be empty"@)
    } else if digits.len() == 0 {
        Err("token budget must include digits"@)
    } else {
        match u64_from_text(digits) {
            Err(_) => Err("invalid token budget `"@ + raw + "`"@),
            Ok(v) => if v == 0 {
                Err("token budget must be greater than zero"@)
            } else if v * mult > u64::MAX {
                Err("token budget `"@ + raw + "` is too large"@)
            } else {
                Ok(v * mult)
            },
        }
    }
}

/// What a configuration file makes of a token budget written as text.
pub open spec fn config_budget(raw: Seq<char>) -> Result<nat, Seq<char>> {
    let t = trim_spec(raw);
    let (digits, mult) = budget_parts(t);
    if t.len() == 0 {
        Err("token budget must not be empty"@)
    } else {
        match u64_from_text(digits) {
            Err(e) => Err("failed to parse token budget `"@ + t + "` as a positive integer: "@ + e.spec_message()),
            Ok(v) => if v == 0 {
                Err("token budget must be greater than zero"@)
            } else if v * mult > u64::MAX {
                Err("token budget `"@ + t + "` exceeds the supported range"@)
            } else {
                Ok(v * mult)
            },
        }
    }
}

/// `t` without its last character.
fn drop_last_char(t: &str) -> (r: String)
    requires
        t@.len() > 0,
    ensures
        r@ == t@.drop_last(),
{
    let cs = chars_of(t);
    let r = string_from_chars(&cs, 0, cs.len() - 1);
    assert(r@ =~= t@.drop_last());
    r
}

/// The digits of a trimmed budget and its multiplier.
fn split_budget(t: &str) -> (r: (String, u64))
    ensures
        r.0@ == budget_parts(t@).0,
        r.1 as nat == budget_parts(t@).1,
{
    let cs = chars_of(t);
    let n = cs.len();
    if n > 0 && (cs[n - 1] == 'k' || cs[n - 1] == 'K') {
        (drop_last_char(t), 1000)
    } else if n > 0 && (cs[n - 1] == 'm' || cs[n - 1] == 'M') {
        (drop_last_char(t), 1000000)
    } else {
        (t.to_owned(), 1)
    }
}

/// `a`, `b` and `c` written one after another.
fn join3(a: &str, b: &str, c: &str) -> (r: String)
    ensures
        r@ == a@ + b@ + c@,
{
    let mut r = a.to_owned();
    r.append(b);
    r.append(c);
    r
}

/// Reads a token budget given on the command line, such as `128000`, `128k`
/// or `2M`.
pub fn parse_token_budget(raw_value: &str) -> (r: Result<u64, String>)
    ensures
        match r {
            Ok(v) => cli_budget(raw_value@) == Ok::<nat, Seq<char>>(v as nat),
            Err(e) => cli_budget(raw_value@) == Err::<nat, Seq<char>>(e@),
        },
{
    proof {
        reveal_strlit("token budget cannot be empty");
        reveal_strlit("token budget must include digits");
        reveal_strlit("token budget must be greater than zero");
    }
    let t = trim(raw_value);
    let (digits, mult) = split_budget(t.as_str());
    if t.as_str().is_empty() {
        return Err("token budget cannot be empty".to_owned());
    }
    if digits.as_str().is_empty() {
        return Err("token budget must include digits".to_owned());
    }
    match parse_u64(digits.as_str()) {
        Err(_) => Err(join3("invalid token budget `", raw_value, "`")),
        Ok(v) => {
            if v == 0 {
                Err("token budget must be greater than zero".to_owned())
            } else {
                match v.checked_mul(mult) {
                    Some(total) => Ok(total),
                    None => Err(join3("token budget `", raw_value, "` is too large")),
                }
            }
        },
    }
}

/// Reads a token budget written as text in a configuration file.
pub fn parse_config_budget(raw_budget: &str) -> (r: Result<u64, String>)
    ensures
        match r {
            Ok(v) => config_budget(raw_budget@) == Ok::<nat, Seq<char>>(v as nat),
            Err(e) => config_budget(raw_budget@) == Err::<nat, Seq<char>>(e@),
        },
{
    proof {
        reveal_strlit("token budget must not be empty");
        reveal_strlit("token budget must be greater than zero");
    }
    let t = trim(raw_budget);
    if t.as_str().is_empty() {
        return Err("token budget must not be empty".to_owned());
    }
    let (digits, mult) = split_budget(t.as_str());
    match parse_u64(digits.as_str()) {
        Err(e) => {
            let mut m = join3("failed to parse token budget `", t.as_str(), "` as a positive integer: ");
            m.append(e.message().as_str());
            Err(m)
        },
        Ok(v) => {
            if v == 0 {
                Err("token budget must be greater than zero".to_owned())
            } else {
                match v.checked_mul(mult) {
                    Some(total) => Ok(total),
                    None => Err(join3("token budget `", t.as_str(), "` exceeds the supported range")),
                }
            }
        },
    }
}

/// A token budget as a configuration file writes it: a number or a text.
#[derive(Debug, Clone, PartialEq, Eq)]
pub enum TokenBudgetValue {
    Integer(u64),
    String(String),
}

impl TokenBudgetValue {
    /// What a configuration file makes of this budget.
    pub open spec fn spec_parse(self) -> Result<nat, Seq<char>> {
        match self {
            TokenBudgetValue::Integer(v) => if v > 0 {
                Ok(v as nat)
            } else {
                Err("token budget must be greater than zero"@)
            },
            TokenBudgetValue::String(s) => config_budget(s@),
        }
    }

    /// The number of tokens, or why there is none.
    pub fn parse(self) -> (r: Result<u64, String>)
        ensures
            match r {
                Ok(v) => self.spec_parse() == Ok::<nat, Seq<char>>(v as nat),
                Err(e) => self.spec_parse() == Err::<nat, Seq<char>>(e@),
            },
    {
        proof { reveal_strlit("token budget must be greater than zero"); }
        match self {
            TokenBudgetValue::Integer(v) => if v > 0 {
                Ok(v)
            } else {
                Err("token budget must be greater than zero".to_owned())
            },
            TokenBudgetValue::String(s) => parse_config_budget(s.as_str()),
        }
    }
}

proof fn lemma_trim_unchanged(s: Seq<char>)
    requires
        s.len() > 0,
        !is_ws(s[0]),
        !is_ws(s.last()),
    ensures
        trim_spec(s) == s,
{
    assert(lead_len(s, ws_class()) == 0);
    assert(s.skip(0) =~= s);
    assert(trail_len(s, ws_class()) == 0);
    assert(s.take(s.len() as int) =~= s);
}

/// The command line and a configuration file accept the same budget texts,
/// and read the same number of tokens from each; only their error texts
/// differ.
pub proof fn law_budget_texts_agree(raw: Seq<char>)
    ensures
        cli_budget(raw) is Ok <==> config_budget(raw) is Ok,
        cli_budget(raw) is Ok ==> cli_budget(raw) == config_budget(raw),
{
}

/// A budget of digits means that many tokens; a `k` or `K` after them
/// multiplies it by a thousand, an `m` or `M` by a million, on the command
/// line and in a configuration file alike.
pub proof fn law_budget_suffixes(d: Seq<char>, v: nat)
    requires
        d.len() > 0,
        forall|i: int| 0 <= i < d.len() ==> is_ascii_digit(#[trigger] d[i]),
        u64_from_text(d) == Ok::<nat, IntErrorKind>(v),
        v > 0,
    ensures
        cli_budget(d) == Ok::<nat, Seq<char>>(v),
        config_budget(d) == Ok::<nat, Seq<char>>(v),
        v * 1000 <= u64::MAX ==> {
            &&& cli_budget(d + "k"@) == Ok::<nat, Seq<char>>(v * 1000)
            &&& cli_budget(d + "K"@) == Ok::<nat, Seq<char>>(v * 1000)
            &&& config_budget(d + "k"@) == Ok::<nat, Seq<char>>(v * 1000)
            &&& config_budget(d + "K"@) == Ok::<nat, Seq<char>>(v * 1000)
        },
        v * 1000000 <= u64::MAX ==> {
            &&& cli_budget(d + "m"@) == Ok::<nat, Seq<char>>(v * 1000000)
            &&& cli_budget(d + "M"@) == Ok::<nat, Seq<char>>(v * 1000000)
            &&& config_budget(d + "m"@) == Ok::<nat, Seq<char>>(v * 1000000)
            &&& config_budget(d + "M"@) == Ok::<nat, Seq<char>>(v * 1000000)
        },
{
    reveal_strlit("k");
    reveal_strlit("K");
    reveal_strlit("m");
    reveal_strlit("M");
    assert(is_ascii_digit(d[0]) && is_ascii_digit(d.last()));
    lemma_trim_unchanged(d);
    assert(budget_parts(d) == (d, 1nat));
    assert(d[0] != '+' && d[0] != '-');
    assert(!(d =~= seq!['+']) && !(d =~= seq!['-']));
    lemma_scan_bounded(d, 0);
    assert(v <= u64::MAX);
    assert(v * 1 == v);
    let sfx = seq!['k', 'K', 'm', 'M'];
    assert forall|c: char| sfx.contains(c) implies ({
        let t = d + seq![c];
        &&& trim_spec(t) == t
        &&& t.drop_last() == d
    }) by {
        let t = d + seq![c];
        assert(t[0] == d[0]);
        assert(t.last() == c);
        lemma_trim_unchanged(t);
        assert(t.drop_last() =~= d);
    }
    assert(sfx.contains('k') && sfx.contains('K') && sfx.contains('m') && sfx.contains('M')) by {
        assert(sfx[0] == 'k' && sfx[1] == 'K' && sfx[2] == 'm' && sfx[3] == 'M');
    }
    assert("k"@ =~= seq!['k']);
    assert("K"@ =~= seq!['K']);
    assert("m"@ =~= seq!['m']);
    assert("M"@ =~= seq!['M']);
}

} // verus!

//! Token budgets and token estimates.
use vstd::prelude::*;

verus! {

/// A total token budget split into a metadata share (a tenth, rounded up)
/// and the rest for excerpts.
#[derive(Debug, Clone, Copy)]
pub struct ContextBudget {
    pub total: u64,
    pub metadata: u64,
    pub excerpts: u64,
}

/// `ceil(a / b)`.
pub open spec fn div_ceil(a: nat, b: nat) -> nat {
    if b == 0 {
        0
    } else {
        ((a + b - 1) / (b as int)) as nat
    }
}

pub fn u64_div_ceil(a: u64, b: u64) -> (r: u64)
    requires
        b > 0,
    ensures
        r == div_ceil(a as nat, b as nat),
{
    let q = a / b;
    if a % b == 0 {
        proof {
            assert((a + b - 1) / (b as int) == q) by (nonlinear_arith)
                requires a % b == 0, q == a / b, b > 0;
        }
        q
    } else {
        proof {
            assert((a + b - 1) / (b as int) == q + 1) by (nonlinear_arith)
                requires a % b != 0, q == a / b, b > 0;
            assert(q < a) by (nonlinear_arith) requires q == a / b, b > 0, a % b != 0;
        }
        q + 1
    }
}

impl ContextBudget {
    /// Splits `total_tokens`: metadata gets `ceil(total / 10)`, excerpts the rest.
    pub fn new(total_tokens: u64) -> (r: Self)
        ensures
            r.total == total_tokens,
            r.metadata == div_ceil(total_tokens as nat, 10),
            r.excerpts == total_tokens - div_ceil(total_tokens as nat, 10),
            r.metadata + r.excerpts == r.total,
    {
        let metadata = u64_div_ceil(total_tokens, 10);
        proof {
            assert(div_ceil(total_tokens as nat, 10) <= total_tokens) by (nonlinear_arith)
                requires true;
        }
        ContextBudget { total: total_tokens, metadata, excerpts: total_tokens - metadata }
    }

    pub fn total_tokens(self) -> (r: u64)
        ensures
            r == self.total,
    {
        self.total
    }

    pub fn metadata_tokens(self) -> (r: u64)
        ensures
            r == self.metadata,
    {
        self.metadata
    }

    pub fn excerpt_tokens(self) -> (r: u64)
        ensures
            r == self.excerpts,
    {
        self.excerpts
    }
}

/// About four bytes per token, and at least one token.
pub open spec fn tokens_for_bytes(bytes: nat) -> nat {
    if bytes == 0 {
        1
    } else {
        div_ceil(bytes, 4)
    }
}

/// The token estimate of `bytes` bytes of text.
pub fn estimate_tokens_from_bytes(bytes: u64) -> (r: u64)
    ensures
        r == tokens_for_bytes(bytes as nat),
        r >= 1,
        r <= bytes || bytes == 0,
{
    if bytes == 0 {
        1
    } else {
        let r = u64_div_ceil(bytes, 4);
        proof {
            assert(div_ceil(bytes as nat, 4) >= 1 && div_ceil(bytes as nat, 4) <= bytes) by (nonlinear_arith)
                requires bytes > 0;
        }
        r
    }
}

/// The metadata estimate: 128 tokens, plus 16 per language, 24 per selected
/// file and 16 per focus path, capped at the reserved metadata budget.
pub open spec fn metadata_estimate(languages: nat, files: nat, focuses: nat, reserved: nat) -> nat {
    let e = 128 + 16 * languages + 24 * files + 16 * focuses;
    if e < reserved {
        e
    } else {
        reserved
    }
}

pub fn estimate_metadata_tokens(
    language_count: usize,
    selected_file_count: usize,
    focus_count: usize,
    reserved_tokens: u64,
) -> (r: u64)
    requires
        128 + 16 * language_count + 24 * selected_file_count + 16 * focus_count <= u64::MAX,
    ensures
        r == metadata_estimate(
            language_count as nat,
            selected_file_count as nat,
            focus_count as nat,
            reserved_tokens as nat,
        ),
{
    let estimated: u64 = 128 + 16 * (language_count as u64) + 24 * (selected_file_count as u64) + 16
        * (focus_count as u64);
    if estimated < reserved_tokens {
        estimated
    } else {
        reserved_tokens
    }
}

} // verus!

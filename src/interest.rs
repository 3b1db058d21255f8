//! Simple interest over ledger time, truncated toward zero.
use vstd::prelude::*;

verus! {

/// Seconds in the 365-day year that rates are quoted over.
pub const SECONDS_PER_YEAR: u64 = 31_536_000;

/// Basis points in one whole (100%).
pub const BPS_DENOMINATOR: u64 = 10_000;

/// `BPS_DENOMINATOR * SECONDS_PER_YEAR`: the divisor of the interest formula.
pub const INTEREST_DIVISOR: u128 = 315_360_000_000;

/// Interest owed on `principal` at `rate_bps` (annual, in basis points)
/// after `elapsed` seconds: `floor(principal * rate_bps * elapsed / (10000 * year))`.
pub open spec fn interest_owed(principal: u64, rate_bps: u32, elapsed: u64) -> nat {
    ((principal as nat) * (rate_bps as nat) * (elapsed as nat) / (INTEREST_DIVISOR as nat)) as nat
}

/// Principal plus the interest owed on it.
pub open spec fn repayment_owed(principal: u64, rate_bps: u32, elapsed: u64) -> nat {
    principal as nat + interest_owed(principal, rate_bps, elapsed)
}

/// Computes the interest owed, or `None` when it does not fit in 64 bits.
pub fn accrued_interest(principal: u64, rate_bps: u32, elapsed: u64) -> (r: Option<u64>)
    ensures
        r == (if interest_owed(principal, rate_bps, elapsed) <= u64::MAX {
            Some(interest_owed(principal, rate_bps, elapsed) as u64)
        } else {
            None::<u64>
        }),
{
    let p: u128 = principal as u128;
    let rate: u128 = rate_bps as u128;
    assert(p * rate <= 0xffff_ffff_ffff_ffffu128 * 0xffff_ffffu128) by (nonlinear_arith)
        requires
            p <= 0xffff_ffff_ffff_ffffu128,
            rate <= 0xffff_ffffu128,
    ;
    let pr: u128 = p * rate;
    match pr.checked_mul(elapsed as u128) {
        Some(product) => {
            let q: u128 = product / INTEREST_DIVISOR;
            if q <= u64::MAX as u128 {
                Some(q as u64)
            } else {
                None
            }
        },
        None => {
            proof {
                let x: int = pr as int * elapsed as int;
                let q: int = x / (INTEREST_DIVISOR as int);
                vstd::arithmetic::div_mod::lemma_fundamental_div_mod(x, INTEREST_DIVISOR as int);
                assert(x == INTEREST_DIVISOR as int * q + x % (INTEREST_DIVISOR as int));
                assert(x == (principal as nat) * (rate_bps as nat) * (elapsed as nat));
            }
            None
        },
    }
}

/// Principal plus accrued interest, or `None` when the sum does not fit in 64 bits.
pub fn repayment_amount(principal: u64, rate_bps: u32, elapsed: u64) -> (r: Option<u64>)
    ensures
        r == (if repayment_owed(principal, rate_bps, elapsed) <= u64::MAX {
            Some(repayment_owed(principal, rate_bps, elapsed) as u64)
        } else {
            None::<u64>
        }),
{
    match accrued_interest(principal, rate_bps, elapsed) {
        Some(interest) => principal.checked_add(interest),
        None => None,
    }
}

} // verus!

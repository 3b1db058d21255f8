//! Plain data of the ledger: identities, counters, loans, configuration, errors.
use vstd::prelude::*;

verus! {

/// Identity of a depositor, borrower, admin or asset.
pub type AccountId = u64;

/// Aggregate counters of the pool.
#[derive(Clone, Copy, Debug, PartialEq, Eq, Structural)]
pub struct PoolState {
    /// Principal credited to the pool, accrued interest included.
    pub total_deposits: u64,
    /// Shares outstanding over all depositors.
    pub total_shares: u64,
    /// Principal of all live loans.
    pub total_borrowed: u64,
}

/// The live loan of one borrower.
#[derive(Clone, Copy, Debug, PartialEq, Eq, Structural)]
pub struct Loan {
    pub borrower: AccountId,
    /// Principal drawn from the pool.
    pub amount: u64,
    /// Ledger time at origination, in seconds.
    pub start_time: u64,
}

/// Settings fixed once, at initialization.
#[derive(Clone, Copy, Debug, PartialEq, Eq, Structural)]
pub struct Config {
    pub admin: AccountId,
    pub asset: AccountId,
    /// Annual interest rate in basis points (10000 is 100%).
    pub rate_bps: u32,
}

/// Why an operation was refused; a refused operation changes nothing.
#[derive(Clone, Copy, Debug, PartialEq, Eq, Structural)]
pub enum LendingError {
    /// `initialize` was called on a pool that already has its configuration.
    AlreadyInitialized,
    /// An operation was called before `initialize`.
    NotInitialized,
    /// A zero amount or share count.
    InvalidAmount,
    /// A withdrawal of more shares than the depositor holds.
    InsufficientShares,
    /// A withdrawal or loan larger than the liquidity that is not lent out.
    InsufficientLiquidity,
    /// A loan requested by a borrower who already has a live one.
    LoanAlreadyExists,
    /// A repayment, or a quote for one, by a borrower with no live loan.
    NoActiveLoan,
    /// A counter or a repayment would not fit in 64 bits.
    Overflow,
}

} // verus!

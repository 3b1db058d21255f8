//! The pool's operations on an explicitly owned state.
use std::collections::HashMap;
use vstd::prelude::*;
use crate::interest::repayment_amount;
use crate::model::{
    LedgerView,
    initialize_result,
    deposit_result,
    withdraw_result,
    borrow_result,
    quote_result,
    repay_result,
    lemma_empty_inv,
    lemma_initialize_inv,
    lemma_deposit_inv,
    lemma_withdraw_inv,
    lemma_borrow_inv,
    lemma_repay_inv,
    lemma_entries_bounded,
    lemma_minted_at_most_amount,
    lemma_redeemed_bounds,
    lemma_product_fits,
};
use crate::types::{AccountId, Config, LendingError, Loan, PoolState};

verus! {

broadcast use vstd::std_specs::hash::group_hash_axioms;

/// A lending pool: configuration, counters, share ledger and loan ledger.
///
/// Each operation either commits a whole new state and returns `Ok`, or
/// returns `Err` and leaves the state as it was.
pub struct LendingContract {
    config: Option<Config>,
    pool: PoolState,
    shares: HashMap<AccountId, u64>,
    loans: HashMap<AccountId, Loan>,
}

impl View for LendingContract {
    type V = LedgerView;

    closed spec fn view(&self) -> LedgerView {
        LedgerView {
            config: self.config,
            pool: self.pool,
            shares: self.shares@,
            loans: self.loans@,
        }
    }
}

impl LendingContract {
    pub open spec fn wf(&self) -> bool {
        self@.inv()
    }

    /// A pool that waits for `initialize`.
    pub fn new() -> (r: LendingContract)
        ensures
            r@ == LedgerView::empty(),
            r.wf(),
    {
        proof {
            lemma_empty_inv();
        }
        let r = LendingContract {
            config: None,
            pool: PoolState { total_deposits: 0, total_shares: 0, total_borrowed: 0 },
            shares: HashMap::new(),
            loans: HashMap::new(),
        };
        assert(r@ =~= LedgerView::empty());
        r
    }

    /// Stores the admin, the asset and the annual rate; only the first call succeeds.
    pub fn initialize(&mut self, admin: AccountId, asset: AccountId, rate_bps: u32) -> (r: Result<
        (),
        LendingError,
    >)
        requires
            old(self).wf(),
        ensures
            final(self).wf(),
            match r {
                Ok(_) => initialize_result(old(self)@, admin, asset, rate_bps) == Ok::<
                    LedgerView,
                    LendingError,
                >(final(self)@),
                Err(e) => initialize_result(old(self)@, admin, asset, rate_bps) == Err::<
                    LedgerView,
                    LendingError,
                >(e) && final(self)@ == old(self)@,
            },
    {
        proof {
            lemma_initialize_inv(self@, admin, asset, rate_bps);
        }
        if self.config.is_some() {
            return Err(LendingError::AlreadyInitialized);
        }
        self.config = Some(Config { admin, asset, rate_bps });
        Ok(())
    }

    /// Share balance of `who`, held in the ledger or zero.
    fn balance_of(&self, who: AccountId) -> (r: u64)
        ensures
            r == self@.shares_of(who),
    {
        match self.shares.get(&who) {
            Some(b) => *b,
            None => 0,
        }
    }

    /// Takes `amount` into the pool for `depositor` and mints shares at the current price.
    pub fn deposit(&mut self, depositor: AccountId, amount: u64) -> (r: Result<u64, LendingError>)
        requires
            old(self).wf(),
        ensures
            final(self).wf(),
            match r {
                Ok(minted) => deposit_result(old(self)@, depositor, amount) == Ok::<
                    (LedgerView, u64),
                    LendingError,
                >((final(self)@, minted)),
                Err(e) => deposit_result(old(self)@, depositor, amount) == Err::<
                    (LedgerView, u64),
                    LendingError,
                >(e) && final(self)@ == old(self)@,
            },
    {
        proof {
            lemma_deposit_inv(self@, depositor, amount);
            lemma_minted_at_most_amount(self.pool, amount);
            lemma_entries_bounded(self@, depositor);
        }
        if self.config.is_none() {
            return Err(LendingError::NotInitialized);
        }
        if amount == 0 {
            return Err(LendingError::InvalidAmount);
        }
        let new_deposits = match self.pool.total_deposits.checked_add(amount) {
            Some(d) => d,
            None => return Err(LendingError::Overflow),
        };
        let minted: u64 = if self.pool.total_shares == 0 {
            amount
        } else {
            proof {
                lemma_product_fits(amount, self.pool.total_shares);
            }
            let scaled: u128 = amount as u128 * self.pool.total_shares as u128;
            (scaled / self.pool.total_deposits as u128) as u64
        };
        let balance = self.balance_of(depositor);
        self.shares.insert(depositor, balance + minted);
        self.pool = PoolState {
            total_deposits: new_deposits,
            total_shares: self.pool.total_shares + minted,
            total_borrowed: self.pool.total_borrowed,
        };
        Ok(minted)
    }

    /// Burns `shares` of `depositor` and pays out their value, within the liquidity not lent out.
    pub fn withdraw(&mut self, depositor: AccountId, shares: u64) -> (r: Result<u64, LendingError>)
        requires
            old(self).wf(),
        ensures
            final(self).wf(),
            match r {
                Ok(amount) => withdraw_result(old(self)@, depositor, shares) == Ok::<
                    (LedgerView, u64),
                    LendingError,
                >((final(self)@, amount)),
                Err(e) => withdraw_result(old(self)@, depositor, shares) == Err::<
                    (LedgerView, u64),
                    LendingError,
                >(e) && final(self)@ == old(self)@,
            },
    {
        proof {
            lemma_withdraw_inv(self@, depositor, shares);
            lemma_entries_bounded(self@, depositor);
        }
        if self.config.is_none() {
            return Err(LendingError::NotInitialized);
        }
        if shares == 0 {
            return Err(LendingError::InvalidAmount);
        }
        let balance = self.balance_of(depositor);
        if shares > balance {
            return Err(LendingError::InsufficientShares);
        }
        proof {
            lemma_redeemed_bounds(self.pool, shares);
            lemma_product_fits(shares, self.pool.total_deposits);
        }
        let scaled: u128 = shares as u128 * self.pool.total_deposits as u128;
        let amount: u64 = (scaled / self.pool.total_shares as u128) as u64;
        if amount > self.pool.total_deposits - self.pool.total_borrowed {
            return Err(LendingError::InsufficientLiquidity);
        }
        self.shares.insert(depositor, balance - shares);
        self.pool = PoolState {
            total_deposits: self.pool.total_deposits - amount,
            total_shares: self.pool.total_shares - shares,
            total_borrowed: self.pool.total_borrowed,
        };
        Ok(amount)
    }

    /// Opens a loan of `amount` for `borrower` at ledger time `now`.
    pub fn borrow(&mut self, borrower: AccountId, amount: u64, now: u64) -> (r: Result<
        u64,
        LendingError,
    >)
        requires
            old(self).wf(),
        ensures
            final(self).wf(),
            match r {
                Ok(disbursed) => borrow_result(old(self)@, borrower, amount, now) == Ok::<
                    (LedgerView, u64),
                    LendingError,
                >((final(self)@, disbursed)),
                Err(e) => borrow_result(old(self)@, borrower, amount, now) == Err::<
                    (LedgerView, u64),
                    LendingError,
                >(e) && final(self)@ == old(self)@,
            },
    {
        proof {
            lemma_borrow_inv(self@, borrower, amount, now);
        }
        if self.config.is_none() {
            return Err(LendingError::NotInitialized);
        }
        if self.loans.contains_key(&borrower) {
            return Err(LendingError::LoanAlreadyExists);
        }
        if amount == 0 {
            return Err(LendingError::InvalidAmount);
        }
        if amount > self.pool.total_deposits - self.pool.total_borrowed {
            return Err(LendingError::InsufficientLiquidity);
        }
        self.loans.insert(borrower, Loan { borrower, amount, start_time: now });
        self.pool = PoolState {
            total_borrowed: self.pool.total_borrowed + amount,
            ..self.pool
        };
        Ok(amount)
    }

    /// Principal plus interest that closing the loan of `borrower` at `now` costs.
    pub fn get_repayment_amount(&self, borrower: AccountId, now: u64) -> (r: Result<
        u64,
        LendingError,
    >)
        requires
            self.wf(),
        ensures
            r == quote_result(self@, borrower, now),
    {
        let rate_bps = match &self.config {
            Some(c) => c.rate_bps,
            None => return Err(LendingError::NotInitialized),
        };
        let loan = match self.loans.get(&borrower) {
            Some(l) => *l,
            None => return Err(LendingError::NoActiveLoan),
        };
        let elapsed: u64 = if now >= loan.start_time {
            now - loan.start_time
        } else {
            0
        };
        match repayment_amount(loan.amount, rate_bps, elapsed) {
            Some(total) => Ok(total),
            None => Err(LendingError::Overflow),
        }
    }

    /// Closes the loan of `borrower` at `now`; its interest joins the deposits.
    /// Returns principal plus interest, the amount the borrower pays in.
    pub fn repay(&mut self, borrower: AccountId, now: u64) -> (r: Result<u64, LendingError>)
        requires
            old(self).wf(),
        ensures
            final(self).wf(),
            match r {
                Ok(total) => repay_result(old(self)@, borrower, now) == Ok::<
                    (LedgerView, u64),
                    LendingError,
                >((final(self)@, total)),
                Err(e) => repay_result(old(self)@, borrower, now) == Err::<
                    (LedgerView, u64),
                    LendingError,
                >(e) && final(self)@ == old(self)@,
            },
    {
        proof {
            lemma_repay_inv(self@, borrower, now);
            lemma_entries_bounded(self@, borrower);
        }
        let total = match self.get_repayment_amount(borrower, now) {
            Ok(t) => t,
            Err(e) => return Err(e),
        };
        let principal = match self.loans.get(&borrower) {
            Some(l) => l.amount,
            None => return Err(LendingError::NoActiveLoan),
        };
        let interest = total - principal;
        let new_deposits = match self.pool.total_deposits.checked_add(interest) {
            Some(d) => d,
            None => return Err(LendingError::Overflow),
        };
        self.loans.remove(&borrower);
        self.pool = PoolState {
            total_deposits: new_deposits,
            total_shares: self.pool.total_shares,
            total_borrowed: self.pool.total_borrowed - principal,
        };
        Ok(total)
    }

    /// Liquidity that is not lent out: `total_deposits - total_borrowed`.
    pub fn available_liquidity(&self) -> (r: u64)
        requires
            self.wf(),
        ensures
            r == self@.available(),
    {
        self.pool.total_deposits - self.pool.total_borrowed
    }

    pub fn get_pool_state(&self) -> (r: PoolState)
        ensures
            r == self@.pool,
    {
        self.pool
    }

    pub fn get_shares_of(&self, depositor: AccountId) -> (r: u64)
        ensures
            r == self@.shares_of(depositor),
    {
        self.balance_of(depositor)
    }

    /// The live loan of `borrower`, if any.
    pub fn get_loan(&self, borrower: AccountId) -> (r: Option<Loan>)
        ensures
            r == (if self@.loans.contains_key(borrower) {
                Some(self@.loans[borrower])
            } else {
                None::<Loan>
            }),
    {
        match self.loans.get(&borrower) {
            Some(l) => Some(*l),
            None => None,
        }
    }

    /// The configuration stored by `initialize`, if any.
    pub fn get_config(&self) -> (r: Option<Config>)
        ensures
            r == self@.config,
    {
        self.config
    }
}

} // verus!

//! The ledger as a mathematical state, and each operation as a function on it.
use vstd::prelude::*;
use crate::interest::{interest_owed, repayment_owed};
use crate::sums::{
    map_sum,
    lemma_map_sum_remove,
    lemma_map_sum_insert,
    lemma_map_sum_bounds_entry,
};
use crate::types::{AccountId, Config, LendingError, Loan, PoolState};

verus! {

/// The whole durable state of a pool.
pub struct LedgerView {
    pub config: Option<Config>,
    pub pool: PoolState,
    /// Share balance per depositor; an absent depositor holds none.
    pub shares: Map<AccountId, u64>,
    /// Live loan per borrower.
    pub loans: Map<AccountId, Loan>,
}

/// The principal of each live loan, by borrower.
pub open spec fn loan_principals(loans: Map<AccountId, Loan>) -> Map<AccountId, u64> {
    Map::new(|k: AccountId| loans.contains_key(k), |k: AccountId| loans[k].amount)
}

/// Shares minted for a deposit of `amount`: one per unit into an empty pool,
/// else `floor(amount * total_shares / total_deposits)`.
pub open spec fn minted_shares(pool: PoolState, amount: u64) -> nat {
    if pool.total_shares == 0 {
        amount as nat
    } else {
        ((amount as nat) * (pool.total_shares as nat) / (pool.total_deposits as nat)) as nat
    }
}

/// Asset returned for `shares`: `floor(shares * total_deposits / total_shares)`.
pub open spec fn redeemed_amount(pool: PoolState, shares: u64) -> nat {
    ((shares as nat) * (pool.total_deposits as nat) / (pool.total_shares as nat)) as nat
}

/// Seconds from `start` to `now`; a clock that went back counts as no time.
pub open spec fn elapsed_since(start: u64, now: u64) -> u64 {
    if now >= start {
        (now - start) as u64
    } else {
        0
    }
}

impl LedgerView {
    /// A pool that has not been initialized.
    pub open spec fn empty() -> LedgerView {
        LedgerView {
            config: None,
            pool: PoolState { total_deposits: 0, total_shares: 0, total_borrowed: 0 },
            shares: Map::empty(),
            loans: Map::empty(),
        }
    }

    pub open spec fn shares_of(self, who: AccountId) -> u64 {
        if self.shares.contains_key(who) {
            self.shares[who]
        } else {
            0
        }
    }

    /// Liquidity that is not lent out.
    pub open spec fn available(self) -> int {
        self.pool.total_deposits - self.pool.total_borrowed
    }

    /// What holds of every state that the operations reach from `empty`.
    pub open spec fn inv(self) -> bool {
        &&& self.config is None ==> self == LedgerView::empty()
        &&& self.pool.total_borrowed <= self.pool.total_deposits
        &&& self.pool.total_shares <= self.pool.total_deposits
        &&& (self.pool.total_shares == 0 <==> self.pool.total_deposits == 0)
        &&& self.shares.dom().finite()
        &&& self.loans.dom().finite()
        &&& map_sum(self.shares) == self.pool.total_shares
        &&& map_sum(loan_principals(self.loans)) == self.pool.total_borrowed
        &&& forall|k: AccountId| #[trigger]
            self.loans.contains_key(k) ==> self.loans[k].borrower == k && self.loans[k].amount > 0
    }
}

/// `initialize`: stores the configuration once.
pub open spec fn initialize_result(
    v: LedgerView,
    admin: AccountId,
    asset: AccountId,
    rate_bps: u32,
) -> Result<LedgerView, LendingError> {
    if v.config is Some {
        Err(LendingError::AlreadyInitialized)
    } else {
        Ok(LedgerView { config: Some(Config { admin, asset, rate_bps }), ..v })
    }
}

/// `deposit`: the new state and the shares minted.
pub open spec fn deposit_result(v: LedgerView, who: AccountId, amount: u64) -> Result<
    (LedgerView, u64),
    LendingError,
> {
    if v.config is None {
        Err(LendingError::NotInitialized)
    } else if amount == 0 {
        Err(LendingError::InvalidAmount)
    } else if v.pool.total_deposits + amount > u64::MAX {
        Err(LendingError::Overflow)
    } else {
        let minted = minted_shares(v.pool, amount);
        Ok(
            (
                LedgerView {
                    pool: PoolState {
                        total_deposits: (v.pool.total_deposits + amount) as u64,
                        total_shares: (v.pool.total_shares + minted) as u64,
                        total_borrowed: v.pool.total_borrowed,
                    },
                    shares: v.shares.insert(who, (v.shares_of(who) + minted) as u64),
                    ..v
                },
                minted as u64,
            ),
        )
    }
}

/// `withdraw`: the new state and the asset amount paid out.
pub open spec fn withdraw_result(v: LedgerView, who: AccountId, shares: u64) -> Result<
    (LedgerView, u64),
    LendingError,
> {
    if v.config is None {
        Err(LendingError::NotInitialized)
    } else if shares == 0 {
        Err(LendingError::InvalidAmount)
    } else if shares > v.shares_of(who) {
        Err(LendingError::InsufficientShares)
    } else if redeemed_amount(v.pool, shares) > v.available() {
        Err(LendingError::InsufficientLiquidity)
    } else {
        let amount = redeemed_amount(v.pool, shares);
        Ok(
            (
                LedgerView {
                    pool: PoolState {
                        total_deposits: (v.pool.total_deposits - amount) as u64,
                        total_shares: (v.pool.total_shares - shares) as u64,
                        total_borrowed: v.pool.total_borrowed,
                    },
                    shares: v.shares.insert(who, (v.shares_of(who) - shares) as u64),
                    ..v
                },
                amount as u64,
            ),
        )
    }
}

/// `borrow` at ledger time `now`: the new state and the amount disbursed.
pub open spec fn borrow_result(v: LedgerView, who: AccountId, amount: u64, now: u64) -> Result<
    (LedgerView, u64),
    LendingError,
> {
    if v.config is None {
        Err(LendingError::NotInitialized)
    } else if v.loans.contains_key(who) {
        Err(LendingError::LoanAlreadyExists)
    } else if amount == 0 {
        Err(LendingError::InvalidAmount)
    } else if amount > v.available() {
        Err(LendingError::InsufficientLiquidity)
    } else {
        Ok(
            (
                LedgerView {
                    pool: PoolState {
                        total_borrowed: (v.pool.total_borrowed + amount) as u64,
                        ..v.pool
                    },
                    loans: v.loans.insert(who, Loan { borrower: who, amount, start_time: now }),
                    ..v
                },
                amount,
            ),
        )
    }
}

/// What the live loan of `who` costs to repay at `now`, principal and interest.
pub open spec fn quote_result(v: LedgerView, who: AccountId, now: u64) -> Result<
    u64,
    LendingError,
> {
    if v.config is None {
        Err(LendingError::NotInitialized)
    } else if !v.loans.contains_key(who) {
        Err(LendingError::NoActiveLoan)
    } else {
        let loan = v.loans[who];
        let total = repayment_owed(
            loan.amount,
            v.config.unwrap().rate_bps,
            elapsed_since(loan.start_time, now),
        );
        if total > u64::MAX {
            Err(LendingError::Overflow)
        } else {
            Ok(total as u64)
        }
    }
}

/// `repay` at `now`: the loan is closed, its interest joins the deposits;
/// the result is the amount repaid.
pub open spec fn repay_result(v: LedgerView, who: AccountId, now: u64) -> Result<
    (LedgerView, u64),
    LendingError,
> {
    match quote_result(v, who, now) {
        Err(e) => Err(e),
        Ok(total) => {
            let loan = v.loans[who];
            let interest = interest_owed(
                loan.amount,
                v.config.unwrap().rate_bps,
                elapsed_since(loan.start_time, now),
            );
            if v.pool.total_deposits + interest > u64::MAX {
                Err(LendingError::Overflow)
            } else {
                Ok(
                    (
                        LedgerView {
                            pool: PoolState {
                                total_deposits: (v.pool.total_deposits + interest) as u64,
                                total_shares: v.pool.total_shares,
                                total_borrowed: (v.pool.total_borrowed - loan.amount) as u64,
                            },
                            loans: v.loans.remove(who),
                            ..v
                        },
                        total,
                    ),
                )
            }
        },
    }
}

/// The product of two 64-bit values fits in 128 bits.
pub proof fn lemma_product_fits(a: u64, b: u64)
    ensures
        (a as int) * (b as int) <= u128::MAX,
{
    assert((a as int) * (b as int) <= 0xffff_ffff_ffff_ffff * 0xffff_ffff_ffff_ffff) by (nonlinear_arith)
        requires
            a <= 0xffff_ffff_ffff_ffffu64,
            b <= 0xffff_ffff_ffff_ffffu64,
    ;
}

/// A deposit into a pool whose share price is at least one mints at most one share per unit.
pub proof fn lemma_minted_at_most_amount(pool: PoolState, amount: u64)
    requires
        pool.total_shares <= pool.total_deposits,
        pool.total_shares == 0 <==> pool.total_deposits == 0,
    ensures
        minted_shares(pool, amount) <= amount,
{
    if pool.total_shares != 0 {
        let a = amount as int;
        let s = pool.total_shares as int;
        let d = pool.total_deposits as int;
        assert(a * s <= a * d) by (nonlinear_arith)
            requires
                0 <= a,
                s <= d,
        ;
        vstd::arithmetic::div_mod::lemma_div_is_ordered(a * s, a * d, d);
        vstd::arithmetic::div_mod::lemma_div_multiples_vanish(a, d);
    }
}

/// Redeeming at most all shares pays at least one unit per share, at most the
/// whole deposits, and all of them for all shares; the price does not fall below one.
pub proof fn lemma_redeemed_bounds(pool: PoolState, shares: u64)
    requires
        0 < pool.total_shares <= pool.total_deposits,
        shares <= pool.total_shares,
    ensures
        shares <= redeemed_amount(pool, shares) <= pool.total_deposits,
        pool.total_shares - shares <= pool.total_deposits - redeemed_amount(pool, shares),
        shares == pool.total_shares ==> redeemed_amount(pool, shares) == pool.total_deposits,
{
    let x = shares as int;
    let s = pool.total_shares as int;
    let d = pool.total_deposits as int;
    let r = redeemed_amount(pool, shares) as int;
    vstd::arithmetic::div_mod::lemma_fundamental_div_mod(x * d, s);
    assert(r == (x * d) / s);
    assert(x * s <= x * d) by (nonlinear_arith)
        requires
            0 <= x,
            s <= d,
    ;
    vstd::arithmetic::div_mod::lemma_div_is_ordered(x * s, x * d, s);
    vstd::arithmetic::div_mod::lemma_div_multiples_vanish(x, s);
    assert(x * d <= s * d) by (nonlinear_arith)
        requires
            0 <= x <= s,
            0 <= d,
    ;
    vstd::arithmetic::div_mod::lemma_div_is_ordered(x * d, s * d, s);
    vstd::arithmetic::div_mod::lemma_div_multiples_vanish(d, s);
    assert(r * s <= x * d) by (nonlinear_arith)
        requires
            r == (x * d) / s,
            s > 0,
            x * d == s * ((x * d) / s) + (x * d) % s,
            (x * d) % s >= 0,
    ;
    assert((r - x) * s <= x * (d - s)) by (nonlinear_arith)
        requires
            r * s <= x * d,
    ;
    assert(x * (d - s) <= s * (d - s)) by (nonlinear_arith)
        requires
            0 <= x <= s,
            s <= d,
    ;
    assert(r - x <= d - s) by (nonlinear_arith)
        requires
            (r - x) * s <= s * (d - s),
            s > 0,
    ;
    if x == s {
        assert(x * d == d * s) by (nonlinear_arith)
            requires
                x == s,
        ;
        vstd::arithmetic::div_mod::lemma_div_multiples_vanish(d, s);
    }
}

/// The principals after a new loan is recorded.
pub proof fn lemma_principals_insert(loans: Map<AccountId, Loan>, k: AccountId, loan: Loan)
    ensures
        loan_principals(loans.insert(k, loan)) == loan_principals(loans).insert(k, loan.amount),
        loan_principals(loans).dom() == loans.dom(),
{
    assert(loan_principals(loans.insert(k, loan)) =~= loan_principals(loans).insert(k, loan.amount));
    assert(loan_principals(loans).dom() =~= loans.dom());
}

/// The principals after a loan is closed.
pub proof fn lemma_principals_remove(loans: Map<AccountId, Loan>, k: AccountId)
    ensures
        loan_principals(loans.remove(k)) == loan_principals(loans).remove(k),
        loan_principals(loans).dom() == loans.dom(),
{
    assert(loan_principals(loans.remove(k)) =~= loan_principals(loans).remove(k));
    assert(loan_principals(loans).dom() =~= loans.dom());
}

/// No depositor holds more than all shares, no loan exceeds all borrowing.
pub proof fn lemma_entries_bounded(v: LedgerView, who: AccountId)
    requires
        v.inv(),
    ensures
        v.shares_of(who) <= v.pool.total_shares,
        v.loans.contains_key(who) ==> v.loans[who].amount <= v.pool.total_borrowed,
{
    if v.shares.contains_key(who) {
        lemma_map_sum_bounds_entry(v.shares, who);
    }
    if v.loans.contains_key(who) {
        lemma_principals_remove(v.loans, who);
        lemma_map_sum_bounds_entry(loan_principals(v.loans), who);
    }
}

/// The invariant holds of a pool that was never initialized.
pub proof fn lemma_empty_inv()
    ensures
        LedgerView::empty().inv(),
{
    let v = LedgerView::empty();
    assert(v.shares.dom() =~= Set::empty());
    assert(v.loans.dom() =~= Set::empty());
    assert(loan_principals(v.loans).dom() =~= Set::empty());
}

/// Initialization keeps the invariant.
pub proof fn lemma_initialize_inv(v: LedgerView, admin: AccountId, asset: AccountId, rate_bps: u32)
    requires
        v.inv(),
    ensures
        initialize_result(v, admin, asset, rate_bps) matches Ok(n) ==> n.inv(),
{
    if v.config is None {
        lemma_empty_inv();
    }
}

/// A deposit keeps the invariant.
pub proof fn lemma_deposit_inv(v: LedgerView, who: AccountId, amount: u64)
    requires
        v.inv(),
    ensures
        deposit_result(v, who, amount) matches Ok((n, m)) ==> n.inv() && m == minted_shares(
            v.pool,
            amount,
        ) && v.pool.total_shares + m <= v.pool.total_deposits + amount,
{
    if deposit_result(v, who, amount) is Ok {
        lemma_minted_at_most_amount(v.pool, amount);
        lemma_entries_bounded(v, who);
        lemma_map_sum_insert(v.shares, who, (v.shares_of(who) + minted_shares(v.pool, amount)) as u64);
    }
}

/// A withdrawal keeps the invariant.
pub proof fn lemma_withdraw_inv(v: LedgerView, who: AccountId, shares: u64)
    requires
        v.inv(),
    ensures
        withdraw_result(v, who, shares) matches Ok((n, a)) ==> n.inv() && a == redeemed_amount(
            v.pool,
            shares,
        ),
{
    if withdraw_result(v, who, shares) is Ok {
        lemma_entries_bounded(v, who);
        lemma_redeemed_bounds(v.pool, shares);
        lemma_map_sum_insert(v.shares, who, (v.shares_of(who) - shares) as u64);
    }
}

/// A new loan keeps the invariant.
pub proof fn lemma_borrow_inv(v: LedgerView, who: AccountId, amount: u64, now: u64)
    requires
        v.inv(),
    ensures
        borrow_result(v, who, amount, now) matches Ok((n, a)) ==> n.inv() && a == amount,
{
    if borrow_result(v, who, amount, now) is Ok {
        let loan = Loan { borrower: who, amount, start_time: now };
        lemma_principals_insert(v.loans, who, loan);
        lemma_map_sum_insert(loan_principals(v.loans), who, amount);
        assert(!loan_principals(v.loans).contains_key(who));
    }
}

/// A repayment keeps the invariant.
pub proof fn lemma_repay_inv(v: LedgerView, who: AccountId, now: u64)
    requires
        v.inv(),
    ensures
        repay_result(v, who, now) matches Ok((n, t)) ==> n.inv() && quote_result(v, who, now)
            == Ok::<u64, LendingError>(t),
{
    if repay_result(v, who, now) is Ok {
        lemma_entries_bounded(v, who);
        lemma_principals_remove(v.loans, who);
        lemma_map_sum_remove(loan_principals(v.loans), who);
    }
}

} // verus!

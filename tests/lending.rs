use lending_contract::pool::LendingContract;
use lending_contract::types::{AccountId, LendingError};
use std::collections::HashMap;

// A pool together with a token ledger that moves the asset as each
// operation's result says, and a ledger clock.
struct World {
    client: LendingContract,
    balances: HashMap<AccountId, i128>,
    now: u64,
    next_id: AccountId,
}

const POOL_ACCOUNT: AccountId = 0;
const TOKEN: AccountId = 1;

impl World {
    fn generate(&mut self) -> AccountId {
        self.next_id += 1;
        self.next_id
    }

    fn balance(&self, who: AccountId) -> i128 {
        *self.balances.get(&who).unwrap_or(&0)
    }

    fn mint_to(&mut self, to: AccountId, amount: i128) {
        *self.balances.entry(to).or_insert(0) += amount;
    }

    fn transfer(&mut self, from: AccountId, to: AccountId, amount: u64) {
        let amount = amount as i128;
        assert!(self.balance(from) >= amount, "insufficient token balance");
        *self.balances.entry(from).or_insert(0) -= amount;
        *self.balances.entry(to).or_insert(0) += amount;
    }

    fn try_deposit(&mut self, who: AccountId, amount: u64) -> Result<u64, LendingError> {
        let minted = self.client.deposit(who, amount)?;
        self.transfer(who, POOL_ACCOUNT, amount);
        Ok(minted)
    }

    fn try_withdraw(&mut self, who: AccountId, shares: u64) -> Result<u64, LendingError> {
        let amount = self.client.withdraw(who, shares)?;
        self.transfer(POOL_ACCOUNT, who, amount);
        Ok(amount)
    }

    fn try_borrow(&mut self, who: AccountId, amount: u64) -> Result<u64, LendingError> {
        let now = self.now;
        let disbursed = self.client.borrow(who, amount, now)?;
        self.transfer(POOL_ACCOUNT, who, disbursed);
        Ok(disbursed)
    }

    fn try_repay(&mut self, who: AccountId) -> Result<u64, LendingError> {
        let now = self.now;
        let total = self.client.repay(who, now)?;
        self.transfer(who, POOL_ACCOUNT, total);
        Ok(total)
    }

    fn deposit(&mut self, who: AccountId, amount: u64) -> u64 {
        self.try_deposit(who, amount).unwrap()
    }

    fn withdraw(&mut self, who: AccountId, shares: u64) -> u64 {
        self.try_withdraw(who, shares).unwrap()
    }

    fn borrow(&mut self, who: AccountId, amount: u64) -> u64 {
        self.try_borrow(who, amount).unwrap()
    }

    fn repay(&mut self, who: AccountId) -> u64 {
        self.try_repay(who).unwrap()
    }

    fn get_repayment_amount(&self, who: AccountId) -> u64 {
        self.client.get_repayment_amount(who, self.now).unwrap()
    }
}

// An initialized pool at 10% a year; returns the world and the admin.
fn setup() -> (World, AccountId) {
    let mut world = World {
        client: LendingContract::new(),
        balances: HashMap::new(),
        now: 0,
        next_id: TOKEN,
    };
    let admin = world.generate();
    world.client.initialize(admin, TOKEN, 1000u32).unwrap();
    (world, admin)
}

#[test]
fn test_initialize_once() {
    let (mut w, admin) = setup();
    let result = w.client.initialize(admin, TOKEN, 1000u32);
    assert!(result.is_err());
}

#[test]
fn test_deposit_mints_shares() {
    let (mut w, _admin) = setup();
    let depositor = w.generate();
    w.mint_to(depositor, 10_000);

    let shares = w.deposit(depositor, 1000u64);
    assert_eq!(shares, 1000u64);
    assert_eq!(w.client.get_shares_of(depositor), 1000u64);

    let pool = w.client.get_pool_state();
    assert_eq!(pool.total_deposits, 1000);
    assert_eq!(pool.total_shares, 1000);
    assert_eq!(pool.total_borrowed, 0);
}

#[test]
fn test_second_deposit_proportional_shares() {
    let (mut w, _admin) = setup();
    let depositor1 = w.generate();
    let depositor2 = w.generate();
    w.mint_to(depositor1, 10_000);
    w.mint_to(depositor2, 10_000);

    w.deposit(depositor1, 1000u64);
    let shares2 = w.deposit(depositor2, 500u64);
    assert_eq!(shares2, 500u64);

    let pool = w.client.get_pool_state();
    assert_eq!(pool.total_deposits, 1500);
    assert_eq!(pool.total_shares, 1500);
}

#[test]
fn test_withdraw_burns_shares_and_returns_tokens() {
    let (mut w, _admin) = setup();
    let depositor = w.generate();
    w.mint_to(depositor, 10_000);

    w.deposit(depositor, 1000u64);
    let balance_before = w.balance(depositor);

    let returned = w.withdraw(depositor, 500u64);
    assert_eq!(returned, 500u64);
    assert_eq!(w.balance(depositor), balance_before + 500);
    assert_eq!(w.client.get_shares_of(depositor), 500u64);

    let pool = w.client.get_pool_state();
    assert_eq!(pool.total_deposits, 500);
    assert_eq!(pool.total_shares, 500);
}

#[test]
fn test_withdraw_fails_not_enough_shares() {
    let (mut w, _admin) = setup();
    let depositor = w.generate();
    w.mint_to(depositor, 10_000);
    w.deposit(depositor, 1000u64);

    let result = w.try_withdraw(depositor, 2000u64);
    assert!(result.is_err());
}

#[test]
fn test_borrow_reduces_available_liquidity() {
    let (mut w, _admin) = setup();
    let depositor = w.generate();
    let borrower = w.generate();
    w.mint_to(depositor, 10_000);
    w.deposit(depositor, 1000u64);

    let borrow_amount = 400u64;
    let balance_before = w.balance(borrower);
    w.borrow(borrower, borrow_amount);

    assert_eq!(w.balance(borrower), balance_before + 400);

    let pool = w.client.get_pool_state();
    assert_eq!(pool.total_borrowed, 400);
    assert_eq!(pool.total_deposits, 1000);

    assert_eq!(w.client.available_liquidity(), 600u64);
}

#[test]
fn test_borrow_fails_if_insufficient_liquidity() {
    let (mut w, _admin) = setup();
    let depositor = w.generate();
    w.mint_to(depositor, 10_000);
    w.deposit(depositor, 1000u64);

    let result = w.try_borrow(depositor, 1001u64);
    assert!(result.is_err());
}

#[test]
fn test_borrow_fails_with_existing_loan() {
    let (mut w, _admin) = setup();
    let depositor = w.generate();
    let borrower = w.generate();
    w.mint_to(depositor, 10_000);
    w.deposit(depositor, 1000u64);
    w.borrow(borrower, 200u64);

    let result = w.try_borrow(borrower, 100u64);
    assert!(result.is_err());
}

#[test]
fn test_repay_restores_liquidity() {
    let (mut w, _admin) = setup();
    let depositor = w.generate();
    let borrower = w.generate();
    w.mint_to(depositor, 10_000);
    w.mint_to(borrower, 10_000);

    w.deposit(depositor, 1000u64);
    w.borrow(borrower, 400u64);

    assert_eq!(w.client.available_liquidity(), 600u64);

    let repaid = w.repay(borrower);
    assert_eq!(repaid, 400u64);

    let pool = w.client.get_pool_state();
    assert_eq!(pool.total_borrowed, 0);
    assert_eq!(pool.total_deposits, 1000);
    assert_eq!(w.client.available_liquidity(), 1000u64);

    let loan = w.client.get_loan(borrower);
    assert!(loan.is_none());
}

#[test]
fn test_repay_fails_with_no_loan() {
    let (mut w, admin) = setup();
    let result = w.try_repay(admin);
    assert!(result.is_err());
}

#[test]
fn test_withdraw_fails_if_funds_are_borrowed() {
    let (mut w, _admin) = setup();
    let depositor = w.generate();
    let borrower = w.generate();
    w.mint_to(depositor, 10_000);

    w.deposit(depositor, 1000u64);
    w.borrow(borrower, 900u64);

    let result = w.try_withdraw(depositor, 500u64);
    assert!(result.is_err());

    assert!(w.try_withdraw(depositor, 100u64).is_ok());
}

#[test]
fn test_available_liquidity_before_and_after() {
    let (mut w, _admin) = setup();
    let depositor = w.generate();
    let borrower = w.generate();
    w.mint_to(depositor, 10_000);
    w.mint_to(borrower, 10_000);

    assert_eq!(w.client.available_liquidity(), 0u64);

    w.deposit(depositor, 2000u64);
    assert_eq!(w.client.available_liquidity(), 2000u64);

    w.borrow(borrower, 1500u64);
    assert_eq!(w.client.available_liquidity(), 500u64);

    w.repay(borrower);
    assert_eq!(w.client.available_liquidity(), 2000u64);
}

#[test]
fn test_get_loan_returns_none_when_no_loan() {
    let (mut w, _admin) = setup();
    let no_loan_addr = w.generate();
    let loan = w.client.get_loan(no_loan_addr);
    assert!(loan.is_none());
}

#[test]
fn test_get_loan_returns_record_when_active() {
    let (mut w, _admin) = setup();
    let depositor = w.generate();
    let borrower = w.generate();
    w.mint_to(depositor, 10_000);

    w.deposit(depositor, 1000u64);
    w.borrow(borrower, 300u64);

    let loan = w.client.get_loan(borrower).unwrap();
    assert_eq!(loan.amount, 300u64);
    assert_eq!(loan.borrower, borrower);
}

#[test]
fn test_invalid_amounts_rejected() {
    let (mut w, admin) = setup();
    let depositor = w.generate();
    assert!(w.try_deposit(depositor, 0u64).is_err());
    assert!(w.try_withdraw(depositor, 0u64).is_err());
    assert!(w.try_borrow(admin, 0u64).is_err());
}

#[test]
fn test_interest_accrual() {
    let (mut w, _admin) = setup();
    let depositor = w.generate();
    let borrower = w.generate();
    w.mint_to(depositor, 100_000);
    w.mint_to(borrower, 100_000);

    w.deposit(depositor, 10_000u64);
    w.borrow(borrower, 5_000u64);

    w.now += 31_536_000;

    let repayment_amount = w.get_repayment_amount(borrower);
    assert_eq!(repayment_amount, 5_500u64);

    w.repay(borrower);

    let pool = w.client.get_pool_state();
    assert_eq!(pool.total_deposits, 10_500);
    assert_eq!(pool.total_borrowed, 0);

    let withdrawn = w.withdraw(depositor, 10_000u64);
    assert_eq!(withdrawn, 10_500);
}

#[test]
fn test_interest_precision_short_time() {
    let (mut w, _admin) = setup();
    let depositor = w.generate();
    let borrower = w.generate();
    w.mint_to(depositor, 100_000);
    w.mint_to(borrower, 100_000);

    w.deposit(depositor, 10_000u64);
    w.borrow(borrower, 5_000u64);

    w.now += 3600;

    let repayment_amount = w.get_repayment_amount(borrower);
    assert_eq!(repayment_amount, 5_000u64);
}

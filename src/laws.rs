//! Properties of the pool that span operations or hold of every state.
use vstd::prelude::*;
use crate::model::{
    LedgerView,
    deposit_result,
    withdraw_result,
    borrow_result,
    minted_shares,
    redeemed_amount,
    lemma_deposit_inv,
    lemma_withdraw_inv,
    lemma_entries_bounded,
};
use crate::types::{AccountId, LendingError};

verus! {

/// A deposit or a withdrawal, as a step of a history without loans.
pub enum ShareOp {
    Deposit { who: AccountId, amount: u64 },
    Withdraw { who: AccountId, shares: u64 },
}

/// The state after one step; a refused step leaves the state as it was.
pub open spec fn apply_share_op(v: LedgerView, op: ShareOp) -> LedgerView {
    match op {
        ShareOp::Deposit { who, amount } => match deposit_result(v, who, amount) {
            Ok((n, _)) => n,
            Err(_) => v,
        },
        ShareOp::Withdraw { who, shares } => match withdraw_result(v, who, shares) {
            Ok((n, _)) => n,
            Err(_) => v,
        },
    }
}

/// The state after every step of `ops`, in order.
pub open spec fn apply_share_ops(v: LedgerView, ops: Seq<ShareOp>) -> LedgerView
    decreases ops.len(),
{
    if ops.len() == 0 {
        v
    } else {
        apply_share_ops(apply_share_op(v, ops[0]), ops.drop_first())
    }
}

/// While deposits equal shares, a deposit mints one share per unit and a
/// withdrawal pays one unit per share, so deposits still equal shares after either.
pub proof fn lemma_share_op_keeps_one_to_one(v: LedgerView, op: ShareOp)
    requires
        v.inv(),
        v.pool.total_deposits == v.pool.total_shares,
    ensures
        apply_share_op(v, op).inv(),
        apply_share_op(v, op).pool.total_deposits == apply_share_op(v, op).pool.total_shares,
{
    match op {
        ShareOp::Deposit { who, amount } => {
            lemma_deposit_inv(v, who, amount);
            if v.pool.total_shares != 0 {
                vstd::arithmetic::div_mod::lemma_div_multiples_vanish(
                    amount as int,
                    v.pool.total_deposits as int,
                );
                assert(minted_shares(v.pool, amount) == amount);
            }
        },
        ShareOp::Withdraw { who, shares } => {
            lemma_withdraw_inv(v, who, shares);
            if v.pool.total_shares != 0 {
                vstd::arithmetic::div_mod::lemma_div_multiples_vanish(
                    shares as int,
                    v.pool.total_shares as int,
                );
                assert(redeemed_amount(v.pool, shares) == shares);
            }
        },
    }
}

/// Any history of deposits and withdrawals without loans keeps total deposits
/// equal to total shares, starting from a pool where they are equal (an empty one).
pub proof fn lemma_share_ops_keep_one_to_one(v: LedgerView, ops: Seq<ShareOp>)
    requires
        v.inv(),
        v.pool.total_deposits == v.pool.total_shares,
    ensures
        apply_share_ops(v, ops).inv(),
        apply_share_ops(v, ops).pool.total_deposits == apply_share_ops(v, ops).pool.total_shares,
    decreases ops.len(),
{
    if ops.len() > 0 {
        lemma_share_op_keeps_one_to_one(v, ops[0]);
        lemma_share_ops_keep_one_to_one(apply_share_op(v, ops[0]), ops.drop_first());
    }
}

/// In every state that the operations keep (each of them preserves `inv`), the
/// liquidity not lent out is `total_deposits - total_borrowed`, never negative
/// and never more than the deposits.
pub proof fn lemma_liquidity_never_negative(v: LedgerView)
    requires
        v.inv(),
    ensures
        v.available() == v.pool.total_deposits - v.pool.total_borrowed,
        0 <= v.available() <= v.pool.total_deposits,
{
}

/// A borrower with a live loan cannot open a second one, whatever the amount.
pub proof fn lemma_one_live_loan(v: LedgerView, who: AccountId, amount: u64, now: u64)
    requires
        v.config is Some,
        v.loans.contains_key(who),
    ensures
        borrow_result(v, who, amount, now) == Err::<(LedgerView, u64), LendingError>(
            LendingError::LoanAlreadyExists,
        ),
{
}

/// A withdrawal that succeeds pays out no more than the liquidity not lent out.
pub proof fn lemma_withdraw_within_liquidity(v: LedgerView, who: AccountId, shares: u64)
    requires
        v.inv(),
    ensures
        withdraw_result(v, who, shares) matches Ok((_, a)) ==> a <= v.available(),
        redeemed_amount(v.pool, shares) > v.available() ==> withdraw_result(v, who, shares) is Err,
{
}

/// Depositing and then withdrawing every share minted never returns more than was deposited.
pub proof fn lemma_round_trip_never_gains(v: LedgerView, who: AccountId, amount: u64)
    requires
        v.inv(),
    ensures
        deposit_result(v, who, amount) matches Ok((n, m)) ==> (withdraw_result(n, who, m) matches Ok(
            (_, a),
        ) ==> a <= amount),
{
    lemma_deposit_inv(v, who, amount);
    if let Ok((n, m)) = deposit_result(v, who, amount) {
        if let Ok((_, a)) = withdraw_result(n, who, m) {
            let s = v.pool.total_shares as int;
            let d = v.pool.total_deposits as int;
            let x = amount as int;
            let mi = m as int;
            if s == 0 {
                vstd::arithmetic::div_mod::lemma_div_multiples_vanish(mi, mi);
                assert(mi * (d + x) == mi * mi) by (nonlinear_arith)
                    requires
                        d == 0,
                        mi == x,
                ;
            } else {
                vstd::arithmetic::div_mod::lemma_fundamental_div_mod(x * s, d);
                assert(mi * d <= x * s) by (nonlinear_arith)
                    requires
                        mi == (x * s) / d,
                        d > 0,
                        x * s == d * ((x * s) / d) + (x * s) % d,
                        (x * s) % d >= 0,
                ;
                assert(mi * (d + x) <= x * (s + mi)) by (nonlinear_arith)
                    requires
                        mi * d <= x * s,
                ;
                vstd::arithmetic::div_mod::lemma_div_is_ordered(mi * (d + x), x * (s + mi), s + mi);
                vstd::arithmetic::div_mod::lemma_div_multiples_vanish(x, s + mi);
                assert(mi * (d + x) == (m as nat) * (n.pool.total_deposits as nat));
            }
        }
    }
}

/// Depositing and then withdrawing every share minted loses less than one
/// share's price plus one unit: `(amount - returned) * total_shares < total_deposits + total_shares`
/// (so nothing at all at a price of one).
pub proof fn lemma_round_trip_loss_bounded(v: LedgerView, who: AccountId, amount: u64)
    requires
        v.inv(),
        v.pool.total_shares > 0,
    ensures
        deposit_result(v, who, amount) matches Ok((n, m)) ==> (withdraw_result(n, who, m) matches Ok(
            (_, a),
        ) ==> (amount - a) * v.pool.total_shares < v.pool.total_deposits + v.pool.total_shares),
{
    lemma_deposit_inv(v, who, amount);
    if let Ok((n, m)) = deposit_result(v, who, amount) {
        if let Ok((_, a)) = withdraw_result(n, who, m) {
            let s = v.pool.total_shares as int;
            let d = v.pool.total_deposits as int;
            let x = amount as int;
            let mi = m as int;
            let w = a as int;
            assert(n.pool.total_deposits as int == d + x);
            assert(n.pool.total_shares as int == s + mi);
            let p = mi * (d + x);
            assert(p == (m as nat) * (n.pool.total_deposits as nat));
            assert(w == p / (s + mi));
            vstd::arithmetic::div_mod::lemma_fundamental_div_mod(x * s, d);
            vstd::arithmetic::div_mod::lemma_fundamental_div_mod(p, s + mi);
            assert(x * s < d * (mi + 1)) by (nonlinear_arith)
                requires
                    mi == (x * s) / d,
                    x * s == d * ((x * s) / d) + (x * s) % d,
                    (x * s) % d < d,
            ;
            assert((w + 1) * (s + mi) > p) by (nonlinear_arith)
                requires
                    w == p / (s + mi),
                    p == (s + mi) * (p / (s + mi)) + p % (s + mi),
                    p % (s + mi) < s + mi,
            ;
            assert(x * s * s < d * (s * mi + s + mi)) by (nonlinear_arith)
                requires
                    x * s < d * (mi + 1),
                    s > 0,
                    d >= 0,
                    mi >= 0,
            ;
            assert((x - w) * s * (s + mi) < (d + s) * (s + mi)) by (nonlinear_arith)
                requires
                    (w + 1) * (s + mi) > mi * (d + x),
                    x * s * s < d * (s * mi + s + mi),
                    s > 0,
                    mi >= 0,
            ;
            assert((x - w) * s < d + s) by (nonlinear_arith)
                requires
                    (x - w) * s * (s + mi) < (d + s) * (s + mi),
                    s + mi > 0,
            ;
        }
    }
}

/// Depositing `amount` and withdrawing every share minted returns exactly `amount`
/// when the deposit converts to shares without remainder (always so at a price of one).
pub proof fn lemma_round_trip_exact(v: LedgerView, who: AccountId, amount: u64)
    requires
        v.inv(),
        v.config is Some,
        amount > 0,
        v.pool.total_deposits + amount <= u64::MAX,
        v.pool.total_shares == 0 || (amount as int * v.pool.total_shares as int)
            % (v.pool.total_deposits as int) == 0,
    ensures
        deposit_result(v, who, amount) matches Ok((n, m)) && withdraw_result(n, who, m) matches Ok(
            (_, a),
        ) && a == amount,
{
    lemma_deposit_inv(v, who, amount);
    let (n, m) = deposit_result(v, who, amount).unwrap();
    let s = v.pool.total_shares as int;
    let d = v.pool.total_deposits as int;
    let x = amount as int;
    let mi = m as int;
    if s == 0 {
        assert(mi * (d + x) == x * (s + mi)) by (nonlinear_arith)
            requires
                d == 0,
                s == 0,
                mi == x,
        ;
    } else {
        vstd::arithmetic::div_mod::lemma_fundamental_div_mod(x * s, d);
        assert(mi * d == x * s) by (nonlinear_arith)
            requires
                mi == (x * s) / d,
                x * s == d * ((x * s) / d) + (x * s) % d,
                (x * s) % d == 0,
        ;
        assert(mi > 0) by (nonlinear_arith)
            requires
                mi * d == x * s,
                x > 0,
                s > 0,
                mi >= 0,
        ;
        assert(mi * (d + x) == x * (s + mi)) by (nonlinear_arith)
            requires
                mi * d == x * s,
        ;
    }
    vstd::arithmetic::div_mod::lemma_div_multiples_vanish(x, s + mi);
    assert(n.pool.total_deposits as int == d + x);
    assert(n.pool.total_shares as int == s + mi);
    assert((m as nat) * (n.pool.total_deposits as nat) == x * (s + mi));
    assert(redeemed_amount(n.pool, m) == (x * (s + mi)) / (s + mi));
    lemma_entries_bounded(v, who);
    assert(n.shares_of(who) == v.shares_of(who) + m);
    assert(redeemed_amount(n.pool, m) <= n.available());
}

} // verus!

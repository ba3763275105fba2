//! Share arithmetic of the pooled vault: how many shares a deposit mints,
//! and what slice of each holding a redemption pays out.
use vstd::prelude::*;
use vstd::arithmetic::div_mod::{lemma_fundamental_div_mod, lemma_mod_bound, lemma_div_is_ordered_by_denominator};
use vstd::arithmetic::mul::lemma_mul_upper_bound;

verus! {

/// Shares minted for a deposit of `amount` into a pool of `pooled` base
/// backing `supply` shares: one for one into an empty pool, otherwise
/// `amount * supply / pooled` rounded down (and cut to 64 bits, as the
/// program's `as u64` does).
pub open spec fn minted_shares(amount: u64, supply: u64, pooled: u64) -> u64 {
    if supply == 0 {
        amount
    } else {
        ((amount as int * supply as int) / (pooled as int)) as u64
    }
}

/// The pro-rata slice of `balance` that `shares` of `supply` shares claim,
/// rounded down (and cut to 64 bits, as the program's `as u64` does).
pub open spec fn pro_rata(balance: u64, shares: u64, supply: u64) -> u64 {
    ((balance as int * shares as int) / (supply as int)) as u64
}

/// Computes `minted_shares` in 128-bit arithmetic.
pub fn shares_for_deposit(amount: u64, supply: u64, pooled: u64) -> (r: u64)
    requires
        supply == 0 || pooled > 0,
    ensures
        r == minted_shares(amount, supply, pooled),
{
    if supply == 0 {
        amount
    } else {
        proof {
            lemma_mul_upper_bound(amount as int, u64::MAX as int, supply as int, u64::MAX as int);
        }
        let product: u128 = amount as u128 * supply as u128;
        (product / pooled as u128) as u64
    }
}

/// Computes `pro_rata` in 128-bit arithmetic.
pub fn pro_rata_share(balance: u64, shares: u64, supply: u64) -> (r: u64)
    requires
        supply > 0,
    ensures
        r == pro_rata(balance, shares, supply),
{
    proof {
        lemma_mul_upper_bound(balance as int, u64::MAX as int, shares as int, u64::MAX as int);
    }
    let product: u128 = balance as u128 * shares as u128;
    (product / supply as u128) as u64
}

/// `x / d` times `d` is at most `x`, and more than `x - d`.
proof fn lemma_floor(x: int, d: int)
    requires
        x >= 0,
        d > 0,
    ensures
        (x / d) * d <= x,
        x < (x / d) * d + d,
        x / d >= 0,
{
    lemma_fundamental_div_mod(x, d);
    lemma_mod_bound(x, d);
    assert((x / d) * d == d * (x / d)) by (nonlinear_arith);
    assert(x / d >= 0) by (nonlinear_arith)
        requires
            x == d * (x / d) + x % d,
            0 <= x % d < d,
            d > 0,
            x >= 0,
    ;
}

/// Law: both formulas round down, and by less than one unit. A redemption
/// of `shares` out of `supply` pays the largest amount whose value in shares
/// is at most `shares`; a deposit into a pool with shares mints the largest
/// number of shares whose value in base is at most the deposit (where that
/// number fits in 64 bits).
pub proof fn lemma_shares_round_down(balance: u64, shares: u64, supply: u64, amount: u64, pooled: u64)
    ensures
        supply > 0 && shares <= supply ==> {
            let p = pro_rata(balance, shares, supply) as int;
            &&& p * supply <= balance as int * shares as int
            &&& (balance as int) * (shares as int) < (p + 1) * supply
        },
        supply > 0 && pooled > 0 && amount as int * supply as int / pooled as int <= u64::MAX ==> {
            let m = minted_shares(amount, supply, pooled) as int;
            &&& m * pooled <= amount as int * supply as int
            &&& (amount as int) * (supply as int) < (m + 1) * pooled
        },
{
    if supply > 0 && shares <= supply {
        let x = balance as int * shares as int;
        assert(x >= 0) by (nonlinear_arith)
            requires
                x == balance as int * shares as int,
        ;
        assert(x <= balance as int * supply as int) by (nonlinear_arith)
            requires
                x == balance as int * shares as int,
                shares <= supply,
        ;
        lemma_floor(x, supply as int);
        vstd::arithmetic::div_mod::lemma_div_is_ordered(x, balance as int * supply as int, supply as int);
        vstd::arithmetic::div_mod::lemma_div_by_multiple(balance as int, supply as int);
        let q = x / supply as int;
        assert(0 <= q <= balance);
        assert(pro_rata(balance, shares, supply) as int == q);
        assert((q + 1) * supply as int == q * supply as int + supply as int) by (nonlinear_arith);
    }
    if supply > 0 && pooled > 0 && amount as int * supply as int / pooled as int <= u64::MAX {
        let x = amount as int * supply as int;
        assert(x >= 0) by (nonlinear_arith)
            requires
                x == amount as int * supply as int,
        ;
        lemma_floor(x, pooled as int);
        let q = x / pooled as int;
        assert(minted_shares(amount, supply, pooled) as int == q);
        assert((q + 1) * pooled as int == q * pooled as int + pooled as int) by (nonlinear_arith);
    }
}

/// Law: a first deposit into a pool with no shares mints one share per
/// token.
pub proof fn lemma_first_deposit_one_to_one(amount: u64, pooled: u64)
    ensures
        minted_shares(amount, 0, pooled) == amount,
{
}

/// Law: a deposit never dilutes the holders already in the pool: the new
/// shares claim at most what the deposit adds, so the base behind each share
/// does not fall.
pub proof fn lemma_deposit_never_dilutes(amount: u64, supply: u64, pooled: u64)
    requires
        supply > 0,
        pooled > 0,
        amount as int * supply as int / pooled as int <= u64::MAX,
    ensures
        minted_shares(amount, supply, pooled) as int * pooled as int <= amount as int * supply as int,
        (pooled as int + amount as int) * supply as int >= pooled as int * (supply as int
            + minted_shares(amount, supply, pooled) as int),
{
    let x = amount as int * supply as int;
    assert(x >= 0) by (nonlinear_arith)
        requires
            amount >= 0,
            supply >= 0,
            x == amount as int * supply as int,
    ;
    lemma_floor(x, pooled as int);
    let q = minted_shares(amount, supply, pooled) as int;
    assert(q == x / pooled as int);
    assert(q * pooled as int <= x);
    assert((pooled as int + amount as int) * supply as int >= pooled as int * (supply as int + q)) by (nonlinear_arith)
        requires
            q * pooled as int <= amount as int * supply as int,
    ;
}

/// Law: a redemption pays at most the pro-rata slice it claims, never more
/// than the whole balance, and so never leaves the remaining holders with
/// less behind each share.
pub proof fn lemma_redeem_is_fair(balance: u64, shares: u64, supply: u64)
    requires
        0 < supply,
        shares <= supply,
    ensures
        pro_rata(balance, shares, supply) as int * supply as int <= balance as int * shares as int,
        pro_rata(balance, shares, supply) <= balance,
        (balance as int - pro_rata(balance, shares, supply) as int) * supply as int >= balance as int * (
        supply as int - shares as int),
{
    let x = balance as int * shares as int;
    let s = supply as int;
    assert(0 <= x <= balance as int * s) by (nonlinear_arith)
        requires
            x == balance as int * shares as int,
            0 <= shares <= supply,
            balance >= 0,
            s == supply as int,
    ;
    lemma_floor(x, s);
    let q = x / s;
    assert(q <= balance as int) by (nonlinear_arith)
        requires
            q * s <= x,
            x <= balance as int * s,
            s > 0,
    ;
    assert(pro_rata(balance, shares, supply) as int == q);
    assert((balance as int - q) * s >= balance as int * (s - shares as int)) by (nonlinear_arith)
        requires
            q * s <= balance as int * shares as int,
    ;
}

/// Law: redeeming every share pays out the whole balance.
pub proof fn lemma_full_exit_takes_everything(balance: u64, supply: u64)
    requires
        supply > 0,
    ensures
        pro_rata(balance, supply, supply) == balance,
{
    let x = balance as int * supply as int;
    assert(x / supply as int == balance as int) by (nonlinear_arith)
        requires
            x == balance as int * supply as int,
            supply > 0,
    {
        lemma_fundamental_div_mod(x, supply as int);
        lemma_mod_bound(x, supply as int);
    }
}

/// The pool's pricing invariant: while the vault holds no position, there
/// are no more shares than base tokens behind them.
pub open spec fn priced(base: u64, position: u64, supply: u64) -> bool {
    position == 0 ==> supply <= base
}

/// Law: in a priced pool, a deposit (which is only taken while the vault
/// holds no position) neither divides by zero nor mints more shares than
/// tokens deposited, and leaves the pool priced.
pub proof fn lemma_deposit_keeps_pricing(base: u64, supply: u64, amount: u64)
    requires
        priced(base, 0, supply),
        base + amount <= u64::MAX,
    ensures
        supply > 0 ==> base > 0,
        minted_shares(amount, supply, base) <= amount,
        supply + minted_shares(amount, supply, base) <= base + amount,
        priced(
            (base + amount) as u64,
            0,
            (supply + minted_shares(amount, supply, base)) as u64,
        ),
{
    if supply > 0 {
        let x = amount as int * supply as int;
        assert(0 <= x <= amount as int * base as int) by (nonlinear_arith)
            requires
                x == amount as int * supply as int,
                0 <= supply <= base,
                amount >= 0,
        ;
        lemma_floor(x, base as int);
        let q = x / base as int;
        assert(q <= amount as int) by (nonlinear_arith)
            requires
                q * base as int <= x,
                x <= amount as int * base as int,
                base > 0,
        ;
        assert(minted_shares(amount, supply, base) as int == q);
    }
}

/// Law: a redemption of at most the whole supply leaves the pool priced.
pub proof fn lemma_redeem_keeps_pricing(base: u64, position: u64, supply: u64, shares: u64)
    requires
        priced(base, position, supply),
        0 < shares <= supply,
    ensures
        priced(
            (base - pro_rata(base, shares, supply)) as u64,
            (position - pro_rata(position, shares, supply)) as u64,
            (supply - shares) as u64,
        ),
{
    lemma_redeem_is_fair(base, shares, supply);
    lemma_redeem_is_fair(position, shares, supply);
    let b = base as int;
    let s = supply as int;
    let out = pro_rata(base, shares, supply) as int;
    let pout = pro_rata(position, shares, supply) as int;
    if position == 0 {
        assert(b - out >= s - shares as int) by (nonlinear_arith)
            requires
                (b - out) * s >= b * (s - shares as int),
                b >= s,
                s > 0,
                shares <= s,
        ;
    } else if shares < supply {
        let x = position as int * shares as int;
        lemma_floor(x, s);
        assert(pout < position as int) by (nonlinear_arith)
            requires
                pout * s <= x,
                x == position as int * shares as int,
                shares < s,
                position > 0,
                s > 0,
        ;
    } else {
        lemma_full_exit_takes_everything(base, supply);
    }
}

/// Law: swapping base for position (at least one position token in) keeps
/// the pool priced, and so does anyone sending tokens into the vault.
pub proof fn lemma_deploy_and_gifts_keep_pricing(base: u64, position: u64, supply: u64, base_out: u64, position_in: u64, base_gift: u64, position_gift: u64)
    requires
        priced(base, position, supply),
        base_out <= base,
        position_in > 0,
        position + position_in <= u64::MAX,
        base + base_gift <= u64::MAX,
        position + position_gift <= u64::MAX,
    ensures
        priced((base - base_out) as u64, (position + position_in) as u64, supply),
        priced((base + base_gift) as u64, (position + position_gift) as u64, supply),
{
}

/// Law: in a priced pool with no position, a deposit redeemed at once pays
/// back at most what was deposited, and exactly the deposit where the pool
/// was empty; this holds where the pool had shares or held nothing (a pool
/// with no shares that was sent tokens hands them to its first depositor).
pub proof fn lemma_deposit_then_redeem_returns_at_most_the_deposit(base: u64, supply: u64, amount: u64)
    requires
        priced(base, 0, supply),
        supply == 0 ==> base == 0,
        amount > 0,
        base + amount <= u64::MAX,
        supply + minted_shares(amount, supply, base) <= u64::MAX,
    ensures
        pro_rata(
            (base + amount) as u64,
            minted_shares(amount, supply, base),
            (supply + minted_shares(amount, supply, base)) as u64,
        ) <= amount,
        supply == 0 ==> pro_rata(
            (base + amount) as u64,
            minted_shares(amount, supply, base),
            (supply + minted_shares(amount, supply, base)) as u64,
        ) == amount,
{
    let q = minted_shares(amount, supply, base) as int;
    let b2 = base as int + amount as int;
    let s2 = supply as int + q;
    if supply == 0 {
        assert(q == amount as int);
        assert(b2 == amount as int);
        lemma_full_exit_takes_everything(amount, amount);
    } else {
        let x = amount as int * supply as int;
        assert(x >= 0) by (nonlinear_arith)
            requires
                x == amount as int * supply as int,
                amount >= 0,
                supply >= 0,
        ;
        assert(x <= amount as int * base as int) by (nonlinear_arith)
            requires
                x == amount as int * supply as int,
                supply <= base,
                amount >= 0,
        ;
        vstd::arithmetic::div_mod::lemma_div_is_ordered(x, amount as int * base as int, base as int);
        vstd::arithmetic::div_mod::lemma_div_by_multiple(amount as int, base as int);
        assert(x / base as int <= amount);
        lemma_floor(x, base as int);
        assert(q == x / base as int);
        let y = b2 * q;
        assert(y <= amount as int * s2) by (nonlinear_arith)
            requires
                q * base as int <= amount as int * supply as int,
                y == b2 * q,
                b2 == base as int + amount as int,
                s2 == supply as int + q,
        ;
        assert(y >= 0) by (nonlinear_arith)
            requires
                y == b2 * q,
                b2 >= 0,
                q >= 0,
        ;
        lemma_floor(y, s2);
        assert(y / s2 <= amount as int) by (nonlinear_arith)
            requires
                (y / s2) * s2 <= y,
                y <= amount as int * s2,
                s2 > 0,
        ;
    }
}

} // verus!

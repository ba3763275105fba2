//! The account checks that run before an instruction's handler: that token
//! accounts are the associated accounts of the right wallet, that state
//! accounts sit at their program-derived address, and that accounts an
//! instruction creates are still free.
use vstd::prelude::*;
use crate::address::{Address, same_address, is_associated, check_associated};
use crate::ledger::{Ledger, LedgerView, Mint, TokenAccount, TokenError};
use crate::lamports::LamportError;

verus! {

/// Why the accounts handed to an instruction are refused.
#[derive(Clone, Copy, Debug, PartialEq, Eq, Structural)]
pub enum ConstraintError {
    /// An account the instruction reads does not exist.
    AccountNotInitialized,
    /// An account the instruction creates already exists.
    AccountInUse,
    /// A state account does not name the account it must name.
    HasOne,
    /// A state account is not at the address its seeds derive.
    Seeds,
    /// A token account is not owned by the wallet it must belong to.
    TokenOwner,
    /// A token account does not hold the mint it must hold.
    TokenMint,
    /// A token account is not the associated account of its wallet and mint.
    Associated,
    /// A signer is one of the program's own state addresses, for which no
    /// key can sign.
    ProgramSigner,
}

/// Why an instruction fails.
#[derive(Clone, Copy, Debug, PartialEq, Eq, Structural)]
pub enum Failure<E> {
    /// The accounts were refused before the handler ran.
    Constraint(ConstraintError),
    /// The handler refused the request.
    Program(E),
    /// The token program refused one of the handler's operations.
    Token(TokenError),
    /// The handler aborted (divided by zero).
    Aborted,
    /// The system program refused a movement of lamports (paying the rent
    /// of a new account, or closing one).
    Lamports(LamportError),
}

/// Why an existing token account at `address` is refused as the associated
/// account of `wallet` for `mint`, if it is.
pub open spec fn existing_token_error(l: LedgerView, address: Address, wallet: Address, mint: Address) -> Option<ConstraintError> {
    if !l.tokens.contains_key(address) {
        Some(ConstraintError::AccountNotInitialized)
    } else if l.tokens[address].owner != wallet {
        Some(ConstraintError::TokenOwner)
    } else if !is_associated(address, wallet, mint) {
        Some(ConstraintError::Associated)
    } else {
        None
    }
}

/// Checks an existing associated token account.
pub fn check_existing_token(l: &Ledger, address: &Address, wallet: &Address, mint: &Address) -> (r: Result<TokenAccount, ConstraintError>)
    requires
        l.wf(),
    ensures
        match r {
            Ok(t) => existing_token_error(l@, *address, *wallet, *mint) is None && t == l@.tokens[*address],
            Err(e) => existing_token_error(l@, *address, *wallet, *mint) == Some(e),
        },
{
    let t = match l.token_account(address) {
        Some(t) => t,
        None => return Err(ConstraintError::AccountNotInitialized),
    };
    if !same_address(&t.owner, wallet) {
        return Err(ConstraintError::TokenOwner);
    }
    if !check_associated(address, wallet, mint) {
        return Err(ConstraintError::Associated);
    }
    Ok(t)
}

/// Why the associated token account of `wallet` for `mint` at `address`
/// is refused where the instruction creates it if it does not exist yet.
pub open spec fn token_if_needed_error(l: LedgerView, address: Address, wallet: Address, mint: Address) -> Option<ConstraintError> {
    if l.tokens.contains_key(address) {
        if l.tokens[address].mint != mint {
            Some(ConstraintError::TokenMint)
        } else if l.tokens[address].owner != wallet {
            Some(ConstraintError::TokenOwner)
        } else if !is_associated(address, wallet, mint) {
            Some(ConstraintError::Associated)
        } else {
            None
        }
    } else if !is_associated(address, wallet, mint) {
        Some(ConstraintError::Associated)
    } else if !l.mints.contains_key(mint) {
        Some(ConstraintError::AccountNotInitialized)
    } else {
        None
    }
}

/// The ledger once the associated token account at `address` exists.
pub open spec fn with_token(l: LedgerView, address: Address, wallet: Address, mint: Address) -> LedgerView {
    if l.tokens.contains_key(address) {
        l
    } else {
        l.opened(address, mint, wallet)
    }
}

/// Checks, and opens where it does not exist yet, the associated token
/// account of `wallet` for `mint` at `address`.
pub fn token_if_needed(l: &mut Ledger, address: &Address, wallet: &Address, mint: &Address) -> (r: Result<(), ConstraintError>)
    requires
        old(l).wf(),
    ensures
        final(l).wf(),
        match r {
            Ok(()) => token_if_needed_error(old(l)@, *address, *wallet, *mint) is None,
            Err(e) => token_if_needed_error(old(l)@, *address, *wallet, *mint) == Some(e),
        },
        final(l)@ == (if r is Ok { with_token(old(l)@, *address, *wallet, *mint) } else { old(l)@ }),
{
    match l.token_account(address) {
        Some(t) => {
            if !same_address(&t.mint, mint) {
                return Err(ConstraintError::TokenMint);
            }
            if !same_address(&t.owner, wallet) {
                return Err(ConstraintError::TokenOwner);
            }
            if !check_associated(address, wallet, mint) {
                return Err(ConstraintError::Associated);
            }
            Ok(())
        },
        None => {
            if !check_associated(address, wallet, mint) {
                return Err(ConstraintError::Associated);
            }
            match l.open_account(address, mint, wallet) {
                Ok(()) => Ok(()),
                Err(_) => Err(ConstraintError::AccountNotInitialized),
            }
        },
    }
}

/// Why the associated token account of `wallet` for `mint` at `address`
/// is refused where the instruction creates it, if it is.
pub open spec fn new_token_error(l: LedgerView, address: Address, wallet: Address, mint: Address) -> Option<ConstraintError> {
    if l.tokens.contains_key(address) {
        Some(ConstraintError::AccountInUse)
    } else if !is_associated(address, wallet, mint) {
        Some(ConstraintError::Associated)
    } else if !l.mints.contains_key(mint) {
        Some(ConstraintError::AccountNotInitialized)
    } else {
        None
    }
}

/// Checks, and opens, the new associated token account of `wallet` for
/// `mint` at `address`.
pub fn new_token(l: &mut Ledger, address: &Address, wallet: &Address, mint: &Address) -> (r: Result<(), ConstraintError>)
    requires
        old(l).wf(),
    ensures
        final(l).wf(),
        match r {
            Ok(()) => new_token_error(old(l)@, *address, *wallet, *mint) is None,
            Err(e) => new_token_error(old(l)@, *address, *wallet, *mint) == Some(e),
        },
        final(l)@ == (if r is Ok { old(l)@.opened(*address, *mint, *wallet) } else { old(l)@ }),
{
    match l.token_account(address) {
        Some(_) => Err(ConstraintError::AccountInUse),
        None => {
            if !check_associated(address, wallet, mint) {
                return Err(ConstraintError::Associated);
            }
            match l.open_account(address, mint, wallet) {
                Ok(()) => Ok(()),
                Err(_) => Err(ConstraintError::AccountNotInitialized),
            }
        },
    }
}

/// Checks that a mint exists at `address`.
pub fn check_mint(l: &Ledger, address: &Address) -> (r: Result<Mint, ConstraintError>)
    requires
        l.wf(),
    ensures
        match r {
            Ok(m) => l@.mints.contains_key(*address) && m == l@.mints[*address],
            Err(e) => !l@.mints.contains_key(*address) && e == ConstraintError::AccountNotInitialized,
        },
{
    match l.mint_account(address) {
        Some(m) => Ok(m),
        None => Err(ConstraintError::AccountNotInitialized),
    }
}

} // verus!

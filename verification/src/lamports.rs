//! Lamports: the native balance every account holds. Opening an account
//! funds it from its payer with the rent it must hold; closing an account
//! hands everything it holds to the account named as the destination.
use vstd::prelude::*;
use crate::address::Address;
use crate::ledger::{Keyed, Registry};

verus! {

/// The lamports held at one address.
#[derive(Clone, Copy)]
pub struct Balance {
    pub address: Address,
    pub lamports: u64,
}

impl Keyed for Balance {
    open spec fn key(&self) -> Address {
        self.address
    }

    fn get_key(&self) -> (r: Address) {
        self.address
    }
}

/// Why a movement of lamports is refused.
#[derive(Clone, Copy, Debug, PartialEq, Eq, Structural)]
pub enum LamportError {
    /// The payer holds fewer lamports than the movement takes.
    InsufficientLamports,
    /// The receiver would hold more lamports than fit in 64 bits.
    Overflow,
}

/// The lamports at `a`: zero where nothing is recorded.
pub open spec fn lamports_of(m: Map<Address, u64>, a: Address) -> u64 {
    if m.contains_key(a) {
        m[a]
    } else {
        0
    }
}

/// Why paying `amount` lamports from `from` to `to` is refused, if it is.
pub open spec fn lamport_pay_error(m: Map<Address, u64>, from: Address, to: Address, amount: u64) -> Option<LamportError> {
    if lamports_of(m, from) < amount {
        Some(LamportError::InsufficientLamports)
    } else if from != to && lamports_of(m, to) + amount > u64::MAX {
        Some(LamportError::Overflow)
    } else {
        None
    }
}

/// The balances after `amount` lamports move from `from` to `to`.
pub open spec fn lamports_paid(m: Map<Address, u64>, from: Address, to: Address, amount: u64) -> Map<Address, u64> {
    if from == to {
        m
    } else {
        m.insert(from, (lamports_of(m, from) - amount) as u64).insert(to, (lamports_of(m, to) + amount) as u64)
    }
}

/// Why closing `account` into `to` is refused, if it is.
pub open spec fn lamport_sweep_error(m: Map<Address, u64>, account: Address, to: Address) -> Option<LamportError> {
    if account != to && lamports_of(m, to) + lamports_of(m, account) > u64::MAX {
        Some(LamportError::Overflow)
    } else {
        None
    }
}

/// The balances after `account` closes and everything it held goes to `to`.
pub open spec fn lamports_swept(m: Map<Address, u64>, account: Address, to: Address) -> Map<Address, u64> {
    if account == to {
        m
    } else {
        m.insert(to, (lamports_of(m, to) + lamports_of(m, account)) as u64).remove(account)
    }
}

/// The balances after `payer` funds `account` with `rent`, where the
/// account is opened now (`opening`); unchanged where it already existed.
pub open spec fn funded(m: Map<Address, u64>, payer: Address, account: Address, rent: u64, opening: bool) -> Result<Map<Address, u64>, LamportError> {
    if !opening {
        Ok(m)
    } else {
        match lamport_pay_error(m, payer, account, rent) {
            Some(e) => Err(e),
            None => Ok(lamports_paid(m, payer, account, rent)),
        }
    }
}

/// The balances after `account` closes into `to`.
pub open spec fn closed_into(m: Map<Address, u64>, account: Address, to: Address) -> Result<Map<Address, u64>, LamportError> {
    match lamport_sweep_error(m, account, to) {
        Some(e) => Err(e),
        None => Ok(lamports_swept(m, account, to)),
    }
}

/// The lamports an account must hold to stay open: one figure for a
/// program's state account, one for a token account and one for a mint.
#[derive(Clone, Copy, Debug, PartialEq, Eq, Structural)]
pub struct Rent {
    pub state_account: u64,
    pub token_account: u64,
    pub mint_account: u64,
}

/// The lamport balances of every account.
pub struct Lamports {
    balances: Registry<Balance>,
}

impl View for Lamports {
    type V = Map<Address, u64>;

    closed spec fn view(&self) -> Map<Address, u64> {
        Map::new(|a: Address| self.balances@.contains_key(a), |a: Address| self.balances@[a].lamports)
    }
}

impl Lamports {
    pub closed spec fn wf(&self) -> bool {
        self.balances.wf()
    }

    /// No lamports anywhere.
    pub fn new() -> (r: Lamports)
        ensures
            r.wf(),
            r@ == Map::<Address, u64>::empty(),
    {
        let r = Lamports { balances: Registry::new() };
        proof {
            assert(r@ =~= Map::<Address, u64>::empty());
        }
        r
    }

    /// A copy of these balances.
    pub fn duplicate(&self) -> (r: Lamports)
        requires
            self.wf(),
        ensures
            r.wf(),
            r@ == self@,
    {
        let r = Lamports { balances: self.balances.duplicate() };
        proof {
            assert(r@ =~= self@);
        }
        r
    }

    /// The lamports at `a`.
    pub fn balance(&self, a: &Address) -> (r: u64)
        requires
            self.wf(),
        ensures
            r == lamports_of(self@, *a),
    {
        match self.balances.get(a) {
            Some(b) => b.lamports,
            None => 0,
        }
    }

    fn set(&mut self, a: &Address, lamports: u64)
        requires
            old(self).wf(),
        ensures
            final(self).wf(),
            final(self)@ == old(self)@.insert(*a, lamports),
    {
        let b = Balance { address: *a, lamports };
        if self.balances.contains(a) {
            self.balances.replace(b);
        } else {
            self.balances.insert(b);
        }
        proof {
            assert(self@ =~= old(self)@.insert(*a, lamports));
        }
    }

    /// Adds `amount` new lamports at `a` (an airdrop).
    pub fn credit(&mut self, a: &Address, amount: u64) -> (r: Result<(), LamportError>)
        requires
            old(self).wf(),
        ensures
            final(self).wf(),
            r is Ok <==> lamports_of(old(self)@, *a) + amount <= u64::MAX,
            final(self)@ == (if r is Ok {
                old(self)@.insert(*a, (lamports_of(old(self)@, *a) + amount) as u64)
            } else {
                old(self)@
            }),
    {
        let held = self.balance(a);
        if held > u64::MAX - amount {
            return Err(LamportError::Overflow);
        }
        self.set(a, held + amount);
        Ok(())
    }

    /// Moves `amount` lamports from `from` to `to`.
    pub fn pay(&mut self, from: &Address, to: &Address, amount: u64) -> (r: Result<(), LamportError>)
        requires
            old(self).wf(),
        ensures
            final(self).wf(),
            match lamport_pay_error(old(self)@, *from, *to, amount) {
                Some(e) => r == Err::<(), LamportError>(e) && final(self)@ == old(self)@,
                None => r is Ok && final(self)@ == lamports_paid(old(self)@, *from, *to, amount),
            },
    {
        let have = self.balance(from);
        if have < amount {
            return Err(LamportError::InsufficientLamports);
        }
        if crate::address::same_address(from, to) {
            return Ok(());
        }
        let there = self.balance(to);
        if there > u64::MAX - amount {
            return Err(LamportError::Overflow);
        }
        self.set(from, have - amount);
        self.set(to, there + amount);
        Ok(())
    }

    /// Funds `account` with `rent` from `payer` where it is opened now.
    pub fn fund(&mut self, payer: &Address, account: &Address, rent: u64, opening: bool) -> (r: Result<(), LamportError>)
        requires
            old(self).wf(),
        ensures
            final(self).wf(),
            match funded(old(self)@, *payer, *account, rent, opening) {
                Ok(m) => r is Ok && final(self)@ == m,
                Err(e) => r == Err::<(), LamportError>(e) && final(self)@ == old(self)@,
            },
    {
        if opening {
            self.pay(payer, account, rent)
        } else {
            Ok(())
        }
    }

    /// Closes `account`: everything it holds goes to `to`.
    pub fn sweep(&mut self, account: &Address, to: &Address) -> (r: Result<(), LamportError>)
        requires
            old(self).wf(),
        ensures
            final(self).wf(),
            match lamport_sweep_error(old(self)@, *account, *to) {
                Some(e) => r == Err::<(), LamportError>(e) && final(self)@ == old(self)@,
                None => r is Ok && final(self)@ == lamports_swept(old(self)@, *account, *to),
            },
    {
        if crate::address::same_address(account, to) {
            return Ok(());
        }
        let have = self.balance(account);
        let there = self.balance(to);
        if there > u64::MAX - have {
            return Err(LamportError::Overflow);
        }
        self.set(to, there + have);
        if self.balances.contains(account) {
            self.balances.remove(account);
        }
        proof {
            assert(self@ =~= lamports_swept(old(self)@, *account, *to));
        }
        Ok(())
    }
}

} // verus!

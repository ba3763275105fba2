//! The token ledger the programs run against: token accounts and mints,
//! with the transfer, mint, burn and close operations of the token program.
//!
//! The ledger keeps, as part of its well-formedness, that the supply of each
//! mint is exactly what the token accounts of that mint hold.
use vstd::prelude::*;
use crate::address::{Address, same_address};

verus! {

/// Something stored under an address.
pub trait Keyed: Copy {
    spec fn key(&self) -> Address;

    fn get_key(&self) -> (r: Address)
        ensures
            r == self.key(),
    ;
}

/// Records stored under distinct addresses.
pub struct Registry<T: Keyed> {
    entries: Vec<T>,
}

pub open spec fn unique_keys<T: Keyed>(s: Seq<T>) -> bool {
    forall|i: int, j: int| 0 <= i < j < s.len() ==> s[i].key() != s[j].key()
}

pub open spec fn key_map<T: Keyed>(s: Seq<T>) -> Map<Address, T> {
    Map::new(
        |a: Address| exists|i: int| 0 <= i < s.len() && s[i].key() == a,
        |a: Address| s[choose|i: int| 0 <= i < s.len() && s[i].key() == a],
    )
}

proof fn lemma_key_map_at<T: Keyed>(s: Seq<T>, i: int)
    requires
        unique_keys(s),
        0 <= i < s.len(),
    ensures
        key_map(s).contains_key(s[i].key()),
        key_map(s)[s[i].key()] == s[i],
{
    let a = s[i].key();
    assert(exists|k: int| 0 <= k < s.len() && s[k].key() == a);
    let j = choose|k: int| 0 <= k < s.len() && s[k].key() == a;
    if j != i {
        if j < i {
            assert(s[j].key() != s[i].key());
        } else {
            assert(s[i].key() != s[j].key());
        }
    }
}

proof fn lemma_key_map_update<T: Keyed>(s: Seq<T>, i: int, t: T)
    requires
        unique_keys(s),
        0 <= i < s.len(),
        s[i].key() == t.key(),
    ensures
        unique_keys(s.update(i, t)),
        key_map(s.update(i, t)) =~= key_map(s).insert(t.key(), t),
{
    let u = s.update(i, t);
    assert forall|x: int, y: int| 0 <= x < y < u.len() implies u[x].key() != u[y].key() by {
        assert(u[x].key() == s[x].key());
        assert(u[y].key() == s[y].key());
    }
    assert forall|a: Address| key_map(u).contains_key(a) <==> key_map(s).insert(t.key(), t).contains_key(a) by {
        if exists|k: int| 0 <= k < s.len() && s[k].key() == a {
            let k = choose|k: int| 0 <= k < s.len() && s[k].key() == a;
            assert(u[k].key() == a);
        }
        if exists|k: int| 0 <= k < u.len() && u[k].key() == a {
            let k = choose|k: int| 0 <= k < u.len() && u[k].key() == a;
            assert(s[k].key() == a);
        }
    }
    assert forall|a: Address| key_map(u).contains_key(a) implies key_map(u)[a] == key_map(s).insert(t.key(), t)[a] by {
        let k = choose|k: int| 0 <= k < u.len() && u[k].key() == a;
        lemma_key_map_at(u, k);
        lemma_key_map_at(s, k);
    }
}

proof fn lemma_key_map_push<T: Keyed>(s: Seq<T>, t: T)
    requires
        unique_keys(s),
        !key_map(s).contains_key(t.key()),
    ensures
        unique_keys(s.push(t)),
        key_map(s.push(t)) =~= key_map(s).insert(t.key(), t),
{
    let u = s.push(t);
    assert forall|x: int, y: int| 0 <= x < y < u.len() implies u[x].key() != u[y].key() by {
        if y == s.len() {
            assert(u[x] == s[x]);
            if s[x].key() == t.key() {
                assert(key_map(s).contains_key(t.key()));
            }
        }
    }
    assert forall|a: Address| key_map(u).contains_key(a) <==> key_map(s).insert(t.key(), t).contains_key(a) by {
        if exists|k: int| 0 <= k < s.len() && s[k].key() == a {
            let k = choose|k: int| 0 <= k < s.len() && s[k].key() == a;
            assert(u[k].key() == a);
        }
        if a == t.key() {
            assert(u[s.len() as int].key() == a);
        }
        if exists|k: int| 0 <= k < u.len() && u[k].key() == a {
            let k = choose|k: int| 0 <= k < u.len() && u[k].key() == a;
            if k < s.len() {
                assert(s[k].key() == a);
            }
        }
    }
    assert forall|a: Address| key_map(u).contains_key(a) implies key_map(u)[a] == key_map(s).insert(t.key(), t)[a] by {
        let k = choose|k: int| 0 <= k < u.len() && u[k].key() == a;
        lemma_key_map_at(u, k);
        if k < s.len() {
            lemma_key_map_at(s, k);
        }
    }
}

proof fn lemma_key_map_remove<T: Keyed>(s: Seq<T>, i: int)
    requires
        unique_keys(s),
        0 <= i < s.len(),
    ensures
        unique_keys(s.remove(i)),
        key_map(s.remove(i)) =~= key_map(s).remove(s[i].key()),
{
    let u = s.remove(i);
    let gone = s[i].key();
    assert forall|x: int| 0 <= x < u.len() implies u[x] == (if x < i { s[x] } else { s[x + 1] }) by {}
    assert forall|x: int, y: int| 0 <= x < y < u.len() implies u[x].key() != u[y].key() by {
        let sx = if x < i { x } else { x + 1 };
        let sy = if y < i { y } else { y + 1 };
        assert(sx < sy);
        assert(u[x] == s[sx]);
        assert(u[y] == s[sy]);
    }
    assert forall|a: Address| key_map(u).contains_key(a) <==> key_map(s).remove(gone).contains_key(a) by {
        if exists|k: int| 0 <= k < u.len() && u[k].key() == a {
            let k = choose|k: int| 0 <= k < u.len() && u[k].key() == a;
            let sk = if k < i { k } else { k + 1 };
            assert(s[sk].key() == a);
            if a == gone {
                if sk < i {
                    assert(s[sk].key() != s[i].key());
                } else {
                    assert(s[i].key() != s[sk].key());
                }
            }
        }
        if exists|k: int| 0 <= k < s.len() && s[k].key() == a && a != gone {
            let k = choose|k: int| 0 <= k < s.len() && s[k].key() == a && a != gone;
            assert(k != i);
            let uk = if k < i { k } else { k - 1 };
            assert(u[uk].key() == a);
        }
    }
    assert forall|a: Address| key_map(u).contains_key(a) implies key_map(u)[a] == key_map(s).remove(gone)[a] by {
        let k = choose|k: int| 0 <= k < u.len() && u[k].key() == a;
        let sk = if k < i { k } else { k + 1 };
        lemma_key_map_at(u, k);
        lemma_key_map_at(s, sk);
    }
}

impl<T: Keyed> View for Registry<T> {
    type V = Map<Address, T>;

    closed spec fn view(&self) -> Map<Address, T> {
        key_map(self.entries@)
    }
}

impl<T: Keyed> Registry<T> {
    /// Records are stored under distinct addresses.
    pub closed spec fn wf(&self) -> bool {
        unique_keys(self.entries@)
    }

    /// Every record is stored under its own address.
    pub proof fn lemma_keys(&self)
        requires
            self.wf(),
        ensures
            forall|a: Address| #[trigger] self@.contains_key(a) ==> self@[a].key() == a,
    {
        assert forall|a: Address| #[trigger] self@.contains_key(a) implies self@[a].key() == a by {
            let k = choose|k: int| 0 <= k < self.entries@.len() && self.entries@[k].key() == a;
            lemma_key_map_at(self.entries@, k);
        }
    }

    /// An empty registry.
    pub fn new() -> (r: Self)
        ensures
            r.wf(),
            r@ == Map::<Address, T>::empty(),
    {
        let r = Registry { entries: Vec::new() };
        proof {
            assert(r@ =~= Map::<Address, T>::empty());
        }
        r
    }

    fn index_of(&self, a: &Address) -> (r: Option<usize>)
        requires
            self.wf(),
        ensures
            match r {
                Some(i) => {
                    &&& i < self.entries@.len()
                    &&& self.entries@[i as int].key() == *a
                    &&& self@.contains_key(*a)
                    &&& self@[*a] == self.entries@[i as int]
                },
                None => !self@.contains_key(*a),
            },
    {
        let mut i: usize = 0;
        while i < self.entries.len()
            invariant
                0 <= i <= self.entries@.len(),
                unique_keys(self.entries@),
                forall|j: int| 0 <= j < i ==> self.entries@[j].key() != *a,
            decreases self.entries@.len() - i,
        {
            let k = self.entries[i].get_key();
            if same_address(&k, a) {
                proof {
                    lemma_key_map_at(self.entries@, i as int);
                }
                return Some(i);
            }
            i = i + 1;
        }
        None
    }

    /// The record stored under `a`, if any.
    pub fn get(&self, a: &Address) -> (r: Option<T>)
        requires
            self.wf(),
        ensures
            r == (if self@.contains_key(*a) { Some(self@[*a]) } else { None::<T> }),
    {
        match self.index_of(a) {
            Some(i) => Some(self.entries[i]),
            None => None,
        }
    }

    /// Whether a record is stored under `a`.
    pub fn contains(&self, a: &Address) -> (r: bool)
        requires
            self.wf(),
        ensures
            r == self@.contains_key(*a),
    {
        self.index_of(a).is_some()
    }

    /// The records, in the order they are stored.
    pub closed spec fn records(&self) -> Seq<T> {
        self.entries@
    }

    /// A copy of this registry.
    pub fn duplicate(&self) -> (r: Self)
        requires
            self.wf(),
        ensures
            r.wf(),
            r@ == self@,
            r.records() == self.records(),
    {
        let mut out: Vec<T> = Vec::new();
        let mut i: usize = 0;
        while i < self.entries.len()
            invariant
                0 <= i <= self.entries@.len(),
                out@ == self.entries@.take(i as int),
            decreases self.entries@.len() - i,
        {
            out.push(self.entries[i]);
            i = i + 1;
            proof {
                assert(out@ =~= self.entries@.take(i as int));
            }
        }
        proof {
            assert(self.entries@.take(self.entries@.len() as int) =~= self.entries@);
        }
        Registry { entries: out }
    }

    /// Stores `t` under its address, which holds no record yet.
    pub fn insert(&mut self, t: T)
        requires
            old(self).wf(),
            !old(self)@.contains_key(t.key()),
        ensures
            final(self).wf(),
            final(self)@ == old(self)@.insert(t.key(), t),
    {
        proof {
            lemma_key_map_push(self.entries@, t);
        }
        self.entries.push(t);
    }

    /// Replaces the record stored under the address of `t`.
    pub fn replace(&mut self, t: T)
        requires
            old(self).wf(),
            old(self)@.contains_key(t.key()),
        ensures
            final(self).wf(),
            final(self)@ == old(self)@.insert(t.key(), t),
    {
        let k = t.get_key();
        let i = self.index_of(&k).unwrap();
        proof {
            lemma_key_map_update(self.entries@, i as int, t);
        }
        self.entries.set(i, t);
    }

    /// Removes the record stored under `a`, which holds one.
    pub fn remove(&mut self, a: &Address)
        requires
            old(self).wf(),
            old(self)@.contains_key(*a),
        ensures
            final(self).wf(),
            final(self)@ == old(self)@.remove(*a),
    {
        let i = self.index_of(a).unwrap();
        proof {
            lemma_key_map_remove(self.entries@, i as int);
        }
        self.entries.remove(i);
    }
}

/// A token account: which mint it holds, who may move its tokens, and how
/// many it holds.
#[derive(Clone, Copy)]
pub struct TokenAccount {
    pub address: Address,
    pub mint: Address,
    pub owner: Address,
    pub amount: u64,
}

impl Keyed for TokenAccount {
    open spec fn key(&self) -> Address {
        self.address
    }

    fn get_key(&self) -> (r: Address) {
        self.address
    }
}

/// A mint: who may mint it, and how many of its tokens exist.
#[derive(Clone, Copy)]
pub struct Mint {
    pub address: Address,
    pub authority: Address,
    pub supply: u64,
    pub decimals: u8,
}

impl Keyed for Mint {
    open spec fn key(&self) -> Address {
        self.address
    }

    fn get_key(&self) -> (r: Address) {
        self.address
    }
}

/// Why the token program refuses an operation.
#[derive(Clone, Copy, Debug, PartialEq, Eq, Structural)]
pub enum TokenError {
    /// An account or mint the operation names does not exist.
    AccountMissing,
    /// The accounts hold different mints, or the account does not hold the mint.
    MintMismatch,
    /// The signer is not the owner of the account (or the mint authority).
    OwnerMismatch,
    /// The account holds fewer tokens than the operation moves.
    InsufficientFunds,
    /// The supply would exceed `u64::MAX`.
    Overflow,
    /// An account that still holds tokens cannot be closed.
    NonZeroBalance,
    /// The address is already in use.
    AlreadyInUse,
}

/// The tokens of mint `m` that `t` holds.
pub open spec fn held(t: TokenAccount, m: Address) -> int {
    if t.mint == m {
        t.amount as int
    } else {
        0
    }
}

/// The tokens of mint `m` that the accounts of `s` hold together.
pub open spec fn total(s: Seq<TokenAccount>, m: Address) -> int
    decreases s.len(),
{
    if s.len() == 0 {
        0
    } else {
        total(s.drop_last(), m) + held(s.last(), m)
    }
}

proof fn lemma_total_update(s: Seq<TokenAccount>, i: int, t: TokenAccount, m: Address)
    requires
        0 <= i < s.len(),
    ensures
        total(s.update(i, t), m) == total(s, m) - held(s[i], m) + held(t, m),
    decreases s.len(),
{
    let u = s.update(i, t);
    if i == s.len() - 1 {
        assert(u.drop_last() =~= s.drop_last());
    } else {
        assert(u.drop_last() =~= s.drop_last().update(i, t));
        lemma_total_update(s.drop_last(), i, t, m);
    }
}

proof fn lemma_total_push(s: Seq<TokenAccount>, t: TokenAccount, m: Address)
    ensures
        total(s.push(t), m) == total(s, m) + held(t, m),
{
    assert(s.push(t).drop_last() =~= s);
}

proof fn lemma_total_remove(s: Seq<TokenAccount>, i: int, m: Address)
    requires
        0 <= i < s.len(),
    ensures
        total(s.remove(i), m) == total(s, m) - held(s[i], m),
    decreases s.len(),
{
    let u = s.remove(i);
    if i == s.len() - 1 {
        assert(u =~= s.drop_last());
    } else {
        assert(u.drop_last() =~= s.drop_last().remove(i));
        assert(u.last() == s.last());
        lemma_total_remove(s.drop_last(), i, m);
    }
}

proof fn lemma_total_nonneg(s: Seq<TokenAccount>, m: Address)
    ensures
        total(s, m) >= 0,
    decreases s.len(),
{
    if s.len() > 0 {
        lemma_total_nonneg(s.drop_last(), m);
    }
}

proof fn lemma_total_bounds_one(s: Seq<TokenAccount>, i: int, m: Address)
    requires
        0 <= i < s.len(),
    ensures
        held(s[i], m) <= total(s, m),
    decreases s.len(),
{
    lemma_total_nonneg(s.drop_last(), m);
    if i < s.len() - 1 {
        lemma_total_bounds_one(s.drop_last(), i, m);
    }
}

proof fn lemma_total_bounds_two(s: Seq<TokenAccount>, i: int, j: int, m: Address)
    requires
        0 <= i < s.len(),
        0 <= j < s.len(),
        i != j,
    ensures
        held(s[i], m) + held(s[j], m) <= total(s, m),
    decreases s.len(),
{
    let n = s.len() - 1;
    if i == n {
        lemma_total_bounds_one(s.drop_last(), j, m);
    } else if j == n {
        lemma_total_bounds_one(s.drop_last(), i, m);
    } else {
        lemma_total_bounds_two(s.drop_last(), i, j, m);
    }
}

/// What a ledger holds: its token accounts and its mints, by address.
pub struct LedgerView {
    pub tokens: Map<Address, TokenAccount>,
    pub mints: Map<Address, Mint>,
}

/// `t` holding `amount` tokens.
pub open spec fn with_amount(t: TokenAccount, amount: int) -> TokenAccount {
    TokenAccount { amount: amount as u64, ..t }
}

/// `m` with `supply` tokens in existence.
pub open spec fn with_supply(m: Mint, supply: int) -> Mint {
    Mint { supply: supply as u64, ..m }
}

impl LedgerView {
    /// Why a transfer of `amount` from `source` to `destination` signed by
    /// `authority` is refused, if it is.
    pub open spec fn transfer_error(self, source: Address, destination: Address, authority: Address, amount: u64) -> Option<TokenError> {
        if !self.tokens.contains_key(source) || !self.tokens.contains_key(destination) {
            Some(TokenError::AccountMissing)
        } else if self.tokens[source].mint != self.tokens[destination].mint {
            Some(TokenError::MintMismatch)
        } else if self.tokens[source].owner != authority {
            Some(TokenError::OwnerMismatch)
        } else if self.tokens[source].amount < amount {
            Some(TokenError::InsufficientFunds)
        } else {
            None
        }
    }

    /// The ledger after `amount` tokens move from `source` to `destination`.
    pub open spec fn transferred(self, source: Address, destination: Address, amount: u64) -> LedgerView {
        if source == destination {
            self
        } else {
            LedgerView {
                tokens: self.tokens.insert(
                    source,
                    with_amount(self.tokens[source], self.tokens[source].amount - amount),
                ).insert(
                    destination,
                    with_amount(self.tokens[destination], self.tokens[destination].amount + amount),
                ),
                mints: self.mints,
            }
        }
    }

    /// Why minting `amount` tokens of `mint` to `destination` signed by
    /// `authority` is refused, if it is.
    pub open spec fn mint_to_error(self, mint: Address, destination: Address, authority: Address, amount: u64) -> Option<TokenError> {
        if !self.mints.contains_key(mint) || !self.tokens.contains_key(destination) {
            Some(TokenError::AccountMissing)
        } else if self.tokens[destination].mint != mint {
            Some(TokenError::MintMismatch)
        } else if self.mints[mint].authority != authority {
            Some(TokenError::OwnerMismatch)
        } else if self.mints[mint].supply + amount > u64::MAX {
            Some(TokenError::Overflow)
        } else {
            None
        }
    }

    /// The ledger after `amount` new tokens of `mint` go to `destination`.
    pub open spec fn minted(self, mint: Address, destination: Address, amount: u64) -> LedgerView {
        LedgerView {
            tokens: self.tokens.insert(
                destination,
                with_amount(self.tokens[destination], self.tokens[destination].amount + amount),
            ),
            mints: self.mints.insert(mint, with_supply(self.mints[mint], self.mints[mint].supply + amount)),
        }
    }

    /// Why burning `amount` tokens of `mint` from `source` signed by
    /// `authority` is refused, if it is.
    pub open spec fn burn_error(self, source: Address, mint: Address, authority: Address, amount: u64) -> Option<TokenError> {
        if !self.tokens.contains_key(source) || !self.mints.contains_key(mint) {
            Some(TokenError::AccountMissing)
        } else if self.tokens[source].mint != mint {
            Some(TokenError::MintMismatch)
        } else if self.tokens[source].owner != authority {
            Some(TokenError::OwnerMismatch)
        } else if self.tokens[source].amount < amount {
            Some(TokenError::InsufficientFunds)
        } else {
            None
        }
    }

    /// The ledger after `amount` tokens of `mint` held by `source` are destroyed.
    pub open spec fn burned(self, source: Address, mint: Address, amount: u64) -> LedgerView {
        LedgerView {
            tokens: self.tokens.insert(
                source,
                with_amount(self.tokens[source], self.tokens[source].amount - amount),
            ),
            mints: self.mints.insert(mint, with_supply(self.mints[mint], self.mints[mint].supply - amount)),
        }
    }

    /// Why closing `account` signed by `authority` is refused, if it is.
    pub open spec fn close_error(self, account: Address, authority: Address) -> Option<TokenError> {
        if !self.tokens.contains_key(account) {
            Some(TokenError::AccountMissing)
        } else if self.tokens[account].owner != authority {
            Some(TokenError::OwnerMismatch)
        } else if self.tokens[account].amount != 0 {
            Some(TokenError::NonZeroBalance)
        } else {
            None
        }
    }

    /// The ledger after `account` is closed.
    pub open spec fn closed(self, account: Address) -> LedgerView {
        LedgerView { tokens: self.tokens.remove(account), mints: self.mints }
    }

    /// Why opening an account at `address` for `mint` is refused, if it is.
    pub open spec fn open_error(self, address: Address, mint: Address) -> Option<TokenError> {
        if self.tokens.contains_key(address) {
            Some(TokenError::AlreadyInUse)
        } else if !self.mints.contains_key(mint) {
            Some(TokenError::AccountMissing)
        } else {
            None
        }
    }

    /// The ledger after an empty account of `mint` owned by `owner` opens at
    /// `address`.
    pub open spec fn opened(self, address: Address, mint: Address, owner: Address) -> LedgerView {
        LedgerView {
            tokens: self.tokens.insert(address, TokenAccount { address, mint, owner, amount: 0 }),
            mints: self.mints,
        }
    }

    /// The ledger after a mint with no tokens is created at `address`.
    pub open spec fn mint_created(self, address: Address, authority: Address, decimals: u8) -> LedgerView {
        LedgerView {
            tokens: self.tokens,
            mints: self.mints.insert(address, Mint { address, authority, supply: 0, decimals }),
        }
    }

    /// The balance of `a`, zero where there is no such account.
    pub open spec fn balance(self, a: Address) -> u64 {
        if self.tokens.contains_key(a) {
            self.tokens[a].amount
        } else {
            0
        }
    }

    /// The supply of `m`, zero where there is no such mint.
    pub open spec fn supply(self, m: Address) -> u64 {
        if self.mints.contains_key(m) {
            self.mints[m].supply
        } else {
            0
        }
    }
}

/// Turns a refusal into a result.
pub open spec fn outcome(e: Option<TokenError>) -> Result<(), TokenError> {
    match e {
        Some(e) => Err(e),
        None => Ok(()),
    }
}

/// Token accounts and mints.
pub struct Ledger {
    tokens: Registry<TokenAccount>,
    mints: Registry<Mint>,
}

impl View for Ledger {
    type V = LedgerView;

    closed spec fn view(&self) -> LedgerView {
        LedgerView { tokens: self.tokens@, mints: self.mints@ }
    }
}

impl Ledger {
    /// The tokens of mint `m` that all token accounts hold together.
    pub closed spec fn holdings(&self, m: Address) -> int {
        total(self.tokens.entries@, m)
    }

    /// Accounts and mints sit at distinct addresses, every account holds a
    /// mint that exists, and the supply of every mint is what the accounts
    /// of that mint hold.
    pub closed spec fn wf(&self) -> bool {
        &&& self.tokens.wf()
        &&& self.mints.wf()
        &&& forall|i: int|
            0 <= i < self.tokens.entries@.len() ==> self.mints@.contains_key(
                #[trigger] self.tokens.entries@[i].mint,
            )
        &&& forall|m: Address| #[trigger]
            self.mints@.contains_key(m) ==> self.mints@[m].supply == total(self.tokens.entries@, m)
    }

    /// Law: the supply of a mint is exactly what its token accounts hold,
    /// each account holds at most the supply of its mint, and two distinct
    /// accounts of one mint hold at most that supply together.
    pub proof fn lemma_supply_is_holdings(&self, m: Address)
        requires
            self.wf(),
            self@.mints.contains_key(m),
        ensures
            self@.mints[m].supply == self.holdings(m),
            forall|a: Address|
                #[trigger] self@.tokens.contains_key(a) && self@.tokens[a].mint == m
                    ==> self@.tokens[a].amount <= self@.mints[m].supply,
            forall|a: Address, b: Address|
                #![trigger self@.tokens[a], self@.tokens[b]]
                self@.tokens.contains_key(a) && self@.tokens.contains_key(b) && a != b
                    && self@.tokens[a].mint == m && self@.tokens[b].mint == m
                    ==> self@.tokens[a].amount + self@.tokens[b].amount <= self@.mints[m].supply,
    {
        let s = self.tokens.entries@;
        assert forall|a: Address|
            #[trigger] self@.tokens.contains_key(a) && self@.tokens[a].mint == m
                implies self@.tokens[a].amount <= self@.mints[m].supply by {
            let i = choose|k: int| 0 <= k < s.len() && s[k].key() == a;
            lemma_key_map_at(s, i);
            lemma_total_bounds_one(s, i, m);
        }
        assert forall|a: Address, b: Address|
            #![trigger self@.tokens[a], self@.tokens[b]]
            self@.tokens.contains_key(a) && self@.tokens.contains_key(b) && a != b
                && self@.tokens[a].mint == m && self@.tokens[b].mint == m
                implies self@.tokens[a].amount + self@.tokens[b].amount <= self@.mints[m].supply by {
            let i = choose|k: int| 0 <= k < s.len() && s[k].key() == a;
            let j = choose|k: int| 0 <= k < s.len() && s[k].key() == b;
            lemma_key_map_at(s, i);
            lemma_key_map_at(s, j);
            lemma_total_bounds_two(s, i, j, m);
        }
    }

    /// Every account is stored under its own address and holds a mint that
    /// exists; every mint is stored under its own address.
    pub proof fn lemma_records(&self)
        requires
            self.wf(),
        ensures
            forall|a: Address| #[trigger] self@.tokens.contains_key(a) ==> self@.tokens[a].address == a,
            forall|a: Address| #[trigger] self@.tokens.contains_key(a) ==> self@.mints.contains_key(self@.tokens[a].mint),
            forall|a: Address| #[trigger] self@.mints.contains_key(a) ==> self@.mints[a].address == a,
    {
        self.tokens.lemma_keys();
        self.mints.lemma_keys();
        let s = self.tokens.entries@;
        assert forall|a: Address| #[trigger] self@.tokens.contains_key(a) implies self@.mints.contains_key(self@.tokens[a].mint) by {
            let i = choose|k: int| 0 <= k < s.len() && s[k].key() == a;
            lemma_key_map_at(s, i);
        }
    }

    /// An empty ledger.
    pub fn new() -> (r: Ledger)
        ensures
            r.wf(),
            r@.tokens == Map::<Address, TokenAccount>::empty(),
            r@.mints == Map::<Address, Mint>::empty(),
    {
        let r = Ledger { tokens: Registry { entries: Vec::new() }, mints: Registry { entries: Vec::new() } };
        proof {
            assert(r@.tokens =~= Map::<Address, TokenAccount>::empty());
            assert(r@.mints =~= Map::<Address, Mint>::empty());
        }
        r
    }

    /// A copy of this ledger, to work on and keep only where every step of
    /// an instruction succeeds.
    pub fn duplicate(&self) -> (r: Ledger)
        requires
            self.wf(),
        ensures
            r.wf(),
            r@ == self@,
    {
        Ledger { tokens: self.tokens.duplicate(), mints: self.mints.duplicate() }
    }

    /// The token account at `a`, if any.
    pub fn token_account(&self, a: &Address) -> (r: Option<TokenAccount>)
        requires
            self.wf(),
        ensures
            r == (if self@.tokens.contains_key(*a) { Some(self@.tokens[*a]) } else { None::<TokenAccount> }),
    {
        self.tokens.get(a)
    }

    /// The mint at `a`, if any.
    pub fn mint_account(&self, a: &Address) -> (r: Option<Mint>)
        requires
            self.wf(),
        ensures
            r == (if self@.mints.contains_key(*a) { Some(self@.mints[*a]) } else { None::<Mint> }),
    {
        self.mints.get(a)
    }

    /// The balance of the account at `a`; zero where there is none.
    pub fn balance(&self, a: &Address) -> (r: u64)
        requires
            self.wf(),
        ensures
            r == self@.balance(*a),
    {
        match self.tokens.get(a) {
            Some(t) => t.amount,
            None => 0,
        }
    }

    /// The supply of the mint at `m`; zero where there is none.
    pub fn supply(&self, m: &Address) -> (r: u64)
        requires
            self.wf(),
        ensures
            r == self@.supply(*m),
    {
        match self.mints.get(m) {
            Some(x) => x.supply,
            None => 0,
        }
    }

    /// Creates a mint with no tokens at `address`.
    pub fn create_mint(&mut self, address: &Address, authority: &Address, decimals: u8) -> (r: Result<(), TokenError>)
        requires
            old(self).wf(),
        ensures
            final(self).wf(),
            r == (if old(self)@.mints.contains_key(*address) { Err(TokenError::AlreadyInUse) } else { Ok(()) }),
            final(self)@ == (if r is Ok { old(self)@.mint_created(*address, *authority, decimals) } else { old(self)@ }),
    {
        if self.mints.contains(address) {
            return Err(TokenError::AlreadyInUse);
        }
        let m = Mint { address: *address, authority: *authority, supply: 0, decimals };
        let ghost s = self.tokens.entries@;
        proof {
            assert forall|i: int| 0 <= i < s.len() implies #[trigger] s[i].mint != *address by {
                assert(self.mints@.contains_key(s[i].mint));
            }
            lemma_total_zero_without_accounts(s, *address);
        }
        self.mints.insert(m);
        proof {
            assert forall|x: Address| #[trigger] self.mints@.contains_key(x) implies self.mints@[x].supply
                == total(s, x) by {}
            assert(self@ =~= old(self)@.mint_created(*address, *authority, decimals));
        }
        Ok(())
    }

    /// Opens an empty account of `mint` owned by `owner` at `address`.
    pub fn open_account(&mut self, address: &Address, mint: &Address, owner: &Address) -> (r: Result<(), TokenError>)
        requires
            old(self).wf(),
        ensures
            final(self).wf(),
            r == outcome(old(self)@.open_error(*address, *mint)),
            final(self)@ == (if r is Ok { old(self)@.opened(*address, *mint, *owner) } else { old(self)@ }),
    {
        if self.tokens.contains(address) {
            return Err(TokenError::AlreadyInUse);
        }
        if !self.mints.contains(mint) {
            return Err(TokenError::AccountMissing);
        }
        let t = TokenAccount { address: *address, mint: *mint, owner: *owner, amount: 0 };
        let ghost s = self.tokens.entries@;
        proof {
            lemma_key_map_push(s, t);
        }
        self.tokens.entries.push(t);
        proof {
            assert forall|m: Address| #[trigger] self.mints@.contains_key(m) implies self.mints@[m].supply
                == total(self.tokens.entries@, m) by {
                lemma_total_push(s, t, m);
            }
            assert forall|i: int| 0 <= i < self.tokens.entries@.len() implies self.mints@.contains_key(
                #[trigger] self.tokens.entries@[i].mint,
            ) by {
                if i < s.len() {
                    assert(self.tokens.entries@[i] == s[i]);
                }
            }
            assert(self@ =~= old(self)@.opened(*address, *mint, *owner));
        }
        Ok(())
    }

    /// Moves `amount` tokens from `source` to `destination`, signed by
    /// `authority`; the token program's `transfer`.
    pub fn transfer(&mut self, source: &Address, destination: &Address, authority: &Address, amount: u64) -> (r: Result<(), TokenError>)
        requires
            old(self).wf(),
        ensures
            final(self).wf(),
            r == outcome(old(self)@.transfer_error(*source, *destination, *authority, amount)),
            final(self)@ == (if r is Ok { old(self)@.transferred(*source, *destination, amount) } else { old(self)@ }),
    {
        let si = match self.tokens.index_of(source) {
            Some(i) => i,
            None => return Err(TokenError::AccountMissing),
        };
        let di = match self.tokens.index_of(destination) {
            Some(i) => i,
            None => return Err(TokenError::AccountMissing),
        };
        let src = self.tokens.entries[si];
        let dst = self.tokens.entries[di];
        if !same_address(&src.mint, &dst.mint) {
            return Err(TokenError::MintMismatch);
        }
        if !same_address(&src.owner, authority) {
            return Err(TokenError::OwnerMismatch);
        }
        if src.amount < amount {
            return Err(TokenError::InsufficientFunds);
        }
        if si == di {
            return Ok(());
        }
        let ghost s0 = self.tokens.entries@;
        proof {
            assert(self.mints@.contains_key(src.mint));
            lemma_total_bounds_two(s0, si as int, di as int, src.mint);
        }
        let new_src = TokenAccount { amount: src.amount - amount, ..src };
        let new_dst = TokenAccount { amount: dst.amount + amount, ..dst };
        proof {
            lemma_key_map_update(s0, si as int, new_src);
        }
        self.tokens.entries.set(si, new_src);
        let ghost s1 = self.tokens.entries@;
        proof {
            lemma_key_map_update(s1, di as int, new_dst);
        }
        self.tokens.entries.set(di, new_dst);
        proof {
            let s2 = self.tokens.entries@;
            assert forall|m: Address| #[trigger] self.mints@.contains_key(m) implies self.mints@[m].supply
                == total(s2, m) by {
                lemma_total_update(s0, si as int, new_src, m);
                lemma_total_update(s1, di as int, new_dst, m);
            }
            assert forall|i: int| 0 <= i < s2.len() implies self.mints@.contains_key(#[trigger] s2[i].mint) by {
                assert(s2[i].mint == s0[i].mint);
            }
            assert(*source != *destination);
            assert(self@.tokens =~= old(self)@.transferred(*source, *destination, amount).tokens);
            assert(self@ =~= old(self)@.transferred(*source, *destination, amount));
        }
        Ok(())
    }

    /// Mints `amount` new tokens of `mint` to `destination`, signed by
    /// `authority`; the token program's `mint_to`.
    pub fn mint_to(&mut self, mint: &Address, destination: &Address, authority: &Address, amount: u64) -> (r: Result<(), TokenError>)
        requires
            old(self).wf(),
        ensures
            final(self).wf(),
            r == outcome(old(self)@.mint_to_error(*mint, *destination, *authority, amount)),
            final(self)@ == (if r is Ok { old(self)@.minted(*mint, *destination, amount) } else { old(self)@ }),
    {
        let mi = match self.mints.index_of(mint) {
            Some(i) => i,
            None => return Err(TokenError::AccountMissing),
        };
        let di = match self.tokens.index_of(destination) {
            Some(i) => i,
            None => return Err(TokenError::AccountMissing),
        };
        let m = self.mints.entries[mi];
        let dst = self.tokens.entries[di];
        if !same_address(&dst.mint, mint) {
            return Err(TokenError::MintMismatch);
        }
        if !same_address(&m.authority, authority) {
            return Err(TokenError::OwnerMismatch);
        }
        if m.supply > u64::MAX - amount {
            return Err(TokenError::Overflow);
        }
        let ghost s0 = self.tokens.entries@;
        let ghost ms0 = self.mints.entries@;
        proof {
            lemma_total_bounds_one(s0, di as int, *mint);
        }
        let new_dst = TokenAccount { amount: dst.amount + amount, ..dst };
        let new_mint = Mint { supply: m.supply + amount, ..m };
        proof {
            lemma_key_map_update(s0, di as int, new_dst);
            lemma_key_map_update(ms0, mi as int, new_mint);
        }
        self.tokens.entries.set(di, new_dst);
        self.mints.entries.set(mi, new_mint);
        proof {
            let s1 = self.tokens.entries@;
            assert forall|x: Address| #[trigger] self.mints@.contains_key(x) implies self.mints@[x].supply
                == total(s1, x) by {
                lemma_total_update(s0, di as int, new_dst, x);
            }
            assert forall|i: int| 0 <= i < s1.len() implies self.mints@.contains_key(#[trigger] s1[i].mint) by {
                assert(s1[i].mint == s0[i].mint);
            }
            assert(self@ =~= old(self)@.minted(*mint, *destination, amount));
        }
        Ok(())
    }

    /// Destroys `amount` tokens of `mint` held by `source`, signed by
    /// `authority`; the token program's `burn`.
    pub fn burn(&mut self, source: &Address, mint: &Address, authority: &Address, amount: u64) -> (r: Result<(), TokenError>)
        requires
            old(self).wf(),
        ensures
            final(self).wf(),
            r == outcome(old(self)@.burn_error(*source, *mint, *authority, amount)),
            final(self)@ == (if r is Ok { old(self)@.burned(*source, *mint, amount) } else { old(self)@ }),
    {
        let si = match self.tokens.index_of(source) {
            Some(i) => i,
            None => return Err(TokenError::AccountMissing),
        };
        let mi = match self.mints.index_of(mint) {
            Some(i) => i,
            None => return Err(TokenError::AccountMissing),
        };
        let src = self.tokens.entries[si];
        let m = self.mints.entries[mi];
        if !same_address(&src.mint, mint) {
            return Err(TokenError::MintMismatch);
        }
        if !same_address(&src.owner, authority) {
            return Err(TokenError::OwnerMismatch);
        }
        if src.amount < amount {
            return Err(TokenError::InsufficientFunds);
        }
        let ghost s0 = self.tokens.entries@;
        let ghost ms0 = self.mints.entries@;
        proof {
            lemma_total_bounds_one(s0, si as int, *mint);
        }
        let new_src = TokenAccount { amount: src.amount - amount, ..src };
        let new_mint = Mint { supply: m.supply - amount, ..m };
        proof {
            lemma_key_map_update(s0, si as int, new_src);
            lemma_key_map_update(ms0, mi as int, new_mint);
        }
        self.tokens.entries.set(si, new_src);
        self.mints.entries.set(mi, new_mint);
        proof {
            let s1 = self.tokens.entries@;
            assert forall|x: Address| #[trigger] self.mints@.contains_key(x) implies self.mints@[x].supply
                == total(s1, x) by {
                lemma_total_update(s0, si as int, new_src, x);
            }
            assert forall|i: int| 0 <= i < s1.len() implies self.mints@.contains_key(#[trigger] s1[i].mint) by {
                assert(s1[i].mint == s0[i].mint);
            }
            assert(self@ =~= old(self)@.burned(*source, *mint, amount));
        }
        Ok(())
    }

    /// Closes the empty account at `account`, signed by `authority`; the
    /// token program's `close_account`.
    pub fn close_account(&mut self, account: &Address, authority: &Address) -> (r: Result<(), TokenError>)
        requires
            old(self).wf(),
        ensures
            final(self).wf(),
            r == outcome(old(self)@.close_error(*account, *authority)),
            final(self)@ == (if r is Ok { old(self)@.closed(*account) } else { old(self)@ }),
    {
        let i = match self.tokens.index_of(account) {
            Some(i) => i,
            None => return Err(TokenError::AccountMissing),
        };
        let t = self.tokens.entries[i];
        if !same_address(&t.owner, authority) {
            return Err(TokenError::OwnerMismatch);
        }
        if t.amount != 0 {
            return Err(TokenError::NonZeroBalance);
        }
        let ghost s0 = self.tokens.entries@;
        proof {
            lemma_key_map_remove(s0, i as int);
        }
        self.tokens.entries.remove(i);
        proof {
            let s1 = self.tokens.entries@;
            assert forall|x: Address| #[trigger] self.mints@.contains_key(x) implies self.mints@[x].supply
                == total(s1, x) by {
                lemma_total_remove(s0, i as int, x);
            }
            assert forall|k: int| 0 <= k < s1.len() implies self.mints@.contains_key(#[trigger] s1[k].mint) by {
                if k < i {
                    assert(s1[k] == s0[k]);
                } else {
                    assert(s1[k] == s0[k + 1]);
                }
            }
            assert(self@ =~= old(self)@.closed(*account));
        }
        Ok(())
    }
}

/// A new mint has no accounts yet, so nothing of it is held.
proof fn lemma_total_zero_without_accounts(s: Seq<TokenAccount>, m: Address)
    requires
        forall|i: int| 0 <= i < s.len() ==> #[trigger] s[i].mint != m,
    ensures
        total(s, m) == 0,
    decreases s.len(),
{
    if s.len() > 0 {
        lemma_total_zero_without_accounts(s.drop_last(), m);
    }
}

} // verus!

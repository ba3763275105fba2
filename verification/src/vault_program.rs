//! The single-owner vault: an authority opens a vault with one token
//! account, deposits into it, withdraws from it, and closes it.
use vstd::prelude::*;
use crate::address::{Address, same_address, address_bytes, check_pda, find_pda, is_pda, seeds_of, found_program_address, lemma_view_injective};
use crate::ledger::{Keyed, Ledger, LedgerView, Registry, TokenAccount};
use crate::lamports::{Lamports, Rent, lamports_of, lamport_pay_error, lamports_paid, lamport_sweep_error, lamports_swept};
use crate::constraints::{
    ConstraintError, Failure, existing_token_error, check_existing_token, new_token_error, new_token, check_mint,
};

verus! {

/// The seed of a vault state account: `b"vault"`.
pub open spec fn vault_seed() -> Seq<u8> {
    seq![118u8, 97, 117, 108, 116]
}

/// The seeds of the vault of `authority`.
pub open spec fn vault_seeds(authority: Address) -> Seq<Seq<u8>> {
    seq![vault_seed(), authority@]
}

fn make_vault_seeds(authority: &Address) -> (r: Vec<Vec<u8>>)
    ensures
        seeds_of(r) == vault_seeds(*authority),
{
    let prefix: Vec<u8> = vec![118u8, 97, 117, 108, 116];
    let mut r: Vec<Vec<u8>> = Vec::new();
    r.push(prefix);
    r.push(address_bytes(authority));
    proof {
        assert(prefix@ =~= vault_seed());
        assert(seeds_of(r) =~= vault_seeds(*authority));
    }
    r
}

/// A vault: who owns it, and the bump of its address.
#[derive(Clone, Copy)]
pub struct Vault {
    pub authority: Address,
    pub bump: u8,
}

/// A vault state account: its address and what it holds.
#[derive(Clone, Copy)]
pub struct VaultRecord {
    pub address: Address,
    pub vault: Vault,
}

impl Keyed for VaultRecord {
    open spec fn key(&self) -> Address {
        self.address
    }

    fn get_key(&self) -> (r: Address) {
        self.address
    }
}

/// What `handle_initialize` reads.
#[derive(Clone, Copy)]
pub struct Initialize {
    pub authority: Address,
    pub vault: Address,
    pub vault_bump: u8,
}

/// Records the vault's authority and the bump its address was found with.
pub fn handle_initialize(accounts: &Initialize) -> (r: Vault)
    ensures
        r == (Vault { authority: accounts.authority, bump: accounts.vault_bump }),
{
    Vault { authority: accounts.authority, bump: accounts.vault_bump }
}

/// A movement of tokens the handler asks the token program for: `amount`
/// from `from` to `to`, signed by `authority`.
#[derive(Clone, Copy, Debug, PartialEq, Eq)]
pub struct TokenTransfer {
    pub from: Address,
    pub to: Address,
    pub authority: Address,
    pub amount: u64,
}

/// What `handle_deposit` reads.
#[derive(Clone, Copy)]
pub struct Deposit {
    pub authority: Address,
    pub user_token_account: TokenAccount,
    pub vault: VaultRecord,
    pub vault_token_account: TokenAccount,
}

/// The authority moves all of `amount` (zero included) from its token
/// account into the vault's, signing itself.
pub fn handle_deposit(accounts: &Deposit, amount: u64) -> (r: TokenTransfer)
    ensures
        r == (TokenTransfer {
            from: accounts.user_token_account.address,
            to: accounts.vault_token_account.address,
            authority: accounts.authority,
            amount,
        }),
{
    TokenTransfer {
        from: accounts.user_token_account.address,
        to: accounts.vault_token_account.address,
        authority: accounts.authority,
        amount,
    }
}

/// What `handle_withdraw` reads.
#[derive(Clone, Copy)]
pub struct Withdraw {
    pub authority: Address,
    pub vault: VaultRecord,
    pub vault_token_account: TokenAccount,
    pub user_token_account: TokenAccount,
}

/// The vault moves all of `amount` from its token account back to the
/// authority's, signing with its seeds.
pub fn handle_withdraw(accounts: &Withdraw, amount: u64) -> (r: TokenTransfer)
    ensures
        r == (TokenTransfer {
            from: accounts.vault_token_account.address,
            to: accounts.user_token_account.address,
            authority: accounts.vault.address,
            amount,
        }),
{
    TokenTransfer {
        from: accounts.vault_token_account.address,
        to: accounts.user_token_account.address,
        authority: accounts.vault.address,
        amount,
    }
}

/// What `handle_close` reads.
#[derive(Clone, Copy)]
pub struct Close {
    pub authority: Address,
    pub vault: VaultRecord,
    pub vault_token_account: TokenAccount,
    pub user_token_account: Address,
}

/// The sweep before the vault's token account closes: where the account
/// still holds tokens, the vault moves all of them to the authority's
/// account (the token program refuses to close a non-empty account);
/// where it is empty, nothing moves.
pub fn handle_close(accounts: &Close) -> (r: Option<TokenTransfer>)
    ensures
        r == (if accounts.vault_token_account.amount > 0 {
            Some(
                TokenTransfer {
                    from: accounts.vault_token_account.address,
                    to: accounts.user_token_account,
                    authority: accounts.vault.address,
                    amount: accounts.vault_token_account.amount,
                },
            )
        } else {
            None::<TokenTransfer>
        }),
{
    let remaining = accounts.vault_token_account.amount;
    if remaining > 0 {
        Some(
            TokenTransfer {
                from: accounts.vault_token_account.address,
                to: accounts.user_token_account,
                authority: accounts.vault.address,
                amount: remaining,
            },
        )
    } else {
        None
    }
}

/// The program and everything it runs against: the token ledger, the
/// lamports every account holds, the rent a new account must hold, and the
/// vault state accounts. The program refuses nothing of its own: its
/// failures (`Failure<()>`) come from the account checks, the token program
/// and the system program.
pub struct Cluster {
    pub program_id: Address,
    pub ledger: Ledger,
    pub lamports: Lamports,
    pub rent: Rent,
    pub vaults: Registry<VaultRecord>,
}

/// What a cluster holds.
pub struct ClusterView {
    pub program_id: Address,
    pub ledger: LedgerView,
    pub lamports: Map<Address, u64>,
    pub rent: Rent,
    pub vaults: Map<Address, VaultRecord>,
}

impl View for Cluster {
    type V = ClusterView;

    open spec fn view(&self) -> ClusterView {
        ClusterView {
            program_id: self.program_id,
            ledger: self.ledger@,
            lamports: self.lamports@,
            rent: self.rent,
            vaults: self.vaults@,
        }
    }
}

impl Cluster {
    pub open spec fn wf(&self) -> bool {
        self.ledger.wf() && self.lamports.wf() && self.vaults.wf()
    }

    /// A cluster running the program at `program_id` over `ledger` and
    /// `lamports`, where a new account must hold `rent`, with no vault yet.
    pub fn new(program_id: Address, ledger: Ledger, lamports: Lamports, rent: Rent) -> (r: Cluster)
        requires
            ledger.wf(),
            lamports.wf(),
        ensures
            r.wf(),
            r.program_id == program_id,
            r.ledger@ == ledger@,
            r.lamports@ == lamports@,
            r.rent == rent,
            r.vaults@ == Map::<Address, VaultRecord>::empty(),
    {
        Cluster { program_id, ledger, lamports, rent, vaults: Registry::new() }
    }

    /// The vault state at `address`, if any.
    pub fn vault(&self, address: &Address) -> (r: Option<Vault>)
        requires
            self.wf(),
        ensures
            r == (if self.vaults@.contains_key(*address) { Some(self.vaults@[*address].vault) } else { None::<Vault> }),
    {
        match self.vaults.get(address) {
            Some(rec) => Some(rec.vault),
            None => None,
        }
    }
}

/// The addresses an instruction names.
#[derive(Clone, Copy)]
pub struct InitializeKeys {
    pub authority: Address,
    pub vault: Address,
    pub mint: Address,
    pub vault_token_account: Address,
}

#[derive(Clone, Copy)]
pub struct DepositKeys {
    pub authority: Address,
    pub user_token_account: Address,
    pub vault: Address,
    pub vault_token_account: Address,
}

#[derive(Clone, Copy)]
pub struct WithdrawKeys {
    pub authority: Address,
    pub vault: Address,
    pub vault_token_account: Address,
    pub user_token_account: Address,
}

#[derive(Clone, Copy)]
pub struct CloseKeys {
    pub authority: Address,
    pub vault: Address,
    pub vault_token_account: Address,
    pub user_token_account: Address,
}

/// Whether `signer` is an address of the program's own state, the vault
/// at `vault` or any vault already open, for which no key can sign.
pub open spec fn signs_as_vault(c: ClusterView, signer: Address, vault: Address) -> bool {
    signer == vault || c.vaults.contains_key(signer)
}

/// Checks that `signer` is none of the program's vault addresses.
fn check_signer(cluster: &Cluster, signer: &Address, vault: &Address) -> (r: bool)
    requires
        cluster.wf(),
    ensures
        r == !signs_as_vault(cluster@, *signer, *vault),
{
    !same_address(signer, vault) && !cluster.vaults.contains(signer)
}

/// Why the accounts named by an initialize are refused, if they are.
pub open spec fn initialize_accounts_error(c: ClusterView, k: InitializeKeys) -> Option<ConstraintError> {
    if signs_as_vault(c, k.authority, k.vault) {
        Some(ConstraintError::ProgramSigner)
    } else {
        match found_program_address(vault_seeds(k.authority), c.program_id@) {
            None => Some(ConstraintError::Seeds),
            Some((found, _)) => if found != k.vault@ {
                Some(ConstraintError::Seeds)
            } else if c.vaults.contains_key(k.vault) {
                Some(ConstraintError::AccountInUse)
            } else if !c.ledger.mints.contains_key(k.mint) {
                Some(ConstraintError::AccountNotInitialized)
            } else {
                new_token_error(c.ledger, k.vault_token_account, k.vault, k.mint)
            },
        }
    }
}

/// What `initialize` does to the cluster, or why it fails.
pub open spec fn initialize_spec(c: ClusterView, k: InitializeKeys) -> Result<ClusterView, Failure<()>> {
    match initialize_accounts_error(c, k) {
        Some(e) => Err(Failure::Constraint(e)),
        None => {
            let bump = found_program_address(vault_seeds(k.authority), c.program_id@).unwrap().1;
            let m = c.lamports;
            match lamport_pay_error(m, k.authority, k.vault, c.rent.state_account) {
                Some(e) => Err(Failure::Lamports(e)),
                None => {
                    let m1 = lamports_paid(m, k.authority, k.vault, c.rent.state_account);
                    match lamport_pay_error(m1, k.authority, k.vault_token_account, c.rent.token_account) {
                        Some(e) => Err(Failure::Lamports(e)),
                        None => Ok(
                            ClusterView {
                                ledger: c.ledger.opened(k.vault_token_account, k.mint, k.vault),
                                lamports: lamports_paid(m1, k.authority, k.vault_token_account, c.rent.token_account),
                                vaults: c.vaults.insert(
                                    k.vault,
                                    VaultRecord { address: k.vault, vault: Vault { authority: k.authority, bump } },
                                ),
                                ..c
                            },
                        ),
                    }
                },
            }
        },
    }
}

/// Opens the authority's vault at its derived address, with the vault's
/// associated token account for `mint`, empty.
pub fn initialize(cluster: &mut Cluster, keys: &InitializeKeys) -> (r: Result<(), Failure<()>>)
    requires
        old(cluster).wf(),
    ensures
        final(cluster).wf(),
        match initialize_spec(old(cluster)@, *keys) {
            Ok(c) => r is Ok && final(cluster)@ == c,
            Err(e) => r == Err::<(), Failure<()>>(e) && final(cluster)@ == old(cluster)@,
        },
{
    if !check_signer(cluster, &keys.authority, &keys.vault) {
        return Err(Failure::Constraint(ConstraintError::ProgramSigner));
    }
    let (found, bump) = match find_pda(&make_vault_seeds(&keys.authority), &cluster.program_id) {
        Some(p) => p,
        None => return Err(Failure::Constraint(ConstraintError::Seeds)),
    };
    proof {
        lemma_view_injective(found, keys.vault);
    }
    if !same_address(&found, &keys.vault) {
        return Err(Failure::Constraint(ConstraintError::Seeds));
    }
    if cluster.vaults.contains(&keys.vault) {
        return Err(Failure::Constraint(ConstraintError::AccountInUse));
    }
    if let Err(e) = check_mint(&cluster.ledger, &keys.mint) {
        return Err(Failure::Constraint(e));
    }
    let mut next = cluster.ledger.duplicate();
    if let Err(e) = new_token(&mut next, &keys.vault_token_account, &keys.vault, &keys.mint) {
        return Err(Failure::Constraint(e));
    }
    let mut funds = cluster.lamports.duplicate();
    if let Err(e) = funds.pay(&keys.authority, &keys.vault, cluster.rent.state_account) {
        return Err(Failure::Lamports(e));
    }
    if let Err(e) = funds.pay(&keys.authority, &keys.vault_token_account, cluster.rent.token_account) {
        return Err(Failure::Lamports(e));
    }
    let vault = handle_initialize(&Initialize { authority: keys.authority, vault: keys.vault, vault_bump: bump });
    cluster.ledger = next;
    cluster.lamports = funds;
    cluster.vaults.insert(VaultRecord { address: keys.vault, vault });
    Ok(())
}

/// Why the vault state account at `vault` is refused for a request by
/// `authority`, if it is: it must exist, sit at the address its seeds and
/// stored bump derive, and name `authority`.
pub open spec fn vault_state_error(c: ClusterView, vault: Address, authority: Address) -> Option<ConstraintError> {
    if !c.vaults.contains_key(vault) {
        Some(ConstraintError::AccountNotInitialized)
    } else if !is_pda(vault, vault_seeds(authority), c.vaults[vault].vault.bump, c.program_id) {
        Some(ConstraintError::Seeds)
    } else if c.vaults[vault].vault.authority != authority {
        Some(ConstraintError::HasOne)
    } else {
        None
    }
}

/// Checks the vault state account of a request, and returns it.
fn check_vault_state(cluster: &Cluster, vault: &Address, authority: &Address) -> (r: Result<VaultRecord, ConstraintError>)
    requires
        cluster.wf(),
    ensures
        match r {
            Ok(rec) => vault_state_error(cluster@, *vault, *authority) is None && rec == cluster@.vaults[*vault],
            Err(e) => vault_state_error(cluster@, *vault, *authority) == Some(e),
        },
{
    let rec = match cluster.vaults.get(vault) {
        Some(rec) => rec,
        None => return Err(ConstraintError::AccountNotInitialized),
    };
    if !check_pda(vault, make_vault_seeds(authority), rec.vault.bump, &cluster.program_id) {
        return Err(ConstraintError::Seeds);
    }
    if !same_address(&rec.vault.authority, authority) {
        return Err(ConstraintError::HasOne);
    }
    Ok(rec)
}

/// Why the accounts named by a deposit are refused, if they are.
pub open spec fn deposit_accounts_error(c: ClusterView, k: DepositKeys) -> Option<ConstraintError> {
    if signs_as_vault(c, k.authority, k.vault) {
        Some(ConstraintError::ProgramSigner)
    } else {
        let l = c.ledger;
        if !l.tokens.contains_key(k.user_token_account) || !l.tokens.contains_key(k.vault_token_account) {
            Some(ConstraintError::AccountNotInitialized)
        } else {
            match existing_token_error(l, k.user_token_account, k.authority, l.tokens[k.vault_token_account].mint) {
                Some(e) => Some(e),
                None => match vault_state_error(c, k.vault, k.authority) {
                    Some(e) => Some(e),
                    None => existing_token_error(l, k.vault_token_account, k.vault, l.tokens[k.user_token_account].mint),
                },
            }
        }
    }
}

/// What `deposit` does to the cluster, or why it fails.
pub open spec fn deposit_spec(c: ClusterView, k: DepositKeys, amount: u64) -> Result<ClusterView, Failure<()>> {
    match deposit_accounts_error(c, k) {
        Some(e) => Err(Failure::Constraint(e)),
        None => match c.ledger.transfer_error(k.user_token_account, k.vault_token_account, k.authority, amount) {
            Some(e) => Err(Failure::Token(e)),
            None => Ok(
                ClusterView {
                    ledger: c.ledger.transferred(k.user_token_account, k.vault_token_account, amount),
                    ..c
                },
            ),
        },
    }
}

/// The authority moves `amount` from its associated token account into the
/// vault's.
pub fn deposit(cluster: &mut Cluster, keys: &DepositKeys, amount: u64) -> (r: Result<(), Failure<()>>)
    requires
        old(cluster).wf(),
    ensures
        final(cluster).wf(),
        match deposit_spec(old(cluster)@, *keys, amount) {
            Ok(c) => r is Ok && final(cluster)@ == c,
            Err(e) => r == Err::<(), Failure<()>>(e) && final(cluster)@ == old(cluster)@,
        },
{
    if !check_signer(cluster, &keys.authority, &keys.vault) {
        return Err(Failure::Constraint(ConstraintError::ProgramSigner));
    }
    proof {
        cluster.ledger.lemma_records();
        cluster.vaults.lemma_keys();
    }
    let (user, vault_tokens) = match (
        cluster.ledger.token_account(&keys.user_token_account),
        cluster.ledger.token_account(&keys.vault_token_account),
    ) {
        (Some(u), Some(v)) => (u, v),
        _ => return Err(Failure::Constraint(ConstraintError::AccountNotInitialized)),
    };
    if let Err(e) = check_existing_token(&cluster.ledger, &keys.user_token_account, &keys.authority, &vault_tokens.mint) {
        return Err(Failure::Constraint(e));
    }
    let rec = match check_vault_state(cluster, &keys.vault, &keys.authority) {
        Ok(rec) => rec,
        Err(e) => return Err(Failure::Constraint(e)),
    };
    if let Err(e) = check_existing_token(&cluster.ledger, &keys.vault_token_account, &keys.vault, &user.mint) {
        return Err(Failure::Constraint(e));
    }
    let t = handle_deposit(
        &Deposit { authority: keys.authority, user_token_account: user, vault: rec, vault_token_account: vault_tokens },
        amount,
    );
    match cluster.ledger.transfer(&t.from, &t.to, &t.authority, t.amount) {
        Ok(()) => Ok(()),
        Err(e) => Err(Failure::Token(e)),
    }
}

/// Why the accounts named by a withdrawal are refused, if they are.
pub open spec fn withdraw_accounts_error(c: ClusterView, k: WithdrawKeys) -> Option<ConstraintError> {
    if signs_as_vault(c, k.authority, k.vault) {
        Some(ConstraintError::ProgramSigner)
    } else {
        let l = c.ledger;
        match vault_state_error(c, k.vault, k.authority) {
            Some(e) => Some(e),
            None => if !l.tokens.contains_key(k.vault_token_account) {
                Some(ConstraintError::AccountNotInitialized)
            } else {
                existing_token_error(l, k.user_token_account, k.authority, l.tokens[k.vault_token_account].mint)
            },
        }
    }
}

/// What `withdraw` does to the cluster, or why it fails.
pub open spec fn withdraw_spec(c: ClusterView, k: WithdrawKeys, amount: u64) -> Result<ClusterView, Failure<()>> {
    match withdraw_accounts_error(c, k) {
        Some(e) => Err(Failure::Constraint(e)),
        None => match c.ledger.transfer_error(k.vault_token_account, k.user_token_account, k.vault, amount) {
            Some(e) => Err(Failure::Token(e)),
            None => Ok(
                ClusterView {
                    ledger: c.ledger.transferred(k.vault_token_account, k.user_token_account, amount),
                    ..c
                },
            ),
        },
    }
}

/// The vault moves `amount` from its token account back to the
/// authority's associated token account.
pub fn withdraw(cluster: &mut Cluster, keys: &WithdrawKeys, amount: u64) -> (r: Result<(), Failure<()>>)
    requires
        old(cluster).wf(),
    ensures
        final(cluster).wf(),
        match withdraw_spec(old(cluster)@, *keys, amount) {
            Ok(c) => r is Ok && final(cluster)@ == c,
            Err(e) => r == Err::<(), Failure<()>>(e) && final(cluster)@ == old(cluster)@,
        },
{
    if !check_signer(cluster, &keys.authority, &keys.vault) {
        return Err(Failure::Constraint(ConstraintError::ProgramSigner));
    }
    proof {
        cluster.ledger.lemma_records();
        cluster.vaults.lemma_keys();
    }
    let rec = match check_vault_state(cluster, &keys.vault, &keys.authority) {
        Ok(rec) => rec,
        Err(e) => return Err(Failure::Constraint(e)),
    };
    let vault_tokens = match cluster.ledger.token_account(&keys.vault_token_account) {
        Some(t) => t,
        None => return Err(Failure::Constraint(ConstraintError::AccountNotInitialized)),
    };
    let user = match check_existing_token(&cluster.ledger, &keys.user_token_account, &keys.authority, &vault_tokens.mint) {
        Ok(t) => t,
        Err(e) => return Err(Failure::Constraint(e)),
    };
    let t = handle_withdraw(
        &Withdraw { authority: keys.authority, vault: rec, vault_token_account: vault_tokens, user_token_account: user },
        amount,
    );
    match cluster.ledger.transfer(&t.from, &t.to, &t.authority, t.amount) {
        Ok(()) => Ok(()),
        Err(e) => Err(Failure::Token(e)),
    }
}

/// Why the authority's token account at `address` is refused as the
/// destination of a closing sweep of tokens of `mint`, if it is: where it
/// exists it must be the authority's associated account for the mint; it
/// need not exist when there is nothing to sweep.
pub open spec fn sweep_target_error(l: LedgerView, address: Address, authority: Address, mint: Address, remaining: u64) -> Option<ConstraintError> {
    if l.tokens.contains_key(address) {
        existing_token_error(l, address, authority, mint)
    } else if remaining > 0 {
        Some(ConstraintError::AccountNotInitialized)
    } else {
        None
    }
}

/// Why the accounts named by a close are refused, if they are.
pub open spec fn close_accounts_error(c: ClusterView, k: CloseKeys) -> Option<ConstraintError> {
    if signs_as_vault(c, k.authority, k.vault) {
        Some(ConstraintError::ProgramSigner)
    } else {
        let l = c.ledger;
        match vault_state_error(c, k.vault, k.authority) {
            Some(e) => Some(e),
            None => if !l.tokens.contains_key(k.vault_token_account) {
                Some(ConstraintError::AccountNotInitialized)
            } else {
                let vt = l.tokens[k.vault_token_account];
                match existing_token_error(l, k.vault_token_account, k.vault, vt.mint) {
                    Some(e) => Some(e),
                    None => sweep_target_error(l, k.user_token_account, k.authority, vt.mint, vt.amount),
                }
            },
        }
    }
}

/// What `close` does to the cluster, or why it fails.
pub open spec fn close_spec(c: ClusterView, k: CloseKeys) -> Result<ClusterView, Failure<()>> {
    match close_accounts_error(c, k) {
        Some(e) => Err(Failure::Constraint(e)),
        None => {
            let l = c.ledger;
            let remaining = l.tokens[k.vault_token_account].amount;
            let swept = if remaining > 0 {
                match l.transfer_error(k.vault_token_account, k.user_token_account, k.vault, remaining) {
                    Some(e) => Err(e),
                    None => Ok(l.transferred(k.vault_token_account, k.user_token_account, remaining)),
                }
            } else {
                Ok(l)
            };
            match swept {
                Err(e) => Err(Failure::Token(e)),
                Ok(l1) => match l1.close_error(k.vault_token_account, k.vault) {
                    Some(e) => Err(Failure::Token(e)),
                    None => match lamport_sweep_error(c.lamports, k.vault_token_account, k.authority) {
                        Some(e) => Err(Failure::Lamports(e)),
                        None => {
                            let m1 = lamports_swept(c.lamports, k.vault_token_account, k.authority);
                            match lamport_sweep_error(m1, k.vault, k.authority) {
                                Some(e) => Err(Failure::Lamports(e)),
                                None => Ok(
                                    ClusterView {
                                        ledger: l1.closed(k.vault_token_account),
                                        lamports: lamports_swept(m1, k.vault, k.authority),
                                        vaults: c.vaults.remove(k.vault),
                                        ..c
                                    },
                                ),
                            }
                        },
                    },
                },
            }
        },
    }
}

/// Closes the vault: any balance left in its token account is swept to the
/// authority first (the token program refuses to close a non-empty
/// account), then the vault's token account and the vault itself close.
/// The authority's token account is needed only where there is something to
/// sweep. Nothing changes unless every step succeeds.
pub fn close(cluster: &mut Cluster, keys: &CloseKeys) -> (r: Result<(), Failure<()>>)
    requires
        old(cluster).wf(),
    ensures
        final(cluster).wf(),
        match close_spec(old(cluster)@, *keys) {
            Ok(c) => r is Ok && final(cluster)@ == c,
            Err(e) => r == Err::<(), Failure<()>>(e) && final(cluster)@ == old(cluster)@,
        },
{
    if !check_signer(cluster, &keys.authority, &keys.vault) {
        return Err(Failure::Constraint(ConstraintError::ProgramSigner));
    }
    proof {
        cluster.ledger.lemma_records();
        cluster.vaults.lemma_keys();
    }
    let rec = match check_vault_state(cluster, &keys.vault, &keys.authority) {
        Ok(rec) => rec,
        Err(e) => return Err(Failure::Constraint(e)),
    };
    let vault_tokens = match cluster.ledger.token_account(&keys.vault_token_account) {
        Some(t) => t,
        None => return Err(Failure::Constraint(ConstraintError::AccountNotInitialized)),
    };
    if let Err(e) = check_existing_token(&cluster.ledger, &keys.vault_token_account, &keys.vault, &vault_tokens.mint) {
        return Err(Failure::Constraint(e));
    }
    if cluster.ledger.token_account(&keys.user_token_account).is_some() {
        if let Err(e) = check_existing_token(&cluster.ledger, &keys.user_token_account, &keys.authority, &vault_tokens.mint) {
            return Err(Failure::Constraint(e));
        }
    } else if vault_tokens.amount > 0 {
        return Err(Failure::Constraint(ConstraintError::AccountNotInitialized));
    }
    let sweep = handle_close(
        &Close {
            authority: keys.authority,
            vault: rec,
            vault_token_account: vault_tokens,
            user_token_account: keys.user_token_account,
        },
    );
    let mut next = cluster.ledger.duplicate();
    if let Some(t) = sweep {
        if let Err(e) = next.transfer(&t.from, &t.to, &t.authority, t.amount) {
            return Err(Failure::Token(e));
        }
    }
    if let Err(e) = next.close_account(&keys.vault_token_account, &keys.vault) {
        return Err(Failure::Token(e));
    }
    let mut funds = cluster.lamports.duplicate();
    if let Err(e) = funds.sweep(&keys.vault_token_account, &keys.authority) {
        return Err(Failure::Lamports(e));
    }
    if let Err(e) = funds.sweep(&keys.vault, &keys.authority) {
        return Err(Failure::Lamports(e));
    }
    cluster.ledger = next;
    cluster.lamports = funds;
    cluster.vaults.remove(&keys.vault);
    Ok(())
}


/// Law: opening a vault records its authority and opens its token account
/// empty; it succeeds wherever its accounts are accepted and the authority
/// can pay the rent of both accounts (the vault and its token account being
/// two accounts).
pub proof fn lemma_initialize_opens_the_vault(c: Cluster, k: InitializeKeys)
    requires
        c.wf(),
    ensures
        initialize_accounts_error(c@, k) is None && k.vault != k.vault_token_account && lamports_of(c@.lamports, k.authority)
            >= c@.rent.state_account + c@.rent.token_account && lamports_of(c@.lamports, k.vault) + c@.rent.state_account
            <= u64::MAX && lamports_of(c@.lamports, k.vault_token_account) + c@.rent.token_account <= u64::MAX
            ==> initialize_spec(c@, k) is Ok,
        initialize_spec(c@, k) matches Ok(c2) ==> {
            &&& c2.vaults.contains_key(k.vault)
            &&& c2.vaults[k.vault].vault.authority == k.authority
            &&& c2.ledger.tokens.contains_key(k.vault_token_account)
            &&& c2.ledger.tokens[k.vault_token_account].amount == 0
            &&& c2.ledger.tokens[k.vault_token_account].owner == k.vault
            &&& c2.ledger.tokens[k.vault_token_account].mint == k.mint
        },
{
}

/// Law: the authority can always deposit what it holds. Where a deposit's
/// accounts are accepted and the authority's account holds `amount` of the
/// vault account's mint, the deposit succeeds and moves exactly `amount`
/// from the authority's account into the vault's.
pub proof fn lemma_deposit_goes_through(c: Cluster, k: DepositKeys, amount: u64)
    requires
        c.wf(),
        deposit_accounts_error(c@, k) is None,
        c@.ledger.tokens[k.user_token_account].amount >= amount,
        c@.ledger.tokens[k.user_token_account].mint == c@.ledger.tokens[k.vault_token_account].mint,
    ensures
        deposit_spec(c@, k, amount) matches Ok(c2) && {
            &&& c2.ledger.tokens[k.user_token_account].amount + amount == c@.ledger.tokens[k.user_token_account].amount
            &&& c2.ledger.tokens[k.vault_token_account].amount == c@.ledger.tokens[k.vault_token_account].amount + amount
            &&& c2.vaults == c@.vaults
        },
{
    let l = c@.ledger;
    c.ledger.lemma_records();
    let m = l.tokens[k.user_token_account].mint;
    c.ledger.lemma_supply_is_holdings(m);
    assert(l.tokens[k.user_token_account].owner == k.authority);
    assert(l.tokens[k.vault_token_account].owner == k.vault);
    assert(k.user_token_account != k.vault_token_account);
    assert(l.tokens[k.user_token_account].amount + l.tokens[k.vault_token_account].amount <= l.mints[m].supply);
}

/// Law: the authority can always withdraw what the vault holds. Where a
/// withdrawal's accounts are accepted, the vault's account belongs to the
/// vault and holds `amount` of the mint of the authority's account, the
/// withdrawal succeeds and moves exactly `amount` back to the authority.
pub proof fn lemma_withdraw_goes_through(c: Cluster, k: WithdrawKeys, amount: u64)
    requires
        c.wf(),
        withdraw_accounts_error(c@, k) is None,
        c@.ledger.tokens[k.vault_token_account].owner == k.vault,
        c@.ledger.tokens[k.vault_token_account].amount >= amount,
        c@.ledger.tokens[k.user_token_account].mint == c@.ledger.tokens[k.vault_token_account].mint,
    ensures
        withdraw_spec(c@, k, amount) matches Ok(c2) && {
            &&& c2.ledger.tokens[k.vault_token_account].amount + amount == c@.ledger.tokens[k.vault_token_account].amount
            &&& c2.ledger.tokens[k.user_token_account].amount == c@.ledger.tokens[k.user_token_account].amount + amount
            &&& c2.vaults == c@.vaults
        },
{
    let l = c@.ledger;
    c.ledger.lemma_records();
    let m = l.tokens[k.vault_token_account].mint;
    c.ledger.lemma_supply_is_holdings(m);
    assert(l.tokens[k.user_token_account].owner == k.authority);
    assert(k.authority != k.vault);
    assert(k.user_token_account != k.vault_token_account);
    assert(l.tokens[k.user_token_account].amount + l.tokens[k.vault_token_account].amount <= l.mints[m].supply);
}

/// Law: the authority can always close its vault. Where a close's accounts
/// are accepted, the authority's account (needed only if there is something
/// to sweep) holds the vault account's mint, and the authority can take
/// back the rent of both closed accounts (the vault, its token account and
/// the authority being three accounts), the close succeeds.
pub proof fn lemma_close_goes_through(c: Cluster, k: CloseKeys)
    requires
        c.wf(),
        close_accounts_error(c@, k) is None,
        c@.ledger.tokens[k.vault_token_account].amount > 0 ==> c@.ledger.tokens[k.user_token_account].mint
            == c@.ledger.tokens[k.vault_token_account].mint,
        lamports_of(c@.lamports, k.authority) + lamports_of(c@.lamports, k.vault) + lamports_of(
            c@.lamports,
            k.vault_token_account,
        ) <= u64::MAX,
        k.authority != k.vault_token_account,
        k.vault != k.vault_token_account,
    ensures
        close_spec(c@, k) is Ok,
{
    let l = c@.ledger;
    c.ledger.lemma_records();
    let v = l.tokens[k.vault_token_account];
    c.ledger.lemma_supply_is_holdings(v.mint);
    assert(v.owner == k.vault);
    if v.amount > 0 {
        assert(l.tokens[k.user_token_account].owner == k.authority);
        assert(k.authority != k.vault);
        assert(k.user_token_account != k.vault_token_account);
        assert(l.tokens[k.user_token_account].amount + v.amount <= l.mints[v.mint].supply);
        let l1 = l.transferred(k.vault_token_account, k.user_token_account, v.amount);
        assert(l1.tokens[k.vault_token_account].amount == 0);
        assert(l1.close_error(k.vault_token_account, k.vault) is None);
    }
}

/// Law: a withdrawal undoes a deposit. Where the authority deposits an
/// amount and then withdraws the same amount between the same two accounts,
/// the withdrawal succeeds and the cluster is back where it started.
pub proof fn lemma_withdraw_undoes_deposit(c: Cluster, k: DepositKeys, amount: u64)
    requires
        c.wf(),
    ensures
        deposit_spec(c@, k, amount) matches Ok(c1) ==> {
            let w = WithdrawKeys {
                authority: k.authority,
                vault: k.vault,
                vault_token_account: k.vault_token_account,
                user_token_account: k.user_token_account,
            };
            &&& withdraw_spec(c1, w, amount) matches Ok(c2)
            &&& c2.ledger.tokens =~= c@.ledger.tokens
            &&& c2.ledger.mints == c@.ledger.mints
            &&& c2.vaults == c@.vaults
        },
{
    let l = c@.ledger;
    if let Ok(c1) = deposit_spec(c@, k, amount) {
        let w = WithdrawKeys {
            authority: k.authority,
            vault: k.vault,
            vault_token_account: k.vault_token_account,
            user_token_account: k.user_token_account,
        };
        c.ledger.lemma_records();
        let u = l.tokens[k.user_token_account];
        let v = l.tokens[k.vault_token_account];
        c.ledger.lemma_supply_is_holdings(u.mint);
        assert(u.owner == k.authority);
        assert(v.owner == k.vault);
        assert(k.user_token_account != k.vault_token_account);
        assert(u.mint == v.mint);
        let l1 = l.transferred(k.user_token_account, k.vault_token_account, amount);
        assert(c1.ledger == l1);
        assert(l1.tokens[k.vault_token_account].mint == u.mint);
        assert(l1.tokens[k.user_token_account].owner == k.authority);
        assert(withdraw_accounts_error(c1, w) is None);
        let l2 = l1.transferred(k.vault_token_account, k.user_token_account, amount);
        assert(l2.tokens =~= l.tokens);
    }
}

/// Law: only the vault's authority can move or close it: a withdrawal or a
/// close that names another authority for an existing vault is refused
/// before anything moves.
pub proof fn lemma_only_the_authority(c: Cluster, w: WithdrawKeys, amount: u64, x: CloseKeys)
    requires
        c.wf(),
    ensures
        c@.vaults.contains_key(w.vault) && c@.vaults[w.vault].vault.authority != w.authority
            ==> withdraw_spec(c@, w, amount) is Err && withdraw_spec(c@, w, amount)->Err_0 is Constraint,
        c@.vaults.contains_key(x.vault) && c@.vaults[x.vault].vault.authority != x.authority
            ==> close_spec(c@, x) is Err && close_spec(c@, x)->Err_0 is Constraint,
{
}

/// Law: closing sweeps the whole balance of the vault's token account to
/// the authority, removes the vault, and returns the rent of both closed
/// accounts to the authority (where the vault and its token account are two
/// accounts, and the authority is neither: no key signs for a token
/// account's address).
pub proof fn lemma_close_sweeps_everything(c: Cluster, k: CloseKeys)
    requires
        c.wf(),
        k.authority != k.vault_token_account,
        k.vault != k.vault_token_account,
    ensures
        close_spec(c@, k) matches Ok(c2) ==> {
            &&& !c2.ledger.tokens.contains_key(k.vault_token_account)
            &&& !c2.vaults.contains_key(k.vault)
            &&& c@.ledger.tokens[k.vault_token_account].amount > 0 ==> c2.ledger.balance(k.user_token_account)
                == c@.ledger.balance(k.user_token_account) + c@.ledger.tokens[k.vault_token_account].amount
            &&& lamports_of(c2.lamports, k.authority) == lamports_of(c@.lamports, k.authority) + lamports_of(
                c@.lamports,
                k.vault_token_account,
            ) + lamports_of(c@.lamports, k.vault)
            &&& !c2.lamports.contains_key(k.vault)
            &&& !c2.lamports.contains_key(k.vault_token_account)
        },
{
    let l = c@.ledger;
    if let Ok(c2) = close_spec(c@, k) {
        c.ledger.lemma_records();
        let v = l.tokens[k.vault_token_account];
        if v.amount > 0 {
            c.ledger.lemma_supply_is_holdings(v.mint);
            assert(l.tokens[k.user_token_account].owner == k.authority);
            assert(k.user_token_account != k.vault_token_account);
            assert(l.tokens[k.user_token_account].mint == v.mint);
        }
    }
}

} // verus!

//! The pooled vault: users deposit a base asset for shares, a manager swaps
//! liquid base into an underlying position with a counterparty, and any
//! holder can always exit with a pro-rata slice of both.
use vstd::prelude::*;
use crate::address::{Address, same_address, address_bytes, check_pda, find_pda, is_pda, is_associated, seeds_of, found_program_address, lemma_view_injective};
use crate::ledger::{Keyed, Ledger, LedgerView, Mint, Registry, TokenAccount, TokenError};
use crate::lamports::{LamportError, Lamports, Rent, funded};
use crate::constraints::{
    ConstraintError, Failure, existing_token_error, check_existing_token, token_if_needed_error,
    with_token, token_if_needed, new_token_error, new_token, check_mint,
};
use crate::shares::{minted_shares, pro_rata, priced, shares_for_deposit, pro_rata_share};

verus! {

/// The seed of the vault state account: `b"vault"`.
pub open spec fn vault_seed() -> Seq<u8> {
    seq![118u8, 97, 117, 108, 116]
}

/// The seed of the share mint: `b"share"`.
pub open spec fn share_seed() -> Seq<u8> {
    seq![115u8, 104, 97, 114, 101]
}

/// The seeds of the vault over `base_mint` and `position_mint`.
pub open spec fn vault_seeds(base_mint: Address, position_mint: Address) -> Seq<Seq<u8>> {
    seq![vault_seed(), base_mint@, position_mint@]
}

/// The seeds of the share mint of `vault`.
pub open spec fn share_seeds(vault: Address) -> Seq<Seq<u8>> {
    seq![share_seed(), vault@]
}

fn make_vault_seeds(base_mint: &Address, position_mint: &Address) -> (r: Vec<Vec<u8>>)
    ensures
        seeds_of(r) == vault_seeds(*base_mint, *position_mint),
{
    let seed: Vec<u8> = vec![118u8, 97, 117, 108, 116];
    let mut r: Vec<Vec<u8>> = Vec::new();
    r.push(seed);
    r.push(address_bytes(base_mint));
    r.push(address_bytes(position_mint));
    proof {
        assert(seed@ =~= vault_seed());
        assert(seeds_of(r) =~= vault_seeds(*base_mint, *position_mint));
    }
    r
}

fn make_share_seeds(vault: &Address) -> (r: Vec<Vec<u8>>)
    ensures
        seeds_of(r) == share_seeds(*vault),
{
    let seed: Vec<u8> = vec![115u8, 104, 97, 114, 101];
    let mut r: Vec<Vec<u8>> = Vec::new();
    r.push(seed);
    r.push(address_bytes(vault));
    proof {
        assert(seed@ =~= share_seed());
        assert(seeds_of(r) =~= share_seeds(*vault));
    }
    r
}

/// A vault over one base asset and one underlying market position.
///
/// Share supply lives on `share_mint`, so it can never disagree with what
/// holders actually own.
#[derive(Clone, Copy)]
pub struct Vault {
    /// May move liquidity into the position. Can never move assets out to itself.
    pub manager: Address,
    /// The liquid asset users deposit.
    pub base_mint: Address,
    /// The underlying market position, handed out in kind on redemption.
    pub position_mint: Address,
    pub share_mint: Address,
    pub bump: u8,
}

/// A vault state account: its address and what it holds.
#[derive(Clone, Copy)]
pub struct VaultRecord {
    pub address: Address,
    pub vault: Vault,
}

impl Keyed for VaultRecord {
    open spec fn key(&self) -> Address {
        self.address
    }

    fn get_key(&self) -> (r: Address) {
        self.address
    }
}

/// Why the vault refuses a request.
#[derive(Clone, Copy, Debug, PartialEq, Eq, Structural)]
pub enum VaultError {
    /// Amount must be greater than zero.
    InvalidAmount,
    /// Base and position mints must differ.
    SameMint,
    /// Deposits are only priced while the vault holds no position.
    VaultDeployed,
    /// Not enough shares.
    InsufficientShares,
    /// Vault does not hold enough liquid base to deploy that much.
    InsufficientLiquidity,
    /// The manager cannot be the counterparty of its own deploy.
    ManagerIsCounterparty,
}

/// What `handle_initialize` reads: the manager, the two mints, and the vault
/// address with the bump its seeds were found with.
#[derive(Clone, Copy)]
pub struct Initialize {
    pub manager: Address,
    pub base_mint: Address,
    pub position_mint: Address,
    pub vault: Address,
    pub vault_bump: u8,
    pub share_mint: Address,
}

/// The vault `handle_initialize` stores, or why it refuses.
pub open spec fn initialize_outcome(a: Initialize) -> Result<Vault, VaultError> {
    if a.base_mint == a.position_mint {
        Err(VaultError::SameMint)
    } else {
        Ok(
            Vault {
                manager: a.manager,
                base_mint: a.base_mint,
                position_mint: a.position_mint,
                share_mint: a.share_mint,
                bump: a.vault_bump,
            },
        )
    }
}

/// Opens a vault over one base asset and one underlying position: refuses
/// a base mint equal to the position mint, else returns the vault state.
pub fn handle_initialize(accounts: &Initialize) -> (r: Result<Vault, VaultError>)
    ensures
        r == initialize_outcome(*accounts),
{
    if same_address(&accounts.base_mint, &accounts.position_mint) {
        return Err(VaultError::SameMint);
    }
    Ok(
        Vault {
            manager: accounts.manager,
            base_mint: accounts.base_mint,
            position_mint: accounts.position_mint,
            share_mint: accounts.share_mint,
            bump: accounts.vault_bump,
        },
    )
}

/// What `handle_deposit` reads: the vault, the share mint, the vault's two
/// token accounts and the user's base and share accounts.
#[derive(Clone, Copy)]
pub struct Deposit {
    pub user: Address,
    pub vault: VaultRecord,
    pub share_mint: Mint,
    pub base_vault: TokenAccount,
    pub position_vault: TokenAccount,
    pub user_base: TokenAccount,
    pub user_shares: TokenAccount,
}

/// The deposit handler divides by the pooled base, which is zero here.
pub open spec fn deposit_divides_by_zero(position: u64, supply: u64, pooled: u64, amount: u64) -> bool {
    amount > 0 && position == 0 && supply > 0 && pooled == 0
}

/// The shares `handle_deposit` mints for `amount`, or why it refuses.
pub open spec fn deposit_outcome(position: u64, supply: u64, pooled: u64, amount: u64) -> Result<u64, VaultError> {
    if amount == 0 {
        Err(VaultError::InvalidAmount)
    } else if position != 0 {
        Err(VaultError::VaultDeployed)
    } else if minted_shares(amount, supply, pooled) == 0 {
        Err(VaultError::InvalidAmount)
    } else {
        Ok(minted_shares(amount, supply, pooled))
    }
}

/// Deposits base and mints shares pro rata: refuses a zero amount, refuses
/// while the vault holds any position (a deposit could not be priced), and
/// refuses a deposit too small to mint a share. On success the user sends
/// `amount` base to the vault and receives the returned number of shares.
pub fn handle_deposit(accounts: &Deposit, amount: u64) -> (r: Result<u64, VaultError>)
    requires
        !deposit_divides_by_zero(
            accounts.position_vault.amount,
            accounts.share_mint.supply,
            accounts.base_vault.amount,
            amount,
        ),
    ensures
        r == deposit_outcome(
            accounts.position_vault.amount,
            accounts.share_mint.supply,
            accounts.base_vault.amount,
            amount,
        ),
{
    if amount == 0 {
        return Err(VaultError::InvalidAmount);
    }
    if accounts.position_vault.amount != 0 {
        return Err(VaultError::VaultDeployed);
    }
    let supply = accounts.share_mint.supply;
    let pooled = accounts.base_vault.amount;
    let shares = shares_for_deposit(amount, supply, pooled);
    if shares == 0 {
        return Err(VaultError::InvalidAmount);
    }
    Ok(shares)
}

/// What `handle_deploy` reads: the vault, its two token accounts, and the
/// counterparty's two token accounts.
#[derive(Clone, Copy)]
pub struct Deploy {
    pub manager: Address,
    pub counterparty: Address,
    pub vault: VaultRecord,
    pub base_vault: TokenAccount,
    pub position_vault: TokenAccount,
    pub counterparty_base: TokenAccount,
    pub counterparty_position: TokenAccount,
}

/// Why `handle_deploy` refuses, if it does.
pub open spec fn deploy_outcome(manager: Address, counterparty: Address, liquid: u64, base_out: u64, position_in: u64) -> Result<(), VaultError> {
    if base_out == 0 || position_in == 0 {
        Err(VaultError::InvalidAmount)
    } else if counterparty == manager {
        Err(VaultError::ManagerIsCounterparty)
    } else if liquid < base_out {
        Err(VaultError::InsufficientLiquidity)
    } else {
        Ok(())
    }
}

/// The manager swaps `base_out` liquid base for `position_in` of the
/// position with a counterparty: refuses zero amounts, a counterparty that
/// is the vault's manager (neither leg may pay the manager), and more base
/// than the vault holds. On success the counterparty delivers the position
/// first, then the vault pays the base to the counterparty.
pub fn handle_deploy(accounts: &Deploy, base_out: u64, position_in: u64) -> (r: Result<(), VaultError>)
    ensures
        r == deploy_outcome(
            accounts.vault.vault.manager,
            accounts.counterparty,
            accounts.base_vault.amount,
            base_out,
            position_in,
        ),
        r is Ok ==> accounts.counterparty != accounts.vault.vault.manager,
{
    if base_out == 0 || position_in == 0 {
        return Err(VaultError::InvalidAmount);
    }
    if same_address(&accounts.counterparty, &accounts.vault.vault.manager) {
        return Err(VaultError::ManagerIsCounterparty);
    }
    if accounts.base_vault.amount < base_out {
        return Err(VaultError::InsufficientLiquidity);
    }
    Ok(())
}

/// What `handle_redeem` reads: the vault, the share mint, the vault's two
/// token accounts and the user's three accounts.
#[derive(Clone, Copy)]
pub struct Redeem {
    pub user: Address,
    pub vault: VaultRecord,
    pub share_mint: Mint,
    pub base_vault: TokenAccount,
    pub position_vault: TokenAccount,
    pub user_base: TokenAccount,
    pub user_position: TokenAccount,
    pub user_shares: TokenAccount,
}

/// What a redemption pays out.
#[derive(Clone, Copy, Debug, PartialEq, Eq, Structural)]
pub struct Payout {
    pub base_out: u64,
    pub position_out: u64,
}

/// The redeem handler divides by the share supply, which is zero here.
pub open spec fn redeem_divides_by_zero(held: u64, supply: u64, shares: u64) -> bool {
    shares > 0 && held >= shares && supply == 0
}

/// What `handle_redeem` pays out for `shares`, or why it refuses.
pub open spec fn redeem_outcome(held: u64, base: u64, position: u64, supply: u64, shares: u64) -> Result<Payout, VaultError> {
    if shares == 0 {
        Err(VaultError::InvalidAmount)
    } else if held < shares {
        Err(VaultError::InsufficientShares)
    } else {
        Ok(
            Payout {
                base_out: pro_rata(base, shares, supply),
                position_out: pro_rata(position, shares, supply),
            },
        )
    }
}

/// Exit: refuses zero shares and more shares than the user holds; otherwise
/// the user burns `shares` and receives their pro-rata slice (against the
/// supply before the burn) of the base and of the position the vault holds.
pub fn handle_redeem(accounts: &Redeem, shares: u64) -> (r: Result<Payout, VaultError>)
    requires
        !redeem_divides_by_zero(accounts.user_shares.amount, accounts.share_mint.supply, shares),
    ensures
        r == redeem_outcome(
            accounts.user_shares.amount,
            accounts.base_vault.amount,
            accounts.position_vault.amount,
            accounts.share_mint.supply,
            shares,
        ),
{
    if shares == 0 {
        return Err(VaultError::InvalidAmount);
    }
    if accounts.user_shares.amount < shares {
        return Err(VaultError::InsufficientShares);
    }
    let supply = accounts.share_mint.supply;
    let base_out = pro_rata_share(accounts.base_vault.amount, shares, supply);
    let position_out = pro_rata_share(accounts.position_vault.amount, shares, supply);
    Ok(Payout { base_out, position_out })
}

/// The program and everything it runs against: the token ledger, the
/// lamports every account holds, the rent a new account must hold, and the
/// vault state accounts.
pub struct Cluster {
    pub program_id: Address,
    pub ledger: Ledger,
    pub lamports: Lamports,
    pub rent: Rent,
    pub vaults: Registry<VaultRecord>,
}

/// What a cluster holds.
pub struct ClusterView {
    pub program_id: Address,
    pub ledger: LedgerView,
    pub lamports: Map<Address, u64>,
    pub rent: Rent,
    pub vaults: Map<Address, VaultRecord>,
}

impl View for Cluster {
    type V = ClusterView;

    open spec fn view(&self) -> ClusterView {
        ClusterView {
            program_id: self.program_id,
            ledger: self.ledger@,
            lamports: self.lamports@,
            rent: self.rent,
            vaults: self.vaults@,
        }
    }
}

impl Cluster {
    pub open spec fn wf(&self) -> bool {
        self.ledger.wf() && self.lamports.wf() && self.vaults.wf()
    }

    /// A cluster running the program at `program_id` over `ledger` and
    /// `lamports`, where a new account must hold `rent`, with no vault yet.
    pub fn new(program_id: Address, ledger: Ledger, lamports: Lamports, rent: Rent) -> (r: Cluster)
        requires
            ledger.wf(),
            lamports.wf(),
        ensures
            r.wf(),
            r.program_id == program_id,
            r.ledger@ == ledger@,
            r.lamports@ == lamports@,
            r.rent == rent,
            r.vaults@ == Map::<Address, VaultRecord>::empty(),
            vaults_sound(r@),
    {
        Cluster { program_id, ledger, lamports, rent, vaults: Registry::new() }
    }

    /// The vault state at `address`, if any.
    pub fn vault(&self, address: &Address) -> (r: Option<Vault>)
        requires
            self.wf(),
        ensures
            r == (if self.vaults@.contains_key(*address) { Some(self.vaults@[*address].vault) } else { None::<Vault> }),
    {
        match self.vaults.get(address) {
            Some(rec) => Some(rec.vault),
            None => None,
        }
    }
}

/// The addresses an instruction names.
#[derive(Clone, Copy)]
pub struct InitializeKeys {
    pub manager: Address,
    pub base_mint: Address,
    pub position_mint: Address,
    pub vault: Address,
    pub share_mint: Address,
    pub base_vault: Address,
    pub position_vault: Address,
}

#[derive(Clone, Copy)]
pub struct DepositKeys {
    pub user: Address,
    pub vault: Address,
    pub base_mint: Address,
    pub position_mint: Address,
    pub share_mint: Address,
    pub base_vault: Address,
    pub position_vault: Address,
    pub user_base: Address,
    pub user_shares: Address,
}

#[derive(Clone, Copy)]
pub struct DeployKeys {
    pub manager: Address,
    pub counterparty: Address,
    pub vault: Address,
    pub base_mint: Address,
    pub position_mint: Address,
    pub base_vault: Address,
    pub position_vault: Address,
    pub counterparty_base: Address,
    pub counterparty_position: Address,
}

#[derive(Clone, Copy)]
pub struct RedeemKeys {
    pub user: Address,
    pub vault: Address,
    pub base_mint: Address,
    pub position_mint: Address,
    pub share_mint: Address,
    pub base_vault: Address,
    pub position_vault: Address,
    pub user_base: Address,
    pub user_position: Address,
    pub user_shares: Address,
}

/// What `initialize` does to the cluster, or why it fails.
pub open spec fn initialize_spec(c: ClusterView, k: InitializeKeys) -> Result<ClusterView, Failure<VaultError>> {
    let l = c.ledger;
    if signs_as_vault(c, k.manager, k.vault) {
        Err(Failure::Constraint(ConstraintError::ProgramSigner))
    } else if !l.mints.contains_key(k.base_mint) || !l.mints.contains_key(k.position_mint) {
        Err(Failure::Constraint(ConstraintError::AccountNotInitialized))
    } else {
        match found_program_address(vault_seeds(k.base_mint, k.position_mint), c.program_id@) {
            None => Err(Failure::Constraint(ConstraintError::Seeds)),
            Some((found_vault, bump)) => if found_vault != k.vault@ {
                Err(Failure::Constraint(ConstraintError::Seeds))
            } else if c.vaults.contains_key(k.vault) {
                Err(Failure::Constraint(ConstraintError::AccountInUse))
            } else {
                match found_program_address(share_seeds(k.vault), c.program_id@) {
                    None => Err(Failure::Constraint(ConstraintError::Seeds)),
                    Some((found_share, _)) => if found_share != k.share_mint@ {
                        Err(Failure::Constraint(ConstraintError::Seeds))
                    } else if l.mints.contains_key(k.share_mint) {
                        Err(Failure::Constraint(ConstraintError::AccountInUse))
                    } else {
                        let l1 = l.mint_created(k.share_mint, k.vault, l.mints[k.base_mint].decimals);
                        match new_token_error(l1, k.base_vault, k.vault, k.base_mint) {
                            Some(e) => Err(Failure::Constraint(e)),
                            None => {
                                let l2 = l1.opened(k.base_vault, k.base_mint, k.vault);
                                match new_token_error(l2, k.position_vault, k.vault, k.position_mint) {
                                    Some(e) => Err(Failure::Constraint(e)),
                                    None => {
                                        let l3 = l2.opened(k.position_vault, k.position_mint, k.vault);
                                        match initialize_funding(c, k) {
                                            Err(e) => Err(Failure::Lamports(e)),
                                            Ok(m) => {
                                                let a = Initialize {
                                                    manager: k.manager,
                                                    base_mint: k.base_mint,
                                                    position_mint: k.position_mint,
                                                    vault: k.vault,
                                                    vault_bump: bump,
                                                    share_mint: k.share_mint,
                                                };
                                                match initialize_outcome(a) {
                                                    Err(e) => Err(Failure::Program(e)),
                                                    Ok(v) => Ok(
                                                        ClusterView {
                                                            ledger: l3,
                                                            lamports: m,
                                                            vaults: c.vaults.insert(
                                                                k.vault,
                                                                VaultRecord { address: k.vault, vault: v },
                                                            ),
                                                            ..c
                                                        },
                                                    ),
                                                }
                                            },
                                        }
                                    },
                                }
                            },
                        }
                    },
                }
            },
        }
    }
}

/// The lamports once the manager has paid the rent of the four accounts an
/// initialize opens: the vault state, the share mint and the vault's two
/// token accounts.
pub open spec fn initialize_funding(c: ClusterView, k: InitializeKeys) -> Result<Map<Address, u64>, LamportError> {
    match funded(c.lamports, k.manager, k.vault, c.rent.state_account, true) {
        Err(e) => Err(e),
        Ok(m1) => match funded(m1, k.manager, k.share_mint, c.rent.mint_account, true) {
            Err(e) => Err(e),
            Ok(m2) => match funded(m2, k.manager, k.base_vault, c.rent.token_account, true) {
                Err(e) => Err(e),
                Ok(m3) => funded(m3, k.manager, k.position_vault, c.rent.token_account, true),
            },
        },
    }
}

/// Opens a vault over one base asset and one underlying position: the vault
/// state at its derived address, its share mint (with the base mint's
/// decimals, minted by the vault), and the vault's two token accounts.
pub fn initialize(cluster: &mut Cluster, keys: &InitializeKeys) -> (r: Result<(), Failure<VaultError>>)
    requires
        old(cluster).wf(),
    ensures
        final(cluster).wf(),
        vaults_sound(old(cluster)@) ==> vaults_sound(final(cluster)@),
        match initialize_spec(old(cluster)@, *keys) {
            Ok(c) => r is Ok && final(cluster)@ == c,
            Err(e) => r == Err::<(), Failure<VaultError>>(e) && final(cluster)@ == old(cluster)@,
        },
{
    if !check_signer(cluster, &keys.manager, &keys.vault) {
        return Err(Failure::Constraint(ConstraintError::ProgramSigner));
    }
    let base = match check_mint(&cluster.ledger, &keys.base_mint) {
        Ok(m) => m,
        Err(e) => return Err(Failure::Constraint(e)),
    };
    if let Err(e) = check_mint(&cluster.ledger, &keys.position_mint) {
        return Err(Failure::Constraint(e));
    }
    let (found_vault, bump) = match find_pda(&make_vault_seeds(&keys.base_mint, &keys.position_mint), &cluster.program_id) {
        Some(p) => p,
        None => return Err(Failure::Constraint(ConstraintError::Seeds)),
    };
    proof {
        lemma_view_injective(found_vault, keys.vault);
    }
    if !same_address(&found_vault, &keys.vault) {
        return Err(Failure::Constraint(ConstraintError::Seeds));
    }
    if cluster.vaults.contains(&keys.vault) {
        return Err(Failure::Constraint(ConstraintError::AccountInUse));
    }
    let (found_share, _) = match find_pda(&make_share_seeds(&keys.vault), &cluster.program_id) {
        Some(p) => p,
        None => return Err(Failure::Constraint(ConstraintError::Seeds)),
    };
    proof {
        lemma_view_injective(found_share, keys.share_mint);
    }
    if !same_address(&found_share, &keys.share_mint) {
        return Err(Failure::Constraint(ConstraintError::Seeds));
    }
    let mut next = cluster.ledger.duplicate();
    match next.create_mint(&keys.share_mint, &keys.vault, base.decimals) {
        Ok(()) => {},
        Err(_) => return Err(Failure::Constraint(ConstraintError::AccountInUse)),
    }
    if let Err(e) = new_token(&mut next, &keys.base_vault, &keys.vault, &keys.base_mint) {
        return Err(Failure::Constraint(e));
    }
    if let Err(e) = new_token(&mut next, &keys.position_vault, &keys.vault, &keys.position_mint) {
        return Err(Failure::Constraint(e));
    }
    let mut funds = cluster.lamports.duplicate();
    if let Err(e) = funds.fund(&keys.manager, &keys.vault, cluster.rent.state_account, true) {
        return Err(Failure::Lamports(e));
    }
    if let Err(e) = funds.fund(&keys.manager, &keys.share_mint, cluster.rent.mint_account, true) {
        return Err(Failure::Lamports(e));
    }
    if let Err(e) = funds.fund(&keys.manager, &keys.base_vault, cluster.rent.token_account, true) {
        return Err(Failure::Lamports(e));
    }
    if let Err(e) = funds.fund(&keys.manager, &keys.position_vault, cluster.rent.token_account, true) {
        return Err(Failure::Lamports(e));
    }
    let accounts = Initialize {
        manager: keys.manager,
        base_mint: keys.base_mint,
        position_mint: keys.position_mint,
        vault: keys.vault,
        vault_bump: bump,
        share_mint: keys.share_mint,
    };
    let vault = match handle_initialize(&accounts) {
        Ok(v) => v,
        Err(e) => return Err(Failure::Program(e)),
    };
    cluster.ledger = next;
    cluster.lamports = funds;
    cluster.vaults.insert(VaultRecord { address: keys.vault, vault });
    proof {
        if vaults_sound(old(cluster)@) {
            lemma_initialize_keeps_vaults_sound(*old(cluster), *keys);
        }
    }
    Ok(())
}


/// Why the accounts of a request against the vault at `vault` (over
/// `base_mint` and `position_mint`) are refused before any token account is
/// looked at: the vault must exist, name these mints (and `share_mint` where
/// given), and sit at the address its seeds and stored bump derive.
pub open spec fn vault_state_error(c: ClusterView, vault: Address, base_mint: Address, position_mint: Address) -> Option<ConstraintError> {
    if !c.vaults.contains_key(vault) {
        Some(ConstraintError::AccountNotInitialized)
    } else if c.vaults[vault].vault.base_mint != base_mint || c.vaults[vault].vault.position_mint != position_mint {
        Some(ConstraintError::HasOne)
    } else if !is_pda(vault, vault_seeds(base_mint, position_mint), c.vaults[vault].vault.bump, c.program_id) {
        Some(ConstraintError::Seeds)
    } else if !c.ledger.mints.contains_key(base_mint) || !c.ledger.mints.contains_key(position_mint) {
        Some(ConstraintError::AccountNotInitialized)
    } else {
        None
    }
}

/// Checks the vault state account of a request, and returns it.
fn check_vault_state(cluster: &Cluster, vault: &Address, base_mint: &Address, position_mint: &Address) -> (r: Result<VaultRecord, ConstraintError>)
    requires
        cluster.wf(),
    ensures
        match r {
            Ok(rec) => vault_state_error(cluster@, *vault, *base_mint, *position_mint) is None
                && rec == cluster@.vaults[*vault],
            Err(e) => vault_state_error(cluster@, *vault, *base_mint, *position_mint) == Some(e),
        },
{
    let rec = match cluster.vaults.get(vault) {
        Some(rec) => rec,
        None => return Err(ConstraintError::AccountNotInitialized),
    };
    if !same_address(&rec.vault.base_mint, base_mint) || !same_address(&rec.vault.position_mint, position_mint) {
        return Err(ConstraintError::HasOne);
    }
    if !check_pda(vault, make_vault_seeds(base_mint, position_mint), rec.vault.bump, &cluster.program_id) {
        return Err(ConstraintError::Seeds);
    }
    if let Err(e) = check_mint(&cluster.ledger, base_mint) {
        return Err(e);
    }
    if let Err(e) = check_mint(&cluster.ledger, position_mint) {
        return Err(e);
    }
    Ok(rec)
}

/// Whether `signer` is an address of the program's own state, the vault
/// at `vault` or any vault already open, for which no key can sign.
pub open spec fn signs_as_vault(c: ClusterView, signer: Address, vault: Address) -> bool {
    signer == vault || c.vaults.contains_key(signer)
}

/// Checks that `signer` is none of the program's vault addresses.
fn check_signer(cluster: &Cluster, signer: &Address, vault: &Address) -> (r: bool)
    requires
        cluster.wf(),
    ensures
        r == !signs_as_vault(cluster@, *signer, *vault),
{
    !same_address(signer, vault) && !cluster.vaults.contains(signer)
}

/// What `deposit` does once its accounts are accepted.
pub open spec fn deposit_effect(c: ClusterView, k: DepositKeys, amount: u64) -> Result<ClusterView, Failure<VaultError>> {
    let l = c.ledger;
    let l1 = with_token(l, k.user_shares, k.user, k.share_mint);
    let position = l.tokens[k.position_vault].amount;
    let supply = l.mints[k.share_mint].supply;
    let pooled = l.tokens[k.base_vault].amount;
    if deposit_divides_by_zero(position, supply, pooled, amount) {
        Err(Failure::Aborted)
    } else {
        match deposit_outcome(position, supply, pooled, amount) {
            Err(e) => Err(Failure::Program(e)),
            Ok(shares) => match l1.transfer_error(k.user_base, k.base_vault, k.user, amount) {
                Some(e) => Err(Failure::Token(e)),
                None => {
                    let l2 = l1.transferred(k.user_base, k.base_vault, amount);
                    match l2.mint_to_error(k.share_mint, k.user_shares, k.vault, shares) {
                        Some(e) => Err(Failure::Token(e)),
                        None => Ok(
                            ClusterView { ledger: l2.minted(k.share_mint, k.user_shares, shares), ..c },
                        ),
                    }
                },
            },
        }
    }
}

/// Why the accounts named by a deposit are refused, if they are.
pub open spec fn deposit_accounts_error(c: ClusterView, k: DepositKeys) -> Option<ConstraintError> {
    let l = c.ledger;
    if signs_as_vault(c, k.user, k.vault) {
        Some(ConstraintError::ProgramSigner)
    } else {
        match vault_state_error(c, k.vault, k.base_mint, k.position_mint) {
            Some(e) => Some(e),
            None => if c.vaults[k.vault].vault.share_mint != k.share_mint {
                Some(ConstraintError::HasOne)
            } else if !l.mints.contains_key(k.share_mint) {
                Some(ConstraintError::AccountNotInitialized)
            } else {
                match existing_token_error(l, k.base_vault, k.vault, k.base_mint) {
                    Some(e) => Some(e),
                    None => match existing_token_error(l, k.position_vault, k.vault, k.position_mint) {
                        Some(e) => Some(e),
                        None => match existing_token_error(l, k.user_base, k.user, k.base_mint) {
                            Some(e) => Some(e),
                            None => token_if_needed_error(l, k.user_shares, k.user, k.share_mint),
                        },
                    },
                }
            },
        }
    }
}

/// What `deposit` does to the cluster, or why it fails.
pub open spec fn deposit_spec(c: ClusterView, k: DepositKeys, amount: u64) -> Result<ClusterView, Failure<VaultError>> {
    match deposit_accounts_error(c, k) {
        Some(e) => Err(Failure::Constraint(e)),
        None => match deposit_funding(c, k) {
            Err(e) => Err(Failure::Lamports(e)),
            Ok(m) => match deposit_effect(c, k, amount) {
                Err(e) => Err(e),
                Ok(c2) => Ok(ClusterView { lamports: m, ..c2 }),
            },
        },
    }
}

/// The lamports once the user has paid the rent of its share account,
/// where the deposit opens it.
pub open spec fn deposit_funding(c: ClusterView, k: DepositKeys) -> Result<Map<Address, u64>, LamportError> {
    funded(c.lamports, k.user, k.user_shares, c.rent.token_account, !c.ledger.tokens.contains_key(k.user_shares))
}

/// Deposits base and mints shares pro rata (see `handle_deposit`), against
/// the vault's accounts: the user's share account is opened if needed, the
/// user sends `amount` base to the vault, and the vault mints the shares.
/// Nothing changes unless every step succeeds.
pub fn deposit(cluster: &mut Cluster, keys: &DepositKeys, amount: u64) -> (r: Result<(), Failure<VaultError>>)
    requires
        old(cluster).wf(),
    ensures
        final(cluster).wf(),
        vaults_sound(old(cluster)@) ==> vaults_sound(final(cluster)@),
        match deposit_spec(old(cluster)@, *keys, amount) {
            Ok(c) => r is Ok && final(cluster)@ == c,
            Err(e) => r == Err::<(), Failure<VaultError>>(e) && final(cluster)@ == old(cluster)@,
        },
{
    if !check_signer(cluster, &keys.user, &keys.vault) {
        return Err(Failure::Constraint(ConstraintError::ProgramSigner));
    }
    let rec = match check_vault_state(cluster, &keys.vault, &keys.base_mint, &keys.position_mint) {
        Ok(rec) => rec,
        Err(e) => return Err(Failure::Constraint(e)),
    };
    if !same_address(&rec.vault.share_mint, &keys.share_mint) {
        return Err(Failure::Constraint(ConstraintError::HasOne));
    }
    let share_mint = match check_mint(&cluster.ledger, &keys.share_mint) {
        Ok(m) => m,
        Err(e) => return Err(Failure::Constraint(e)),
    };
    let base_vault = match check_existing_token(&cluster.ledger, &keys.base_vault, &keys.vault, &keys.base_mint) {
        Ok(t) => t,
        Err(e) => return Err(Failure::Constraint(e)),
    };
    let position_vault = match check_existing_token(&cluster.ledger, &keys.position_vault, &keys.vault, &keys.position_mint) {
        Ok(t) => t,
        Err(e) => return Err(Failure::Constraint(e)),
    };
    let user_base = match check_existing_token(&cluster.ledger, &keys.user_base, &keys.user, &keys.base_mint) {
        Ok(t) => t,
        Err(e) => return Err(Failure::Constraint(e)),
    };
    let mut next = cluster.ledger.duplicate();
    let opens_user_shares = next.token_account(&keys.user_shares).is_none();
    if let Err(e) = token_if_needed(&mut next, &keys.user_shares, &keys.user, &keys.share_mint) {
        return Err(Failure::Constraint(e));
    }
    let mut funds = cluster.lamports.duplicate();
    if let Err(e) = funds.fund(&keys.user, &keys.user_shares, cluster.rent.token_account, opens_user_shares) {
        return Err(Failure::Lamports(e));
    }
    let user_shares = next.token_account(&keys.user_shares).unwrap();
    let accounts = Deposit { user: keys.user, vault: rec, share_mint, base_vault, position_vault, user_base, user_shares };
    if amount > 0 && position_vault.amount == 0 && share_mint.supply > 0 && base_vault.amount == 0 {
        return Err(Failure::Aborted);
    }
    let shares = match handle_deposit(&accounts, amount) {
        Ok(s) => s,
        Err(e) => return Err(Failure::Program(e)),
    };
    if let Err(e) = next.transfer(&keys.user_base, &keys.base_vault, &keys.user, amount) {
        return Err(Failure::Token(e));
    }
    if let Err(e) = next.mint_to(&keys.share_mint, &keys.user_shares, &keys.vault, shares) {
        return Err(Failure::Token(e));
    }
    cluster.ledger = next;
    cluster.lamports = funds;
    proof {
        if vaults_sound(old(cluster)@) {
            lemma_deposit_keeps_vaults_sound(*old(cluster), *keys, amount);
        }
    }
    Ok(())
}

/// What `deploy` does once its accounts are accepted.
pub open spec fn deploy_effect(c: ClusterView, k: DeployKeys, base_out: u64, position_in: u64) -> Result<ClusterView, Failure<VaultError>> {
    let l = c.ledger;
    match deploy_outcome(c.vaults[k.vault].vault.manager, k.counterparty, l.tokens[k.base_vault].amount, base_out, position_in) {
        Err(e) => Err(Failure::Program(e)),
        Ok(()) => match l.transfer_error(k.counterparty_position, k.position_vault, k.counterparty, position_in) {
            Some(e) => Err(Failure::Token(e)),
            None => {
                let l1 = l.transferred(k.counterparty_position, k.position_vault, position_in);
                match l1.transfer_error(k.base_vault, k.counterparty_base, k.vault, base_out) {
                    Some(e) => Err(Failure::Token(e)),
                    None => Ok(
                        ClusterView { ledger: l1.transferred(k.base_vault, k.counterparty_base, base_out), ..c },
                    ),
                }
            },
        },
    }
}

/// Why the accounts named by a deploy are refused, if they are.
pub open spec fn deploy_accounts_error(c: ClusterView, k: DeployKeys) -> Option<ConstraintError> {
    let l = c.ledger;
    if signs_as_vault(c, k.manager, k.vault) || signs_as_vault(c, k.counterparty, k.vault) {
        Some(ConstraintError::ProgramSigner)
    } else {
        match vault_state_error(c, k.vault, k.base_mint, k.position_mint) {
            Some(e) => Some(e),
            None => if c.vaults[k.vault].vault.manager != k.manager {
                Some(ConstraintError::HasOne)
            } else {
                match existing_token_error(l, k.base_vault, k.vault, k.base_mint) {
                    Some(e) => Some(e),
                    None => match existing_token_error(l, k.position_vault, k.vault, k.position_mint) {
                        Some(e) => Some(e),
                        None => match existing_token_error(l, k.counterparty_base, k.counterparty, k.base_mint) {
                            Some(e) => Some(e),
                            None => existing_token_error(l, k.counterparty_position, k.counterparty, k.position_mint),
                        },
                    },
                }
            },
        }
    }
}

/// What `deploy` does to the cluster, or why it fails.
pub open spec fn deploy_spec(c: ClusterView, k: DeployKeys, base_out: u64, position_in: u64) -> Result<ClusterView, Failure<VaultError>> {
    match deploy_accounts_error(c, k) {
        Some(e) => Err(Failure::Constraint(e)),
        None => deploy_effect(c, k, base_out, position_in),
    }
}

/// The manager swaps liquid base into the position with a counterparty (see
/// `handle_deploy`): the counterparty delivers `position_in` of the position
/// to the vault, then the vault pays `base_out` base to the counterparty.
/// Nothing changes unless every step succeeds.
pub fn deploy(cluster: &mut Cluster, keys: &DeployKeys, base_out: u64, position_in: u64) -> (r: Result<(), Failure<VaultError>>)
    requires
        old(cluster).wf(),
    ensures
        final(cluster).wf(),
        vaults_sound(old(cluster)@) ==> vaults_sound(final(cluster)@),
        match deploy_spec(old(cluster)@, *keys, base_out, position_in) {
            Ok(c) => r is Ok && final(cluster)@ == c,
            Err(e) => r == Err::<(), Failure<VaultError>>(e) && final(cluster)@ == old(cluster)@,
        },
{
    if !check_signer(cluster, &keys.manager, &keys.vault) || !check_signer(cluster, &keys.counterparty, &keys.vault) {
        return Err(Failure::Constraint(ConstraintError::ProgramSigner));
    }
    let rec = match check_vault_state(cluster, &keys.vault, &keys.base_mint, &keys.position_mint) {
        Ok(rec) => rec,
        Err(e) => return Err(Failure::Constraint(e)),
    };
    if !same_address(&rec.vault.manager, &keys.manager) {
        return Err(Failure::Constraint(ConstraintError::HasOne));
    }
    let base_vault = match check_existing_token(&cluster.ledger, &keys.base_vault, &keys.vault, &keys.base_mint) {
        Ok(t) => t,
        Err(e) => return Err(Failure::Constraint(e)),
    };
    let position_vault = match check_existing_token(&cluster.ledger, &keys.position_vault, &keys.vault, &keys.position_mint) {
        Ok(t) => t,
        Err(e) => return Err(Failure::Constraint(e)),
    };
    let counterparty_base = match check_existing_token(&cluster.ledger, &keys.counterparty_base, &keys.counterparty, &keys.base_mint) {
        Ok(t) => t,
        Err(e) => return Err(Failure::Constraint(e)),
    };
    let counterparty_position = match check_existing_token(
        &cluster.ledger,
        &keys.counterparty_position,
        &keys.counterparty,
        &keys.position_mint,
    ) {
        Ok(t) => t,
        Err(e) => return Err(Failure::Constraint(e)),
    };
    let accounts = Deploy {
        manager: keys.manager,
        counterparty: keys.counterparty,
        vault: rec,
        base_vault,
        position_vault,
        counterparty_base,
        counterparty_position,
    };
    if let Err(e) = handle_deploy(&accounts, base_out, position_in) {
        return Err(Failure::Program(e));
    }
    let mut next = cluster.ledger.duplicate();
    if let Err(e) = next.transfer(&keys.counterparty_position, &keys.position_vault, &keys.counterparty, position_in) {
        return Err(Failure::Token(e));
    }
    if let Err(e) = next.transfer(&keys.base_vault, &keys.counterparty_base, &keys.vault, base_out) {
        return Err(Failure::Token(e));
    }
    cluster.ledger = next;
    proof {
        if vaults_sound(old(cluster)@) {
            lemma_deploy_keeps_vaults_sound(*old(cluster), *keys, base_out, position_in);
        }
    }
    Ok(())
}

/// The ledger after a payout of `amount` from `from` to `to` by `vault`,
/// which the program skips when the amount is zero.
pub open spec fn paid(l: LedgerView, from: Address, to: Address, vault: Address, amount: u64) -> Result<LedgerView, TokenError> {
    if amount == 0 {
        Ok(l)
    } else {
        match l.transfer_error(from, to, vault, amount) {
            Some(e) => Err(e),
            None => Ok(l.transferred(from, to, amount)),
        }
    }
}

/// What `redeem` does once its accounts are accepted.
pub open spec fn redeem_effect(c: ClusterView, k: RedeemKeys, shares: u64) -> Result<ClusterView, Failure<VaultError>> {
    let l = c.ledger;
    let l1 = with_token(l, k.user_base, k.user, k.base_mint);
    let l2 = with_token(l1, k.user_position, k.user, k.position_mint);
    let held = l.tokens[k.user_shares].amount;
    let supply = l.mints[k.share_mint].supply;
    if redeem_divides_by_zero(held, supply, shares) {
        Err(Failure::Aborted)
    } else {
        match redeem_outcome(held, l.tokens[k.base_vault].amount, l.tokens[k.position_vault].amount, supply, shares) {
            Err(e) => Err(Failure::Program(e)),
            Ok(p) => match l2.burn_error(k.user_shares, k.share_mint, k.user, shares) {
                Some(e) => Err(Failure::Token(e)),
                None => match paid(l2.burned(k.user_shares, k.share_mint, shares), k.base_vault, k.user_base, k.vault, p.base_out) {
                    Err(e) => Err(Failure::Token(e)),
                    Ok(l3) => match paid(l3, k.position_vault, k.user_position, k.vault, p.position_out) {
                        Err(e) => Err(Failure::Token(e)),
                        Ok(l4) => Ok(ClusterView { ledger: l4, ..c }),
                    },
                },
            },
        }
    }
}

/// Why the accounts named by a redemption are refused, if they are.
pub open spec fn redeem_accounts_error(c: ClusterView, k: RedeemKeys) -> Option<ConstraintError> {
    let l = c.ledger;
    if signs_as_vault(c, k.user, k.vault) {
        Some(ConstraintError::ProgramSigner)
    } else {
        match vault_state_error(c, k.vault, k.base_mint, k.position_mint) {
            Some(e) => Some(e),
            None => if c.vaults[k.vault].vault.share_mint != k.share_mint {
                Some(ConstraintError::HasOne)
            } else if !l.mints.contains_key(k.share_mint) {
                Some(ConstraintError::AccountNotInitialized)
            } else {
                match existing_token_error(l, k.base_vault, k.vault, k.base_mint) {
                    Some(e) => Some(e),
                    None => match existing_token_error(l, k.position_vault, k.vault, k.position_mint) {
                        Some(e) => Some(e),
                        None => match token_if_needed_error(l, k.user_base, k.user, k.base_mint) {
                            Some(e) => Some(e),
                            None => match token_if_needed_error(
                                with_token(l, k.user_base, k.user, k.base_mint),
                                k.user_position,
                                k.user,
                                k.position_mint,
                            ) {
                                Some(e) => Some(e),
                                None => existing_token_error(l, k.user_shares, k.user, k.share_mint),
                            },
                        },
                    },
                }
            },
        }
    }
}

/// What `redeem` does to the cluster, or why it fails.
pub open spec fn redeem_spec(c: ClusterView, k: RedeemKeys, shares: u64) -> Result<ClusterView, Failure<VaultError>> {
    match redeem_accounts_error(c, k) {
        Some(e) => Err(Failure::Constraint(e)),
        None => match redeem_funding(c, k) {
            Err(e) => Err(Failure::Lamports(e)),
            Ok(m) => match redeem_effect(c, k, shares) {
                Err(e) => Err(e),
                Ok(c2) => Ok(ClusterView { lamports: m, ..c2 }),
            },
        },
    }
}

/// The lamports once the user has paid the rent of its base and position
/// accounts, where the redemption opens them.
pub open spec fn redeem_funding(c: ClusterView, k: RedeemKeys) -> Result<Map<Address, u64>, LamportError> {
    let l = c.ledger;
    let l1 = with_token(l, k.user_base, k.user, k.base_mint);
    match funded(c.lamports, k.user, k.user_base, c.rent.token_account, !l.tokens.contains_key(k.user_base)) {
        Err(e) => Err(e),
        Ok(m) => funded(m, k.user, k.user_position, c.rent.token_account, !l1.tokens.contains_key(k.user_position)),
    }
}

/// Pays `amount` from `from` to `to` on behalf of the vault, unless it is zero.
fn pay(l: &mut Ledger, from: &Address, to: &Address, vault: &Address, amount: u64) -> (r: Result<(), TokenError>)
    requires
        old(l).wf(),
    ensures
        final(l).wf(),
        match paid(old(l)@, *from, *to, *vault, amount) {
            Ok(v) => r is Ok && final(l)@ == v,
            Err(e) => r == Err::<(), TokenError>(e) && final(l)@ == old(l)@,
        },
{
    if amount > 0 {
        l.transfer(from, to, vault, amount)
    } else {
        Ok(())
    }
}

/// Exit at any time (see `handle_redeem`): the user's base and position
/// accounts are opened if needed, the user burns `shares`, and the vault
/// pays out the base slice and the position slice, each only if non-zero.
/// Nothing changes unless every step succeeds.
pub fn redeem(cluster: &mut Cluster, keys: &RedeemKeys, shares: u64) -> (r: Result<(), Failure<VaultError>>)
    requires
        old(cluster).wf(),
    ensures
        final(cluster).wf(),
        vaults_sound(old(cluster)@) ==> vaults_sound(final(cluster)@),
        match redeem_spec(old(cluster)@, *keys, shares) {
            Ok(c) => r is Ok && final(cluster)@ == c,
            Err(e) => r == Err::<(), Failure<VaultError>>(e) && final(cluster)@ == old(cluster)@,
        },
{
    if !check_signer(cluster, &keys.user, &keys.vault) {
        return Err(Failure::Constraint(ConstraintError::ProgramSigner));
    }
    let rec = match check_vault_state(cluster, &keys.vault, &keys.base_mint, &keys.position_mint) {
        Ok(rec) => rec,
        Err(e) => return Err(Failure::Constraint(e)),
    };
    if !same_address(&rec.vault.share_mint, &keys.share_mint) {
        return Err(Failure::Constraint(ConstraintError::HasOne));
    }
    let share_mint = match check_mint(&cluster.ledger, &keys.share_mint) {
        Ok(m) => m,
        Err(e) => return Err(Failure::Constraint(e)),
    };
    let base_vault = match check_existing_token(&cluster.ledger, &keys.base_vault, &keys.vault, &keys.base_mint) {
        Ok(t) => t,
        Err(e) => return Err(Failure::Constraint(e)),
    };
    let position_vault = match check_existing_token(&cluster.ledger, &keys.position_vault, &keys.vault, &keys.position_mint) {
        Ok(t) => t,
        Err(e) => return Err(Failure::Constraint(e)),
    };
    let mut next = cluster.ledger.duplicate();
    let opens_user_base = next.token_account(&keys.user_base).is_none();
    if let Err(e) = token_if_needed(&mut next, &keys.user_base, &keys.user, &keys.base_mint) {
        return Err(Failure::Constraint(e));
    }
    let opens_user_position = next.token_account(&keys.user_position).is_none();
    if let Err(e) = token_if_needed(&mut next, &keys.user_position, &keys.user, &keys.position_mint) {
        return Err(Failure::Constraint(e));
    }
    let user_shares = match check_existing_token(&cluster.ledger, &keys.user_shares, &keys.user, &keys.share_mint) {
        Ok(t) => t,
        Err(e) => return Err(Failure::Constraint(e)),
    };
    let mut funds = cluster.lamports.duplicate();
    if let Err(e) = funds.fund(&keys.user, &keys.user_base, cluster.rent.token_account, opens_user_base) {
        return Err(Failure::Lamports(e));
    }
    if let Err(e) = funds.fund(&keys.user, &keys.user_position, cluster.rent.token_account, opens_user_position) {
        return Err(Failure::Lamports(e));
    }
    let user_base = next.token_account(&keys.user_base).unwrap();
    let user_position = next.token_account(&keys.user_position).unwrap();
    let accounts = Redeem {
        user: keys.user,
        vault: rec,
        share_mint,
        base_vault,
        position_vault,
        user_base,
        user_position,
        user_shares,
    };
    if shares > 0 && user_shares.amount >= shares && share_mint.supply == 0 {
        return Err(Failure::Aborted);
    }
    let payout = match handle_redeem(&accounts, shares) {
        Ok(p) => p,
        Err(e) => return Err(Failure::Program(e)),
    };
    if let Err(e) = next.burn(&keys.user_shares, &keys.share_mint, &keys.user, shares) {
        return Err(Failure::Token(e));
    }
    if let Err(e) = pay(&mut next, &keys.base_vault, &keys.user_base, &keys.vault, payout.base_out) {
        return Err(Failure::Token(e));
    }
    if let Err(e) = pay(&mut next, &keys.position_vault, &keys.user_position, &keys.vault, payout.position_out) {
        return Err(Failure::Token(e));
    }
    cluster.ledger = next;
    cluster.lamports = funds;
    proof {
        if vaults_sound(old(cluster)@) {
            lemma_redeem_keeps_vaults_sound(*old(cluster), *keys, shares);
        }
    }
    Ok(())
}


/// The vault at `v` is sound: it trades two distinct mints; its share mint
/// exists and is neither of them; its associated token accounts for the two
/// mints exist, belong to it and hold those mints; and it is priced (no more
/// shares than base tokens while it holds no position).
pub open spec fn vault_sound(c: ClusterView, v: Address) -> bool {
    let rec = c.vaults[v].vault;
    let l = c.ledger;
    &&& rec.base_mint != rec.position_mint
    &&& l.mints.contains_key(rec.share_mint)
    &&& rec.share_mint != rec.base_mint
    &&& rec.share_mint != rec.position_mint
    &&& forall|b: Address| #[trigger] is_associated(b, v, rec.base_mint) ==> {
        &&& l.tokens.contains_key(b)
        &&& l.tokens[b].owner == v
        &&& l.tokens[b].mint == rec.base_mint
    }
    &&& forall|p: Address| #[trigger] is_associated(p, v, rec.position_mint) ==> {
        &&& l.tokens.contains_key(p)
        &&& l.tokens[p].owner == v
        &&& l.tokens[p].mint == rec.position_mint
    }
    &&& forall|b: Address, p: Address|
        #[trigger] is_associated(b, v, rec.base_mint) && #[trigger] is_associated(p, v, rec.position_mint)
            ==> priced(l.tokens[b].amount, l.tokens[p].amount, l.mints[rec.share_mint].supply)
}

/// Every open vault is sound, and no two vaults share a share mint. A
/// cluster with no vault has this; each instruction keeps it (see the laws
/// below), so every state the instructions reach has it.
pub open spec fn vaults_sound(c: ClusterView) -> bool {
    &&& forall|v: Address| #[trigger] c.vaults.contains_key(v) ==> vault_sound(c, v)
    &&& forall|v: Address, w: Address|
        #[trigger] c.vaults.contains_key(v) && #[trigger] c.vaults.contains_key(w) && v != w
            ==> c.vaults[v].vault.share_mint != c.vaults[w].vault.share_mint
}

/// Soundness carries over to `c2` where only the vault `v` (and its share
/// mint `sm`) may have changed: every other vault, its token accounts and
/// its share mint's supply are as they were.
proof fn lemma_sound_frame(c: ClusterView, c2: ClusterView, v: Address, sm: Address)
    requires
        vaults_sound(c),
        forall|w: Address| #[trigger] c.vaults.contains_key(w) ==> c2.vaults.contains_key(w) && c2.vaults[w] == c.vaults[w],
        forall|w: Address| #[trigger] c2.vaults.contains_key(w) && w != v ==> c.vaults.contains_key(w),
        forall|x: Address| #[trigger] c.ledger.tokens.contains_key(x) ==> {
            &&& c2.ledger.tokens.contains_key(x)
            &&& c2.ledger.tokens[x].owner == c.ledger.tokens[x].owner
            &&& c2.ledger.tokens[x].mint == c.ledger.tokens[x].mint
        },
        forall|x: Address|
            #[trigger] c.ledger.tokens.contains_key(x) && c.ledger.tokens[x].owner != v
                && c.vaults.contains_key(c.ledger.tokens[x].owner) ==> c2.ledger.tokens[x] == c.ledger.tokens[x],
        forall|m: Address| #[trigger] c.ledger.mints.contains_key(m) ==> c2.ledger.mints.contains_key(m),
        forall|m: Address|
            #[trigger] c.ledger.mints.contains_key(m) && m != sm ==> c2.ledger.mints[m].supply == c.ledger.mints[m].supply,
        c2.vaults.contains_key(v),
        vault_sound(c2, v),
        c2.vaults[v].vault.share_mint == sm,
        forall|w: Address| #[trigger] c.vaults.contains_key(w) && w != v ==> c.vaults[w].vault.share_mint != sm,
    ensures
        vaults_sound(c2),
{
    assert forall|w: Address| #[trigger] c2.vaults.contains_key(w) implies vault_sound(c2, w) by {
        if w != v {
            assert(c.vaults.contains_key(w));
            assert(vault_sound(c, w));
            let rec = c.vaults[w].vault;
            assert(c2.vaults[w].vault == rec);
            assert forall|b: Address| #[trigger] is_associated(b, w, rec.base_mint) implies {
                &&& c2.ledger.tokens.contains_key(b)
                &&& c2.ledger.tokens[b].owner == w
                &&& c2.ledger.tokens[b].mint == rec.base_mint
            } by {
                assert(c.ledger.tokens.contains_key(b));
            }
            assert forall|p: Address| #[trigger] is_associated(p, w, rec.position_mint) implies {
                &&& c2.ledger.tokens.contains_key(p)
                &&& c2.ledger.tokens[p].owner == w
                &&& c2.ledger.tokens[p].mint == rec.position_mint
            } by {
                assert(c.ledger.tokens.contains_key(p));
            }
            assert(c.ledger.mints.contains_key(rec.share_mint));
            assert(rec.share_mint != sm);
            assert forall|b: Address, p: Address|
                #[trigger] is_associated(b, w, rec.base_mint) && #[trigger] is_associated(p, w, rec.position_mint) implies priced(
                c2.ledger.tokens[b].amount,
                c2.ledger.tokens[p].amount,
                c2.ledger.mints[rec.share_mint].supply,
            ) by {
                assert(c.ledger.tokens.contains_key(b) && c.ledger.tokens[b].owner == w);
                assert(c.ledger.tokens.contains_key(p) && c.ledger.tokens[p].owner == w);
                assert(c2.ledger.tokens[b] == c.ledger.tokens[b]);
                assert(c2.ledger.tokens[p] == c.ledger.tokens[p]);
            }
        }
    }
    assert forall|x: Address, y: Address|
        #[trigger] c2.vaults.contains_key(x) && #[trigger] c2.vaults.contains_key(y) && x != y implies c2.vaults[x].vault.share_mint
        != c2.vaults[y].vault.share_mint by {
        if x != v && y != v {
            assert(c.vaults.contains_key(x) && c.vaults.contains_key(y));
        } else if x == v {
            assert(c.vaults.contains_key(y));
        } else {
            assert(c.vaults.contains_key(x));
        }
    }
}

/// An associated token account address is determined by its wallet and mint.
proof fn lemma_associated_unique(a: Address, b: Address, w: Address, m: Address)
    requires
        is_associated(a, w, m),
        is_associated(b, w, m),
    ensures
        a == b,
{
    lemma_view_injective(a, b);
}

/// The vault at `v` stays sound where its record stays, its token accounts
/// keep their owners and mints, its share mint stays, and its accounts
/// `bv` and `pv` end up priced.
proof fn lemma_own_vault_sound(c: ClusterView, c2: ClusterView, v: Address, bv: Address, pv: Address)
    requires
        c.vaults.contains_key(v),
        vault_sound(c, v),
        c2.vaults.contains_key(v),
        c2.vaults[v] == c.vaults[v],
        forall|x: Address| #[trigger] c.ledger.tokens.contains_key(x) ==> {
            &&& c2.ledger.tokens.contains_key(x)
            &&& c2.ledger.tokens[x].owner == c.ledger.tokens[x].owner
            &&& c2.ledger.tokens[x].mint == c.ledger.tokens[x].mint
        },
        c2.ledger.mints.contains_key(c.vaults[v].vault.share_mint),
        is_associated(bv, v, c.vaults[v].vault.base_mint),
        is_associated(pv, v, c.vaults[v].vault.position_mint),
        vault_priced(c2.ledger, bv, pv, c.vaults[v].vault.share_mint),
    ensures
        vault_sound(c2, v),
{
    let rec = c.vaults[v].vault;
    assert forall|b: Address| #[trigger] is_associated(b, v, rec.base_mint) implies {
        &&& c2.ledger.tokens.contains_key(b)
        &&& c2.ledger.tokens[b].owner == v
        &&& c2.ledger.tokens[b].mint == rec.base_mint
    } by {
        assert(c.ledger.tokens.contains_key(b));
    }
    assert forall|p: Address| #[trigger] is_associated(p, v, rec.position_mint) implies {
        &&& c2.ledger.tokens.contains_key(p)
        &&& c2.ledger.tokens[p].owner == v
        &&& c2.ledger.tokens[p].mint == rec.position_mint
    } by {
        assert(c.ledger.tokens.contains_key(p));
    }
    assert(c.ledger.tokens.contains_key(bv) && c.ledger.tokens.contains_key(pv));
    assert forall|b: Address, p: Address|
        #[trigger] is_associated(b, v, rec.base_mint) && #[trigger] is_associated(p, v, rec.position_mint) implies priced(
        c2.ledger.tokens[b].amount,
        c2.ledger.tokens[p].amount,
        c2.ledger.mints[rec.share_mint].supply,
    ) by {
        lemma_associated_unique(b, bv, v, rec.base_mint);
        lemma_associated_unique(p, pv, v, rec.position_mint);
    }
}

/// Law: opening a vault keeps every vault sound, the new one included: it
/// starts with no shares and empty accounts.
pub proof fn lemma_initialize_keeps_vaults_sound(c: Cluster, k: InitializeKeys)
    requires
        c.wf(),
        vaults_sound(c@),
    ensures
        initialize_spec(c@, k) matches Ok(c2) ==> vaults_sound(c2),
{
    let l = c@.ledger;
    if let Ok(c2) = initialize_spec(c@, k) {
        let v = k.vault;
        let l1 = l.mint_created(k.share_mint, k.vault, l.mints[k.base_mint].decimals);
        let l2 = l1.opened(k.base_vault, k.base_mint, k.vault);
        let l3 = l2.opened(k.position_vault, k.position_mint, k.vault);
        assert(c2.ledger == l3);
        assert(!c@.vaults.contains_key(v));
        assert(!l.mints.contains_key(k.share_mint));
        assert(!l.tokens.contains_key(k.base_vault));
        assert(!l2.tokens.contains_key(k.position_vault));
        let rec = c2.vaults[v].vault;
        assert(rec.base_mint == k.base_mint && rec.position_mint == k.position_mint && rec.share_mint == k.share_mint);
        assert(k.base_mint != k.position_mint);
        assert(is_associated(k.base_vault, v, k.base_mint));
        assert(is_associated(k.position_vault, v, k.position_mint));
        assert forall|b: Address| #[trigger] is_associated(b, v, rec.base_mint) implies {
            &&& l3.tokens.contains_key(b)
            &&& l3.tokens[b].owner == v
            &&& l3.tokens[b].mint == rec.base_mint
        } by {
            lemma_associated_unique(b, k.base_vault, v, k.base_mint);
        }
        assert forall|p: Address| #[trigger] is_associated(p, v, rec.position_mint) implies {
            &&& l3.tokens.contains_key(p)
            &&& l3.tokens[p].owner == v
            &&& l3.tokens[p].mint == rec.position_mint
        } by {
            lemma_associated_unique(p, k.position_vault, v, k.position_mint);
        }
        assert forall|b: Address, p: Address|
            #[trigger] is_associated(b, v, rec.base_mint) && #[trigger] is_associated(p, v, rec.position_mint) implies priced(
            l3.tokens[b].amount,
            l3.tokens[p].amount,
            l3.mints[rec.share_mint].supply,
        ) by {
            lemma_associated_unique(b, k.base_vault, v, k.base_mint);
            lemma_associated_unique(p, k.position_vault, v, k.position_mint);
        }
        assert(vault_sound(c2, v));
        assert forall|x: Address| #[trigger] l.tokens.contains_key(x) implies {
            &&& l3.tokens.contains_key(x)
            &&& l3.tokens[x].owner == l.tokens[x].owner
            &&& l3.tokens[x].mint == l.tokens[x].mint
        } by {
            assert(l3.tokens[x] == l.tokens[x]);
        }
        assert forall|x: Address|
            #[trigger] l.tokens.contains_key(x) && l.tokens[x].owner != v && c@.vaults.contains_key(l.tokens[x].owner)
                implies l3.tokens[x] == l.tokens[x] by {
        }
        assert forall|w: Address| #[trigger] c@.vaults.contains_key(w) && w != v implies c@.vaults[w].vault.share_mint != k.share_mint by {
            assert(vault_sound(c@, w));
        }
        lemma_sound_frame(c@, c2, v, k.share_mint);
    }
}

/// Law: a deposit keeps every vault sound.
pub proof fn lemma_deposit_keeps_vaults_sound(c: Cluster, k: DepositKeys, amount: u64)
    requires
        c.wf(),
        vaults_sound(c@),
    ensures
        deposit_spec(c@, k, amount) matches Ok(c2) ==> vaults_sound(c2),
{
    let l = c@.ledger;
    if let Ok(c2) = deposit_spec(c@, k, amount) {
        let v = k.vault;
        let rec = c@.vaults[v].vault;
        assert(vault_sound(c@, v));
        assert(is_associated(k.base_vault, v, rec.base_mint));
        assert(is_associated(k.position_vault, v, rec.position_mint));
        lemma_deposit_keeps_vault_priced(c, k, amount);
        let l1 = with_token(l, k.user_shares, k.user, k.share_mint);
        let shares = minted_shares(amount, l.mints[k.share_mint].supply, l.tokens[k.base_vault].amount);
        let l2 = l1.transferred(k.user_base, k.base_vault, amount);
        let l3 = l2.minted(k.share_mint, k.user_shares, shares);
        assert(c2.ledger == l3);
        assert(c2.vaults == c@.vaults);
        assert(l.tokens[k.user_base].owner == k.user);
        assert(l1.tokens[k.user_shares].owner == k.user);
        assert forall|x: Address| #[trigger] l.tokens.contains_key(x) implies {
            &&& l3.tokens.contains_key(x)
            &&& l3.tokens[x].owner == l.tokens[x].owner
            &&& l3.tokens[x].mint == l.tokens[x].mint
        } by {
            assert(l1.tokens[x] == l.tokens[x]);
        }
        assert forall|x: Address|
            #[trigger] l.tokens.contains_key(x) && l.tokens[x].owner != v && c@.vaults.contains_key(l.tokens[x].owner)
                implies l3.tokens[x] == l.tokens[x] by {
            assert(l.tokens[x].owner != k.user);
            assert(l1.tokens[x] == l.tokens[x]);
            assert(x != k.user_shares && x != k.user_base && x != k.base_vault);
        }
        lemma_own_vault_sound(c@, c2, v, k.base_vault, k.position_vault);
        lemma_sound_frame(c@, c2, v, k.share_mint);
    }
}

/// Law: a deploy keeps every vault sound.
pub proof fn lemma_deploy_keeps_vaults_sound(c: Cluster, k: DeployKeys, base_out: u64, position_in: u64)
    requires
        c.wf(),
        vaults_sound(c@),
    ensures
        deploy_spec(c@, k, base_out, position_in) matches Ok(c2) ==> vaults_sound(c2),
{
    let l = c@.ledger;
    if let Ok(c2) = deploy_spec(c@, k, base_out, position_in) {
        let v = k.vault;
        let rec = c@.vaults[v].vault;
        assert(vault_sound(c@, v));
        assert(is_associated(k.base_vault, v, rec.base_mint));
        assert(is_associated(k.position_vault, v, rec.position_mint));
        lemma_deploy_keeps_vault_priced(c, k, base_out, position_in);
        let l1 = l.transferred(k.counterparty_position, k.position_vault, position_in);
        let l2 = l1.transferred(k.base_vault, k.counterparty_base, base_out);
        assert(c2.ledger == l2);
        assert(c2.vaults == c@.vaults);
        assert(l.tokens[k.counterparty_position].owner == k.counterparty);
        assert(l.tokens[k.counterparty_base].owner == k.counterparty);
        assert forall|x: Address| #[trigger] l.tokens.contains_key(x) implies {
            &&& l2.tokens.contains_key(x)
            &&& l2.tokens[x].owner == l.tokens[x].owner
            &&& l2.tokens[x].mint == l.tokens[x].mint
        } by {
            assert(l1.tokens.contains_key(x));
        }
        assert forall|x: Address|
            #[trigger] l.tokens.contains_key(x) && l.tokens[x].owner != v && c@.vaults.contains_key(l.tokens[x].owner)
                implies l2.tokens[x] == l.tokens[x] by {
            assert(l.tokens[x].owner != k.counterparty);
            assert(x != k.counterparty_position && x != k.counterparty_base);
            assert(x != k.position_vault && x != k.base_vault);
            assert(l1.tokens[x] == l.tokens[x]);
        }
        lemma_own_vault_sound(c@, c2, v, k.base_vault, k.position_vault);
        lemma_sound_frame(c@, c2, v, rec.share_mint);
    }
}

/// Law: a redemption keeps every vault sound.
pub proof fn lemma_redeem_keeps_vaults_sound(c: Cluster, k: RedeemKeys, shares: u64)
    requires
        c.wf(),
        vaults_sound(c@),
    ensures
        redeem_spec(c@, k, shares) matches Ok(c2) ==> vaults_sound(c2),
{
    let l = c@.ledger;
    if let Ok(c2) = redeem_spec(c@, k, shares) {
        let v = k.vault;
        let rec = c@.vaults[v].vault;
        assert(vault_sound(c@, v));
        assert(is_associated(k.base_vault, v, rec.base_mint));
        assert(is_associated(k.position_vault, v, rec.position_mint));
        assert(l.tokens.contains_key(k.base_vault) && l.tokens.contains_key(k.position_vault));
        assert(priced(l.tokens[k.base_vault].amount, l.tokens[k.position_vault].amount, l.mints[k.share_mint].supply));
        lemma_redeem_keeps_vault_priced(c, k, shares);
        let s = l.mints[k.share_mint].supply;
        let bo = pro_rata(l.tokens[k.base_vault].amount, shares, s);
        let po = pro_rata(l.tokens[k.position_vault].amount, shares, s);
        let l1 = with_token(l, k.user_base, k.user, k.base_mint);
        let l2 = with_token(l1, k.user_position, k.user, k.position_mint);
        let l3 = l2.burned(k.user_shares, k.share_mint, shares);
        let l4 = if bo == 0 { l3 } else { l3.transferred(k.base_vault, k.user_base, bo) };
        let l5 = if po == 0 { l4 } else { l4.transferred(k.position_vault, k.user_position, po) };
        assert(c2.ledger == l5);
        assert(c2.vaults == c@.vaults);
        assert(l2.tokens[k.user_base].owner == k.user);
        assert(l2.tokens[k.user_position].owner == k.user);
        assert(l.tokens[k.user_shares].owner == k.user);
        assert forall|x: Address| #[trigger] l.tokens.contains_key(x) implies {
            &&& l5.tokens.contains_key(x)
            &&& l5.tokens[x].owner == l.tokens[x].owner
            &&& l5.tokens[x].mint == l.tokens[x].mint
        } by {
            assert(l1.tokens[x] == l.tokens[x]);
            assert(l2.tokens[x] == l.tokens[x]);
            assert(l3.tokens.contains_key(x));
            assert(l4.tokens.contains_key(x));
        }
        assert forall|x: Address|
            #[trigger] l.tokens.contains_key(x) && l.tokens[x].owner != v && c@.vaults.contains_key(l.tokens[x].owner)
                implies l5.tokens[x] == l.tokens[x] by {
            assert(l.tokens[x].owner != k.user);
            assert(l1.tokens[x] == l.tokens[x]);
            assert(l2.tokens[x] == l.tokens[x]);
            assert(x != k.user_shares && x != k.user_base && x != k.user_position);
            assert(x != k.position_vault && x != k.base_vault);
            assert(l3.tokens[x] == l.tokens[x]);
            assert(l4.tokens[x] == l.tokens[x]);
        }
        lemma_own_vault_sound(c@, c2, v, k.base_vault, k.position_vault);
        lemma_sound_frame(c@, c2, v, k.share_mint);
    }
}

/// Law: a holder can always exit. In any state the instructions reach
/// (every vault sound), where the accounts of a redemption are accepted and
/// the holder redeems at most the shares its share account holds (and can
/// pay the rent of any account of its own the redemption opens), the
/// redemption succeeds whatever the vault's liquidity, and pays exactly the
/// pro-rata slices of both holdings against the supply before the burn.
/// (The account checks do not look at the mint of an existing associated
/// account, so that the holder's share account holds the share mint is
/// stated here rather than derived.)
pub proof fn lemma_holder_can_always_exit(c: Cluster, k: RedeemKeys, shares: u64)
    requires
        c.wf(),
        vaults_sound(c@),
        redeem_accounts_error(c@, k) is None,
        c@.ledger.tokens[k.user_shares].mint == k.share_mint,
        0 < shares <= c@.ledger.tokens[k.user_shares].amount,
        redeem_funding(c@, k) is Ok,
    ensures
        redeem_spec(c@, k, shares) is Ok,
        redeem_outcome(
            c@.ledger.tokens[k.user_shares].amount,
            c@.ledger.tokens[k.base_vault].amount,
            c@.ledger.tokens[k.position_vault].amount,
            c@.ledger.mints[k.share_mint].supply,
            shares,
        ) == Ok::<Payout, VaultError>(
            Payout {
                base_out: pro_rata(
                    c@.ledger.tokens[k.base_vault].amount,
                    shares,
                    c@.ledger.mints[k.share_mint].supply,
                ),
                position_out: pro_rata(
                    c@.ledger.tokens[k.position_vault].amount,
                    shares,
                    c@.ledger.mints[k.share_mint].supply,
                ),
            },
        ),
{
    let l = c@.ledger;
    let rec = c@.vaults[k.vault].vault;
    assert(vault_sound(c@, k.vault));
    assert(is_associated(k.base_vault, k.vault, rec.base_mint));
    assert(is_associated(k.position_vault, k.vault, rec.position_mint));
    c.ledger.lemma_supply_is_holdings(k.share_mint);
    let supply = l.mints[k.share_mint].supply;
    let held = l.tokens[k.user_shares].amount;
    assert(l.tokens.contains_key(k.user_shares));
    assert(held <= supply);
    let b = l.tokens[k.base_vault].amount;
    let p = l.tokens[k.position_vault].amount;
    crate::shares::lemma_redeem_is_fair(b, shares, supply);
    crate::shares::lemma_redeem_is_fair(p, shares, supply);
    let l1 = with_token(l, k.user_base, k.user, k.base_mint);
    let l2 = with_token(l1, k.user_position, k.user, k.position_mint);
    assert(l1.tokens.contains_key(k.user_base) && l1.tokens[k.user_base].mint == k.base_mint);
    assert(l2.tokens.contains_key(k.user_position) && l2.tokens[k.user_position].mint == k.position_mint);
    assert(l2.tokens[k.user_shares] == l.tokens[k.user_shares]);
    assert(l2.tokens[k.base_vault] == l.tokens[k.base_vault]);
    assert(l2.tokens[k.position_vault] == l.tokens[k.position_vault]);
    assert(l2.tokens[k.user_base].mint == k.base_mint);
    let l3 = l2.burned(k.user_shares, k.share_mint, shares);
    let bo = pro_rata(b, shares, supply);
    let po = pro_rata(p, shares, supply);
    assert(l3.tokens[k.base_vault] == l.tokens[k.base_vault]);
    assert(l3.tokens[k.position_vault] == l.tokens[k.position_vault]);
    assert(l3.tokens[k.user_base].mint == k.base_mint);
    assert(l3.tokens[k.user_position].mint == k.position_mint);
    assert(l3.tokens.contains_key(k.user_base) && l3.tokens.contains_key(k.user_position));
    let l4 = if bo == 0 { l3 } else { l3.transferred(k.base_vault, k.user_base, bo) };
    assert(paid(l3, k.base_vault, k.user_base, k.vault, bo) == Ok::<LedgerView, TokenError>(l4));
    assert(l4.tokens[k.position_vault] == l.tokens[k.position_vault]);
    assert(l4.tokens.contains_key(k.user_position) && l4.tokens[k.user_position].mint == k.position_mint);
    assert(paid(l4, k.position_vault, k.user_position, k.vault, po) is Ok);
}


/// Law: in any state the instructions reach, a deposit never divides by
/// zero, and where the vault holds no position it mints at most one share
/// per token deposited (so the 64-bit result never loses digits).
pub proof fn lemma_reachable_deposit_never_aborts(c: Cluster, k: DepositKeys, amount: u64)
    requires
        c.wf(),
        vaults_sound(c@),
    ensures
        deposit_spec(c@, k, amount) != Err::<ClusterView, Failure<VaultError>>(Failure::Aborted),
        deposit_accounts_error(c@, k) is None && c@.ledger.tokens[k.position_vault].amount == 0 ==> minted_shares(
            amount,
            c@.ledger.mints[k.share_mint].supply,
            c@.ledger.tokens[k.base_vault].amount,
        ) <= amount,
{
    let l = c@.ledger;
    if deposit_accounts_error(c@, k) is None {
        let rec = c@.vaults[k.vault].vault;
        assert(vault_sound(c@, k.vault));
        assert(is_associated(k.base_vault, k.vault, rec.base_mint));
        assert(is_associated(k.position_vault, k.vault, rec.position_mint));
        assert(l.tokens.contains_key(k.base_vault) && l.tokens.contains_key(k.position_vault));
        lemma_deposit_keeps_vault_priced(c, k, amount);
        let b = l.tokens[k.base_vault].amount;
        let s = l.mints[k.share_mint].supply;
        if l.tokens[k.position_vault].amount == 0 && s > 0 {
            assert(s <= b);
            vstd::arithmetic::mul::lemma_mul_inequality(s as int, b as int, amount as int);
            assert(amount as int * s as int <= amount as int * b as int) by (nonlinear_arith)
                requires
                    s as int * amount as int <= b as int * amount as int,
            ;
            assert(amount as int * s as int >= 0) by (nonlinear_arith);
            vstd::arithmetic::div_mod::lemma_div_is_ordered(amount as int * s as int, amount as int * b as int, b as int);
            vstd::arithmetic::div_mod::lemma_div_by_multiple(amount as int, b as int);
        }
    }
}

/// Law: a deposit redeemed at once gives back at most what was deposited,
/// and exactly the deposit where the vault held nothing. In any state the
/// instructions reach, where the vault holds no position and had shares or
/// held no base (a vault with no shares that was sent base hands it to its
/// first depositor), a user who deposits `amount` and then redeems all the
/// shares that deposit minted gets back, in base, no more than `amount`,
/// and nothing in kind.
pub proof fn lemma_deposit_then_redeem(c: Cluster, d: DepositKeys, amount: u64, r: RedeemKeys)
    requires
        c.wf(),
        vaults_sound(c@),
        c@.ledger.tokens[d.position_vault].amount == 0,
        c@.ledger.mints[d.share_mint].supply == 0 ==> c@.ledger.tokens[d.base_vault].amount == 0,
        r.user == d.user,
        r.vault == d.vault,
        r.base_mint == d.base_mint,
        r.position_mint == d.position_mint,
        r.share_mint == d.share_mint,
        r.base_vault == d.base_vault,
        r.position_vault == d.position_vault,
        r.user_base == d.user_base,
        r.user_shares == d.user_shares,
    ensures
        deposit_spec(c@, d, amount) matches Ok(c1) ==> {
            let s = c@.ledger.mints[d.share_mint].supply;
            let b = c@.ledger.tokens[d.base_vault].amount;
            let minted = minted_shares(amount, s, b);
            redeem_spec(c1, r, minted) matches Ok(c2) ==> {
                let back = c2.ledger.tokens[d.user_base].amount + amount - c@.ledger.tokens[d.user_base].amount;
                &&& back == pro_rata((b + amount) as u64, minted, (s + minted) as u64)
                &&& back <= amount
                &&& (s == 0 ==> back == amount)
                &&& c2.ledger.balance(r.user_position) == c1.ledger.balance(r.user_position)
            }
        },
{
    let l = c@.ledger;
    if let Ok(c1) = deposit_spec(c@, d, amount) {
        let s = l.mints[d.share_mint].supply;
        let b = l.tokens[d.base_vault].amount;
        let minted = minted_shares(amount, s, b);
        let rec = c@.vaults[d.vault].vault;
        assert(vault_sound(c@, d.vault));
        assert(is_associated(d.base_vault, d.vault, rec.base_mint));
        assert(is_associated(d.position_vault, d.vault, rec.position_mint));
        assert(l.tokens.contains_key(d.base_vault) && l.tokens.contains_key(d.position_vault));
        c.ledger.lemma_records();
        c.ledger.lemma_supply_is_holdings(d.base_mint);
        let l1 = with_token(l, d.user_shares, d.user, d.share_mint);
        assert(l.tokens[d.user_base].owner == d.user);
        assert(l.tokens[d.base_vault].owner == d.vault);
        assert(d.user_base != d.base_vault);
        assert(l1.tokens[d.user_base] == l.tokens[d.user_base]);
        assert(l1.tokens[d.base_vault] == l.tokens[d.base_vault]);
        assert(l.tokens[d.user_base].mint == d.base_mint);
        assert(l1.tokens[d.user_shares].mint == d.share_mint);
        assert(d.user_shares != d.user_base);
        assert(d.user_shares != d.base_vault);
        let l2 = l1.transferred(d.user_base, d.base_vault, amount);
        let l3 = l2.minted(d.share_mint, d.user_shares, minted);
        assert(c1.ledger == l3);
        assert(l3.tokens[d.base_vault].amount == b + amount);
        assert(l3.tokens[d.position_vault].amount == 0);
        assert(l3.mints[d.share_mint].supply == s + minted);
        assert(l3.tokens[d.user_base].amount + amount == l.tokens[d.user_base].amount);
        if let Ok(c2) = redeem_spec(c1, r, minted) {
            crate::shares::lemma_deposit_then_redeem_returns_at_most_the_deposit(b, s, amount);
            let bo = pro_rata((b + amount) as u64, minted, (s + minted) as u64);
            let po = pro_rata(0, minted, (s + minted) as u64);
            assert(po == 0);
            let m1 = with_token(l3, r.user_base, r.user, r.base_mint);
            let m2 = with_token(m1, r.user_position, r.user, r.position_mint);
            assert(m1 == l3);
            assert(m2.tokens[d.user_base] == l3.tokens[d.user_base]);
            assert(m2.tokens[d.base_vault] == l3.tokens[d.base_vault]);
            let m3 = m2.burned(r.user_shares, r.share_mint, minted);
            assert(m3.tokens[d.user_base] == l3.tokens[d.user_base]);
            assert(m3.tokens[d.base_vault] == l3.tokens[d.base_vault]);
            let m4 = if bo == 0 { m3 } else { m3.transferred(d.base_vault, d.user_base, bo) };
            assert(c2.ledger == m4);
            assert(m4.tokens[d.user_base].amount == l3.tokens[d.user_base].amount + bo);
        }
    }
}

/// Law: a deploy goes through whatever position the vault already holds.
/// In any state the instructions reach, where its accounts are accepted, both amounts are positive, the
/// counterparty is not the manager, the vault holds the base it pays out and
/// the counterparty the position it delivers (each account holding the mint
/// of the account it pays into), the deploy succeeds and moves exactly
/// `position_in` into the vault's position account and `base_out` out of
/// its base account.
pub proof fn lemma_deploy_goes_through(c: Cluster, k: DeployKeys, base_out: u64, position_in: u64)
    requires
        c.wf(),
        vaults_sound(c@),
        deploy_accounts_error(c@, k) is None,
        base_out > 0,
        position_in > 0,
        k.counterparty != c@.vaults[k.vault].vault.manager,
        c@.ledger.tokens[k.base_vault].amount >= base_out,
        c@.ledger.tokens[k.counterparty_position].amount >= position_in,
        c@.ledger.tokens[k.counterparty_position].mint == c@.ledger.tokens[k.position_vault].mint,
        c@.ledger.tokens[k.base_vault].mint == c@.ledger.tokens[k.counterparty_base].mint,
    ensures
        deploy_spec(c@, k, base_out, position_in) matches Ok(c2) && {
            let l = c@.ledger;
            &&& c2.ledger.tokens[k.position_vault].amount == l.tokens[k.position_vault].amount + position_in
            &&& c2.ledger.tokens[k.base_vault].amount + base_out == l.tokens[k.base_vault].amount
            &&& c2.ledger.tokens[k.counterparty_base].amount == l.tokens[k.counterparty_base].amount + base_out
            &&& c2.ledger.tokens[k.counterparty_position].amount + position_in == l.tokens[k.counterparty_position].amount
            &&& c2.vaults == c@.vaults
        },
{
    let l = c@.ledger;
    let rec = c@.vaults[k.vault].vault;
    assert(vault_sound(c@, k.vault));
    assert(is_associated(k.base_vault, k.vault, rec.base_mint));
    assert(is_associated(k.position_vault, k.vault, rec.position_mint));
    assert(l.tokens[k.base_vault].mint != l.tokens[k.position_vault].mint);
    c.ledger.lemma_records();
    assert(l.tokens[k.base_vault].owner == k.vault);
    assert(l.tokens[k.position_vault].owner == k.vault);
    assert(l.tokens[k.counterparty_base].owner == k.counterparty);
    assert(l.tokens[k.counterparty_position].owner == k.counterparty);
    assert(k.counterparty != k.vault);
    let mp = l.tokens[k.position_vault].mint;
    let mb = l.tokens[k.base_vault].mint;
    c.ledger.lemma_supply_is_holdings(mp);
    c.ledger.lemma_supply_is_holdings(mb);
    assert(l.tokens[k.counterparty_position].amount + l.tokens[k.position_vault].amount <= l.mints[mp].supply);
    assert(l.tokens[k.base_vault].amount + l.tokens[k.counterparty_base].amount <= l.mints[mb].supply);
    assert(deploy_outcome(c@.vaults[k.vault].vault.manager, k.counterparty, l.tokens[k.base_vault].amount, base_out, position_in) is Ok);
    let l1 = l.transferred(k.counterparty_position, k.position_vault, position_in);
    assert(l1.tokens[k.base_vault] == l.tokens[k.base_vault]);
    assert(l1.tokens[k.counterparty_base] == l.tokens[k.counterparty_base]);
    let l2 = l1.transferred(k.base_vault, k.counterparty_base, base_out);
    assert(l2.tokens[k.position_vault] == l1.tokens[k.position_vault]);
    assert(l2.tokens[k.counterparty_position] == l1.tokens[k.counterparty_position]);
}

/// Law: a deposit goes through whatever shares the user already holds.
/// In any state the instructions reach, where a deposit's accounts are
/// accepted, the vault holds no position, the amount is positive and buys
/// at least one share, the user holds that much base in its base account
/// (an account of the base mint), its share account (if it has one) holds
/// the share mint, the vault may mint the shares without overflow, and the
/// user can pay the rent of a share account it lacks, the deposit succeeds:
/// the user's share account gains exactly the shares minted, its base
/// account loses `amount`, the vault's base account gains `amount` and the
/// share supply grows by the shares minted.
pub proof fn lemma_deposit_goes_through(c: Cluster, k: DepositKeys, amount: u64)
    requires
        c.wf(),
        vaults_sound(c@),
        deposit_accounts_error(c@, k) is None,
        c@.ledger.tokens[k.position_vault].amount == 0,
        amount > 0,
        minted_shares(amount, c@.ledger.mints[k.share_mint].supply, c@.ledger.tokens[k.base_vault].amount) > 0,
        c@.ledger.tokens[k.user_base].amount >= amount,
        c@.ledger.tokens[k.user_base].mint == k.base_mint,
        c@.ledger.tokens.contains_key(k.user_shares) ==> c@.ledger.tokens[k.user_shares].mint == k.share_mint,
        c@.ledger.mints[k.share_mint].authority == k.vault,
        c@.ledger.mints[k.share_mint].supply + minted_shares(
            amount,
            c@.ledger.mints[k.share_mint].supply,
            c@.ledger.tokens[k.base_vault].amount,
        ) <= u64::MAX,
        deposit_funding(c@, k) is Ok,
    ensures
        deposit_spec(c@, k, amount) matches Ok(c2) && {
            let l = c@.ledger;
            let minted = minted_shares(amount, l.mints[k.share_mint].supply, l.tokens[k.base_vault].amount);
            &&& c2.ledger.balance(k.user_shares) == l.balance(k.user_shares) + minted
            &&& c2.ledger.tokens[k.user_base].amount + amount == l.tokens[k.user_base].amount
            &&& c2.ledger.tokens[k.base_vault].amount == l.tokens[k.base_vault].amount + amount
            &&& c2.ledger.mints[k.share_mint].supply == l.mints[k.share_mint].supply + minted
            &&& c2.vaults == c@.vaults
        },
{
    let l = c@.ledger;
    let rec = c@.vaults[k.vault].vault;
    assert(vault_sound(c@, k.vault));
    assert(is_associated(k.base_vault, k.vault, rec.base_mint));
    assert(is_associated(k.position_vault, k.vault, rec.position_mint));
    assert(l.tokens.contains_key(k.base_vault) && l.tokens.contains_key(k.position_vault));
    lemma_deposit_keeps_vault_priced(c, k, amount);
    c.ledger.lemma_records();
    let s = l.mints[k.share_mint].supply;
    let b = l.tokens[k.base_vault].amount;
    let minted = minted_shares(amount, s, b);
    c.ledger.lemma_supply_is_holdings(k.base_mint);
    c.ledger.lemma_supply_is_holdings(k.share_mint);
    assert(l.tokens[k.user_base].owner == k.user);
    assert(l.tokens[k.base_vault].owner == k.vault);
    assert(k.user != k.vault);
    assert(k.user_base != k.base_vault);
    assert(l.tokens[k.user_base].amount + l.tokens[k.base_vault].amount <= l.mints[k.base_mint].supply);
    let l1 = with_token(l, k.user_shares, k.user, k.share_mint);
    assert(l1.tokens[k.user_shares].mint == k.share_mint);
    assert(k.user_shares != k.user_base);
    assert(k.user_shares != k.base_vault);
    assert(l1.tokens[k.user_base] == l.tokens[k.user_base]);
    assert(l1.tokens[k.base_vault] == l.tokens[k.base_vault]);
    assert(l1.balance(k.user_shares) == l.balance(k.user_shares));
    if l.tokens.contains_key(k.user_shares) {
        assert(l.tokens[k.user_shares].amount <= s);
    }
    assert(!deposit_divides_by_zero(0, s, b, amount));
    assert(deposit_outcome(0, s, b, amount) == Ok::<u64, VaultError>(minted));
    let l2 = l1.transferred(k.user_base, k.base_vault, amount);
    assert(l2.tokens[k.user_shares] == l1.tokens[k.user_shares]);
    assert(l2.mints == l.mints);
    let l3 = l2.minted(k.share_mint, k.user_shares, minted);
    assert(l3.tokens[k.user_base] == l2.tokens[k.user_base]);
    assert(l3.tokens[k.base_vault] == l2.tokens[k.base_vault]);
}

/// Law: what each handler of the pooled vault decides, in terms of its
/// inputs. Opening refuses only one mint for both sides and records the
/// manager, mints, share mint and bump given. A deposit is taken exactly
/// when the amount is positive, the vault holds no position and the deposit
/// buys a share, and then mints that many shares. A deploy is taken
/// exactly when both amounts are positive, the counterparty is not the
/// manager and the vault holds the base it pays, whatever position it
/// holds. A redemption is taken exactly when the shares are positive and
/// held, and pays the pro-rata slice of each holding.
pub proof fn lemma_handlers_decide(
    a: Initialize,
    position: u64,
    supply: u64,
    pooled: u64,
    amount: u64,
    manager: Address,
    counterparty: Address,
    liquid: u64,
    base_out: u64,
    position_in: u64,
    held: u64,
    base: u64,
    shares: u64,
)
    ensures
        (initialize_outcome(a) is Ok) <==> a.base_mint != a.position_mint,
        initialize_outcome(a) matches Ok(v) ==> v == (Vault {
            manager: a.manager,
            base_mint: a.base_mint,
            position_mint: a.position_mint,
            share_mint: a.share_mint,
            bump: a.vault_bump,
        }),
        (deposit_outcome(position, supply, pooled, amount) is Ok) <==> (amount > 0 && position == 0 && minted_shares(
            amount,
            supply,
            pooled,
        ) > 0),
        deposit_outcome(position, supply, pooled, amount) matches Ok(x) ==> x == minted_shares(amount, supply, pooled),
        supply == 0 ==> minted_shares(amount, supply, pooled) == amount,
        (deploy_outcome(manager, counterparty, liquid, base_out, position_in) is Ok) <==> (base_out > 0 && position_in
            > 0 && counterparty != manager && liquid >= base_out),
        (redeem_outcome(held, base, position, supply, shares) is Ok) <==> (shares > 0 && held >= shares),
        redeem_outcome(held, base, position, supply, shares) matches Ok(p) ==> p == (Payout {
            base_out: pro_rata(base, shares, supply),
            position_out: pro_rata(position, shares, supply),
        }),
{
}

/// Law: a redemption that succeeds pays out exactly the pro-rata slices.
/// In any state the instructions reach, where a redemption of `shares`
/// succeeds, the holder's share account and the share supply lose exactly
/// `shares`, and the holder's base and position accounts gain exactly the
/// slices of the vault's base and position that `shares` claim against the
/// supply before the burn, which the vault's accounts lose.
pub proof fn lemma_redeem_pays_out(c: Cluster, k: RedeemKeys, shares: u64)
    requires
        c.wf(),
        vaults_sound(c@),
    ensures
        redeem_spec(c@, k, shares) matches Ok(c2) ==> {
            let l = c@.ledger;
            let s = l.mints[k.share_mint].supply;
            let bo = pro_rata(l.tokens[k.base_vault].amount, shares, s);
            let po = pro_rata(l.tokens[k.position_vault].amount, shares, s);
            &&& c2.ledger.tokens[k.user_shares].amount + shares == l.tokens[k.user_shares].amount
            &&& c2.ledger.mints[k.share_mint].supply + shares == s
            &&& c2.ledger.balance(k.user_base) == l.balance(k.user_base) + bo
            &&& c2.ledger.balance(k.user_position) == l.balance(k.user_position) + po
            &&& c2.ledger.tokens[k.base_vault].amount + bo == l.tokens[k.base_vault].amount
            &&& c2.ledger.tokens[k.position_vault].amount + po == l.tokens[k.position_vault].amount
        },
{
    let l = c@.ledger;
    if let Ok(c2) = redeem_spec(c@, k, shares) {
        let rec = c@.vaults[k.vault].vault;
        assert(vault_sound(c@, k.vault));
        assert(is_associated(k.base_vault, k.vault, rec.base_mint));
        assert(is_associated(k.position_vault, k.vault, rec.position_mint));
        assert(l.tokens.contains_key(k.base_vault) && l.tokens.contains_key(k.position_vault));
        c.ledger.lemma_records();
        let s = l.mints[k.share_mint].supply;
        let b = l.tokens[k.base_vault].amount;
        let p = l.tokens[k.position_vault].amount;
        c.ledger.lemma_supply_is_holdings(k.share_mint);
        c.ledger.lemma_supply_is_holdings(k.base_mint);
        c.ledger.lemma_supply_is_holdings(k.position_mint);
        let held = l.tokens[k.user_shares].amount;
        assert(l.tokens[k.user_shares].mint == k.share_mint);
        assert(0 < shares <= held <= s);
        crate::shares::lemma_redeem_is_fair(b, shares, s);
        crate::shares::lemma_redeem_is_fair(p, shares, s);
        let bo = pro_rata(b, shares, s);
        let po = pro_rata(p, shares, s);
        let l1 = with_token(l, k.user_base, k.user, k.base_mint);
        let l2 = with_token(l1, k.user_position, k.user, k.position_mint);
        assert(k.user != k.vault);
        assert(l2.tokens[k.user_base].owner == k.user && l2.tokens[k.user_base].mint == k.base_mint);
        assert(l2.tokens[k.user_position].owner == k.user && l2.tokens[k.user_position].mint == k.position_mint);
        assert(l.tokens[k.user_shares].owner == k.user);
        assert(k.user_base != k.user_position);
        assert(k.user_shares != k.user_base && k.user_shares != k.user_position);
        assert(k.user_base != k.base_vault && k.user_base != k.position_vault);
        assert(k.user_position != k.base_vault && k.user_position != k.position_vault);
        assert(k.user_shares != k.base_vault && k.user_shares != k.position_vault);
        assert(k.base_vault != k.position_vault);
        assert(l2.tokens[k.base_vault] == l.tokens[k.base_vault]);
        assert(l2.tokens[k.position_vault] == l.tokens[k.position_vault]);
        assert(l2.tokens[k.user_shares] == l.tokens[k.user_shares]);
        assert(l2.balance(k.user_base) == l.balance(k.user_base));
        assert(l2.balance(k.user_position) == l.balance(k.user_position));
        assert(l2.balance(k.user_base) + b <= u64::MAX) by {
            if l.tokens.contains_key(k.user_base) {
                assert(l.tokens[k.user_base].amount + l.tokens[k.base_vault].amount <= l.mints[k.base_mint].supply);
            }
        }
        assert(l2.balance(k.user_position) + p <= u64::MAX) by {
            if l.tokens.contains_key(k.user_position) {
                assert(l.tokens[k.user_position].amount + l.tokens[k.position_vault].amount <= l.mints[k.position_mint].supply);
            }
        }
        let l3 = l2.burned(k.user_shares, k.share_mint, shares);
        assert(l3.tokens[k.base_vault] == l.tokens[k.base_vault]);
        assert(l3.tokens[k.position_vault] == l.tokens[k.position_vault]);
        assert(l3.tokens[k.user_base] == l2.tokens[k.user_base]);
        assert(l3.tokens[k.user_position] == l2.tokens[k.user_position]);
        assert(l3.tokens[k.user_shares].amount + shares == held);
        assert(l3.mints[k.share_mint].supply + shares == s);
        let l4 = if bo == 0 { l3 } else { l3.transferred(k.base_vault, k.user_base, bo) };
        assert(l4.tokens[k.base_vault].amount + bo == b);
        assert(l4.tokens[k.user_base].amount == l2.balance(k.user_base) + bo);
        assert(l4.tokens[k.position_vault] == l3.tokens[k.position_vault]);
        assert(l4.tokens[k.user_position] == l3.tokens[k.user_position]);
        assert(l4.tokens[k.user_shares] == l3.tokens[k.user_shares]);
        assert(l4.mints == l3.mints);
        let l5 = if po == 0 { l4 } else { l4.transferred(k.position_vault, k.user_position, po) };
        assert(c2.ledger == l5);
        assert(l5.tokens[k.position_vault].amount + po == p);
        assert(l5.tokens[k.user_position].amount == l2.balance(k.user_position) + po);
        assert(l5.tokens[k.base_vault] == l4.tokens[k.base_vault]);
        assert(l5.tokens[k.user_base] == l4.tokens[k.user_base]);
        assert(l5.tokens[k.user_shares] == l4.tokens[k.user_shares]);
    }
}

/// Law: opening a vault records what was asked for. Where an initialize
/// succeeds, the two mints differ; the vault state names the manager, the
/// two mints and the share mint given; the share mint is new, has no
/// supply, the base mint's decimals and the vault as its authority; and the
/// vault's two token accounts are new, empty, belong to the vault and hold
/// the base and the position mint.
pub proof fn lemma_initialize_records_the_vault(c: Cluster, k: InitializeKeys)
    requires
        c.wf(),
    ensures
        initialize_spec(c@, k) matches Ok(c2) ==> {
            let v = c2.vaults[k.vault].vault;
            let l2 = c2.ledger;
            &&& !c@.vaults.contains_key(k.vault) && c2.vaults.contains_key(k.vault)
            &&& k.base_mint != k.position_mint
            &&& v.manager == k.manager && v.base_mint == k.base_mint && v.position_mint == k.position_mint
            &&& v.share_mint == k.share_mint
            &&& !c@.ledger.mints.contains_key(k.share_mint)
            &&& l2.mints[k.share_mint].supply == 0
            &&& l2.mints[k.share_mint].authority == k.vault
            &&& l2.mints[k.share_mint].decimals == c@.ledger.mints[k.base_mint].decimals
            &&& l2.tokens[k.base_vault] == (TokenAccount { address: k.base_vault, mint: k.base_mint, owner: k.vault, amount: 0 })
            &&& l2.tokens[k.position_vault] == (TokenAccount {
                address: k.position_vault,
                mint: k.position_mint,
                owner: k.vault,
                amount: 0,
            })
        },
{
}

/// The vault whose token accounts are `base_vault` and `position_vault`
/// and whose shares are `share_mint` is priced (see `shares::priced`).
pub open spec fn vault_priced(l: LedgerView, base_vault: Address, position_vault: Address, share_mint: Address) -> bool {
    priced(l.balance(base_vault), l.balance(position_vault), l.supply(share_mint))
}

/// Law: where every vault is sound and a deposit's accounts are accepted,
/// the deposit never aborts, and if it succeeds the vault is still priced.
pub proof fn lemma_deposit_keeps_vault_priced(c: Cluster, k: DepositKeys, amount: u64)
    requires
        c.wf(),
        vaults_sound(c@),
        deposit_accounts_error(c@, k) is None,
    ensures
        vault_priced(c@.ledger, k.base_vault, k.position_vault, k.share_mint),
        deposit_spec(c@, k, amount) != Err::<ClusterView, Failure<VaultError>>(Failure::Aborted),
        deposit_spec(c@, k, amount) matches Ok(c2) ==> vault_priced(c2.ledger, k.base_vault, k.position_vault, k.share_mint),
{
    let l = c@.ledger;
    let rec = c@.vaults[k.vault].vault;
    assert(vault_sound(c@, k.vault));
    assert(is_associated(k.base_vault, k.vault, rec.base_mint));
    assert(is_associated(k.position_vault, k.vault, rec.position_mint));
    let b = l.tokens[k.base_vault].amount;
    let p = l.tokens[k.position_vault].amount;
    let s = l.mints[k.share_mint].supply;
    assert(l.tokens.contains_key(k.base_vault) && l.tokens.contains_key(k.position_vault));
    assert(l.balance(k.base_vault) == b && l.balance(k.position_vault) == p && l.supply(k.share_mint) == s);
    if let Ok(c2) = deposit_spec(c@, k, amount) {
        let l1 = with_token(l, k.user_shares, k.user, k.share_mint);
        c.ledger.lemma_records();
        c.ledger.lemma_supply_is_holdings(k.base_mint);
        assert(l.tokens[k.user_base].owner == k.user);
        assert(l.tokens[k.base_vault].owner == k.vault);
        assert(k.user_base != k.base_vault);
        assert(l1.tokens[k.user_base] == l.tokens[k.user_base]);
        assert(l1.tokens[k.base_vault] == l.tokens[k.base_vault]);
        assert(l1.tokens[k.position_vault] == l.tokens[k.position_vault]);
        assert(l.tokens[k.user_base].mint == k.base_mint);
        assert(l.tokens[k.user_base].amount + b <= u64::MAX);
        assert(p == 0);
        crate::shares::lemma_deposit_keeps_pricing(b, s, amount);
        let shares = minted_shares(amount, s, b);
        let l2 = l1.transferred(k.user_base, k.base_vault, amount);
        assert(l2.tokens[k.base_vault].amount == b + amount);
        assert(l2.tokens[k.position_vault] == l.tokens[k.position_vault]);
        assert(l1.tokens[k.user_shares].mint == k.share_mint);
        assert(k.user_shares != k.position_vault);
        assert(k.user_shares != k.base_vault);
        let l3 = l2.minted(k.share_mint, k.user_shares, shares);
        assert(c2.ledger == l3);
        assert(l3.tokens[k.base_vault].amount == b + amount);
        assert(l3.tokens[k.position_vault].amount == 0);
        assert(l3.mints[k.share_mint].supply == s + shares);
    }
}

/// Law: where every vault is sound, a deploy that succeeds leaves the vault
/// priced (it now holds a position).
pub proof fn lemma_deploy_keeps_vault_priced(c: Cluster, k: DeployKeys, base_out: u64, position_in: u64)
    requires
        c.wf(),
        vaults_sound(c@),
    ensures
        deploy_spec(c@, k, base_out, position_in) matches Ok(c2) ==> vault_priced(
            c2.ledger,
            k.base_vault,
            k.position_vault,
            c@.vaults[k.vault].vault.share_mint,
        ),
{
    let l = c@.ledger;
    if let Ok(c2) = deploy_spec(c@, k, base_out, position_in) {
        let rec = c@.vaults[k.vault].vault;
        assert(vault_sound(c@, k.vault));
        assert(is_associated(k.base_vault, k.vault, rec.base_mint));
        assert(is_associated(k.position_vault, k.vault, rec.position_mint));
        assert(l.tokens[k.counterparty_position].owner == k.counterparty);
        assert(l.tokens[k.position_vault].owner == k.vault);
        c.ledger.lemma_records();
        c.ledger.lemma_supply_is_holdings(k.position_mint);
        assert(position_in > 0);
        assert(l.tokens[k.counterparty_position].mint == k.position_mint);
        assert(l.tokens[k.counterparty_position].amount + l.tokens[k.position_vault].amount <= u64::MAX);
        let l1 = l.transferred(k.counterparty_position, k.position_vault, position_in);
        assert(l1.tokens[k.position_vault].amount > 0);
        assert(l1.tokens[k.base_vault].mint == k.base_mint);
        let l2 = l1.transferred(k.base_vault, k.counterparty_base, base_out);
        assert(l1.tokens[k.counterparty_base].mint == k.base_mint);
        assert(l2.tokens[k.position_vault] == l1.tokens[k.position_vault]);
        assert(c2.ledger == l2);
    }
}

/// Law: the manager can never move assets out to itself. A deploy that
/// succeeds has a counterparty other than the manager and moves tokens only
/// between the vault's accounts and the counterparty's, so every account
/// the manager owns is left as it was.
pub proof fn lemma_deploy_never_pays_the_manager(c: Cluster, k: DeployKeys, base_out: u64, position_in: u64, a: Address)
    requires
        c.wf(),
        c@.ledger.tokens.contains_key(a),
        c@.ledger.tokens[a].owner == k.manager,
    ensures
        deploy_spec(c@, k, base_out, position_in) matches Ok(c2) ==> {
            &&& k.counterparty != k.manager
            &&& c2.ledger.tokens[a] == c@.ledger.tokens[a]
        },
{
    let l = c@.ledger;
    if let Ok(c2) = deploy_spec(c@, k, base_out, position_in) {
        assert(a != k.counterparty_position && a != k.counterparty_base);
        assert(a != k.position_vault && a != k.base_vault);
        let l1 = l.transferred(k.counterparty_position, k.position_vault, position_in);
        assert(l1.tokens[a] == l.tokens[a]);
    }
}

/// Law: where every vault is sound, a redemption that succeeds leaves the
/// vault priced, and one of the whole supply empties the vault.
pub proof fn lemma_redeem_keeps_vault_priced(c: Cluster, k: RedeemKeys, shares: u64)
    requires
        c.wf(),
        vaults_sound(c@),
    ensures
        redeem_spec(c@, k, shares) matches Ok(c2) ==> {
            &&& vault_priced(c2.ledger, k.base_vault, k.position_vault, k.share_mint)
            &&& shares == c@.ledger.supply(k.share_mint) ==> {
                &&& c2.ledger.balance(k.base_vault) == 0
                &&& c2.ledger.balance(k.position_vault) == 0
                &&& c2.ledger.supply(k.share_mint) == 0
            }
        },
{
    let l = c@.ledger;
    if let Ok(c2) = redeem_spec(c@, k, shares) {
        let rec = c@.vaults[k.vault].vault;
        assert(vault_sound(c@, k.vault));
        assert(is_associated(k.base_vault, k.vault, rec.base_mint));
        assert(is_associated(k.position_vault, k.vault, rec.position_mint));
        assert(l.tokens.contains_key(k.base_vault) && l.tokens.contains_key(k.position_vault));
        let b = l.tokens[k.base_vault].amount;
        let p = l.tokens[k.position_vault].amount;
        let s = l.mints[k.share_mint].supply;
        let held = l.tokens[k.user_shares].amount;
        c.ledger.lemma_records();
        c.ledger.lemma_supply_is_holdings(k.share_mint);
        assert(l.tokens[k.user_shares].mint == k.share_mint);
        assert(held <= s);
        assert(0 < shares <= s);
        crate::shares::lemma_redeem_keeps_pricing(b, p, s, shares);
        crate::shares::lemma_redeem_is_fair(b, shares, s);
        crate::shares::lemma_redeem_is_fair(p, shares, s);
        let bo = pro_rata(b, shares, s);
        let po = pro_rata(p, shares, s);
        let l1 = with_token(l, k.user_base, k.user, k.base_mint);
        let l2 = with_token(l1, k.user_position, k.user, k.position_mint);
        assert(l2.tokens[k.user_base].owner == k.user);
        assert(l2.tokens[k.user_position].owner == k.user);
        assert(l2.tokens[k.base_vault] == l.tokens[k.base_vault]);
        assert(l2.tokens[k.position_vault] == l.tokens[k.position_vault]);
        assert(l2.tokens[k.base_vault].owner == k.vault);
        assert(l2.tokens[k.position_vault].owner == k.vault);
        let l3 = l2.burned(k.user_shares, k.share_mint, shares);
        assert(l3.tokens[k.base_vault] == l.tokens[k.base_vault]);
        assert(l3.tokens[k.position_vault] == l.tokens[k.position_vault]);
        assert(l3.mints[k.share_mint].supply == s - shares);
        assert(l3.tokens[k.user_base].owner == k.user);
        assert(l3.tokens[k.user_position].owner == k.user);
        let l4 = if bo == 0 { l3 } else { l3.transferred(k.base_vault, k.user_base, bo) };
        assert(l4.tokens[k.base_vault].amount == b - bo);
        assert(l4.tokens[k.position_vault] == l.tokens[k.position_vault]);
        assert(l4.tokens[k.user_position].owner == k.user);
        let l5 = if po == 0 { l4 } else { l4.transferred(k.position_vault, k.user_position, po) };
        assert(c2.ledger == l5);
        assert(l5.tokens[k.position_vault].amount == p - po);
        assert(l5.tokens[k.base_vault].amount == b - bo);
        assert(l5.mints[k.share_mint].supply == s - shares);
        if shares == s {
            crate::shares::lemma_full_exit_takes_everything(b, s);
            crate::shares::lemma_full_exit_takes_everything(p, s);
        }
    }
}

} // verus!

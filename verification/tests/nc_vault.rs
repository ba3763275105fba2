use anchor_lang::prelude::Pubkey;
use token_vaults::address::{associated_token_address, find_pda, Address};
use token_vaults::constraints::{ConstraintError, Failure};
use token_vaults::ledger::Ledger;
use token_vaults::lamports::{Lamports, Rent};
use token_vaults::nc_vault::{
    deploy, deposit, initialize, redeem, Cluster, DeployKeys, DepositKeys, InitializeKeys,
    RedeemKeys, Vault, VaultError,
};

const PROGRAM_ID: &str = "GpvQhAe56FKFs9suG7PQ2bnxghikcwdWn7NbDVpN44Yt";
const LAMPORTS_PER_SOL: u64 = 1_000_000_000;
/// The rent of a vault state account, a token account and a mint on the cluster.
const STATE_RENT: u64 = 2_011_680;
const TOKEN_RENT: u64 = 2_039_280;
const MINT_RENT: u64 = 1_461_600;

fn rent() -> Rent {
    Rent { state_account: STATE_RENT, token_account: TOKEN_RENT, mint_account: MINT_RENT }
}

/// A cluster over `ledger` where `manager` can pay for a vault.
fn cluster_with_manager(program_id: Address, ledger: Ledger, manager: &Address) -> Cluster {
    let mut lamports = Lamports::new();
    lamports.credit(manager, LAMPORTS_PER_SOL).unwrap();
    Cluster::new(program_id, ledger, lamports, rent())
}

/// A vault that is already initialized and empty, over two fresh mints.
struct Env {
    cluster: Cluster,
    base_mint: Address,
    position_mint: Address,
    manager: Address,
    payer: Address,
    next: u8,
}

impl Env {
    fn new() -> Self {
        let program_id = Pubkey::from_str_const(PROGRAM_ID).to_bytes();
        let mut ledger = Ledger::new();
        let payer = [1u8; 32];
        let base_mint = [2u8; 32];
        let position_mint = [3u8; 32];
        ledger.create_mint(&base_mint, &payer, 6).unwrap();
        ledger.create_mint(&position_mint, &payer, 6).unwrap();
        let manager = [4u8; 32];
        let mut env = Env {
            cluster: cluster_with_manager(program_id, ledger, &manager),
            base_mint,
            position_mint,
            manager,
            payer,
            next: 10,
        };
        env.initialize().unwrap();
        env
    }

    fn funded_keypair(&mut self) -> Address {
        self.next += 1;
        let key = [self.next; 32];
        self.cluster.lamports.credit(&key, LAMPORTS_PER_SOL).unwrap();
        key
    }

    fn vault(&self) -> Address {
        let seeds = vec![b"vault".to_vec(), self.base_mint.to_vec(), self.position_mint.to_vec()];
        find_pda(&seeds, &self.cluster.program_id).unwrap().0
    }

    fn share_mint(&self) -> Address {
        let seeds = vec![b"share".to_vec(), self.vault().to_vec()];
        find_pda(&seeds, &self.cluster.program_id).unwrap().0
    }

    fn ata(&self, owner: &Address, mint: &Address) -> Address {
        associated_token_address(owner, mint).unwrap()
    }

    fn base_vault(&self) -> Address {
        self.ata(&self.vault(), &self.base_mint)
    }

    fn position_vault(&self) -> Address {
        self.ata(&self.vault(), &self.position_mint)
    }

    fn vault_state(&self) -> Vault {
        self.cluster.vault(&self.vault()).expect("vault missing")
    }

    fn fund_tokens(&mut self, owner: &Address, mint: &Address, amount: u64) -> Address {
        let ata = self.ata(owner, mint);
        self.cluster.ledger.open_account(&ata, mint, owner).unwrap();
        let payer = self.payer;
        self.cluster.ledger.mint_to(mint, &ata, &payer, amount).unwrap();
        ata
    }

    fn balance(&self, ata: &Address) -> u64 {
        self.cluster.ledger.balance(ata)
    }

    fn shares_of(&self, owner: &Address) -> u64 {
        self.balance(&self.ata(owner, &self.share_mint()))
    }

    fn share_supply(&self) -> u64 {
        self.cluster.ledger.supply(&self.share_mint())
    }

    fn initialize(&mut self) -> Result<(), Failure<VaultError>> {
        let keys = InitializeKeys {
            manager: self.manager,
            base_mint: self.base_mint,
            position_mint: self.position_mint,
            vault: self.vault(),
            share_mint: self.share_mint(),
            base_vault: self.base_vault(),
            position_vault: self.position_vault(),
        };
        initialize(&mut self.cluster, &keys)
    }

    /// A user holding `amount` of base.
    fn depositor(&mut self, amount: u64) -> Address {
        let user = self.funded_keypair();
        let base = self.base_mint;
        self.fund_tokens(&user, &base, amount);
        user
    }

    fn deposit(&mut self, user: &Address, amount: u64) -> Result<(), Failure<VaultError>> {
        let keys = DepositKeys {
            user: *user,
            vault: self.vault(),
            base_mint: self.base_mint,
            position_mint: self.position_mint,
            share_mint: self.share_mint(),
            base_vault: self.base_vault(),
            position_vault: self.position_vault(),
            user_base: self.ata(user, &self.base_mint),
            user_shares: self.ata(user, &self.share_mint()),
        };
        deposit(&mut self.cluster, &keys, amount)
    }

    /// A counterparty holding `position` tokens and an empty base account.
    fn counterparty(&mut self, position: u64) -> Address {
        let cp = self.funded_keypair();
        let (base, pos) = (self.base_mint, self.position_mint);
        self.fund_tokens(&cp, &pos, position);
        self.fund_tokens(&cp, &base, 0);
        cp
    }

    fn deploy(&mut self, manager: &Address, counterparty: &Address, base_out: u64, position_in: u64) -> Result<(), Failure<VaultError>> {
        let keys = DeployKeys {
            manager: *manager,
            counterparty: *counterparty,
            vault: self.vault(),
            base_mint: self.base_mint,
            position_mint: self.position_mint,
            base_vault: self.base_vault(),
            position_vault: self.position_vault(),
            counterparty_base: self.ata(counterparty, &self.base_mint),
            counterparty_position: self.ata(counterparty, &self.position_mint),
        };
        deploy(&mut self.cluster, &keys, base_out, position_in)
    }

    fn redeem(&mut self, user: &Address, shares: u64) -> Result<(), Failure<VaultError>> {
        let keys = RedeemKeys {
            user: *user,
            vault: self.vault(),
            base_mint: self.base_mint,
            position_mint: self.position_mint,
            share_mint: self.share_mint(),
            base_vault: self.base_vault(),
            position_vault: self.position_vault(),
            user_base: self.ata(user, &self.base_mint),
            user_position: self.ata(user, &self.position_mint),
            user_shares: self.ata(user, &self.share_mint()),
        };
        redeem(&mut self.cluster, &keys, shares)
    }
}

#[test]
fn redeems_base_while_fully_liquid() {
    let mut env = Env::new();
    let user = env.depositor(1_000);
    env.deposit(&user, 1_000).unwrap();

    env.redeem(&user, 400).unwrap();

    assert_eq!(env.balance(&env.ata(&user, &env.base_mint)), 400);
    assert_eq!(env.shares_of(&user), 600);
    assert_eq!(env.balance(&env.base_vault()), 600);
}

/// The headline requirement: exiting works with zero liquid base, by paying
/// out the underlying position in kind.
#[test]
fn redeems_in_kind_when_there_is_no_liquidity() {
    let mut env = Env::new();
    let user = env.depositor(1_000);
    env.deposit(&user, 1_000).unwrap();

    let manager = env.manager;
    let cp = env.counterparty(500);
    env.deploy(&manager, &cp, 1_000, 500).unwrap();
    assert_eq!(env.balance(&env.base_vault()), 0, "vault should be illiquid");

    env.redeem(&user, 400).unwrap();

    // 400/1000 of the position, and no base because there is none.
    assert_eq!(env.balance(&env.ata(&user, &env.position_mint)), 200);
    assert_eq!(env.balance(&env.ata(&user, &env.base_mint)), 0);
    assert_eq!(env.shares_of(&user), 600);
}

#[test]
fn redeems_a_slice_of_both_when_partly_deployed() {
    let mut env = Env::new();
    let user = env.depositor(1_000);
    env.deposit(&user, 1_000).unwrap();

    let manager = env.manager;
    let cp = env.counterparty(400);
    env.deploy(&manager, &cp, 600, 400).unwrap();

    env.redeem(&user, 500).unwrap();

    // Half of 400 base and half of 400 position.
    assert_eq!(env.balance(&env.ata(&user, &env.base_mint)), 200);
    assert_eq!(env.balance(&env.ata(&user, &env.position_mint)), 200);
}

#[test]
fn full_exit_empties_the_vault() {
    let mut env = Env::new();
    let user = env.depositor(1_000);
    env.deposit(&user, 1_000).unwrap();
    let manager = env.manager;
    let cp = env.counterparty(500);
    env.deploy(&manager, &cp, 1_000, 500).unwrap();

    env.redeem(&user, 1_000).unwrap();

    assert_eq!(env.shares_of(&user), 0);
    assert_eq!(env.share_supply(), 0);
    assert_eq!(env.balance(&env.position_vault()), 0);
    assert_eq!(env.balance(&env.ata(&user, &env.position_mint)), 500);
}

#[test]
fn two_holders_split_the_position_pro_rata() {
    let mut env = Env::new();
    let big = env.depositor(1_000);
    let small = env.depositor(1_000);
    env.deposit(&big, 750).unwrap();
    env.deposit(&small, 250).unwrap();

    let manager = env.manager;
    let cp = env.counterparty(400);
    env.deploy(&manager, &cp, 1_000, 400).unwrap();

    env.redeem(&big, 750).unwrap();
    env.redeem(&small, 250).unwrap();

    assert_eq!(env.balance(&env.ata(&big, &env.position_mint)), 300);
    assert_eq!(env.balance(&env.ata(&small, &env.position_mint)), 100);
    assert_eq!(env.balance(&env.position_vault()), 0);
}

#[test]
fn rejects_more_shares_than_owned() {
    let mut env = Env::new();
    let user = env.depositor(1_000);
    env.deposit(&user, 500).unwrap();

    assert!(env.redeem(&user, 501).is_err());
    assert_eq!(env.shares_of(&user), 500);
}

#[test]
fn rejects_zero_shares() {
    let mut env = Env::new();
    let user = env.depositor(1_000);
    env.deposit(&user, 500).unwrap();

    assert!(env.redeem(&user, 0).is_err());
}

#[test]
fn a_holder_cannot_touch_another_holders_shares() {
    let mut env = Env::new();
    let owner = env.depositor(1_000);
    let other = env.depositor(1_000);
    env.deposit(&owner, 500).unwrap();
    env.deposit(&other, 500).unwrap();

    // `other` can only ever burn from their own share account.
    env.redeem(&other, 500).unwrap();

    assert_eq!(env.shares_of(&owner), 500);
    assert_eq!(env.balance(&env.base_vault()), 500);
}

#[test]
fn initialize_wires_up_the_vault() {
    let env = Env::new();

    let state = env.vault_state();
    assert_eq!(state.manager, env.manager);
    assert_eq!(state.base_mint, env.base_mint);
    assert_eq!(state.position_mint, env.position_mint);
    assert_eq!(state.share_mint, env.share_mint());
    assert_eq!(env.share_supply(), 0);
    assert_eq!(env.balance(&env.base_vault()), 0);
    assert_eq!(env.balance(&env.position_vault()), 0);
}

#[test]
fn first_deposit_mints_shares_one_to_one() {
    let mut env = Env::new();
    let user = env.depositor(1_000);

    env.deposit(&user, 400).unwrap();

    assert_eq!(env.shares_of(&user), 400);
    assert_eq!(env.balance(&env.base_vault()), 400);
    assert_eq!(env.balance(&env.ata(&user, &env.base_mint)), 600);
}

#[test]
fn later_deposits_are_pro_rata() {
    let mut env = Env::new();
    let first = env.depositor(1_000);
    let second = env.depositor(1_000);

    env.deposit(&first, 400).unwrap();
    env.deposit(&second, 200).unwrap();

    assert_eq!(env.shares_of(&first), 400);
    assert_eq!(env.shares_of(&second), 200);
    assert_eq!(env.share_supply(), 600);
}

#[test]
fn deposit_rejects_zero() {
    let mut env = Env::new();
    let user = env.depositor(1_000);

    assert!(env.deposit(&user, 0).is_err());
}

#[test]
fn deploy_swaps_base_for_position() {
    let mut env = Env::new();
    let user = env.depositor(1_000);
    env.deposit(&user, 1_000).unwrap();
    let manager = env.manager;
    let cp = env.counterparty(500);

    env.deploy(&manager, &cp, 1_000, 500).unwrap();

    assert_eq!(env.balance(&env.base_vault()), 0);
    assert_eq!(env.balance(&env.position_vault()), 500);
    assert_eq!(env.balance(&env.ata(&cp, &env.base_mint)), 1_000);
}

#[test]
fn deploy_rejects_a_non_manager() {
    let mut env = Env::new();
    let user = env.depositor(1_000);
    env.deposit(&user, 1_000).unwrap();
    let impostor = env.funded_keypair();
    let cp = env.counterparty(500);

    assert!(env.deploy(&impostor, &cp, 1_000, 500).is_err());
    assert_eq!(env.balance(&env.base_vault()), 1_000);
}

#[test]
fn deploy_rejects_more_base_than_held() {
    let mut env = Env::new();
    let user = env.depositor(1_000);
    env.deposit(&user, 500).unwrap();
    let manager = env.manager;
    let cp = env.counterparty(500);

    assert!(env.deploy(&manager, &cp, 501, 500).is_err());
}

#[test]
fn deposit_is_refused_once_deployed() {
    let mut env = Env::new();
    let user = env.depositor(1_000);
    env.deposit(&user, 500).unwrap();
    let manager = env.manager;
    let cp = env.counterparty(500);
    env.deploy(&manager, &cp, 500, 500).unwrap();

    assert!(env.deposit(&user, 100).is_err());
}

// Which refusal each kind of bad request meets.

#[test]
fn refusals_name_their_reason() {
    let mut env = Env::new();
    let user = env.depositor(1_000);
    assert_eq!(env.deposit(&user, 0), Err(Failure::Program(VaultError::InvalidAmount)));
    env.deposit(&user, 500).unwrap();
    assert_eq!(env.redeem(&user, 501), Err(Failure::Program(VaultError::InsufficientShares)));
    assert_eq!(env.redeem(&user, 0), Err(Failure::Program(VaultError::InvalidAmount)));
    let manager = env.manager;
    let cp = env.counterparty(500);
    assert_eq!(env.deploy(&manager, &cp, 501, 500), Err(Failure::Program(VaultError::InsufficientLiquidity)));
    assert_eq!(env.deploy(&manager, &cp, 0, 500), Err(Failure::Program(VaultError::InvalidAmount)));
    env.deploy(&manager, &cp, 500, 500).unwrap();
    assert_eq!(env.deposit(&user, 100), Err(Failure::Program(VaultError::VaultDeployed)));
}

#[test]
fn initialize_refuses_one_mint_for_both_sides() {
    let program_id = Pubkey::from_str_const(PROGRAM_ID).to_bytes();
    let mut ledger = Ledger::new();
    let payer = [1u8; 32];
    let mint = [2u8; 32];
    ledger.create_mint(&mint, &payer, 6).unwrap();
    let mut cluster = cluster_with_manager(program_id, ledger, &[4u8; 32]);
    let seeds = vec![b"vault".to_vec(), mint.to_vec(), mint.to_vec()];
    let vault = find_pda(&seeds, &program_id).unwrap().0;
    let share = find_pda(&vec![b"share".to_vec(), vault.to_vec()], &program_id).unwrap().0;
    let ata = associated_token_address(&vault, &mint).unwrap();
    let other = [9u8; 32];
    let keys = InitializeKeys {
        manager: [4u8; 32],
        base_mint: mint,
        position_mint: mint,
        vault,
        share_mint: share,
        base_vault: ata,
        position_vault: other,
    };
    assert!(initialize(&mut cluster, &keys).is_err());
    assert!(cluster.vault(&vault).is_none());
}

#[test]
fn a_tiny_deposit_into_a_rich_pool_mints_nothing_and_is_refused() {
    let mut env = Env::new();
    let first = env.depositor(1_000);
    env.deposit(&first, 10).unwrap();
    // Someone sends 990 base straight to the vault: 10 shares now stand for 1000 base.
    let payer = env.payer;
    let base = env.base_mint;
    let base_vault = env.base_vault();
    env.cluster.ledger.mint_to(&base, &base_vault, &payer, 990).unwrap();
    let second = env.depositor(1_000);
    assert_eq!(env.deposit(&second, 99), Err(Failure::Program(VaultError::InvalidAmount)));
    env.deposit(&second, 100).unwrap();
    assert_eq!(env.shares_of(&second), 1);
}

#[test]
fn a_failed_redeem_changes_nothing() {
    let mut env = Env::new();
    let user = env.depositor(1_000);
    env.deposit(&user, 500).unwrap();
    let before_base = env.balance(&env.base_vault());
    let before_user = env.balance(&env.ata(&user, &env.base_mint));
    assert!(env.redeem(&user, 600).is_err());
    assert_eq!(env.balance(&env.base_vault()), before_base);
    assert_eq!(env.balance(&env.ata(&user, &env.base_mint)), before_user);
    assert_eq!(env.shares_of(&user), 500);
    assert_eq!(env.share_supply(), 500);
}


#[test]
fn deploy_refuses_the_manager_as_counterparty() {
    let mut env = Env::new();
    let user = env.depositor(1_000);
    env.deposit(&user, 1_000).unwrap();
    let manager = env.manager;
    let (base, pos) = (env.base_mint, env.position_mint);
    let manager_position = env.fund_tokens(&manager, &pos, 500);
    let manager_base = env.fund_tokens(&manager, &base, 0);

    assert_eq!(
        env.deploy(&manager, &manager, 1_000, 500),
        Err(Failure::Program(VaultError::ManagerIsCounterparty))
    );
    assert_eq!(env.balance(&manager_base), 0);
    assert_eq!(env.balance(&manager_position), 500);
    assert_eq!(env.balance(&env.base_vault()), 1_000);
}

#[test]
fn the_vault_cannot_sign_for_itself() {
    let mut env = Env::new();
    let vault = env.vault();
    assert_eq!(env.deposit(&vault, 100), Err(Failure::Constraint(ConstraintError::ProgramSigner)));
    assert_eq!(env.redeem(&vault, 100), Err(Failure::Constraint(ConstraintError::ProgramSigner)));
    let manager = env.manager;
    assert_eq!(
        env.deploy(&manager, &vault, 100, 100),
        Err(Failure::Constraint(ConstraintError::ProgramSigner))
    );
}

#[test]
fn a_deposit_redeemed_from_an_empty_vault_comes_back_whole() {
    let mut env = Env::new();
    let user = env.depositor(777);
    env.deposit(&user, 777).unwrap();
    let shares = env.shares_of(&user);
    env.redeem(&user, shares).unwrap();
    assert_eq!(env.balance(&env.ata(&user, &env.base_mint)), 777);
    assert_eq!(env.share_supply(), 0);
    assert_eq!(env.balance(&env.base_vault()), 0);
}

#[test]
fn initialize_charges_the_manager_four_rents() {
    let env = Env::new();
    let manager = env.manager;
    assert_eq!(
        env.cluster.lamports.balance(&manager),
        LAMPORTS_PER_SOL - STATE_RENT - MINT_RENT - 2 * TOKEN_RENT
    );
    assert_eq!(env.cluster.lamports.balance(&env.vault()), STATE_RENT);
    assert_eq!(env.cluster.lamports.balance(&env.share_mint()), MINT_RENT);
}

#[test]
fn a_first_deposit_pays_for_the_share_account() {
    let mut env = Env::new();
    let user = env.depositor(1_000);
    env.deposit(&user, 1_000).unwrap();
    assert_eq!(env.cluster.lamports.balance(&user), LAMPORTS_PER_SOL - TOKEN_RENT);
    env.deposit(&user, 0).unwrap_err();
    assert_eq!(env.cluster.lamports.balance(&user), LAMPORTS_PER_SOL - TOKEN_RENT);
}

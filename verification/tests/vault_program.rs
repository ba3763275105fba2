use token_vaults::address::{associated_token_address, find_pda, token_program_id, Address};
use token_vaults::constraints::{ConstraintError, Failure};
use token_vaults::ledger::{Ledger, TokenError};
use token_vaults::lamports::{LamportError, Lamports, Rent};
use token_vaults::vault_program::{
    close, deposit, initialize, withdraw, CloseKeys, Cluster, DepositKeys, InitializeKeys, Vault,
    WithdrawKeys,
};

/// The program's address in these tests.
const PROGRAM_ID: Address = [7u8; 32];
const DECIMALS: u8 = 6;
const LAMPORTS_PER_SOL: u64 = 1_000_000_000;
/// The rent of a vault state account (8 + 33 bytes) and of a token account
/// (165 bytes) on the cluster.
const STATE_RENT: u64 = 1_176_240;
const TOKEN_RENT: u64 = 2_039_280;
const MINT_RENT: u64 = 1_461_600;

/// Mirrors `seeds = [VAULT_SEED, authority]` in the program.
fn vault_pda(authority: &Address) -> (Address, u8) {
    let seeds = vec![b"vault".to_vec(), authority.to_vec()];
    find_pda(&seeds, &PROGRAM_ID).unwrap()
}

fn get_associated_token_address(owner: &Address, mint: &Address) -> Address {
    associated_token_address(owner, mint).unwrap()
}

struct Env {
    cluster: Cluster,
    mint: Address,
    payer: Address,
    next: u8,
}

impl Env {
    fn new() -> Self {
        let mut ledger = Ledger::new();
        let payer = [1u8; 32];
        let mint = [2u8; 32];
        ledger.create_mint(&mint, &payer, DECIMALS).unwrap();
        let rent = Rent { state_account: STATE_RENT, token_account: TOKEN_RENT, mint_account: MINT_RENT };
        Env { cluster: Cluster::new(PROGRAM_ID, ledger, Lamports::new(), rent), mint, payer, next: 10 }
    }

    fn funded_keypair(&mut self) -> Address {
        self.next += 1;
        let key = [self.next; 32];
        self.cluster.lamports.credit(&key, LAMPORTS_PER_SOL).unwrap();
        key
    }

    fn lamports(&self, key: &Address) -> u64 {
        self.cluster.lamports.balance(key)
    }

    fn ata(&self, owner: &Address) -> Address {
        get_associated_token_address(owner, &self.mint)
    }

    /// Creates `owner`'s token account and mints `amount` into it.
    fn fund_tokens(&mut self, owner: &Address, amount: u64) -> Address {
        let ata = self.ata(owner);
        let (mint, payer) = (self.mint, self.payer);
        self.cluster.ledger.open_account(&ata, &mint, owner).unwrap();
        self.cluster.ledger.mint_to(&mint, &ata, &payer, amount).unwrap();
        ata
    }

    fn token_balance(&self, ata: &Address) -> u64 {
        self.cluster.ledger.token_account(ata).expect("token account missing").amount
    }

    fn vault_state(&self, vault: &Address) -> Vault {
        self.cluster.vault(vault).expect("vault missing")
    }

    fn initialize(&mut self, authority: &Address) -> Result<(), Failure<()>> {
        let (vault, _) = vault_pda(authority);
        let keys = InitializeKeys {
            authority: *authority,
            vault,
            mint: self.mint,
            vault_token_account: get_associated_token_address(&vault, &self.mint),
        };
        initialize(&mut self.cluster, &keys)
    }

    fn deposit(&mut self, authority: &Address, amount: u64) -> Result<(), Failure<()>> {
        let (vault, _) = vault_pda(authority);
        let keys = DepositKeys {
            authority: *authority,
            user_token_account: self.ata(authority),
            vault,
            vault_token_account: get_associated_token_address(&vault, &self.mint),
        };
        deposit(&mut self.cluster, &keys, amount)
    }

    fn withdraw(&mut self, authority: &Address, amount: u64) -> Result<(), Failure<()>> {
        let vault = vault_pda(authority).0;
        self.withdraw_from(authority, &vault, amount)
    }

    /// Withdraw naming an explicit vault, so tests can target someone else's.
    fn withdraw_from(&mut self, authority: &Address, vault: &Address, amount: u64) -> Result<(), Failure<()>> {
        let keys = WithdrawKeys {
            authority: *authority,
            vault: *vault,
            vault_token_account: get_associated_token_address(vault, &self.mint),
            user_token_account: self.ata(authority),
        };
        withdraw(&mut self.cluster, &keys, amount)
    }

    fn close(&mut self, authority: &Address) -> Result<(), Failure<()>> {
        let vault = vault_pda(authority).0;
        self.close_vault(authority, &vault)
    }

    fn close_vault(&mut self, authority: &Address, vault: &Address) -> Result<(), Failure<()>> {
        let keys = CloseKeys {
            authority: *authority,
            vault: *vault,
            vault_token_account: get_associated_token_address(vault, &self.mint),
            user_token_account: self.ata(authority),
        };
        close(&mut self.cluster, &keys)
    }
}

/// Vault holding `deposited` tokens, owned by the returned authority.
fn vault_with_tokens(env: &mut Env, deposited: u64) -> (Address, u64) {
    let authority = env.funded_keypair();
    env.fund_tokens(&authority, 1_000);
    env.initialize(&authority).unwrap();
    env.deposit(&authority, deposited).unwrap();
    (authority, 1_000 - deposited)
}

#[test]
fn closes_empty_vault_token_account() {
    let mut env = Env::new();
    let authority = env.funded_keypair();
    env.initialize(&authority).unwrap();
    let vault_ata = get_associated_token_address(&vault_pda(&authority).0, &env.mint);

    env.close(&authority).unwrap();

    assert!(env.cluster.ledger.token_account(&vault_ata).is_none());
}

#[test]
fn rejects_close_of_another_vault() {
    let mut env = Env::new();
    let victim = env.funded_keypair();
    env.initialize(&victim).unwrap();
    let (victim_vault, _) = vault_pda(&victim);

    let attacker = env.funded_keypair();

    assert!(env.close_vault(&attacker, &victim_vault).is_err());
    assert_eq!(env.vault_state(&victim_vault).authority, victim);
}

#[test]
fn moves_tokens_from_user_to_vault() {
    let mut env = Env::new();
    let authority = env.funded_keypair();
    let user_ata = env.fund_tokens(&authority, 1_000);
    env.initialize(&authority).unwrap();
    let vault_ata = get_associated_token_address(&vault_pda(&authority).0, &env.mint);

    env.deposit(&authority, 400).unwrap();

    assert_eq!(env.token_balance(&user_ata), 600);
    assert_eq!(env.token_balance(&vault_ata), 400);
}

#[test]
fn accumulates_across_deposits() {
    let mut env = Env::new();
    let authority = env.funded_keypair();
    let user_ata = env.fund_tokens(&authority, 1_000);
    env.initialize(&authority).unwrap();
    let vault_ata = get_associated_token_address(&vault_pda(&authority).0, &env.mint);

    env.deposit(&authority, 300).unwrap();
    env.deposit(&authority, 250).unwrap();

    assert_eq!(env.token_balance(&user_ata), 450);
    assert_eq!(env.token_balance(&vault_ata), 550);
}

#[test]
fn zero_amount_is_a_noop() {
    let mut env = Env::new();
    let authority = env.funded_keypair();
    let user_ata = env.fund_tokens(&authority, 1_000);
    env.initialize(&authority).unwrap();

    env.deposit(&authority, 0).unwrap();

    assert_eq!(env.token_balance(&user_ata), 1_000);
}

#[test]
fn rejects_amount_above_balance() {
    let mut env = Env::new();
    let authority = env.funded_keypair();
    let user_ata = env.fund_tokens(&authority, 100);
    env.initialize(&authority).unwrap();

    assert!(env.deposit(&authority, 101).is_err());
    assert_eq!(env.token_balance(&user_ata), 100);
}

#[test]
fn rejects_deposit_without_a_vault() {
    let mut env = Env::new();
    let authority = env.funded_keypair();
    env.fund_tokens(&authority, 1_000);

    assert!(env.deposit(&authority, 100).is_err());
}

#[test]
fn creates_vault_with_authority_and_bump() {
    let mut env = Env::new();
    let authority = env.funded_keypair();
    let (vault, bump) = vault_pda(&authority);

    env.initialize(&authority).unwrap();

    let state = env.vault_state(&vault);
    assert_eq!(state.authority, authority);
    assert_eq!(state.bump, bump);
    // The vault state is the program's: it sits at the address the program's
    // id derives for these seeds, and the program holds it.
    let (expected, _) = anchor_lang::prelude::Pubkey::find_program_address(
        &[b"vault", authority.as_ref()],
        &anchor_lang::prelude::Pubkey::new_from_array(PROGRAM_ID),
    );
    assert_eq!(vault, expected.to_bytes());
    assert!(env.cluster.vault(&vault).is_some());
}

#[test]
fn creates_empty_vault_token_account() {
    let mut env = Env::new();
    let authority = env.funded_keypair();
    let (vault, _) = vault_pda(&authority);

    env.initialize(&authority).unwrap();

    let ata = get_associated_token_address(&vault, &env.mint);
    let token = env.cluster.ledger.token_account(&ata).expect("vault ATA missing");
    assert_eq!(token.address, ata);
    assert_eq!(token.mint, env.mint);
    assert_eq!(token.owner, vault);
    assert_eq!(token.amount, 0);
}

#[test]
fn rejects_second_initialize() {
    let mut env = Env::new();
    let authority = env.funded_keypair();

    env.initialize(&authority).unwrap();

    assert!(env.initialize(&authority).is_err());
}

#[test]
fn derives_distinct_vault_per_authority() {
    let mut env = Env::new();
    let first = env.funded_keypair();
    let second = env.funded_keypair();

    env.initialize(&first).unwrap();
    env.initialize(&second).unwrap();

    let (first_vault, _) = vault_pda(&first);
    let (second_vault, _) = vault_pda(&second);
    assert_ne!(first_vault, second_vault);
    assert_eq!(env.vault_state(&first_vault).authority, first);
    assert_eq!(env.vault_state(&second_vault).authority, second);
}

#[test]
fn returns_tokens_to_authority() {
    let mut env = Env::new();
    let (authority, user_remaining) = vault_with_tokens(&mut env, 500);
    let user_ata = env.ata(&authority);
    let vault_ata = get_associated_token_address(&vault_pda(&authority).0, &env.mint);

    env.withdraw(&authority, 200).unwrap();

    assert_eq!(env.token_balance(&user_ata), user_remaining + 200);
    assert_eq!(env.token_balance(&vault_ata), 300);
}

#[test]
fn drains_full_balance() {
    let mut env = Env::new();
    let (authority, _) = vault_with_tokens(&mut env, 500);
    let vault_ata = get_associated_token_address(&vault_pda(&authority).0, &env.mint);

    env.withdraw(&authority, 500).unwrap();

    assert_eq!(env.token_balance(&vault_ata), 0);
    assert_eq!(env.token_balance(&env.ata(&authority)), 1_000);
}

#[test]
fn rejects_amount_above_vault_balance() {
    let mut env = Env::new();
    let (authority, _) = vault_with_tokens(&mut env, 500);
    let vault_ata = get_associated_token_address(&vault_pda(&authority).0, &env.mint);

    assert!(env.withdraw(&authority, 501).is_err());
    assert_eq!(env.token_balance(&vault_ata), 500);
}

#[test]
fn rejects_withdraw_from_another_vault() {
    let mut env = Env::new();
    let (victim, _) = vault_with_tokens(&mut env, 500);
    let (victim_vault, _) = vault_pda(&victim);

    let attacker = env.funded_keypair();
    env.fund_tokens(&attacker, 0);

    assert!(env.withdraw_from(&attacker, &victim_vault, 500).is_err());
    assert_eq!(env.token_balance(&get_associated_token_address(&victim_vault, &env.mint)), 500);
}

// Edge cases of the vault.

#[test]
fn closing_sweeps_what_is_left_to_the_authority() {
    let mut env = Env::new();
    let (authority, _) = vault_with_tokens(&mut env, 500);
    let vault = vault_pda(&authority).0;
    let vault_ata = get_associated_token_address(&vault, &env.mint);

    env.close(&authority).unwrap();

    assert_eq!(env.token_balance(&env.ata(&authority)), 1_000);
    assert!(env.cluster.ledger.token_account(&vault_ata).is_none());
    assert!(env.cluster.vault(&vault).is_none());
}

#[test]
fn closing_a_vault_with_tokens_needs_the_authority_account() {
    let mut env = Env::new();
    let authority = env.funded_keypair();
    env.initialize(&authority).unwrap();
    let vault = vault_pda(&authority).0;
    let vault_ata = get_associated_token_address(&vault, &env.mint);
    // Someone else sends tokens to the vault; the authority has no token account.
    let (mint, payer) = (env.mint, env.payer);
    env.cluster.ledger.mint_to(&mint, &vault_ata, &payer, 7).unwrap();

    assert_eq!(env.close(&authority), Err(Failure::Constraint(ConstraintError::AccountNotInitialized)));
    assert_eq!(env.token_balance(&vault_ata), 7);
}

#[test]
fn vault_refusals_name_their_reason() {
    let mut env = Env::new();
    let (authority, _) = vault_with_tokens(&mut env, 500);
    assert_eq!(env.withdraw(&authority, 501), Err(Failure::Token(TokenError::InsufficientFunds)));
    assert_eq!(env.initialize(&authority), Err(Failure::Constraint(ConstraintError::AccountInUse)));
    let other = env.funded_keypair();
    assert_eq!(env.deposit(&other, 1), Err(Failure::Constraint(ConstraintError::AccountNotInitialized)));
}

#[test]
fn a_deposit_withdrawn_leaves_both_balances_as_they_were() {
    let mut env = Env::new();
    let (authority, _) = vault_with_tokens(&mut env, 300);
    let user_ata = env.ata(&authority);
    let vault_ata = get_associated_token_address(&vault_pda(&authority).0, &env.mint);
    env.deposit(&authority, 123).unwrap();
    env.withdraw(&authority, 123).unwrap();
    assert_eq!(env.token_balance(&user_ata), 700);
    assert_eq!(env.token_balance(&vault_ata), 300);
}

#[test]
fn the_vault_token_account_belongs_to_the_token_program() {
    let expected = anchor_spl::token::ID.to_bytes();
    assert_eq!(token_program_id(), expected);
}

#[test]
fn a_vault_cannot_sign_as_an_authority() {
    let mut env = Env::new();
    let (authority, _) = vault_with_tokens(&mut env, 500);
    let vault = vault_pda(&authority).0;
    assert_eq!(env.deposit(&vault, 10), Err(Failure::Constraint(ConstraintError::ProgramSigner)));
    assert_eq!(env.close(&vault), Err(Failure::Constraint(ConstraintError::ProgramSigner)));
}

#[test]
fn closes_vault_and_returns_rent() {
    let mut env = Env::new();
    let authority = env.funded_keypair();
    env.initialize(&authority).unwrap();
    let (vault, _) = vault_pda(&authority);
    let before = env.lamports(&authority);

    env.close(&authority).unwrap();

    assert!(env.cluster.vault(&vault).is_none());
    assert_eq!(env.lamports(&vault), 0);
    assert!(env.lamports(&authority) > before);
    assert_eq!(env.lamports(&authority), before + STATE_RENT + TOKEN_RENT);
}

#[test]
fn initialize_charges_the_rent_of_both_accounts() {
    let mut env = Env::new();
    let authority = env.funded_keypair();
    env.initialize(&authority).unwrap();
    let (vault, _) = vault_pda(&authority);
    assert_eq!(env.lamports(&authority), LAMPORTS_PER_SOL - STATE_RENT - TOKEN_RENT);
    assert_eq!(env.lamports(&vault), STATE_RENT);
    assert_eq!(env.lamports(&env.ata(&vault)), TOKEN_RENT);
}

#[test]
fn initialize_needs_the_rent() {
    let mut env = Env::new();
    let authority = [99u8; 32];
    env.cluster.lamports.credit(&authority, STATE_RENT).unwrap();
    assert_eq!(
        env.initialize(&authority),
        Err(Failure::Lamports(LamportError::InsufficientLamports))
    );
    assert!(env.cluster.vault(&vault_pda(&authority).0).is_none());
    assert_eq!(env.lamports(&authority), STATE_RENT);
}

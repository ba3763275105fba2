use anchor_lang::prelude::Pubkey;
use token_vaults::address::{associated_token_address, find_pda, Address};
use token_vaults::constraints::{ConstraintError, Failure};
use token_vaults::escrow::{
    make, refund, take, update, Cluster, Escrow, EscrowError, MakeKeys, RefundKeys, TakeKeys,
    UpdateKeys,
};
use token_vaults::ledger::{Ledger, TokenError};
use token_vaults::lamports::{Lamports, Rent};

const PROGRAM_ID: &str = "BrZuxiD85Ur3A42qNiTajtKru55BNir4Qo1gaRSGxwov";
const HOUR: i64 = 3_600;
const SEED: u64 = 1;
const DEPOSIT: u64 = 400;
const PRICE: u64 = 900;
const LAMPORTS_PER_SOL: u64 = 1_000_000_000;
/// The rent of an escrow state account (8 + 113 bytes) and of a token
/// account (165 bytes) on the cluster.
const STATE_RENT: u64 = 1_733_040;
const TOKEN_RENT: u64 = 2_039_280;
const MINT_RENT: u64 = 1_461_600;

fn program_id() -> Address {
    Pubkey::from_str_const(PROGRAM_ID).to_bytes()
}

/// Mirrors `seeds = [ESCROW_SEED, maker, seed]` in the program.
fn escrow_pda(maker: &Address, seed: u64) -> (Address, u8) {
    let seeds = vec![b"escrow".to_vec(), maker.to_vec(), seed.to_le_bytes().to_vec()];
    find_pda(&seeds, &program_id()).unwrap()
}

struct Env {
    cluster: Cluster,
    mint_a: Address,
    mint_b: Address,
    payer: Address,
    next: u8,
}

impl Env {
    fn new() -> Self {
        let mut ledger = Ledger::new();
        let payer = [1u8; 32];
        let mint_a = [2u8; 32];
        let mint_b = [3u8; 32];
        ledger.create_mint(&mint_a, &payer, 6).unwrap();
        ledger.create_mint(&mint_b, &payer, 6).unwrap();
        let rent = Rent { state_account: STATE_RENT, token_account: TOKEN_RENT, mint_account: MINT_RENT };
        let cluster = Cluster::new(program_id(), 1_700_000_000, ledger, Lamports::new(), rent);
        Env { cluster, mint_a, mint_b, payer, next: 10 }
    }

    fn now(&self) -> i64 {
        self.cluster.now
    }

    /// Moves the clock forward so deadline behaviour can be exercised.
    fn warp(&mut self, seconds: i64) {
        self.cluster.now += seconds;
    }

    fn funded_keypair(&mut self) -> Address {
        self.next += 1;
        let key = [self.next; 32];
        self.cluster.lamports.credit(&key, LAMPORTS_PER_SOL).unwrap();
        key
    }

    fn lamports(&self, key: &Address) -> u64 {
        self.cluster.lamports.balance(key)
    }

    fn ata(&self, owner: &Address, mint: &Address) -> Address {
        associated_token_address(owner, mint).unwrap()
    }

    /// Creates `owner`'s token account for `mint` and mints `amount` into it.
    fn fund_tokens(&mut self, owner: &Address, mint: &Address, amount: u64) -> Address {
        let ata = self.ata(owner, mint);
        self.cluster.ledger.open_account(&ata, mint, owner).unwrap();
        let payer = self.payer;
        self.cluster.ledger.mint_to(mint, &ata, &payer, amount).unwrap();
        ata
    }

    fn token_balance(&self, ata: &Address) -> u64 {
        self.cluster.ledger.balance(ata)
    }

    fn escrow_state(&self, escrow: &Address) -> Escrow {
        self.cluster.escrow(escrow).expect("escrow missing")
    }

    fn is_closed(&self, address: &Address) -> bool {
        self.cluster.escrow(address).is_none() && self.cluster.ledger.token_account(address).is_none()
    }

    fn make(&mut self, maker: &Address, seed: u64, deposit: u64, receive: u64, deadline: i64) -> Result<(), Failure<EscrowError>> {
        let (escrow, _) = escrow_pda(maker, seed);
        let keys = MakeKeys {
            maker: *maker,
            mint_a: self.mint_a,
            mint_b: self.mint_b,
            maker_ata_a: self.ata(maker, &self.mint_a),
            escrow,
            vault: self.ata(&escrow, &self.mint_a),
        };
        make(&mut self.cluster, &keys, seed, deposit, receive, deadline)
    }

    fn take(&mut self, taker: &Address, maker: &Address, seed: u64, expected_receive: u64) -> Result<(), Failure<EscrowError>> {
        let (escrow, _) = escrow_pda(maker, seed);
        let keys = TakeKeys {
            taker: *taker,
            maker: *maker,
            mint_a: self.mint_a,
            mint_b: self.mint_b,
            taker_ata_a: self.ata(taker, &self.mint_a),
            taker_ata_b: self.ata(taker, &self.mint_b),
            maker_ata_b: self.ata(maker, &self.mint_b),
            escrow,
            vault: self.ata(&escrow, &self.mint_a),
        };
        take(&mut self.cluster, &keys, expected_receive)
    }

    fn refund(&mut self, maker: &Address, seed: u64) -> Result<(), Failure<EscrowError>> {
        let escrow = escrow_pda(maker, seed).0;
        self.refund_escrow(maker, &escrow)
    }

    /// Refund naming an explicit escrow, so tests can target someone else's.
    fn refund_escrow(&mut self, maker: &Address, escrow: &Address) -> Result<(), Failure<EscrowError>> {
        let keys = RefundKeys {
            maker: *maker,
            mint_a: self.mint_a,
            maker_ata_a: self.ata(maker, &self.mint_a),
            escrow: *escrow,
            vault: self.ata(escrow, &self.mint_a),
        };
        refund(&mut self.cluster, &keys)
    }

    fn update(&mut self, maker: &Address, seed: u64, receive: u64) -> Result<(), Failure<EscrowError>> {
        let escrow = escrow_pda(maker, seed).0;
        self.update_escrow(maker, &escrow, receive)
    }

    /// Update naming an explicit escrow, so tests can target someone else's.
    fn update_escrow(&mut self, maker: &Address, escrow: &Address, receive: u64) -> Result<(), Failure<EscrowError>> {
        let keys = UpdateKeys { maker: *maker, escrow: *escrow };
        update(&mut self.cluster, &keys, receive)
    }
}

/// Maker offering DEPOSIT of mint_a for PRICE of mint_b.
fn offer(env: &mut Env) -> Address {
    let maker = env.funded_keypair();
    let mint_a = env.mint_a;
    env.fund_tokens(&maker, &mint_a, 1_000);
    let deadline = env.now() + HOUR;
    env.make(&maker, SEED, DEPOSIT, PRICE, deadline).unwrap();
    maker
}

/// Maker offering DEPOSIT of mint_a for PRICE of mint_b, plus a funded taker.
fn offer_with_taker(env: &mut Env) -> (Address, Address) {
    let maker = env.funded_keypair();
    let taker = env.funded_keypair();
    let (mint_a, mint_b) = (env.mint_a, env.mint_b);
    env.fund_tokens(&maker, &mint_a, 1_000);
    env.fund_tokens(&taker, &mint_b, 1_000);
    let deadline = env.now() + HOUR;
    env.make(&maker, SEED, DEPOSIT, PRICE, deadline).unwrap();
    (maker, taker)
}

#[test]
fn locks_deposit_and_records_terms() {
    let mut env = Env::new();
    let maker = env.funded_keypair();
    let mint_a = env.mint_a;
    let maker_ata_a = env.fund_tokens(&maker, &mint_a, 1_000);
    let deadline = env.now() + HOUR;
    let (escrow, bump) = escrow_pda(&maker, SEED);

    env.make(&maker, SEED, 400, 900, deadline).unwrap();

    let state = env.escrow_state(&escrow);
    assert_eq!(state.seed, SEED);
    assert_eq!(state.maker, maker);
    assert_eq!(state.mint_a, env.mint_a);
    assert_eq!(state.mint_b, env.mint_b);
    assert_eq!(state.receive, 900);
    assert_eq!(state.deadline, deadline);
    assert_eq!(state.bump, bump);

    assert_eq!(env.token_balance(&maker_ata_a), 600);
    assert_eq!(env.token_balance(&env.ata(&escrow, &env.mint_a)), 400);
}

#[test]
fn allows_several_escrows_per_maker() {
    let mut env = Env::new();
    let maker = env.funded_keypair();
    let mint_a = env.mint_a;
    env.fund_tokens(&maker, &mint_a, 1_000);
    let deadline = env.now() + HOUR;

    env.make(&maker, 1, 100, 200, deadline).unwrap();
    env.make(&maker, 2, 300, 400, deadline).unwrap();

    assert_eq!(env.escrow_state(&escrow_pda(&maker, 1).0).receive, 200);
    assert_eq!(env.escrow_state(&escrow_pda(&maker, 2).0).receive, 400);
}

#[test]
fn rejects_reusing_a_seed() {
    let mut env = Env::new();
    let maker = env.funded_keypair();
    let mint_a = env.mint_a;
    env.fund_tokens(&maker, &mint_a, 1_000);
    let deadline = env.now() + HOUR;

    env.make(&maker, SEED, 100, 200, deadline).unwrap();

    assert!(env.make(&maker, SEED, 100, 200, deadline).is_err());
}

#[test]
fn rejects_zero_amounts() {
    let mut env = Env::new();
    let maker = env.funded_keypair();
    let mint_a = env.mint_a;
    env.fund_tokens(&maker, &mint_a, 1_000);
    let deadline = env.now() + HOUR;

    assert!(env.make(&maker, 1, 0, 200, deadline).is_err());
    assert!(env.make(&maker, 2, 100, 0, deadline).is_err());
}

#[test]
fn rejects_deadline_in_the_past() {
    let mut env = Env::new();
    let maker = env.funded_keypair();
    let mint_a = env.mint_a;
    env.fund_tokens(&maker, &mint_a, 1_000);
    let past = env.now() - 1;

    assert!(env.make(&maker, SEED, 100, 200, past).is_err());
}

#[test]
fn rejects_deposit_above_balance() {
    let mut env = Env::new();
    let maker = env.funded_keypair();
    let mint_a = env.mint_a;
    env.fund_tokens(&maker, &mint_a, 100);
    let deadline = env.now() + HOUR;

    assert!(env.make(&maker, SEED, 101, 200, deadline).is_err());
}

#[test]
fn returns_the_deposit_after_expiry() {
    let mut env = Env::new();
    let maker = offer(&mut env);
    let maker_ata_a = env.ata(&maker, &env.mint_a);
    assert_eq!(env.token_balance(&maker_ata_a), 600);

    env.warp(HOUR + 1);
    env.refund(&maker, SEED).unwrap();

    assert_eq!(env.token_balance(&maker_ata_a), 1_000);
}

#[test]
fn test_refund_closes_escrow_and_vault() {
    let mut env = Env::new();
    let maker = offer(&mut env);
    let (escrow, _) = escrow_pda(&maker, SEED);
    let vault = env.ata(&escrow, &env.mint_a);

    env.warp(HOUR + 1);
    env.refund(&maker, SEED).unwrap();

    assert!(env.is_closed(&escrow));
    assert!(env.is_closed(&vault));
}

#[test]
fn rejects_before_the_deadline() {
    let mut env = Env::new();
    let maker = offer(&mut env);

    assert!(env.refund(&maker, SEED).is_err());
    assert_eq!(env.token_balance(&env.ata(&maker, &env.mint_a)), 600);
}

#[test]
fn test_refund_rejects_a_non_maker() {
    let mut env = Env::new();
    let maker = offer(&mut env);
    let (escrow, _) = escrow_pda(&maker, SEED);

    let attacker = env.funded_keypair();
    let mint_a = env.mint_a;
    env.fund_tokens(&attacker, &mint_a, 0);
    env.warp(HOUR + 1);

    assert!(env.refund_escrow(&attacker, &escrow).is_err());
    assert!(!env.is_closed(&escrow));
}

#[test]
fn cannot_refund_twice() {
    let mut env = Env::new();
    let maker = offer(&mut env);

    env.warp(HOUR + 1);
    env.refund(&maker, SEED).unwrap();

    assert!(env.refund(&maker, SEED).is_err());
}

#[test]
fn swaps_both_sides() {
    let mut env = Env::new();
    let (maker, taker) = offer_with_taker(&mut env);

    env.take(&taker, &maker, SEED, PRICE).unwrap();

    assert_eq!(env.token_balance(&env.ata(&taker, &env.mint_a)), DEPOSIT);
    assert_eq!(env.token_balance(&env.ata(&maker, &env.mint_b)), PRICE);
    assert_eq!(env.token_balance(&env.ata(&taker, &env.mint_b)), 1_000 - PRICE);
    assert_eq!(env.token_balance(&env.ata(&maker, &env.mint_a)), 1_000 - DEPOSIT);
}

#[test]
fn test_take_closes_escrow_and_vault() {
    let mut env = Env::new();
    let (maker, taker) = offer_with_taker(&mut env);
    let (escrow, _) = escrow_pda(&maker, SEED);
    let vault = env.ata(&escrow, &env.mint_a);

    env.take(&taker, &maker, SEED, PRICE).unwrap();

    assert!(env.is_closed(&escrow));
    assert!(env.is_closed(&vault));
}

#[test]
fn test_take_rejects_after_the_deadline() {
    let mut env = Env::new();
    let (maker, taker) = offer_with_taker(&mut env);

    env.warp(HOUR + 1);

    assert!(env.take(&taker, &maker, SEED, PRICE).is_err());
}

#[test]
fn rejects_a_stale_price() {
    let mut env = Env::new();
    let (maker, taker) = offer_with_taker(&mut env);
    env.update(&maker, SEED, PRICE * 5).unwrap();

    // The taker still expects the first price.
    assert!(env.take(&taker, &maker, SEED, PRICE).is_err());
}

#[test]
fn rejects_a_taker_who_cannot_pay() {
    let mut env = Env::new();
    let maker = env.funded_keypair();
    let taker = env.funded_keypair();
    let (mint_a, mint_b) = (env.mint_a, env.mint_b);
    env.fund_tokens(&maker, &mint_a, 1_000);
    env.fund_tokens(&taker, &mint_b, PRICE - 1);
    let deadline = env.now() + HOUR;
    env.make(&maker, SEED, DEPOSIT, PRICE, deadline).unwrap();

    assert!(env.take(&taker, &maker, SEED, PRICE).is_err());
}

#[test]
fn cannot_be_taken_twice() {
    let mut env = Env::new();
    let (maker, taker) = offer_with_taker(&mut env);

    env.take(&taker, &maker, SEED, PRICE).unwrap();

    assert!(env.take(&taker, &maker, SEED, PRICE).is_err());
}

#[test]
fn changes_the_asking_price() {
    let mut env = Env::new();
    let maker = offer(&mut env);
    let (escrow, _) = escrow_pda(&maker, SEED);

    env.update(&maker, SEED, 1_500).unwrap();

    assert_eq!(env.escrow_state(&escrow).receive, 1_500);
}

#[test]
fn leaves_the_deposit_untouched() {
    let mut env = Env::new();
    let maker = offer(&mut env);
    let (escrow, _) = escrow_pda(&maker, SEED);

    env.update(&maker, SEED, 1_500).unwrap();

    assert_eq!(env.token_balance(&env.ata(&escrow, &env.mint_a)), DEPOSIT);
}

#[test]
fn a_taker_pays_the_new_price() {
    let mut env = Env::new();
    let maker = offer(&mut env);
    let taker = env.funded_keypair();
    let mint_b = env.mint_b;
    env.fund_tokens(&taker, &mint_b, 2_000);

    env.update(&maker, SEED, 1_500).unwrap();
    env.take(&taker, &maker, SEED, 1_500).unwrap();

    assert_eq!(env.token_balance(&env.ata(&maker, &env.mint_b)), 1_500);
}

#[test]
fn rejects_zero() {
    let mut env = Env::new();
    let maker = offer(&mut env);

    assert!(env.update(&maker, SEED, 0).is_err());
}

#[test]
fn test_update_rejects_a_non_maker() {
    let mut env = Env::new();
    let maker = offer(&mut env);
    let (escrow, _) = escrow_pda(&maker, SEED);
    let attacker = env.funded_keypair();

    assert!(env.update_escrow(&attacker, &escrow, 1).is_err());
    assert_eq!(env.escrow_state(&escrow).receive, PRICE);
}

#[test]
fn test_update_rejects_after_the_deadline() {
    let mut env = Env::new();
    let maker = offer(&mut env);

    env.warp(HOUR + 1);

    assert!(env.update(&maker, SEED, 1_500).is_err());
}

// Which refusal each kind of bad request meets.

#[test]
fn escrow_refusals_name_their_reason() {
    let mut env = Env::new();
    let maker = env.funded_keypair();
    let mint_a = env.mint_a;
    env.fund_tokens(&maker, &mint_a, 100);
    let now = env.now();
    assert_eq!(env.make(&maker, 1, 0, 5, now + 10), Err(Failure::Program(EscrowError::InvalidAmount)));
    assert_eq!(env.make(&maker, 1, 5, 5, now), Err(Failure::Program(EscrowError::InvalidDeadline)));
    assert_eq!(env.make(&maker, 1, 101, 5, now + 10), Err(Failure::Token(TokenError::InsufficientFunds)));
    env.make(&maker, 1, 50, 5, now + 10).unwrap();
    assert_eq!(env.make(&maker, 1, 50, 5, now + 10), Err(Failure::Constraint(ConstraintError::AccountInUse)));
    assert_eq!(env.refund(&maker, 1), Err(Failure::Program(EscrowError::NotExpired)));
    let taker = env.funded_keypair();
    let mint_b = env.mint_b;
    env.fund_tokens(&taker, &mint_b, 100);
    assert_eq!(env.take(&taker, &maker, 1, 6), Err(Failure::Program(EscrowError::PriceChanged)));
    env.warp(10);
    assert_eq!(env.take(&taker, &maker, 1, 5), Err(Failure::Program(EscrowError::Expired)));
    assert_eq!(env.update(&maker, 1, 7), Err(Failure::Program(EscrowError::Expired)));
    let stranger = env.funded_keypair();
    let escrow = escrow_pda(&maker, 1).0;
    assert_eq!(env.update_escrow(&stranger, &escrow, 7), Err(Failure::Constraint(ConstraintError::Seeds)));
}

#[test]
fn make_refuses_one_mint_for_both_sides() {
    let mut env = Env::new();
    env.mint_b = env.mint_a;
    let maker = env.funded_keypair();
    let mint_a = env.mint_a;
    env.fund_tokens(&maker, &mint_a, 1_000);
    let deadline = env.now() + HOUR;
    assert_eq!(env.make(&maker, SEED, 10, 10, deadline), Err(Failure::Program(EscrowError::SameMint)));
    assert!(env.cluster.escrow(&escrow_pda(&maker, SEED).0).is_none());
    assert_eq!(env.token_balance(&env.ata(&maker, &mint_a)), 1_000);
}

#[test]
fn taking_exactly_at_the_deadline_is_too_late_and_refunding_is_on_time() {
    let mut env = Env::new();
    let (maker, taker) = offer_with_taker(&mut env);
    env.warp(HOUR);
    assert_eq!(env.take(&taker, &maker, SEED, PRICE), Err(Failure::Program(EscrowError::Expired)));
    env.refund(&maker, SEED).unwrap();
    assert_eq!(env.token_balance(&env.ata(&maker, &env.mint_a)), 1_000);
}

#[test]
fn an_escrow_cannot_sign_as_the_taker() {
    let mut env = Env::new();
    let maker = offer(&mut env);
    let escrow = escrow_pda(&maker, SEED).0;
    assert_eq!(
        env.take(&escrow, &maker, SEED, PRICE),
        Err(Failure::Constraint(ConstraintError::ProgramSigner))
    );
    assert!(!env.is_closed(&escrow));
}

#[test]
fn returns_rent_to_maker() {
    let mut env = Env::new();
    let (maker, taker) = offer_with_taker(&mut env);
    let before = env.lamports(&maker);

    env.take(&taker, &maker, SEED, PRICE).unwrap();

    assert!(env.lamports(&maker) > before);
    assert_eq!(env.lamports(&maker), before + STATE_RENT + TOKEN_RENT);
}

#[test]
fn make_charges_the_maker_both_rents() {
    let mut env = Env::new();
    let maker = offer(&mut env);
    let escrow = escrow_pda(&maker, SEED).0;
    assert_eq!(env.lamports(&maker), LAMPORTS_PER_SOL - STATE_RENT - TOKEN_RENT);
    assert_eq!(env.lamports(&escrow), STATE_RENT);
    let vault = env.ata(&escrow, &env.mint_a);
    assert_eq!(env.lamports(&vault), TOKEN_RENT);
}

#[test]
fn a_refund_gives_the_maker_its_rent_back() {
    let mut env = Env::new();
    let maker = offer(&mut env);
    env.warp(HOUR);
    env.refund(&maker, SEED).unwrap();
    assert_eq!(env.lamports(&maker), LAMPORTS_PER_SOL);
    assert_eq!(env.lamports(&escrow_pda(&maker, SEED).0), 0);
}

//! The escrow: a maker locks a deposit of one mint and asks for an amount
//! of another until a deadline; a taker pays the asking price and claims
//! the deposit before the deadline, or the maker takes it back after.
use vstd::prelude::*;
use crate::address::{Address, same_address, address_bytes, u64_le_bytes, le_bytes, check_pda, find_pda, is_pda, seeds_of, found_program_address, lemma_view_injective};
use crate::ledger::{Keyed, Ledger, LedgerView, Registry, TokenAccount};
use crate::lamports::{LamportError, Lamports, Rent, funded, closed_into, lamports_of};
use crate::constraints::{
    ConstraintError, Failure, existing_token_error, check_existing_token, token_if_needed_error,
    with_token, token_if_needed, new_token_error, new_token, check_mint,
};

verus! {

/// The seed of an escrow state account: `b"escrow"`.
pub open spec fn escrow_seed() -> Seq<u8> {
    seq![101u8, 115, 99, 114, 111, 119]
}

/// The seeds of the escrow of `maker` numbered `seed`.
pub open spec fn escrow_seeds(maker: Address, seed: u64) -> Seq<Seq<u8>> {
    seq![escrow_seed(), maker@, le_bytes(seed as nat, 8)]
}

fn make_escrow_seeds(maker: &Address, seed: u64) -> (r: Vec<Vec<u8>>)
    ensures
        seeds_of(r) == escrow_seeds(*maker, seed),
{
    let prefix: Vec<u8> = vec![101u8, 115, 99, 114, 111, 119];
    let mut r: Vec<Vec<u8>> = Vec::new();
    r.push(prefix);
    r.push(address_bytes(maker));
    r.push(u64_le_bytes(seed));
    proof {
        assert(prefix@ =~= escrow_seed());
        assert(seeds_of(r) =~= escrow_seeds(*maker, seed));
    }
    r
}

/// An open offer.
#[derive(Clone, Copy)]
pub struct Escrow {
    /// Lets one maker run several escrows at once.
    pub seed: u64,
    pub maker: Address,
    /// What the maker deposited.
    pub mint_a: Address,
    /// What the maker wants back.
    pub mint_b: Address,
    /// Amount of `mint_b` the taker must pay.
    pub receive: u64,
    /// Last moment (exclusive) at which the offer can be taken or repriced.
    pub deadline: i64,
    pub bump: u8,
}

/// An escrow state account: its address and what it holds.
#[derive(Clone, Copy)]
pub struct EscrowRecord {
    pub address: Address,
    pub escrow: Escrow,
}

impl Keyed for EscrowRecord {
    open spec fn key(&self) -> Address {
        self.address
    }

    fn get_key(&self) -> (r: Address) {
        self.address
    }
}

/// Why the escrow refuses a request.
#[derive(Clone, Copy, Debug, PartialEq, Eq, Structural)]
pub enum EscrowError {
    /// Amount must be greater than zero.
    InvalidAmount,
    /// An escrow must trade two different mints.
    SameMint,
    /// The deadline must lie in the future.
    InvalidDeadline,
    /// The deadline has passed.
    Expired,
    /// The deadline has not passed yet.
    NotExpired,
    /// The asking price is not the one the taker agreed to.
    PriceChanged,
}

/// What `handle_make` reads.
#[derive(Clone, Copy)]
pub struct Make {
    pub maker: Address,
    pub mint_a: Address,
    pub mint_b: Address,
    pub maker_ata_a: TokenAccount,
    pub escrow: Address,
    pub escrow_bump: u8,
    pub vault: TokenAccount,
}

/// The escrow `handle_make` records, or why it refuses.
pub open spec fn make_outcome(a: Make, seed: u64, deposit: u64, receive: u64, deadline: i64, now: i64) -> Result<Escrow, EscrowError> {
    if !(deposit > 0 && receive > 0) {
        Err(EscrowError::InvalidAmount)
    } else if a.mint_a == a.mint_b {
        Err(EscrowError::SameMint)
    } else if !(deadline > now) {
        Err(EscrowError::InvalidDeadline)
    } else {
        Ok(
            Escrow {
                seed,
                maker: a.maker,
                mint_a: a.mint_a,
                mint_b: a.mint_b,
                receive,
                deadline,
                bump: a.escrow_bump,
            },
        )
    }
}

/// Maker locks `deposit` of mint_a and asks for `receive` of mint_b until
/// `deadline`: refuses zero amounts, equal mints and a deadline that is not
/// after `now`. On success the escrow is recorded and the maker moves
/// `deposit` into the escrow's vault.
pub fn handle_make(accounts: &Make, seed: u64, deposit: u64, receive: u64, deadline: i64, now: i64) -> (r: Result<Escrow, EscrowError>)
    ensures
        r == make_outcome(*accounts, seed, deposit, receive, deadline, now),
{
    if !(deposit > 0 && receive > 0) {
        return Err(EscrowError::InvalidAmount);
    }
    if same_address(&accounts.mint_a, &accounts.mint_b) {
        return Err(EscrowError::SameMint);
    }
    if !(deadline > now) {
        return Err(EscrowError::InvalidDeadline);
    }
    Ok(
        Escrow {
            seed,
            maker: accounts.maker,
            mint_a: accounts.mint_a,
            mint_b: accounts.mint_b,
            receive,
            deadline,
            bump: accounts.escrow_bump,
        },
    )
}

/// What `handle_update` reads.
#[derive(Clone, Copy)]
pub struct Update {
    pub maker: Address,
    pub escrow: EscrowRecord,
}

/// The repriced escrow, or why `handle_update` refuses.
pub open spec fn update_outcome(e: Escrow, receive: u64, now: i64) -> Result<Escrow, EscrowError> {
    if receive == 0 {
        Err(EscrowError::InvalidAmount)
    } else if !(now < e.deadline) {
        Err(EscrowError::Expired)
    } else {
        Ok(Escrow { receive, ..e })
    }
}

/// Repricing only: refuses a zero price and any change once the deadline
/// has passed; the new escrow differs from the old in `receive` alone, and
/// the deposited amount in the vault is untouched.
pub fn handle_update(accounts: &Update, receive: u64, now: i64) -> (r: Result<Escrow, EscrowError>)
    ensures
        r == update_outcome(accounts.escrow.escrow, receive, now),
{
    if receive == 0 {
        return Err(EscrowError::InvalidAmount);
    }
    if !(now < accounts.escrow.escrow.deadline) {
        return Err(EscrowError::Expired);
    }
    Ok(Escrow { receive, ..accounts.escrow.escrow })
}

/// What `handle_take` reads.
#[derive(Clone, Copy)]
pub struct Take {
    pub taker: Address,
    pub maker: Address,
    pub escrow: EscrowRecord,
    pub vault: TokenAccount,
    pub taker_ata_a: TokenAccount,
    pub taker_ata_b: TokenAccount,
    pub maker_ata_b: TokenAccount,
}

/// What a take moves: the price the taker pays the maker, and the deposit
/// the vault releases to the taker.
#[derive(Clone, Copy, Debug, PartialEq, Eq, Structural)]
pub struct Swap {
    pub pay: u64,
    pub release: u64,
}

/// What `handle_take` moves, or why it refuses.
pub open spec fn take_outcome(e: Escrow, held: u64, expected_receive: u64, now: i64) -> Result<Swap, EscrowError> {
    if !(now < e.deadline) {
        Err(EscrowError::Expired)
    } else if expected_receive != e.receive {
        Err(EscrowError::PriceChanged)
    } else {
        Ok(Swap { pay: e.receive, release: held })
    }
}

/// Taker pays `expected_receive` of mint_b and claims the vault, before the
/// deadline only, and only at the price the taker expects.
pub fn handle_take(accounts: &Take, expected_receive: u64, now: i64) -> (r: Result<Swap, EscrowError>)
    ensures
        r == take_outcome(accounts.escrow.escrow, accounts.vault.amount, expected_receive, now),
{
    if !(now < accounts.escrow.escrow.deadline) {
        return Err(EscrowError::Expired);
    }
    if expected_receive != accounts.escrow.escrow.receive {
        return Err(EscrowError::PriceChanged);
    }
    Ok(Swap { pay: accounts.escrow.escrow.receive, release: accounts.vault.amount })
}

/// What `handle_refund` reads.
#[derive(Clone, Copy)]
pub struct Refund {
    pub maker: Address,
    pub escrow: EscrowRecord,
    pub vault: TokenAccount,
    pub maker_ata_a: TokenAccount,
}

/// What `handle_refund` returns to the maker, or why it refuses.
pub open spec fn refund_outcome(e: Escrow, held: u64, now: i64) -> Result<u64, EscrowError> {
    if now < e.deadline {
        Err(EscrowError::NotExpired)
    } else {
        Ok(held)
    }
}

/// Maker takes the deposit back, after the deadline only.
pub fn handle_refund(accounts: &Refund, now: i64) -> (r: Result<u64, EscrowError>)
    ensures
        r == refund_outcome(accounts.escrow.escrow, accounts.vault.amount, now),
{
    if now < accounts.escrow.escrow.deadline {
        return Err(EscrowError::NotExpired);
    }
    Ok(accounts.vault.amount)
}

/// Law: at any moment exactly one of taking and refunding is open as far
/// as time goes, and repricing is open exactly when taking is.
pub proof fn lemma_one_way_out(e: Escrow, held: u64, expected_receive: u64, receive: u64, now: i64)
    requires
        expected_receive == e.receive,
        receive > 0,
    ensures
        (take_outcome(e, held, expected_receive, now) is Ok) != (refund_outcome(e, held, now) is Ok),
        (update_outcome(e, receive, now) is Ok) == (take_outcome(e, held, expected_receive, now) is Ok),
{
}

/// The program and everything it runs against: the clock, the token
/// ledger, the lamports every account holds, the rent a new account must
/// hold, and the escrow state accounts.
pub struct Cluster {
    pub program_id: Address,
    /// Unix time, as the clock sysvar gives it.
    pub now: i64,
    pub ledger: Ledger,
    pub lamports: Lamports,
    pub rent: Rent,
    pub escrows: Registry<EscrowRecord>,
}

/// What a cluster holds.
pub struct ClusterView {
    pub program_id: Address,
    pub now: i64,
    pub ledger: LedgerView,
    pub lamports: Map<Address, u64>,
    pub rent: Rent,
    pub escrows: Map<Address, EscrowRecord>,
}

impl View for Cluster {
    type V = ClusterView;

    open spec fn view(&self) -> ClusterView {
        ClusterView {
            program_id: self.program_id,
            now: self.now,
            ledger: self.ledger@,
            lamports: self.lamports@,
            rent: self.rent,
            escrows: self.escrows@,
        }
    }
}

impl Cluster {
    pub open spec fn wf(&self) -> bool {
        self.ledger.wf() && self.lamports.wf() && self.escrows.wf()
    }

    /// A cluster running the program at `program_id` over `ledger` and
    /// `lamports` at time `now`, where a new account must hold `rent`, with
    /// no escrow yet.
    pub fn new(program_id: Address, now: i64, ledger: Ledger, lamports: Lamports, rent: Rent) -> (r: Cluster)
        requires
            ledger.wf(),
            lamports.wf(),
        ensures
            r.wf(),
            r.program_id == program_id,
            r.now == now,
            r.ledger@ == ledger@,
            r.lamports@ == lamports@,
            r.rent == rent,
            r.escrows@ == Map::<Address, EscrowRecord>::empty(),
    {
        Cluster { program_id, now, ledger, lamports, rent, escrows: Registry::new() }
    }

    /// The escrow state at `address`, if any.
    pub fn escrow(&self, address: &Address) -> (r: Option<Escrow>)
        requires
            self.wf(),
        ensures
            r == (if self.escrows@.contains_key(*address) { Some(self.escrows@[*address].escrow) } else { None::<Escrow> }),
    {
        match self.escrows.get(address) {
            Some(rec) => Some(rec.escrow),
            None => None,
        }
    }
}

/// The addresses an instruction names.
#[derive(Clone, Copy)]
pub struct MakeKeys {
    pub maker: Address,
    pub mint_a: Address,
    pub mint_b: Address,
    pub maker_ata_a: Address,
    pub escrow: Address,
    pub vault: Address,
}

#[derive(Clone, Copy)]
pub struct TakeKeys {
    pub taker: Address,
    pub maker: Address,
    pub mint_a: Address,
    pub mint_b: Address,
    pub taker_ata_a: Address,
    pub taker_ata_b: Address,
    pub maker_ata_b: Address,
    pub escrow: Address,
    pub vault: Address,
}

#[derive(Clone, Copy)]
pub struct RefundKeys {
    pub maker: Address,
    pub mint_a: Address,
    pub maker_ata_a: Address,
    pub escrow: Address,
    pub vault: Address,
}

#[derive(Clone, Copy)]
pub struct UpdateKeys {
    pub maker: Address,
    pub escrow: Address,
}

/// Whether `signer` is an address of the program's own state, the escrow
/// at `escrow` or any escrow already open, for which no key can sign.
pub open spec fn signs_as_escrow(c: ClusterView, signer: Address, escrow: Address) -> bool {
    signer == escrow || c.escrows.contains_key(signer)
}

/// Checks that `signer` is none of the program's escrow addresses.
fn check_signer(cluster: &Cluster, signer: &Address, escrow: &Address) -> (r: bool)
    requires
        cluster.wf(),
    ensures
        r == !signs_as_escrow(cluster@, *signer, *escrow),
{
    !same_address(signer, escrow) && !cluster.escrows.contains(signer)
}

/// Why the accounts named by a make are refused, if they are; with the
/// bump the escrow's seeds were found with.
pub open spec fn make_accounts_error(c: ClusterView, k: MakeKeys, seed: u64) -> Option<ConstraintError> {
    if signs_as_escrow(c, k.maker, k.escrow) {
        Some(ConstraintError::ProgramSigner)
    } else {
        let l = c.ledger;
        if !l.mints.contains_key(k.mint_a) || !l.mints.contains_key(k.mint_b) {
            Some(ConstraintError::AccountNotInitialized)
        } else {
            match existing_token_error(l, k.maker_ata_a, k.maker, k.mint_a) {
                Some(e) => Some(e),
                None => match found_program_address(escrow_seeds(k.maker, seed), c.program_id@) {
                    None => Some(ConstraintError::Seeds),
                    Some((found, _)) => if found != k.escrow@ {
                        Some(ConstraintError::Seeds)
                    } else if c.escrows.contains_key(k.escrow) {
                        Some(ConstraintError::AccountInUse)
                    } else {
                        new_token_error(l, k.vault, k.escrow, k.mint_a)
                    },
                },
            }
        }
    }
}

/// What `make` does to the cluster, or why it fails.
pub open spec fn make_spec(c: ClusterView, k: MakeKeys, seed: u64, deposit: u64, receive: u64, deadline: i64) -> Result<ClusterView, Failure<EscrowError>> {
    match make_accounts_error(c, k, seed) {
        Some(e) => Err(Failure::Constraint(e)),
        None => match make_funding(c, k) {
            Err(e) => Err(Failure::Lamports(e)),
            Ok(m) => {
                let bump = found_program_address(escrow_seeds(k.maker, seed), c.program_id@).unwrap().1;
                let l1 = c.ledger.opened(k.vault, k.mint_a, k.escrow);
                let a = Make {
                    maker: k.maker,
                    mint_a: k.mint_a,
                    mint_b: k.mint_b,
                    maker_ata_a: c.ledger.tokens[k.maker_ata_a],
                    escrow: k.escrow,
                    escrow_bump: bump,
                    vault: l1.tokens[k.vault],
                };
                match make_outcome(a, seed, deposit, receive, deadline, c.now) {
                    Err(e) => Err(Failure::Program(e)),
                    Ok(e) => match l1.transfer_error(k.maker_ata_a, k.vault, k.maker, deposit) {
                        Some(te) => Err(Failure::Token(te)),
                        None => Ok(
                            ClusterView {
                                ledger: l1.transferred(k.maker_ata_a, k.vault, deposit),
                                lamports: m,
                                escrows: c.escrows.insert(k.escrow, EscrowRecord { address: k.escrow, escrow: e }),
                                ..c
                            },
                        ),
                    },
                }
            },
        },
    }
}

/// The lamports once the maker has paid the rent of the escrow state and
/// of its vault, which a make opens.
pub open spec fn make_funding(c: ClusterView, k: MakeKeys) -> Result<Map<Address, u64>, LamportError> {
    match funded(c.lamports, k.maker, k.escrow, c.rent.state_account, true) {
        Err(e) => Err(e),
        Ok(m) => funded(m, k.maker, k.vault, c.rent.token_account, true),
    }
}

/// Maker locks `deposit` of mint_a and asks for `receive` of mint_b until
/// `deadline` (see `handle_make`): the escrow state opens at its derived
/// address, its vault opens as the escrow's associated account of mint_a,
/// and the deposit moves from the maker into the vault. Nothing changes
/// unless every step succeeds.
pub fn make(cluster: &mut Cluster, keys: &MakeKeys, seed: u64, deposit: u64, receive: u64, deadline: i64) -> (r: Result<(), Failure<EscrowError>>)
    requires
        old(cluster).wf(),
    ensures
        final(cluster).wf(),
        match make_spec(old(cluster)@, *keys, seed, deposit, receive, deadline) {
            Ok(c) => r is Ok && final(cluster)@ == c,
            Err(e) => r == Err::<(), Failure<EscrowError>>(e) && final(cluster)@ == old(cluster)@,
        },
{
    if !check_signer(cluster, &keys.maker, &keys.escrow) {
        return Err(Failure::Constraint(ConstraintError::ProgramSigner));
    }
    if let Err(e) = check_mint(&cluster.ledger, &keys.mint_a) {
        return Err(Failure::Constraint(e));
    }
    if let Err(e) = check_mint(&cluster.ledger, &keys.mint_b) {
        return Err(Failure::Constraint(e));
    }
    let maker_ata_a = match check_existing_token(&cluster.ledger, &keys.maker_ata_a, &keys.maker, &keys.mint_a) {
        Ok(t) => t,
        Err(e) => return Err(Failure::Constraint(e)),
    };
    let (found, bump) = match find_pda(&make_escrow_seeds(&keys.maker, seed), &cluster.program_id) {
        Some(p) => p,
        None => return Err(Failure::Constraint(ConstraintError::Seeds)),
    };
    proof {
        lemma_view_injective(found, keys.escrow);
    }
    if !same_address(&found, &keys.escrow) {
        return Err(Failure::Constraint(ConstraintError::Seeds));
    }
    if cluster.escrows.contains(&keys.escrow) {
        return Err(Failure::Constraint(ConstraintError::AccountInUse));
    }
    let mut next = cluster.ledger.duplicate();
    if let Err(e) = new_token(&mut next, &keys.vault, &keys.escrow, &keys.mint_a) {
        return Err(Failure::Constraint(e));
    }
    let mut funds = cluster.lamports.duplicate();
    if let Err(e) = funds.fund(&keys.maker, &keys.escrow, cluster.rent.state_account, true) {
        return Err(Failure::Lamports(e));
    }
    if let Err(e) = funds.fund(&keys.maker, &keys.vault, cluster.rent.token_account, true) {
        return Err(Failure::Lamports(e));
    }
    let vault = next.token_account(&keys.vault).unwrap();
    let accounts = Make {
        maker: keys.maker,
        mint_a: keys.mint_a,
        mint_b: keys.mint_b,
        maker_ata_a,
        escrow: keys.escrow,
        escrow_bump: bump,
        vault,
    };
    let escrow = match handle_make(&accounts, seed, deposit, receive, deadline, cluster.now) {
        Ok(e) => e,
        Err(e) => return Err(Failure::Program(e)),
    };
    if let Err(e) = next.transfer(&keys.maker_ata_a, &keys.vault, &keys.maker, deposit) {
        return Err(Failure::Token(e));
    }
    cluster.ledger = next;
    cluster.lamports = funds;
    cluster.escrows.insert(EscrowRecord { address: keys.escrow, escrow });
    Ok(())
}

/// Why the escrow state account at `escrow` is refused for a request by
/// `maker`, if it is: it must exist, sit at the address its seeds (with the
/// maker's address and its own number) and stored bump derive, and name
/// `maker` as its maker.
pub open spec fn escrow_state_error(c: ClusterView, escrow: Address, maker: Address) -> Option<ConstraintError> {
    if !c.escrows.contains_key(escrow) {
        Some(ConstraintError::AccountNotInitialized)
    } else if !is_pda(escrow, escrow_seeds(maker, c.escrows[escrow].escrow.seed), c.escrows[escrow].escrow.bump, c.program_id) {
        Some(ConstraintError::Seeds)
    } else if c.escrows[escrow].escrow.maker != maker {
        Some(ConstraintError::HasOne)
    } else {
        None
    }
}

/// Checks the escrow state account of a request, and returns it.
fn check_escrow_state(cluster: &Cluster, escrow: &Address, maker: &Address) -> (r: Result<EscrowRecord, ConstraintError>)
    requires
        cluster.wf(),
    ensures
        match r {
            Ok(rec) => escrow_state_error(cluster@, *escrow, *maker) is None && rec == cluster@.escrows[*escrow],
            Err(e) => escrow_state_error(cluster@, *escrow, *maker) == Some(e),
        },
{
    let rec = match cluster.escrows.get(escrow) {
        Some(rec) => rec,
        None => return Err(ConstraintError::AccountNotInitialized),
    };
    if !check_pda(escrow, make_escrow_seeds(maker, rec.escrow.seed), rec.escrow.bump, &cluster.program_id) {
        return Err(ConstraintError::Seeds);
    }
    if !same_address(&rec.escrow.maker, maker) {
        return Err(ConstraintError::HasOne);
    }
    Ok(rec)
}

/// Why the accounts named by an update are refused, if they are.
pub open spec fn update_accounts_error(c: ClusterView, k: UpdateKeys) -> Option<ConstraintError> {
    if signs_as_escrow(c, k.maker, k.escrow) {
        Some(ConstraintError::ProgramSigner)
    } else {
        escrow_state_error(c, k.escrow, k.maker)
    }
}

/// What `update` does to the cluster, or why it fails.
pub open spec fn update_spec(c: ClusterView, k: UpdateKeys, receive: u64) -> Result<ClusterView, Failure<EscrowError>> {
    match update_accounts_error(c, k) {
        Some(e) => Err(Failure::Constraint(e)),
        None => match update_outcome(c.escrows[k.escrow].escrow, receive, c.now) {
            Err(e) => Err(Failure::Program(e)),
            Ok(e) => Ok(
                ClusterView {
                    escrows: c.escrows.insert(k.escrow, EscrowRecord { address: k.escrow, escrow: e }),
                    ..c
                },
            ),
        },
    }
}

/// Maker changes the asking price (see `handle_update`).
pub fn update(cluster: &mut Cluster, keys: &UpdateKeys, receive: u64) -> (r: Result<(), Failure<EscrowError>>)
    requires
        old(cluster).wf(),
    ensures
        final(cluster).wf(),
        match update_spec(old(cluster)@, *keys, receive) {
            Ok(c) => r is Ok && final(cluster)@ == c,
            Err(e) => r == Err::<(), Failure<EscrowError>>(e) && final(cluster)@ == old(cluster)@,
        },
{
    if !check_signer(cluster, &keys.maker, &keys.escrow) {
        return Err(Failure::Constraint(ConstraintError::ProgramSigner));
    }
    let rec = match check_escrow_state(cluster, &keys.escrow, &keys.maker) {
        Ok(rec) => rec,
        Err(e) => return Err(Failure::Constraint(e)),
    };
    let accounts = Update { maker: keys.maker, escrow: rec };
    let escrow = match handle_update(&accounts, receive, cluster.now) {
        Ok(e) => e,
        Err(e) => return Err(Failure::Program(e)),
    };
    cluster.escrows.replace(EscrowRecord { address: keys.escrow, escrow });
    Ok(())
}

/// Why the accounts named by a take are refused, if they are.
pub open spec fn take_accounts_error(c: ClusterView, k: TakeKeys) -> Option<ConstraintError> {
    if signs_as_escrow(c, k.taker, k.escrow) {
        Some(ConstraintError::ProgramSigner)
    } else {
        let l = c.ledger;
        match escrow_state_error(c, k.escrow, k.maker) {
            Some(e) => Some(e),
            None => if c.escrows[k.escrow].escrow.mint_a != k.mint_a || c.escrows[k.escrow].escrow.mint_b != k.mint_b {
                Some(ConstraintError::HasOne)
            } else if !l.mints.contains_key(k.mint_a) || !l.mints.contains_key(k.mint_b) {
                Some(ConstraintError::AccountNotInitialized)
            } else {
                match existing_token_error(l, k.vault, k.escrow, k.mint_a) {
                    Some(e) => Some(e),
                    None => match token_if_needed_error(l, k.taker_ata_a, k.taker, k.mint_a) {
                        Some(e) => Some(e),
                        None => match existing_token_error(l, k.taker_ata_b, k.taker, k.mint_b) {
                            Some(e) => Some(e),
                            None => token_if_needed_error(
                                with_token(l, k.taker_ata_a, k.taker, k.mint_a),
                                k.maker_ata_b,
                                k.maker,
                                k.mint_b,
                            ),
                        },
                    },
                }
            },
        }
    }
}

/// What `take` does once its accounts are accepted.
pub open spec fn take_effect(c: ClusterView, k: TakeKeys, expected_receive: u64) -> Result<ClusterView, Failure<EscrowError>> {
    let l = c.ledger;
    let l1 = with_token(l, k.taker_ata_a, k.taker, k.mint_a);
    let l2 = with_token(l1, k.maker_ata_b, k.maker, k.mint_b);
    match take_funding(c, k) {
        Err(e) => Err(Failure::Lamports(e)),
        Ok(m) => match take_outcome(c.escrows[k.escrow].escrow, l.tokens[k.vault].amount, expected_receive, c.now) {
            Err(e) => Err(Failure::Program(e)),
            Ok(s) => match l2.transfer_error(k.taker_ata_b, k.maker_ata_b, k.taker, s.pay) {
                Some(e) => Err(Failure::Token(e)),
                None => {
                    let l3 = l2.transferred(k.taker_ata_b, k.maker_ata_b, s.pay);
                    match l3.transfer_error(k.vault, k.taker_ata_a, k.escrow, s.release) {
                        Some(e) => Err(Failure::Token(e)),
                        None => {
                            let l4 = l3.transferred(k.vault, k.taker_ata_a, s.release);
                            match l4.close_error(k.vault, k.escrow) {
                                Some(e) => Err(Failure::Token(e)),
                                None => match closing(m, k.vault, k.escrow, k.maker) {
                                    Err(e) => Err(Failure::Lamports(e)),
                                    Ok(m2) => Ok(
                                        ClusterView {
                                            ledger: l4.closed(k.vault),
                                            lamports: m2,
                                            escrows: c.escrows.remove(k.escrow),
                                            ..c
                                        },
                                    ),
                                },
                            }
                        },
                    }
                },
            },
        },
    }
}

/// The lamports once the taker has paid the rent of its mint_a account and
/// of the maker's mint_b account, where the take opens them.
pub open spec fn take_funding(c: ClusterView, k: TakeKeys) -> Result<Map<Address, u64>, LamportError> {
    let l = c.ledger;
    let l1 = with_token(l, k.taker_ata_a, k.taker, k.mint_a);
    match funded(c.lamports, k.taker, k.taker_ata_a, c.rent.token_account, !l.tokens.contains_key(k.taker_ata_a)) {
        Err(e) => Err(e),
        Ok(m) => funded(m, k.taker, k.maker_ata_b, c.rent.token_account, !l1.tokens.contains_key(k.maker_ata_b)),
    }
}

/// The lamports once the vault and then the escrow state close into the
/// maker.
pub open spec fn closing(m: Map<Address, u64>, vault: Address, escrow: Address, maker: Address) -> Result<Map<Address, u64>, LamportError> {
    match closed_into(m, vault, maker) {
        Err(e) => Err(e),
        Ok(m1) => closed_into(m1, escrow, maker),
    }
}

/// What `take` does to the cluster, or why it fails.
pub open spec fn take_spec(c: ClusterView, k: TakeKeys, expected_receive: u64) -> Result<ClusterView, Failure<EscrowError>> {
    match take_accounts_error(c, k) {
        Some(e) => Err(Failure::Constraint(e)),
        None => take_effect(c, k, expected_receive),
    }
}

/// Taker pays `expected_receive` of mint_b and claims the vault (see
/// `handle_take`): the taker's mint_a account and the maker's mint_b
/// account are opened if needed, the taker pays the maker, the vault
/// releases the deposit to the taker, and the vault and the escrow close.
/// Nothing changes unless every step succeeds.
pub fn take(cluster: &mut Cluster, keys: &TakeKeys, expected_receive: u64) -> (r: Result<(), Failure<EscrowError>>)
    requires
        old(cluster).wf(),
    ensures
        final(cluster).wf(),
        match take_spec(old(cluster)@, *keys, expected_receive) {
            Ok(c) => r is Ok && final(cluster)@ == c,
            Err(e) => r == Err::<(), Failure<EscrowError>>(e) && final(cluster)@ == old(cluster)@,
        },
{
    if !check_signer(cluster, &keys.taker, &keys.escrow) {
        return Err(Failure::Constraint(ConstraintError::ProgramSigner));
    }
    let rec = match check_escrow_state(cluster, &keys.escrow, &keys.maker) {
        Ok(rec) => rec,
        Err(e) => return Err(Failure::Constraint(e)),
    };
    if !same_address(&rec.escrow.mint_a, &keys.mint_a) || !same_address(&rec.escrow.mint_b, &keys.mint_b) {
        return Err(Failure::Constraint(ConstraintError::HasOne));
    }
    if let Err(e) = check_mint(&cluster.ledger, &keys.mint_a) {
        return Err(Failure::Constraint(e));
    }
    if let Err(e) = check_mint(&cluster.ledger, &keys.mint_b) {
        return Err(Failure::Constraint(e));
    }
    let vault = match check_existing_token(&cluster.ledger, &keys.vault, &keys.escrow, &keys.mint_a) {
        Ok(t) => t,
        Err(e) => return Err(Failure::Constraint(e)),
    };
    let mut next = cluster.ledger.duplicate();
    let opens_taker_ata_a = next.token_account(&keys.taker_ata_a).is_none();
    if let Err(e) = token_if_needed(&mut next, &keys.taker_ata_a, &keys.taker, &keys.mint_a) {
        return Err(Failure::Constraint(e));
    }
    let taker_ata_b = match check_existing_token(&cluster.ledger, &keys.taker_ata_b, &keys.taker, &keys.mint_b) {
        Ok(t) => t,
        Err(e) => return Err(Failure::Constraint(e)),
    };
    let opens_maker_ata_b = next.token_account(&keys.maker_ata_b).is_none();
    if let Err(e) = token_if_needed(&mut next, &keys.maker_ata_b, &keys.maker, &keys.mint_b) {
        return Err(Failure::Constraint(e));
    }
    let mut funds = cluster.lamports.duplicate();
    if let Err(e) = funds.fund(&keys.taker, &keys.taker_ata_a, cluster.rent.token_account, opens_taker_ata_a) {
        return Err(Failure::Lamports(e));
    }
    if let Err(e) = funds.fund(&keys.taker, &keys.maker_ata_b, cluster.rent.token_account, opens_maker_ata_b) {
        return Err(Failure::Lamports(e));
    }
    let taker_ata_a = next.token_account(&keys.taker_ata_a).unwrap();
    let maker_ata_b = next.token_account(&keys.maker_ata_b).unwrap();
    let accounts = Take { taker: keys.taker, maker: keys.maker, escrow: rec, vault, taker_ata_a, taker_ata_b, maker_ata_b };
    let swap = match handle_take(&accounts, expected_receive, cluster.now) {
        Ok(s) => s,
        Err(e) => return Err(Failure::Program(e)),
    };
    if let Err(e) = next.transfer(&keys.taker_ata_b, &keys.maker_ata_b, &keys.taker, swap.pay) {
        return Err(Failure::Token(e));
    }
    if let Err(e) = next.transfer(&keys.vault, &keys.taker_ata_a, &keys.escrow, swap.release) {
        return Err(Failure::Token(e));
    }
    if let Err(e) = next.close_account(&keys.vault, &keys.escrow) {
        return Err(Failure::Token(e));
    }
    if let Err(e) = funds.sweep(&keys.vault, &keys.maker) {
        return Err(Failure::Lamports(e));
    }
    if let Err(e) = funds.sweep(&keys.escrow, &keys.maker) {
        return Err(Failure::Lamports(e));
    }
    cluster.ledger = next;
    cluster.lamports = funds;
    cluster.escrows.remove(&keys.escrow);
    Ok(())
}

/// Why the accounts named by a refund are refused, if they are.
pub open spec fn refund_accounts_error(c: ClusterView, k: RefundKeys) -> Option<ConstraintError> {
    if signs_as_escrow(c, k.maker, k.escrow) {
        Some(ConstraintError::ProgramSigner)
    } else {
        let l = c.ledger;
        match escrow_state_error(c, k.escrow, k.maker) {
            Some(e) => Some(e),
            None => if c.escrows[k.escrow].escrow.mint_a != k.mint_a {
                Some(ConstraintError::HasOne)
            } else if !l.mints.contains_key(k.mint_a) {
                Some(ConstraintError::AccountNotInitialized)
            } else {
                match existing_token_error(l, k.vault, k.escrow, k.mint_a) {
                    Some(e) => Some(e),
                    None => token_if_needed_error(l, k.maker_ata_a, k.maker, k.mint_a),
                }
            },
        }
    }
}

/// What `refund` does once its accounts are accepted.
pub open spec fn refund_effect(c: ClusterView, k: RefundKeys) -> Result<ClusterView, Failure<EscrowError>> {
    let l = c.ledger;
    let l1 = with_token(l, k.maker_ata_a, k.maker, k.mint_a);
    match funded(c.lamports, k.maker, k.maker_ata_a, c.rent.token_account, !l.tokens.contains_key(k.maker_ata_a)) {
        Err(e) => Err(Failure::Lamports(e)),
        Ok(m) => match refund_outcome(c.escrows[k.escrow].escrow, l.tokens[k.vault].amount, c.now) {
            Err(e) => Err(Failure::Program(e)),
            Ok(release) => match l1.transfer_error(k.vault, k.maker_ata_a, k.escrow, release) {
                Some(e) => Err(Failure::Token(e)),
                None => {
                    let l2 = l1.transferred(k.vault, k.maker_ata_a, release);
                    match l2.close_error(k.vault, k.escrow) {
                        Some(e) => Err(Failure::Token(e)),
                        None => match closing(m, k.vault, k.escrow, k.maker) {
                            Err(e) => Err(Failure::Lamports(e)),
                            Ok(m2) => Ok(
                                ClusterView {
                                    ledger: l2.closed(k.vault),
                                    lamports: m2,
                                    escrows: c.escrows.remove(k.escrow),
                                    ..c
                                },
                            ),
                        },
                    }
                },
            },
        },
    }
}

/// What `refund` does to the cluster, or why it fails.
pub open spec fn refund_spec(c: ClusterView, k: RefundKeys) -> Result<ClusterView, Failure<EscrowError>> {
    match refund_accounts_error(c, k) {
        Some(e) => Err(Failure::Constraint(e)),
        None => refund_effect(c, k),
    }
}

/// Maker takes the deposit back (see `handle_refund`): the maker's mint_a
/// account is opened if needed, the vault returns the deposit, and the
/// vault and the escrow close. Nothing changes unless every step succeeds.
pub fn refund(cluster: &mut Cluster, keys: &RefundKeys) -> (r: Result<(), Failure<EscrowError>>)
    requires
        old(cluster).wf(),
    ensures
        final(cluster).wf(),
        match refund_spec(old(cluster)@, *keys) {
            Ok(c) => r is Ok && final(cluster)@ == c,
            Err(e) => r == Err::<(), Failure<EscrowError>>(e) && final(cluster)@ == old(cluster)@,
        },
{
    if !check_signer(cluster, &keys.maker, &keys.escrow) {
        return Err(Failure::Constraint(ConstraintError::ProgramSigner));
    }
    let rec = match check_escrow_state(cluster, &keys.escrow, &keys.maker) {
        Ok(rec) => rec,
        Err(e) => return Err(Failure::Constraint(e)),
    };
    if !same_address(&rec.escrow.mint_a, &keys.mint_a) {
        return Err(Failure::Constraint(ConstraintError::HasOne));
    }
    if let Err(e) = check_mint(&cluster.ledger, &keys.mint_a) {
        return Err(Failure::Constraint(e));
    }
    let vault = match check_existing_token(&cluster.ledger, &keys.vault, &keys.escrow, &keys.mint_a) {
        Ok(t) => t,
        Err(e) => return Err(Failure::Constraint(e)),
    };
    let mut next = cluster.ledger.duplicate();
    let opens_maker_ata_a = next.token_account(&keys.maker_ata_a).is_none();
    if let Err(e) = token_if_needed(&mut next, &keys.maker_ata_a, &keys.maker, &keys.mint_a) {
        return Err(Failure::Constraint(e));
    }
    let mut funds = cluster.lamports.duplicate();
    if let Err(e) = funds.fund(&keys.maker, &keys.maker_ata_a, cluster.rent.token_account, opens_maker_ata_a) {
        return Err(Failure::Lamports(e));
    }
    let maker_ata_a = next.token_account(&keys.maker_ata_a).unwrap();
    let accounts = Refund { maker: keys.maker, escrow: rec, vault, maker_ata_a };
    let release = match handle_refund(&accounts, cluster.now) {
        Ok(x) => x,
        Err(e) => return Err(Failure::Program(e)),
    };
    if let Err(e) = next.transfer(&keys.vault, &keys.maker_ata_a, &keys.escrow, release) {
        return Err(Failure::Token(e));
    }
    if let Err(e) = next.close_account(&keys.vault, &keys.escrow) {
        return Err(Failure::Token(e));
    }
    if let Err(e) = funds.sweep(&keys.vault, &keys.maker) {
        return Err(Failure::Lamports(e));
    }
    if let Err(e) = funds.sweep(&keys.escrow, &keys.maker) {
        return Err(Failure::Lamports(e));
    }
    cluster.ledger = next;
    cluster.lamports = funds;
    cluster.escrows.remove(&keys.escrow);
    Ok(())
}


/// Law: a take returns the rent of the two accounts it closes to the maker.
/// Where a take succeeds, the vault and the escrow state hold no lamports
/// any more, and the maker holds what it held plus everything the two of
/// them held (where the maker, the taker, the escrow, the vault and the
/// two token accounts the take may open are distinct accounts).
pub proof fn lemma_take_returns_rent_to_maker(c: Cluster, k: TakeKeys, expected_receive: u64)
    requires
        c.wf(),
        k.maker != k.taker,
        k.maker != k.escrow,
        k.maker != k.vault,
        k.taker != k.vault,
        k.maker != k.taker_ata_a,
        k.maker != k.maker_ata_b,
        k.escrow != k.vault,
        k.escrow != k.taker_ata_a,
        k.escrow != k.maker_ata_b,
        k.vault != k.taker_ata_a,
        k.vault != k.maker_ata_b,
    ensures
        take_spec(c@, k, expected_receive) matches Ok(c2) ==> {
            &&& lamports_of(c2.lamports, k.maker) == lamports_of(c@.lamports, k.maker) + lamports_of(c@.lamports, k.vault)
                + lamports_of(c@.lamports, k.escrow)
            &&& !c2.lamports.contains_key(k.vault)
            &&& !c2.lamports.contains_key(k.escrow)
        },
{
    if let Ok(c2) = take_spec(c@, k, expected_receive) {
        let m0 = c@.lamports;
        let m = take_funding(c@, k)->Ok_0;
        assert(take_funding(c@, k) is Ok);
        assert(lamports_of(m, k.maker) == lamports_of(m0, k.maker));
        assert(lamports_of(m, k.vault) == lamports_of(m0, k.vault));
        assert(lamports_of(m, k.escrow) == lamports_of(m0, k.escrow));
        assert(closing(m, k.vault, k.escrow, k.maker) == Ok::<Map<Address, u64>, LamportError>(c2.lamports));
    }
}

/// Law: a refund returns the rent of the two accounts it closes to the
/// maker, less the rent of the maker's mint_a account where the refund has
/// to open it (where the maker, the escrow, the vault and that account are
/// distinct accounts).
pub proof fn lemma_refund_returns_rent_to_maker(c: Cluster, k: RefundKeys)
    requires
        c.wf(),
        k.maker != k.escrow,
        k.maker != k.vault,
        k.maker != k.maker_ata_a,
        k.escrow != k.vault,
        k.escrow != k.maker_ata_a,
        k.vault != k.maker_ata_a,
    ensures
        refund_spec(c@, k) matches Ok(c2) ==> {
            &&& lamports_of(c2.lamports, k.maker) + (if c@.ledger.tokens.contains_key(k.maker_ata_a) {
                0
            } else {
                c@.rent.token_account
            }) == lamports_of(c@.lamports, k.maker) + lamports_of(c@.lamports, k.vault) + lamports_of(
                c@.lamports,
                k.escrow,
            )
            &&& !c2.lamports.contains_key(k.vault)
            &&& !c2.lamports.contains_key(k.escrow)
        },
{
}

/// Law: a make records exactly the terms asked for. It succeeds exactly
/// when both amounts are positive, the two mints differ and the deadline
/// lies after `now`; the escrow it records then names the maker, the two
/// mints, the seed, the price and the deadline that were asked for, and the
/// bump its address was found with.
pub proof fn lemma_make_records_the_terms(a: Make, seed: u64, deposit: u64, receive: u64, deadline: i64, now: i64)
    ensures
        (make_outcome(a, seed, deposit, receive, deadline, now) is Ok) <==> (deposit > 0 && receive > 0 && a.mint_a
            != a.mint_b && deadline > now),
        make_outcome(a, seed, deposit, receive, deadline, now) matches Ok(e) ==> {
            &&& e.seed == seed
            &&& e.maker == a.maker
            &&& e.mint_a == a.mint_a
            &&& e.mint_b == a.mint_b
            &&& e.receive == receive
            &&& e.deadline == deadline
            &&& e.bump == a.escrow_bump
        },
{
}

/// Law: a make that succeeds opens the escrow with the terms asked for and
/// locks exactly the deposit: the escrow state at its address holds the
/// maker, the mints, the seed, the price and the deadline of the request,
/// its vault holds `deposit`, and the maker's account holds `deposit` less.
pub proof fn lemma_make_locks_the_deposit(c: Cluster, k: MakeKeys, seed: u64, deposit: u64, receive: u64, deadline: i64)
    requires
        c.wf(),
    ensures
        make_spec(c@, k, seed, deposit, receive, deadline) matches Ok(c2) ==> {
            let e = c2.escrows[k.escrow].escrow;
            &&& c2.escrows.contains_key(k.escrow)
            &&& e.seed == seed && e.maker == k.maker && e.mint_a == k.mint_a && e.mint_b == k.mint_b
            &&& e.receive == receive && e.deadline == deadline
            &&& c2.ledger.tokens[k.vault].amount == deposit
            &&& c2.ledger.tokens[k.maker_ata_a].amount + deposit == c@.ledger.tokens[k.maker_ata_a].amount
        },
{
    let l = c@.ledger;
    if let Ok(c2) = make_spec(c@, k, seed, deposit, receive, deadline) {
        assert(l.tokens.contains_key(k.maker_ata_a));
        assert(!l.tokens.contains_key(k.vault));
        assert(k.maker_ata_a != k.vault);
    }
}

/// Law: a take pays exactly the asking price. Its outcome is a swap exactly
/// when the deadline has not passed and the taker expects the current
/// price; the taker then pays the escrow's price (which is the price it
/// expects), and the vault releases all it holds.
pub proof fn lemma_take_pays_the_asking_price(e: Escrow, held: u64, expected_receive: u64, now: i64)
    ensures
        (take_outcome(e, held, expected_receive, now) is Ok) <==> (now < e.deadline && expected_receive == e.receive),
        take_outcome(e, held, expected_receive, now) matches Ok(s) ==> {
            &&& s.pay == e.receive
            &&& s.pay == expected_receive
            &&& s.release == held
        },
{
}

/// Law: a take that succeeds moves exactly the price and the deposit: the
/// maker's mint_b account gains the escrow's price, the taker's mint_b
/// account loses it, and the taker's mint_a account gains everything the
/// vault held (where the maker is neither the taker nor the escrow, and
/// the escrow trades two mints, as every escrow a make opens does).
pub proof fn lemma_take_moves_price_and_deposit(c: Cluster, k: TakeKeys, expected_receive: u64)
    requires
        c.wf(),
        k.maker != k.taker,
        k.maker != k.escrow,
        k.mint_a != k.mint_b,
    ensures
        take_spec(c@, k, expected_receive) matches Ok(c2) ==> {
            let l = c@.ledger;
            let price = c@.escrows[k.escrow].escrow.receive;
            &&& price == expected_receive
            &&& c2.ledger.balance(k.maker_ata_b) == l.balance(k.maker_ata_b) + price
            &&& c2.ledger.balance(k.taker_ata_b) + price == l.balance(k.taker_ata_b)
            &&& c2.ledger.balance(k.taker_ata_a) == l.balance(k.taker_ata_a) + l.tokens[k.vault].amount
            &&& !c2.ledger.tokens.contains_key(k.vault)
        },
{
    let l = c@.ledger;
    if let Ok(c2) = take_spec(c@, k, expected_receive) {
        c.ledger.lemma_records();
        let e = c@.escrows[k.escrow].escrow;
        let held = l.tokens[k.vault].amount;
        let l1 = with_token(l, k.taker_ata_a, k.taker, k.mint_a);
        let l2 = with_token(l1, k.maker_ata_b, k.maker, k.mint_b);
        assert(l.tokens[k.vault].owner == k.escrow);
        assert(l.tokens[k.taker_ata_b].owner == k.taker);
        assert(l1.tokens[k.taker_ata_a].owner == k.taker);
        assert(l2.tokens[k.maker_ata_b].owner == k.maker);
        assert(k.taker != k.escrow);
        assert(k.taker_ata_b != k.maker_ata_b);
        assert(k.vault != k.taker_ata_a);
        assert(k.vault != k.maker_ata_b);
        assert(k.taker_ata_a != k.maker_ata_b);
        assert(k.vault != k.taker_ata_b);
        assert(l2.tokens[k.maker_ata_b].mint == k.mint_b);
        assert(l1.tokens[k.taker_ata_a].mint == k.mint_a);
        assert(l2.tokens[k.taker_ata_a].mint == k.mint_a);
        assert(l2.tokens[k.taker_ata_b] == l.tokens[k.taker_ata_b]);
        assert(l.tokens[k.taker_ata_b].mint == k.mint_b);
        assert(k.taker_ata_a != k.taker_ata_b);
        assert(l2.tokens[k.vault] == l.tokens[k.vault]);
        assert(l2.balance(k.maker_ata_b) == l.balance(k.maker_ata_b));
        assert(l2.balance(k.taker_ata_a) == l.balance(k.taker_ata_a));
        let m = l2.tokens[k.taker_ata_b].mint;
        c.ledger.lemma_supply_is_holdings(m);
        if l.tokens.contains_key(k.maker_ata_b) {
            assert(l.tokens[k.maker_ata_b].mint == l.tokens[k.taker_ata_b].mint);
        }
        let ma = l.tokens[k.vault].mint;
        c.ledger.lemma_supply_is_holdings(ma);
        if l.tokens.contains_key(k.taker_ata_a) {
            assert(l.tokens[k.taker_ata_a].mint == l.tokens[k.vault].mint);
        }
        assert(l2.tokens[k.taker_ata_b].amount >= e.receive);
        assert(l2.tokens[k.maker_ata_b].amount + l2.tokens[k.taker_ata_b].amount <= u64::MAX) by {
            if l.tokens.contains_key(k.maker_ata_b) {
                assert(l.tokens[k.maker_ata_b].amount + l.tokens[k.taker_ata_b].amount <= l.mints[m].supply);
            }
        }
        let l3 = l2.transferred(k.taker_ata_b, k.maker_ata_b, e.receive);
        assert(l3.tokens[k.maker_ata_b].amount == l2.tokens[k.maker_ata_b].amount + e.receive);
        assert(l3.tokens[k.taker_ata_b].amount + e.receive == l2.tokens[k.taker_ata_b].amount);
        assert(l3.tokens[k.vault] == l.tokens[k.vault]);
        assert(l3.tokens[k.taker_ata_a] == l2.tokens[k.taker_ata_a]);
        assert(l2.tokens[k.taker_ata_a].amount + held <= u64::MAX) by {
            if l.tokens.contains_key(k.taker_ata_a) {
                assert(l.tokens[k.taker_ata_a].amount + l.tokens[k.vault].amount <= l.mints[ma].supply);
            }
        }
        let l4 = l3.transferred(k.vault, k.taker_ata_a, held);
        assert(l4.tokens[k.taker_ata_a].amount == l2.tokens[k.taker_ata_a].amount + held);
        assert(l4.tokens[k.maker_ata_b] == l3.tokens[k.maker_ata_b]);
        assert(l4.tokens[k.taker_ata_b] == l3.tokens[k.taker_ata_b]);
        assert(c2.ledger == l4.closed(k.vault));
        assert(c2.ledger.tokens[k.maker_ata_b] == l4.tokens[k.maker_ata_b]);
        assert(c2.ledger.tokens[k.taker_ata_b] == l4.tokens[k.taker_ata_b]);
        assert(c2.ledger.tokens[k.taker_ata_a] == l4.tokens[k.taker_ata_a]);
    }
}

/// Law: the maker can reprice at will before the deadline. Where the
/// accounts of an update are accepted, the new price is positive and the
/// deadline has not passed, the update succeeds whatever the old price, the
/// escrow then asks the new price and keeps every other term, and no token
/// moves.
pub proof fn lemma_update_goes_through(c: Cluster, k: UpdateKeys, receive: u64)
    requires
        c.wf(),
        update_accounts_error(c@, k) is None,
        receive > 0,
        c@.now < c@.escrows[k.escrow].escrow.deadline,
    ensures
        update_spec(c@, k, receive) matches Ok(c2) && {
            &&& c2.escrows[k.escrow].escrow == Escrow { receive, ..c@.escrows[k.escrow].escrow }
            &&& c2.escrows.dom() == c@.escrows.dom()
            &&& c2.ledger == c@.ledger
            &&& c2.lamports == c@.lamports
        },
{
    if let Ok(c2) = update_spec(c@, k, receive) {
        assert(c2.escrows.dom() =~= c@.escrows.dom());
    }
}

/// Law: a refund hands back exactly what the vault holds. Its outcome is
/// that amount exactly when the deadline has passed; where the refund
/// succeeds the maker's mint_a account gains everything the vault held and
/// the vault is gone (where the maker is not the escrow).
pub proof fn lemma_refund_returns_the_deposit(c: Cluster, k: RefundKeys, e: Escrow, held: u64, now: i64)
    requires
        c.wf(),
        k.maker != k.escrow,
    ensures
        (refund_outcome(e, held, now) is Ok) <==> now >= e.deadline,
        refund_outcome(e, held, now) matches Ok(x) ==> x == held,
        refund_spec(c@, k) matches Ok(c2) ==> {
            &&& c2.ledger.balance(k.maker_ata_a) == c@.ledger.balance(k.maker_ata_a) + c@.ledger.tokens[k.vault].amount
            &&& !c2.ledger.tokens.contains_key(k.vault)
            &&& c@.now >= c@.escrows[k.escrow].escrow.deadline
        },
{
    let l = c@.ledger;
    if let Ok(c2) = refund_spec(c@, k) {
        c.ledger.lemma_records();
        let l1 = with_token(l, k.maker_ata_a, k.maker, k.mint_a);
        assert(l.tokens[k.vault].owner == k.escrow);
        assert(l1.tokens[k.maker_ata_a].owner == k.maker);
        assert(k.vault != k.maker_ata_a);
        assert(l1.tokens[k.vault] == l.tokens[k.vault]);
        assert(l1.balance(k.maker_ata_a) == l.balance(k.maker_ata_a));
        let ma = l.tokens[k.vault].mint;
        c.ledger.lemma_supply_is_holdings(ma);
        if l.tokens.contains_key(k.maker_ata_a) {
            assert(l.tokens[k.maker_ata_a].mint == l.tokens[k.vault].mint);
        }
        let l2 = l1.transferred(k.vault, k.maker_ata_a, l.tokens[k.vault].amount);
        assert(c2.ledger == l2.closed(k.vault));
    }
}

/// Law: a reprice is taken exactly when the new price is positive and the
/// deadline has not passed, and then changes the price and nothing else.
pub proof fn lemma_update_reprices_only(e: Escrow, receive: u64, now: i64)
    ensures
        (update_outcome(e, receive, now) is Ok) <==> (receive > 0 && now < e.deadline),
        update_outcome(e, receive, now) matches Ok(e2) ==> {
            &&& e2.receive == receive
            &&& e2.seed == e.seed && e2.maker == e.maker && e2.mint_a == e.mint_a && e2.mint_b == e.mint_b
            &&& e2.deadline == e.deadline && e2.bump == e.bump
        },
{
}

/// Law: a taker who agrees to the price before the deadline and can pay
/// it gets the deposit. Where the accounts of a take are accepted, the
/// deadline has not passed, the taker expects the escrow's price and holds
/// that much of mint_b in its mint_b account (an account of mint_b), the
/// vault holds mint_a, the taker can pay the rent of accounts the take
/// opens, and the maker can take back the rent of the two closed accounts
/// (the maker, the taker, the escrow, the vault and the accounts the take
/// may open being distinct accounts, and the escrow trading two mints), the
/// take succeeds, whatever the deposit and the price.
pub proof fn lemma_take_goes_through(c: Cluster, k: TakeKeys, expected_receive: u64)
    requires
        c.wf(),
        take_accounts_error(c@, k) is None,
        c@.now < c@.escrows[k.escrow].escrow.deadline,
        expected_receive == c@.escrows[k.escrow].escrow.receive,
        c@.ledger.tokens[k.taker_ata_b].amount >= expected_receive,
        c@.ledger.tokens[k.taker_ata_b].mint == k.mint_b,
        c@.ledger.tokens[k.vault].mint == k.mint_a,
        k.mint_a != k.mint_b,
        take_funding(c@, k) is Ok,
        lamports_of(c@.lamports, k.maker) + lamports_of(c@.lamports, k.vault) + lamports_of(c@.lamports, k.escrow)
            <= u64::MAX,
        k.maker != k.taker,
        k.maker != k.escrow,
        k.maker != k.vault,
        k.taker != k.vault,
        k.maker != k.taker_ata_a,
        k.maker != k.maker_ata_b,
        k.escrow != k.vault,
        k.escrow != k.taker_ata_a,
        k.escrow != k.maker_ata_b,
        k.vault != k.taker_ata_a,
        k.vault != k.maker_ata_b,
    ensures
        take_spec(c@, k, expected_receive) is Ok,
{
    let l = c@.ledger;
    c.ledger.lemma_records();
    let e = c@.escrows[k.escrow].escrow;
    let held = l.tokens[k.vault].amount;
    let l1 = with_token(l, k.taker_ata_a, k.taker, k.mint_a);
    let l2 = with_token(l1, k.maker_ata_b, k.maker, k.mint_b);
    assert(l.tokens[k.vault].owner == k.escrow);
    assert(l.tokens[k.taker_ata_b].owner == k.taker);
    assert(l1.tokens[k.taker_ata_a].owner == k.taker && l1.tokens[k.taker_ata_a].mint == k.mint_a);
    assert(l2.tokens[k.maker_ata_b].owner == k.maker && l2.tokens[k.maker_ata_b].mint == k.mint_b);
    assert(l2.tokens[k.taker_ata_a].mint == k.mint_a);
    assert(k.taker != k.escrow);
    assert(k.taker_ata_b != k.maker_ata_b);
    assert(k.taker_ata_a != k.taker_ata_b);
    assert(k.vault != k.taker_ata_b);
    assert(l2.tokens[k.taker_ata_b] == l.tokens[k.taker_ata_b]);
    assert(l2.tokens[k.vault] == l.tokens[k.vault]);
    let mb = k.mint_b;
    let ma = k.mint_a;
    c.ledger.lemma_supply_is_holdings(mb);
    c.ledger.lemma_supply_is_holdings(ma);
    assert(l2.tokens[k.maker_ata_b].amount + l2.tokens[k.taker_ata_b].amount <= u64::MAX) by {
        if l.tokens.contains_key(k.maker_ata_b) {
            assert(l.tokens[k.maker_ata_b].amount + l.tokens[k.taker_ata_b].amount <= l.mints[mb].supply);
        }
    }
    assert(take_outcome(e, held, expected_receive, c@.now) == Ok::<Swap, EscrowError>(Swap { pay: e.receive, release: held }));
    assert(l2.transfer_error(k.taker_ata_b, k.maker_ata_b, k.taker, e.receive) is None);
    let l3 = l2.transferred(k.taker_ata_b, k.maker_ata_b, e.receive);
    assert(l3.tokens[k.vault] == l.tokens[k.vault]);
    assert(l3.tokens[k.taker_ata_a] == l2.tokens[k.taker_ata_a]);
    assert(l3.transfer_error(k.vault, k.taker_ata_a, k.escrow, held) is None);
    let l4 = l3.transferred(k.vault, k.taker_ata_a, held);
    assert(l4.tokens[k.vault].amount == 0);
    assert(l4.close_error(k.vault, k.escrow) is None);
    let m = take_funding(c@, k)->Ok_0;
    assert(lamports_of(m, k.maker) == lamports_of(c@.lamports, k.maker));
    assert(lamports_of(m, k.vault) == lamports_of(c@.lamports, k.vault));
    assert(lamports_of(m, k.escrow) == lamports_of(c@.lamports, k.escrow));
    assert(closing(m, k.vault, k.escrow, k.maker) is Ok);
}

/// Law: once the deadline has passed the maker always gets its deposit
/// back. Where the accounts of a refund are accepted, the deadline has
/// passed, the vault holds mint_a, the maker can pay the rent of a mint_a
/// account it lacks and take back the rent of the two closed accounts (the
/// maker, the escrow, the vault and the maker's account being distinct
/// accounts), the refund succeeds, whatever the vault holds.
pub proof fn lemma_refund_goes_through(c: Cluster, k: RefundKeys)
    requires
        c.wf(),
        refund_accounts_error(c@, k) is None,
        c@.now >= c@.escrows[k.escrow].escrow.deadline,
        c@.ledger.tokens[k.vault].mint == k.mint_a,
        funded(c@.lamports, k.maker, k.maker_ata_a, c@.rent.token_account, !c@.ledger.tokens.contains_key(k.maker_ata_a)) is Ok,
        lamports_of(c@.lamports, k.maker) + lamports_of(c@.lamports, k.vault) + lamports_of(c@.lamports, k.escrow)
            <= u64::MAX,
        k.maker != k.escrow,
        k.maker != k.vault,
        k.maker != k.maker_ata_a,
        k.escrow != k.vault,
        k.escrow != k.maker_ata_a,
        k.vault != k.maker_ata_a,
    ensures
        refund_spec(c@, k) is Ok,
{
    let l = c@.ledger;
    c.ledger.lemma_records();
    let held = l.tokens[k.vault].amount;
    let l1 = with_token(l, k.maker_ata_a, k.maker, k.mint_a);
    assert(l.tokens[k.vault].owner == k.escrow);
    assert(l1.tokens[k.maker_ata_a].owner == k.maker && l1.tokens[k.maker_ata_a].mint == k.mint_a);
    assert(l1.tokens[k.vault] == l.tokens[k.vault]);
    c.ledger.lemma_supply_is_holdings(k.mint_a);
    assert(l1.tokens[k.maker_ata_a].amount + l1.tokens[k.vault].amount <= u64::MAX) by {
        if l.tokens.contains_key(k.maker_ata_a) {
            assert(l.tokens[k.maker_ata_a].amount + l.tokens[k.vault].amount <= l.mints[k.mint_a].supply);
        }
    }
    assert(l1.transfer_error(k.vault, k.maker_ata_a, k.escrow, held) is None);
    let l2 = l1.transferred(k.vault, k.maker_ata_a, held);
    assert(l2.tokens[k.vault].amount == 0);
    assert(l2.close_error(k.vault, k.escrow) is None);
    let m = funded(c@.lamports, k.maker, k.maker_ata_a, c@.rent.token_account, !l.tokens.contains_key(k.maker_ata_a))->Ok_0;
    assert(lamports_of(m, k.vault) == lamports_of(c@.lamports, k.vault));
    assert(lamports_of(m, k.escrow) == lamports_of(c@.lamports, k.escrow));
    assert(lamports_of(m, k.maker) <= lamports_of(c@.lamports, k.maker));
    assert(closing(m, k.vault, k.escrow, k.maker) is Ok);
}

/// Law: a maker who holds the deposit and can pay the rent opens its
/// offer. Where the accounts of a make are accepted, both amounts are
/// positive, the mints differ, the deadline lies after now, the maker holds
/// the deposit in its mint_a account (an account of mint_a) and can pay the
/// rent of the escrow state and its vault, the make succeeds.
pub proof fn lemma_make_goes_through(c: Cluster, k: MakeKeys, seed: u64, deposit: u64, receive: u64, deadline: i64)
    requires
        c.wf(),
        make_accounts_error(c@, k, seed) is None,
        deposit > 0,
        receive > 0,
        k.mint_a != k.mint_b,
        deadline > c@.now,
        c@.ledger.tokens[k.maker_ata_a].amount >= deposit,
        c@.ledger.tokens[k.maker_ata_a].mint == k.mint_a,
        make_funding(c@, k) is Ok,
    ensures
        make_spec(c@, k, seed, deposit, receive, deadline) is Ok,
{
    let l = c@.ledger;
    assert(l.tokens.contains_key(k.maker_ata_a));
    assert(!l.tokens.contains_key(k.vault));
    let l1 = l.opened(k.vault, k.mint_a, k.escrow);
    assert(l1.tokens[k.maker_ata_a] == l.tokens[k.maker_ata_a]);
    assert(l1.tokens[k.maker_ata_a].owner == k.maker);
    assert(l1.transfer_error(k.maker_ata_a, k.vault, k.maker, deposit) is None);
}

/// Law: repricing leaves the deposit untouched. An update that succeeds
/// changes the asking price of the escrow and nothing else: no token
/// moves, and every other term of the offer stays.
pub proof fn lemma_update_only_reprices(c: Cluster, k: UpdateKeys, receive: u64)
    requires
        c.wf(),
    ensures
        update_spec(c@, k, receive) matches Ok(c2) ==> {
            &&& c2.ledger == c@.ledger
            &&& c2.escrows.dom() == c@.escrows.dom()
            &&& c2.escrows[k.escrow].escrow == Escrow { receive, ..c@.escrows[k.escrow].escrow }
        },
{
    if let Ok(c2) = update_spec(c@, k, receive) {
        assert(c2.escrows.dom() =~= c@.escrows.dom());
    }
}

/// Law: an escrow that was taken or refunded is gone, so it can be neither
/// taken nor refunded nor repriced again.
pub proof fn lemma_settled_only_once(c: Cluster, k: TakeKeys, expected_receive: u64, r: RefundKeys, u: UpdateKeys, x: u64)
    requires
        c.wf(),
        r.escrow == k.escrow,
        u.escrow == k.escrow,
    ensures
        take_spec(c@, k, expected_receive) matches Ok(c2) ==> {
            &&& take_spec(c2, k, x) is Err
            &&& refund_spec(c2, r) is Err
            &&& update_spec(c2, u, x) is Err
        },
        refund_spec(c@, r) matches Ok(c2) ==> {
            &&& take_spec(c2, k, x) is Err
            &&& refund_spec(c2, r) is Err
            &&& update_spec(c2, u, x) is Err
        },
{
}

/// Law: no escrow instruction creates or destroys tokens: where make,
/// take, refund or update succeeds, every mint keeps its supply.
pub proof fn lemma_escrow_keeps_supplies(c: Cluster, m: MakeKeys, seed: u64, deposit: u64, receive: u64, deadline: i64, t: TakeKeys, expected_receive: u64, r: RefundKeys, u: UpdateKeys, price: u64)
    requires
        c.wf(),
    ensures
        make_spec(c@, m, seed, deposit, receive, deadline) matches Ok(c2) ==> c2.ledger.mints == c@.ledger.mints,
        take_spec(c@, t, expected_receive) matches Ok(c2) ==> c2.ledger.mints == c@.ledger.mints,
        refund_spec(c@, r) matches Ok(c2) ==> c2.ledger.mints == c@.ledger.mints,
        update_spec(c@, u, price) matches Ok(c2) ==> c2.ledger.mints == c@.ledger.mints,
{
}

/// Law: an offer made and refunded leaves everything as it was. Where a
/// make succeeds and, once its deadline has passed, the refund of that
/// escrow (to the account the deposit came from) succeeds, the ledger and
/// the escrows are back where they started, and so is every lamport
/// balance where the escrow and its vault held none before (the maker gets
/// back the rent it paid; the maker, the escrow and the vault being three
/// accounts).
pub proof fn lemma_make_then_refund_restores(c: Cluster, k: MakeKeys, seed: u64, deposit: u64, receive: u64, deadline: i64, later: i64)
    requires
        c.wf(),
        later >= deadline,
        k.maker != k.vault,
        k.escrow != k.vault,
    ensures
        make_spec(c@, k, seed, deposit, receive, deadline) matches Ok(c1) ==> {
            let c2 = ClusterView { now: later, ..c1 };
            let r = RefundKeys { maker: k.maker, mint_a: k.mint_a, maker_ata_a: k.maker_ata_a, escrow: k.escrow, vault: k.vault };
            refund_spec(c2, r) matches Ok(c3) ==> {
                &&& c3.ledger.tokens =~= c@.ledger.tokens
                &&& c3.ledger.mints == c@.ledger.mints
                &&& c3.escrows =~= c@.escrows
                &&& lamports_of(c@.lamports, k.escrow) == 0 && lamports_of(c@.lamports, k.vault) == 0 ==> forall|a: Address|
                    #[trigger] lamports_of(c3.lamports, a) == lamports_of(c@.lamports, a)
            }
        },
{
    let l = c@.ledger;
    if let Ok(c1) = make_spec(c@, k, seed, deposit, receive, deadline) {
        let c2 = ClusterView { now: later, ..c1 };
        let r = RefundKeys { maker: k.maker, mint_a: k.mint_a, maker_ata_a: k.maker_ata_a, escrow: k.escrow, vault: k.vault };
        if let Ok(c3) = refund_spec(c2, r) {
            c.ledger.lemma_records();
            c.ledger.lemma_supply_is_holdings(k.mint_a);
            let l1 = l.opened(k.vault, k.mint_a, k.escrow);
            assert(l.tokens.contains_key(k.maker_ata_a));
            assert(!l.tokens.contains_key(k.vault));
            assert(k.vault != k.maker_ata_a);
            assert(l.tokens[k.maker_ata_a].owner == k.maker);
            let l2 = l1.transferred(k.maker_ata_a, k.vault, deposit);
            assert(c1.ledger == l2);
            assert(l2.tokens[k.vault].amount == deposit);
            assert(l2.tokens.contains_key(k.maker_ata_a));
            assert(with_token(l2, k.maker_ata_a, k.maker, k.mint_a) == l2);
            let l3 = l2.transferred(k.vault, k.maker_ata_a, deposit);
            assert(l3.tokens[k.maker_ata_a] == l.tokens[k.maker_ata_a]);
            assert(c3.ledger == l3.closed(k.vault));
            assert(c3.ledger.tokens =~= l.tokens);
            assert(c3.escrows =~= c@.escrows);
            let m = c@.lamports;
            assert(k.maker != k.escrow);
            let m1 = crate::lamports::lamports_paid(m, k.maker, k.escrow, c@.rent.state_account);
            let m2 = crate::lamports::lamports_paid(m1, k.maker, k.vault, c@.rent.token_account);
            assert(c1.lamports == m2);
            assert(c3.lamports == crate::lamports::lamports_swept(crate::lamports::lamports_swept(m2, k.vault, k.maker), k.escrow, k.maker));
        }
    }
}

} // verus!

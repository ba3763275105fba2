use anchor_lang::prelude::Pubkey;
use token_vaults::address::{
    associated_token_address, associated_token_program_id, check_associated,
    check_pda, find_pda, same_address, token_program_id, u64_le_bytes, Address,
};
use token_vaults::ledger::{Ledger, TokenError};
use token_vaults::shares::{pro_rata_share, shares_for_deposit};

fn pubkey(a: &Address) -> Pubkey {
    Pubkey::new_from_array(*a)
}

#[test]
fn associated_addresses_match_the_token_program_crates() {
    let wallet = [5u8; 32];
    let mint = [6u8; 32];
    let ours = associated_token_address(&wallet, &mint).unwrap();
    let theirs = anchor_spl::associated_token::get_associated_token_address(&pubkey(&wallet), &pubkey(&mint));
    assert_eq!(ours, theirs.to_bytes());
    assert_ne!(ours, wallet);
    assert_ne!(ours, mint);
    assert!(check_associated(&ours, &wallet, &mint));
    assert!(!check_associated(&ours, &mint, &wallet));
}

#[test]
fn program_ids_are_the_published_ones() {
    assert_eq!(token_program_id(), anchor_spl::token::ID.to_bytes());
    assert_eq!(associated_token_program_id(), anchor_spl::associated_token::ID.to_bytes());
}

#[test]
fn program_addresses_match_solana() {
    let program = [9u8; 32];
    let seeds = vec![b"vault".to_vec(), vec![1u8; 32]];
    let (ours, bump) = find_pda(&seeds, &program).unwrap();
    let parts: Vec<&[u8]> = seeds.iter().map(|s| s.as_slice()).collect();
    let (theirs, their_bump) = Pubkey::find_program_address(&parts, &pubkey(&program));
    assert_eq!(ours, theirs.to_bytes());
    assert_eq!(bump, their_bump);
    assert!(check_pda(&ours, seeds.clone(), bump, &program));
    assert!(!check_pda(&ours, seeds.clone(), bump.wrapping_sub(1), &program));
    assert!(!check_pda(&[0u8; 32], seeds, bump, &program));
}

#[test]
fn le_bytes_match_to_le_bytes() {
    for v in [0u64, 1, 255, 256, 0x0102_0304_0506_0708, u64::MAX] {
        assert_eq!(u64_le_bytes(v), v.to_le_bytes().to_vec());
    }
}

#[test]
fn addresses_compare_by_every_byte() {
    let a = [3u8; 32];
    let mut b = a;
    assert!(same_address(&a, &b));
    b[31] = 4;
    assert!(!same_address(&a, &b));
    b = a;
    b[0] = 0;
    assert!(!same_address(&a, &b));
}

#[test]
fn deposit_share_formula() {
    assert_eq!(shares_for_deposit(400, 0, 0), 400);
    assert_eq!(shares_for_deposit(400, 0, 77), 400);
    assert_eq!(shares_for_deposit(200, 400, 400), 200);
    assert_eq!(shares_for_deposit(100, 10, 1_000), 1);
    assert_eq!(shares_for_deposit(99, 10, 1_000), 0);
    assert_eq!(shares_for_deposit(7, 3, 2), 10);
    // The product is taken in 128 bits.
    assert_eq!(shares_for_deposit(u64::MAX, u64::MAX, u64::MAX), u64::MAX);
    // A result above 64 bits is cut, as the program's `as u64` does.
    assert_eq!(shares_for_deposit(u64::MAX, 4, 2), u64::MAX.wrapping_mul(2));
}

#[test]
fn redeem_share_formula() {
    assert_eq!(pro_rata_share(1_000, 400, 1_000), 400);
    assert_eq!(pro_rata_share(500, 400, 1_000), 200);
    assert_eq!(pro_rata_share(400, 750, 1_000), 300);
    assert_eq!(pro_rata_share(1, 1, 2), 0);
    assert_eq!(pro_rata_share(0, 5, 9), 0);
    assert_eq!(pro_rata_share(u64::MAX, u64::MAX, u64::MAX), u64::MAX);
}

#[test]
fn ledger_operations_and_their_refusals() {
    let mut l = Ledger::new();
    let payer = [1u8; 32];
    let mint = [2u8; 32];
    let other_mint = [3u8; 32];
    let alice = [4u8; 32];
    let bob = [5u8; 32];
    let a = [10u8; 32];
    let b = [11u8; 32];
    let c = [12u8; 32];
    l.create_mint(&mint, &payer, 6).unwrap();
    assert_eq!(l.create_mint(&mint, &payer, 6), Err(TokenError::AlreadyInUse));
    l.create_mint(&other_mint, &payer, 6).unwrap();
    assert_eq!(l.open_account(&a, &[99u8; 32], &alice), Err(TokenError::AccountMissing));
    l.open_account(&a, &mint, &alice).unwrap();
    assert_eq!(l.open_account(&a, &mint, &alice), Err(TokenError::AlreadyInUse));
    l.open_account(&b, &mint, &bob).unwrap();
    l.open_account(&c, &other_mint, &bob).unwrap();

    assert_eq!(l.mint_to(&mint, &a, &alice, 5), Err(TokenError::OwnerMismatch));
    assert_eq!(l.mint_to(&mint, &c, &payer, 5), Err(TokenError::MintMismatch));
    l.mint_to(&mint, &a, &payer, 100).unwrap();
    assert_eq!(l.mint_to(&mint, &a, &payer, u64::MAX), Err(TokenError::Overflow));
    assert_eq!(l.supply(&mint), 100);

    assert_eq!(l.transfer(&a, &b, &bob, 10), Err(TokenError::OwnerMismatch));
    assert_eq!(l.transfer(&a, &c, &alice, 10), Err(TokenError::MintMismatch));
    assert_eq!(l.transfer(&a, &b, &alice, 101), Err(TokenError::InsufficientFunds));
    assert_eq!(l.transfer(&a, &[77u8; 32], &alice, 1), Err(TokenError::AccountMissing));
    l.transfer(&a, &b, &alice, 40).unwrap();
    assert_eq!(l.balance(&a), 60);
    assert_eq!(l.balance(&b), 40);
    l.transfer(&a, &a, &alice, 60).unwrap();
    assert_eq!(l.balance(&a), 60);

    assert_eq!(l.burn(&b, &mint, &alice, 1), Err(TokenError::OwnerMismatch));
    assert_eq!(l.burn(&b, &other_mint, &bob, 1), Err(TokenError::MintMismatch));
    assert_eq!(l.burn(&b, &mint, &bob, 41), Err(TokenError::InsufficientFunds));
    l.burn(&b, &mint, &bob, 40).unwrap();
    assert_eq!(l.supply(&mint), 60);

    assert_eq!(l.close_account(&a, &alice), Err(TokenError::NonZeroBalance));
    assert_eq!(l.close_account(&b, &alice), Err(TokenError::OwnerMismatch));
    l.close_account(&b, &bob).unwrap();
    assert!(l.token_account(&b).is_none());
    assert_eq!(l.balance(&b), 0);
    assert_eq!(l.close_account(&b, &bob), Err(TokenError::AccountMissing));
}

#[test]
fn supply_stays_what_the_holders_hold() {
    let mut l = Ledger::new();
    let payer = [1u8; 32];
    let mint = [2u8; 32];
    let holders: Vec<Address> = (10u8..15).map(|i| [i; 32]).collect();
    l.create_mint(&mint, &payer, 0).unwrap();
    for (i, h) in holders.iter().enumerate() {
        l.open_account(h, &mint, h).unwrap();
        l.mint_to(&mint, h, &payer, 10 * (i as u64 + 1)).unwrap();
    }
    l.transfer(&holders[4], &holders[0], &holders[4], 25).unwrap();
    l.burn(&holders[1], &mint, &holders[1], 5).unwrap();
    let held: u64 = holders.iter().map(|h| l.balance(h)).sum();
    assert_eq!(held, l.supply(&mint));
    assert_eq!(held, 145);
}

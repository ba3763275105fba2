//! Account addresses, program-derived addresses and associated token
//! account addresses.
use vstd::prelude::*;

verus! {

/// A 32-byte account address.
pub type Address = [u8; 32];

/// Byte-wise comparison of two addresses.
pub fn same_address(a: &Address, b: &Address) -> (r: bool)
    ensures
        r == (*a == *b),
{
    let mut i: usize = 0;
    while i < 32
        invariant
            0 <= i <= 32,
            forall|j: int| 0 <= j < i ==> a[j] == b[j],
        decreases 32 - i,
    {
        if a[i] != b[i] {
            return false;
        }
        i = i + 1;
    }
    proof {
        assert(*a =~= *b);
    }
    true
}

/// Two addresses are equal exactly when their bytes are.
pub proof fn lemma_view_injective(a: Address, b: Address)
    ensures
        (a@ == b@) <==> (a == b),
{
    if a@ == b@ {
        assert forall|i: int| 0 <= i < 32 implies a[i] == b[i] by {
            assert(a@[i] == b@[i]);
        }
        assert(a =~= b);
    }
}

/// The bytes of an address, as a seed.
pub fn address_bytes(a: &Address) -> (r: Vec<u8>)
    ensures
        r@ == a@,
{
    let mut out: Vec<u8> = Vec::new();
    let mut i: usize = 0;
    while i < 32
        invariant
            0 <= i <= 32,
            out@ == a@.take(i as int),
        decreases 32 - i,
    {
        out.push(a[i]);
        i = i + 1;
        proof {
            assert(out@ =~= a@.take(i as int));
        }
    }
    proof {
        assert(a@.take(32) =~= a@);
    }
    out
}

/// Little-endian encoding of `v` on `n` bytes (what `u64::to_le_bytes`
/// gives for `n == 8`).
pub open spec fn le_bytes(v: nat, n: nat) -> Seq<u8>
    decreases n,
{
    if n == 0 {
        Seq::empty()
    } else {
        seq![(v % 256) as u8] + le_bytes(v / 256, (n - 1) as nat)
    }
}

/// The eight little-endian bytes of a `u64`.
pub fn u64_le_bytes(v: u64) -> (r: Vec<u8>)
    ensures
        r@ == le_bytes(v as nat, 8),
{
    let mut out: Vec<u8> = Vec::new();
    let mut x: u64 = v;
    let mut k: usize = 0;
    while k < 8
        invariant
            0 <= k <= 8,
            out@ + le_bytes(x as nat, (8 - k) as nat) == le_bytes(v as nat, 8),
        decreases 8 - k,
    {
        let ghost before = out@;
        let b: u8 = (x % 256) as u8;
        proof {
            assert(le_bytes(x as nat, (8 - k) as nat) == seq![(x as nat % 256) as u8] + le_bytes(
                x as nat / 256,
                (8 - k - 1) as nat,
            ));
        }
        out.push(b);
        x = x / 256;
        k = k + 1;
        proof {
            assert(out@ =~= before + seq![b]);
            assert(out@ + le_bytes(x as nat, (8 - k) as nat) =~= before + (seq![b] + le_bytes(
                x as nat,
                (8 - k) as nat,
            )));
        }
    }
    proof {
        assert(le_bytes(x as nat, 0) =~= Seq::<u8>::empty());
        assert(out@ + Seq::<u8>::empty() =~= out@);
    }
    out
}

/// The byte strings of a list of seeds.
pub open spec fn seeds_of(seeds: Vec<Vec<u8>>) -> Seq<Seq<u8>> {
    seeds@.map_values(|p: Vec<u8>| p@)
}

/// The address that `Pubkey::create_program_address` derives from `seeds`
/// under `program_id`, or `None` where it refuses them.
pub uninterp spec fn program_address(seeds: Seq<Seq<u8>>, program_id: Seq<u8>) -> Option<Seq<u8>>;

/// The address and bump that `Pubkey::try_find_program_address` finds for
/// `seeds` under `program_id`, or `None` where it finds none.
pub uninterp spec fn found_program_address(seeds: Seq<Seq<u8>>, program_id: Seq<u8>) -> Option<(Seq<u8>, u8)>;

/// Calls `Pubkey::create_program_address` of anchor_lang (solana-address).
/// Trusted: its result is the named value `program_address` of the seeds and
/// the program id; nothing is claimed of that value beyond it.
#[verifier::external_body]
fn create_program_address(seeds: &Vec<Vec<u8>>, program_id: &Address) -> (r: Option<Address>)
    ensures
        match r {
            Some(a) => program_address(seeds_of(*seeds), program_id@) == Some(a@),
            None => program_address(seeds_of(*seeds), program_id@) is None,
        },
{
    let parts: Vec<&[u8]> = seeds.iter().map(|s| s.as_slice()).collect();
    let program = anchor_lang::prelude::Pubkey::new_from_array(*program_id);
    match anchor_lang::prelude::Pubkey::create_program_address(&parts, &program) {
        Ok(key) => Some(key.to_bytes()),
        Err(_) => None,
    }
}

/// Calls `Pubkey::try_find_program_address` of anchor_lang (solana-address).
/// Trusted: its result is the named value `found_program_address`; where it
/// finds an address with a bump, the source shows that this address is what
/// `create_program_address` gives for the seeds with that bump appended.
#[verifier::external_body]
fn try_find_program_address(seeds: &Vec<Vec<u8>>, program_id: &Address) -> (r: Option<(Address, u8)>)
    ensures
        match r {
            Some((a, b)) => {
                &&& found_program_address(seeds_of(*seeds), program_id@) == Some((a@, b))
                &&& program_address(seeds_of(*seeds).push(seq![b]), program_id@) == Some(a@)
            },
            None => found_program_address(seeds_of(*seeds), program_id@) is None,
        },
{
    let parts: Vec<&[u8]> = seeds.iter().map(|s| s.as_slice()).collect();
    let program = anchor_lang::prelude::Pubkey::new_from_array(*program_id);
    match anchor_lang::prelude::Pubkey::try_find_program_address(&parts, &program) {
        Some((key, bump)) => Some((key.to_bytes(), bump)),
        None => None,
    }
}

/// The address `seeds` plus `bump` derive under `program_id`, as a fixed
/// size address.
pub open spec fn pda_with_bump(seeds: Seq<Seq<u8>>, bump: u8, program_id: Address) -> Option<Seq<u8>> {
    program_address(seeds.push(seq![bump]), program_id@)
}

/// Whether `address` is the program-derived address of `seeds` and `bump`.
pub open spec fn is_pda(address: Address, seeds: Seq<Seq<u8>>, bump: u8, program_id: Address) -> bool {
    pda_with_bump(seeds, bump, program_id) == Some(address@)
}

/// Checks that `address` is derived from `seeds` and `bump` under
/// `program_id` (what an account constraint with an explicit bump checks).
pub fn check_pda(address: &Address, seeds: Vec<Vec<u8>>, bump: u8, program_id: &Address) -> (r: bool)
    ensures
        r == is_pda(*address, seeds_of(seeds), bump, *program_id),
{
    let mut with_bump = seeds;
    let ghost before = with_bump@;
    let tail: Vec<u8> = vec![bump];
    proof {
        assert(tail@ =~= seq![bump]);
    }
    with_bump.push(tail);
    proof {
        assert(seeds_of(with_bump) =~= seeds_of(seeds).push(seq![bump]));
    }
    match create_program_address(&with_bump, program_id) {
        Some(a) => {
            proof {
                lemma_view_injective(a, *address);
            }
            same_address(&a, address)
        },
        None => false,
    }
}

/// Finds the canonical program-derived address of `seeds` (what an `init`
/// constraint with seeds and no explicit bump does).
pub fn find_pda(seeds: &Vec<Vec<u8>>, program_id: &Address) -> (r: Option<(Address, u8)>)
    ensures
        match r {
            Some((a, b)) => {
                &&& found_program_address(seeds_of(*seeds), program_id@) == Some((a@, b))
                &&& is_pda(a, seeds_of(*seeds), b, *program_id)
            },
            None => found_program_address(seeds_of(*seeds), program_id@) is None,
        },
{
    try_find_program_address(seeds, program_id)
}

/// The SPL token program: `TokenkegQfeZyiNwAJbNbGKPFXCWuBvf9Ss623VQ5DA`.
pub fn token_program_id() -> (r: Address)
    ensures
        r@ == token_program_bytes(),
{
    let r: Address = [
        6, 221, 246, 225, 215, 101, 161, 147, 217, 203, 225, 70, 206, 235, 121, 172, 28, 180, 133,
        237, 95, 91, 55, 145, 58, 140, 245, 133, 126, 255, 0, 169,
    ];
    proof {
        assert(r@ =~= token_program_bytes());
    }
    r
}

pub open spec fn token_program_bytes() -> Seq<u8> {
    seq![
        6u8, 221, 246, 225, 215, 101, 161, 147, 217, 203, 225, 70, 206, 235, 121, 172, 28, 180, 133,
        237, 95, 91, 55, 145, 58, 140, 245, 133, 126, 255, 0, 169,
    ]
}

/// The associated token account program:
/// `ATokenGPvbdGVxr1b2hvZbsiqW5xWH25efTNsLJA8knL`.
pub fn associated_token_program_id() -> (r: Address)
    ensures
        r@ == associated_token_program_bytes(),
{
    let r: Address = [
        140, 151, 37, 143, 78, 36, 137, 241, 187, 61, 16, 41, 20, 142, 13, 131, 11, 90, 19, 153,
        218, 255, 16, 132, 4, 142, 123, 216, 219, 233, 248, 89,
    ];
    proof {
        assert(r@ =~= associated_token_program_bytes());
    }
    r
}

pub open spec fn associated_token_program_bytes() -> Seq<u8> {
    seq![
        140u8, 151, 37, 143, 78, 36, 137, 241, 187, 61, 16, 41, 20, 142, 13, 131, 11, 90, 19, 153,
        218, 255, 16, 132, 4, 142, 123, 216, 219, 233, 248, 89,
    ]
}

/// The associated token account address of `wallet` for `mint`: the
/// canonical address of the seeds `[wallet, token program, mint]` under the
/// associated token account program.
pub open spec fn associated_address(wallet: Address, mint: Address) -> Option<Seq<u8>> {
    match found_program_address(
        seq![wallet@, token_program_bytes(), mint@],
        associated_token_program_bytes(),
    ) {
        Some((a, _)) => Some(a),
        None => None,
    }
}

/// Whether `address` is the associated token account of `wallet` for `mint`.
pub open spec fn is_associated(address: Address, wallet: Address, mint: Address) -> bool {
    associated_address(wallet, mint) == Some(address@)
}

/// Derives the associated token account address of `wallet` for `mint`.
pub fn associated_token_address(wallet: &Address, mint: &Address) -> (r: Option<Address>)
    ensures
        match r {
            Some(a) => associated_address(*wallet, *mint) == Some(a@),
            None => associated_address(*wallet, *mint) is None,
        },
{
    let mut seeds: Vec<Vec<u8>> = Vec::new();
    seeds.push(address_bytes(wallet));
    seeds.push(address_bytes(&token_program_id()));
    seeds.push(address_bytes(mint));
    let program = associated_token_program_id();
    proof {
        assert(seeds_of(seeds) =~= seq![wallet@, token_program_bytes(), mint@]);
    }
    match try_find_program_address(&seeds, &program) {
        Some((a, _)) => Some(a),
        None => None,
    }
}

/// Checks that `address` is the associated token account of `wallet` for
/// `mint`.
pub fn check_associated(address: &Address, wallet: &Address, mint: &Address) -> (r: bool)
    ensures
        r == is_associated(*address, *wallet, *mint),
{
    match associated_token_address(wallet, mint) {
        Some(a) => {
            proof {
                lemma_view_injective(a, *address);
            }
            same_address(&a, address)
        },
        None => false,
    }
}

} // verus!

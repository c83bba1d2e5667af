//! Addresses and the derivation of scratch-account addresses.
//!
//! A scratch account's address is a program address: a hash of the seeds
//! `[payer, seed, bump]` and the relay program's identity that has no private
//! key.  The bump is found by searching from 255 downwards for the first value
//! that yields such an address.

use vstd::prelude::*;

use crate::error::Error;

verus! {

/// A 32-byte account address.
#[derive(Clone, Copy, Debug, PartialEq, Eq)]
pub struct Address {
    pub bytes: [u8; 32],
}

/// Seeds must be strictly shorter than this, leaving room for the bump byte
/// below the platform's general per-seed limit.
pub const SEED_LEN_LIMIT: usize = 31;

/// The address the host derives from `seeds` for `program`, or `None` where
/// the hash is a point on the curve and so no program address exists.
pub uninterp spec fn program_address_of(program: Seq<u8>, seeds: Seq<Seq<u8>>) -> Option<Seq<u8>>;

/// The program address for `seeds` followed by the bump byte `bump`.
pub open spec fn bump_address(program: Seq<u8>, seeds: Seq<Seq<u8>>, bump: u8) -> Option<Seq<u8>> {
    program_address_of(program, seeds.push(seq![bump]))
}

/// Whether `r` is the outcome of the bump search: the largest bump in
/// `1..=255` that yields a program address, with that address, or `None` if
/// no bump does.
pub open spec fn is_search_result(
    program: Seq<u8>,
    seeds: Seq<Seq<u8>>,
    r: Option<(Seq<u8>, u8)>,
) -> bool {
    match r {
        Some((addr, bump)) => {
            &&& 1 <= bump
            &&& bump_address(program, seeds, bump) == Some(addr)
            &&& forall|c: u8| bump < c ==> #[trigger] bump_address(program, seeds, c) is None
        },
        None => forall|c: u8| 1 <= c ==> #[trigger] bump_address(program, seeds, c) is None,
    }
}

/// The seeds of the scratch account of `payer` under `seed`.
pub open spec fn scratch_seeds(payer: Address, seed: Seq<u8>) -> Seq<Seq<u8>> {
    seq![payer.bytes@, seed]
}

/// The view of a search outcome with addresses as byte sequences.
pub open spec fn found_view(r: Option<(Address, u8)>) -> Option<(Seq<u8>, u8)> {
    match r {
        Some((a, b)) => Some((a.bytes@, b)),
        None => None,
    }
}

#[verifier::external_type_specification]
#[verifier::external_body]
pub struct ExPubkeyError(solana_program::pubkey::PubkeyError);

/// Relies on `Pubkey::create_program_address`: with seeds within the length
/// limits it fails only when the hash is a curve point, and otherwise returns
/// the hash as the address.
#[verifier::external_body]
fn create_program_address(payer: &Address, seed: &[u8], bump: u8, program: &Address) -> (r: Result<
    Address,
    solana_program::pubkey::PubkeyError,
>)
    requires
        seed@.len() <= 32,
    ensures
        match r {
            Ok(a) => program_address_of(program.bytes@, seq![payer.bytes@, seed@, seq![bump]])
                == Some(a.bytes@),
            Err(_) => program_address_of(
                program.bytes@,
                seq![payer.bytes@, seed@, seq![bump]],
            ) is None,
        },
{
    let program = solana_program::pubkey::Pubkey::new_from_array(program.bytes);
    match solana_program::pubkey::Pubkey::create_program_address(
        &[&payer.bytes, seed, &[bump]],
        &program,
    ) {
        Ok(key) => Ok(Address { bytes: key.to_bytes() }),
        Err(e) => Err(e),
    }
}

/// Relies on `Pubkey::try_find_program_address`: it tries bumps from 255 down
/// to 1 and returns the first that `create_program_address` accepts, with its
/// address, or `None` if none does.
#[verifier::external_body]
fn try_find_program_address(payer: &Address, seed: &[u8], program: &Address) -> (r: Option<
    (Address, u8),
>)
    requires
        seed@.len() <= 32,
    ensures
        is_search_result(program.bytes@, seq![payer.bytes@, seed@], found_view(r)),
{
    let program = solana_program::pubkey::Pubkey::new_from_array(program.bytes);
    match solana_program::pubkey::Pubkey::try_find_program_address(&[&payer.bytes, seed], &program) {
        Some((key, bump)) => Some((Address { bytes: key.to_bytes() }, bump)),
        None => None,
    }
}

/// Checks that the seed is shorter than [`SEED_LEN_LIMIT`]; returns its
/// length as a byte.
pub fn check_seed(seed: &[u8]) -> (r: Result<u8, Error>)
    ensures
        r is Ok <==> seed@.len() < SEED_LEN_LIMIT,
        r is Ok ==> r->Ok_0 == seed@.len(),
        r is Err ==> r->Err_0 == Error::MaxSeedLengthExceeded,
{
    if seed.len() < SEED_LEN_LIMIT {
        Ok(seed.len() as u8)
    } else {
        Err(Error::MaxSeedLengthExceeded)
    }
}

/// Derives the scratch account of `payer` under `seed` for `write_program`:
/// its address and bump.
///
/// Fails with `MaxSeedLengthExceeded` if the seed is too long, and with
/// `InvalidSeeds` in the (negligibly unlikely) case that no bump yields a
/// program address.
pub fn derive_address(write_program: &Address, payer: &Address, seed: &[u8]) -> (r: Result<
    (Address, u8),
    Error,
>)
    ensures
        seed@.len() >= SEED_LEN_LIMIT ==> r == Err::<(Address, u8), Error>(
            Error::MaxSeedLengthExceeded,
        ),
        seed@.len() < SEED_LEN_LIMIT ==> match r {
            Ok((a, b)) => is_search_result(
                write_program.bytes@,
                scratch_seeds(*payer, seed@),
                Some((a.bytes@, b)),
            ),
            Err(e) => e == Error::InvalidSeeds && is_search_result(
                write_program.bytes@,
                scratch_seeds(*payer, seed@),
                None,
            ),
        },
{
    check_seed(seed)?;
    match try_find_program_address(payer, seed, write_program) {
        Some(found) => Ok(found),
        None => Err(Error::InvalidSeeds),
    }
}

/// Computes the address of the scratch account of `payer` under `seed` with
/// a known `bump`, without searching.
///
/// Fails with `MaxSeedLengthExceeded` if the seed is too long and with
/// `InvalidSeeds` if the seeds yield no program address.
pub fn create_address(write_program: &Address, payer: &Address, seed: &[u8], bump: u8) -> (r:
    Result<Address, Error>)
    ensures
        seed@.len() >= SEED_LEN_LIMIT ==> r == Err::<Address, Error>(Error::MaxSeedLengthExceeded),
        seed@.len() < SEED_LEN_LIMIT ==> match r {
            Ok(a) => bump_address(write_program.bytes@, scratch_seeds(*payer, seed@), bump)
                == Some(a.bytes@),
            Err(e) => e == Error::InvalidSeeds && bump_address(
                write_program.bytes@,
                scratch_seeds(*payer, seed@),
                bump,
            ) is None,
        },
{
    check_seed(seed)?;
    assert(scratch_seeds(*payer, seed@).push(seq![bump]) == seq![payer.bytes@, seed@, seq![bump]]);
    match create_program_address(payer, seed, bump, write_program) {
        Ok(a) => Ok(a),
        Err(_) => Err(Error::InvalidSeeds),
    }
}

/// The bump search has exactly one outcome: deriving the same scratch account
/// twice gives the same address and bump.
pub proof fn lemma_derive_deterministic(
    program: Seq<u8>,
    seeds: Seq<Seq<u8>>,
    r1: Option<(Seq<u8>, u8)>,
    r2: Option<(Seq<u8>, u8)>,
)
    requires
        is_search_result(program, seeds, r1),
        is_search_result(program, seeds, r2),
    ensures
        r1 == r2,
{
    match (r1, r2) {
        (Some((a1, b1)), Some((a2, b2))) => {
            if b1 < b2 {
                assert(bump_address(program, seeds, b2) is None);
            } else if b2 < b1 {
                assert(bump_address(program, seeds, b1) is None);
            }
        },
        (Some((a1, b1)), None) => {
            assert(bump_address(program, seeds, b1) is None);
        },
        (None, Some((a2, b2))) => {
            assert(bump_address(program, seeds, b2) is None);
        },
        (None, None) => {},
    }
}

} // verus!

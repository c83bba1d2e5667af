use solana_program::pubkey::Pubkey;
use write_account::address::{create_address, derive_address, Address};
use write_account::codec::{encode_free, encode_prefixed, encode_write, get_ix_data};
use write_account::error::Error;
use write_account::instruction::{
    free, system_program_id, Instruction, WriteIter, MAX_CHUNK_SIZE, MAX_DATA_SIZE,
};

fn addr(key: &Pubkey) -> Address {
    Address { bytes: key.to_bytes() }
}

fn program() -> Address {
    addr(&Pubkey::new_unique())
}

fn collect(mut iter: WriteIter) -> Vec<Instruction> {
    let mut out = Vec::new();
    while let Some(ix) = iter.next() {
        out.push(ix);
    }
    out
}

/// Splits Write instruction data into (offset, chunk) after checking the
/// header against `seed` and `bump`.
fn split_write(data: &[u8], seed: &[u8], bump: u8) -> (u32, Vec<u8>) {
    assert_eq!(0, data[0]);
    assert_eq!(seed.len() as u8, data[1]);
    assert_eq!(seed, &data[2..2 + seed.len()]);
    assert_eq!(bump, data[2 + seed.len()]);
    let at = 3 + seed.len();
    let offset = u32::from_le_bytes(data[at..at + 4].try_into().unwrap());
    (offset, data[at + 4..].to_vec())
}

#[test]
fn two_chunks_for_1800_bytes() {
    let write_program = program();
    let payer = addr(&Pubkey::new_unique());
    let payload: Vec<u8> = (0..1800u32).map(|i| (i % 251) as u8).collect();
    let (iter, account, bump) = WriteIter::new(&write_program, payer, b"", payload.clone()).unwrap();
    let ixs = collect(iter);
    assert_eq!(2, ixs.len());

    let mut joined = Vec::new();
    let mut sizes = Vec::new();
    let mut offsets = Vec::new();
    for ix in &ixs {
        assert_eq!(write_program, ix.program_id);
        assert_eq!(3, ix.accounts.len());
        assert_eq!(payer, ix.accounts[0].pubkey);
        assert!(ix.accounts[0].is_signer && ix.accounts[0].is_writable);
        assert_eq!(account, ix.accounts[1].pubkey);
        assert!(!ix.accounts[1].is_signer && ix.accounts[1].is_writable);
        assert_eq!(system_program_id(), ix.accounts[2].pubkey);
        assert!(!ix.accounts[2].is_signer && !ix.accounts[2].is_writable);
        let (offset, chunk) = split_write(&ix.data, b"", bump);
        offsets.push(offset);
        sizes.push(chunk.len());
        joined.extend_from_slice(&chunk);
    }
    assert_eq!(vec![0, 988], offsets);
    assert_eq!(vec![988, 816], sizes);
    assert_eq!(1804, joined.len());
    assert_eq!(&1800u32.to_le_bytes()[..], &joined[..4]);
    assert_eq!(payload, joined[4..].to_vec());
    assert_eq!(Ok(&payload[..]), get_ix_data(&joined));
}

#[test]
fn chunks_cover_payload_in_order() {
    let write_program = program();
    let payer = addr(&Pubkey::new_unique());
    let seed = b"some seed";
    let payload: Vec<u8> = (0..5000u32).map(|i| (i * 7) as u8).collect();
    let (mut iter, _, bump) = WriteIter::new(&write_program, payer, seed, payload.clone()).unwrap();
    iter.chunk_size(700);
    let ixs = collect(iter);
    let mut next = 0u32;
    let mut joined = Vec::new();
    for ix in &ixs {
        let (offset, chunk) = split_write(&ix.data, seed, bump);
        assert_eq!(next, offset);
        assert!(!chunk.is_empty() && chunk.len() <= 700);
        next += chunk.len() as u32;
        joined.extend_from_slice(&chunk);
    }
    assert_eq!(5004, next);
    assert_eq!(encode_prefixed(&payload), joined);
}

#[test]
fn default_chunk_size_depends_on_seed() {
    let write_program = program();
    let payer = addr(&Pubkey::new_unique());
    let seed = [7u8; 30];
    let (iter, _, bump) = WriteIter::new_raw(&write_program, payer, &seed, vec![1u8; 2000]).unwrap();
    let ixs = collect(iter);
    let sizes: Vec<usize> = ixs.iter().map(|ix| split_write(&ix.data, &seed, bump).1.len()).collect();
    assert_eq!(usize::from(MAX_CHUNK_SIZE) - 30, 958);
    assert_eq!(vec![958, 958, 84], sizes);
}

#[test]
fn chunk_size_is_clamped() {
    let write_program = program();
    let payer = addr(&Pubkey::new_unique());
    let (mut iter, _, _) = WriteIter::new_raw(&write_program, payer, b"ab", vec![9u8; 5]).unwrap();
    iter.chunk_size(0);
    assert_eq!(5, collect(iter).len());

    let (mut iter, _, _) = WriteIter::new_raw(&write_program, payer, b"ab", vec![9u8; 2000]).unwrap();
    iter.chunk_size(usize::MAX);
    let ixs = collect(iter);
    assert_eq!(3, ixs.len());
    assert_eq!(7 + 2 + 986, ixs[0].data.len());
}

#[test]
fn empty_raw_data_has_no_chunks() {
    let write_program = program();
    let payer = addr(&Pubkey::new_unique());
    let (iter, account, bump) = WriteIter::new_raw(&write_program, payer, b"", Vec::new()).unwrap();
    assert_eq!((account, bump), iter.into_account());
    let (iter, _, _) = WriteIter::new_raw(&write_program, payer, b"", Vec::new()).unwrap();
    assert!(collect(iter).is_empty());
}

#[test]
fn empty_prefixed_data_is_one_chunk() {
    let write_program = program();
    let payer = addr(&Pubkey::new_unique());
    let (iter, _, bump) = WriteIter::new(&write_program, payer, b"", Vec::new()).unwrap();
    let ixs = collect(iter);
    assert_eq!(1, ixs.len());
    assert_eq!((0, vec![0, 0, 0, 0]), split_write(&ixs[0].data, b"", bump));
}

#[test]
fn oversized_data_is_rejected() {
    let write_program = program();
    let payer = addr(&Pubkey::new_unique());
    let max = MAX_DATA_SIZE as usize;
    assert_eq!(
        solana_program::system_instruction::MAX_PERMITTED_DATA_LENGTH,
        u64::from(MAX_DATA_SIZE)
    );
    assert!(matches!(
        WriteIter::new(&write_program, payer, b"", vec![0u8; max - 3]),
        Err(Error::ArithmeticOverflow)
    ));
    assert!(WriteIter::new(&write_program, payer, b"", vec![0u8; max - 4]).is_ok());
    assert!(matches!(
        WriteIter::new_raw(&write_program, payer, b"", vec![0u8; max + 1]),
        Err(Error::ArithmeticOverflow)
    ));
    assert!(WriteIter::new_raw(&write_program, payer, b"", vec![0u8; max]).is_ok());
}

#[test]
fn long_seed_is_rejected() {
    let write_program = program();
    let payer = addr(&Pubkey::new_unique());
    let seed = [1u8; 31];
    assert!(matches!(
        WriteIter::new(&write_program, payer, &seed, vec![1, 2, 3]),
        Err(Error::MaxSeedLengthExceeded)
    ));
    assert_eq!(Err(Error::MaxSeedLengthExceeded), free(write_program, payer, Some(payer), &seed, 1));
    assert_eq!(Err(Error::MaxSeedLengthExceeded), derive_address(&write_program, &payer, &seed));
    assert!(derive_address(&write_program, &payer, &seed[..30]).is_ok());
}

#[test]
fn derivation_matches_host_and_is_deterministic() {
    let write_program_key = Pubkey::new_unique();
    let payer_key = Pubkey::new_unique();
    let seed = b"seed";
    let (want_key, want_bump) =
        Pubkey::find_program_address(&[payer_key.as_ref(), seed], &write_program_key);
    let got = derive_address(&addr(&write_program_key), &addr(&payer_key), seed).unwrap();
    assert_eq!((addr(&want_key), want_bump), got);
    assert_ne!(addr(&payer_key), got.0);
    assert_eq!(got, derive_address(&addr(&write_program_key), &addr(&payer_key), seed).unwrap());

    let direct = create_address(&addr(&write_program_key), &addr(&payer_key), seed, got.1).unwrap();
    assert_eq!(got.0, direct);
    let want_direct =
        Pubkey::create_program_address(&[payer_key.as_ref(), seed, &[got.1]], &write_program_key)
            .unwrap();
    assert_eq!(addr(&want_direct), direct);
}

#[test]
fn free_targets_derived_account() {
    let write_program = program();
    let payer = addr(&Pubkey::new_unique());
    let seed = b"xyz";
    let (iter, account, bump) = WriteIter::new(&write_program, payer, seed, vec![5u8; 3000]).unwrap();
    // Abandon the sequence part way through.
    let mut iter = iter;
    assert!(iter.next().is_some());
    assert_eq!((account, bump), iter.into_account());

    let ix = free(write_program, payer, None, seed, bump).unwrap();
    assert_eq!(write_program, ix.program_id);
    assert_eq!(account, ix.accounts[1].pubkey);
    assert_eq!(payer, ix.accounts[0].pubkey);
    assert!(ix.accounts[0].is_signer);
    assert_eq!(system_program_id(), ix.accounts[2].pubkey);
    assert_eq!(vec![1, 3, b'x', b'y', b'z', bump], ix.data);

    let explicit = free(write_program, payer, Some(account), seed, bump).unwrap();
    assert_eq!(ix, explicit);

    // Re-deriving after the free gives the same account again.
    assert_eq!((account, bump), derive_address(&write_program, &payer, seed).unwrap());
}

#[test]
fn system_program_is_host_system_program() {
    assert_eq!(addr(&solana_program::system_program::ID), system_program_id());
}

#[test]
fn wire_encodings() {
    assert_eq!(
        vec![0, 2, b'a', b'b', 9, 0x04, 0x03, 0x02, 0x01, 7, 8],
        encode_write(b"ab", 9, 0x01020304, &[7, 8])
    );
    assert_eq!(vec![1, 0, 255], encode_free(b"", 255));
    assert_eq!(vec![3, 0, 0, 0, 1, 2, 3], encode_prefixed(&[1, 2, 3]));
}

#[test]
fn prefixed_round_trip_ignores_trailing_bytes() {
    let payload: Vec<u8> = (0..300u32).map(|i| i as u8).collect();
    let mut content = encode_prefixed(&payload);
    assert_eq!(Ok(&payload[..]), get_ix_data(&content));
    content.extend_from_slice(b"garbage");
    assert_eq!(Ok(&payload[..]), get_ix_data(&content));
    assert_eq!(Ok(&[][..]), get_ix_data(&[0, 0, 0, 0]));
    assert_eq!(Err(Error::InvalidInstructionData), get_ix_data(&[4, 0, 0]));
    assert_eq!(Err(Error::InvalidInstructionData), get_ix_data(&[4, 0, 0, 0, 1, 2, 3]));
}

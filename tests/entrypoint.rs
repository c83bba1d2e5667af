use std::sync::atomic::{AtomicU64, Ordering};

use solana_program::program_error::ProgramError;
use solana_program::pubkey::Pubkey;
use write_account::address::Address;
use write_account::codec::get_ix_data;
use write_account::entrypoint::{
    deserialize, deserialize_into, entrypoint_impl, entrypoint_no_alloc_impl, AccountView,
    Processor, BPF_ALIGN_OF_U128, MAX_PERMITTED_DATA_INCREASE, NON_DUP_MARKER,
};
use write_account::error::Error;

fn addr(key: &Pubkey) -> Address {
    Address { bytes: key.to_bytes() }
}

#[test]
fn entrypoint_test_get_ix_data() {
    let check = |want: Result<&[u8], Error>, data: &[u8]| {
        let data = data.to_vec();
        assert_eq!(want, get_ix_data(&data));
    };

    check(Err(Error::InvalidInstructionData), &[][..]);
    check(Ok(&[][..]), &[0, 0, 0, 0, 1, 2, 3, 4][..]);
    check(Ok(&[1][..]), &[1, 0, 0, 0, 1, 2, 3, 4][..]);
    check(Err(Error::InvalidInstructionData), &[1, 0, 0, 0][..]);
}

#[derive(Debug)]
struct TestAccount {
    key: Pubkey,
    owner: Pubkey,
    is_signer: bool,
    is_writable: bool,
    executable: bool,
    rent_epoch: u64,
    lamports: u64,
    data: Vec<u8>,
}

impl TestAccount {
    fn new(data: impl Into<Vec<u8>>) -> Self {
        static CNT: AtomicU64 = AtomicU64::new(1);

        let bits = CNT.fetch_add(1, Ordering::SeqCst);
        Self {
            key: Pubkey::new_unique(),
            lamports: CNT.fetch_add(1, Ordering::SeqCst),
            data: data.into(),
            owner: Pubkey::new_unique(),
            rent_epoch: CNT.fetch_add(1, Ordering::SeqCst),
            is_signer: bits & 1 != 0,
            is_writable: bits & 2 != 0,
            executable: bits & 4 != 0,
        }
    }

    fn matches(&self, rhs: &AccountView<'_>) -> bool {
        addr(&self.key) == rhs.key
            && self.lamports == rhs.lamports
            && self.data.as_slice() == rhs.data
            && addr(&self.owner) == rhs.owner
            && self.rent_epoch == rhs.rent_epoch
            && self.is_signer == rhs.is_signer
            && self.is_writable == rhs.is_writable
            && self.executable == rhs.executable
    }
}

fn serialise_input(accounts: &[TestAccount], instruction_data: &[u8]) -> (Pubkey, Vec<u8>) {
    let program_id = Pubkey::new_unique();
    let mut vec = Vec::<u8>::new();
    vec.extend_from_slice(&(accounts.len() as u64).to_le_bytes());

    fn align(addr: usize) -> usize {
        match addr % BPF_ALIGN_OF_U128 {
            0 => 0,
            n => BPF_ALIGN_OF_U128 - n,
        }
    }

    for account in accounts {
        vec.extend_from_slice(&[
            NON_DUP_MARKER,
            account.is_signer as u8,
            account.is_writable as u8,
            account.executable as u8,
            0,
            0,
            0,
            0,
        ]);
        vec.extend_from_slice(account.key.as_ref());
        vec.extend_from_slice(account.owner.as_ref());
        vec.extend_from_slice(&account.lamports.to_le_bytes());
        vec.extend_from_slice(&(account.data.len() as u64).to_le_bytes());
        vec.extend_from_slice(account.data.as_slice());
        let align_offset = align(account.data.len());
        let padding = MAX_PERMITTED_DATA_INCREASE + align_offset;
        vec.resize(vec.len() + padding, 0);
        vec.extend_from_slice(&account.rent_epoch.to_le_bytes());
    }

    vec.extend_from_slice(&(instruction_data.len() as u64).to_le_bytes());
    vec.extend_from_slice(instruction_data);
    vec.extend_from_slice(program_id.as_ref());

    (program_id, vec)
}

#[test]
fn test_serialise() {
    let accounts = [
        TestAccount::new(b"raz"),
        TestAccount::new(b"dwa"),
        TestAccount::new(b"trzy"),
        TestAccount::new(b"cztery"),
    ];
    let (program, data) = serialise_input(&accounts[..], b"data");

    let (got_program, got_accounts, got_data) = deserialize(&data).unwrap();

    assert_eq!(addr(&program), got_program);
    assert_eq!(&b"data"[..], got_data);
    assert_eq!(accounts.len(), got_accounts.len());
    for (acc, got) in accounts.iter().zip(got_accounts.iter()) {
        assert!(acc.matches(got));
    }
}

struct Check<'t> {
    program_id: Address,
    accounts: &'t [TestAccount],
    want: Result<(usize, &'t [u8]), u64>,
    calls: usize,
}

impl Processor for Check<'_> {
    fn process(
        &mut self,
        program_id: &Address,
        accounts: &[AccountView<'_>],
        data: &[u8],
    ) -> Result<(), Error> {
        self.calls += 1;
        assert_eq!(&self.program_id, program_id);
        assert_eq!(self.want, Ok((accounts.len(), data)));
        for (acc, got) in self.accounts.iter().zip(accounts.iter()) {
            assert!(acc.matches(got));
        }
        Ok(())
    }
}

fn do_test_entrypoint(
    accounts: &[TestAccount],
    instruction_data: &[u8],
    want: Result<(usize, &[u8]), u64>,
) {
    let (program_id, data) = serialise_input(accounts, instruction_data);
    let want_result = want.err().unwrap_or(0);
    let want_calls = if want.is_ok() { 1 } else { 0 };

    let mut check = Check { program_id: addr(&program_id), accounts, want, calls: 0 };
    assert_eq!(want_result, entrypoint_impl(&data, &mut check));
    assert_eq!(want_calls, check.calls);

    let mut check = Check { program_id: addr(&program_id), accounts, want, calls: 0 };
    assert_eq!(want_result, entrypoint_no_alloc_impl(&data, &mut check));
    assert_eq!(want_calls, check.calls);
}

#[test]
fn test_entrypoint_normal() {
    let accounts = [TestAccount::new(b"raz")];
    do_test_entrypoint(&accounts, b"data", Ok((1, b"data")));
}

#[test]
fn test_entrypoint_staged() {
    let data = b"\x04\x00\x00\x00data";
    let accounts = [TestAccount::new(b"raz"), TestAccount::new(data)];
    do_test_entrypoint(&accounts[1..], b"", Ok((0, b"data")));
    do_test_entrypoint(&accounts, b"", Ok((1, b"data")));
}

#[test]
fn test_entrypoint_long_staged() {
    let data = b"\x04\x00\x00\x00datagarbage";
    let accounts = [TestAccount::new(b"raz"), TestAccount::new(data)];
    do_test_entrypoint(&accounts[1..], b"", Ok((0, b"data")));
    do_test_entrypoint(&accounts, b"", Ok((1, b"data")));
}

#[test]
fn test_entrypoint_short_staged() {
    let data = b"\x04\x00\x00\x00dat";
    do_test_entrypoint(&[TestAccount::new(data)], b"", Err(12884901888));
}

#[test]
fn staged_one_declared_byte_missing() {
    let accounts = [TestAccount::new(b"raz"), TestAccount::new(&[1u8, 0, 0, 0][..])];
    let (_, data) = serialise_input(&accounts, b"");
    assert_eq!(Err(Error::InvalidInstructionData), deserialize(&data).map(|(_, _, d)| d));
}

#[test]
fn staged_without_accounts_is_rejected() {
    let (_, data) = serialise_input(&[], b"");
    assert_eq!(Err(Error::NotEnoughAccountKeys), deserialize(&data).map(|(_, _, d)| d));
    let mut check = Check { program_id: Address { bytes: [0; 32] }, accounts: &[], want: Err(0), calls: 0 };
    assert_eq!(
        u64::from(ProgramError::NotEnoughAccountKeys),
        entrypoint_impl(&data, &mut check)
    );
    assert_eq!(0, check.calls);
}

#[test]
fn staged_empty_payload() {
    let accounts = [TestAccount::new(&[0u8, 0, 0, 0][..])];
    let (_, data) = serialise_input(&accounts, b"");
    let (_, got_accounts, got_data) = deserialize(&data).unwrap();
    assert!(got_accounts.is_empty());
    assert!(got_data.is_empty());
}

#[test]
fn truncated_frame_is_invalid_argument() {
    let accounts = [TestAccount::new(b"raz")];
    let (_, data) = serialise_input(&accounts, b"data");
    for cut in [0usize, 7, 8, 50, data.len() - 33, data.len() - 1] {
        assert_eq!(
            Err(Error::InvalidArgument),
            deserialize(&data[..cut]).map(|(_, a, _)| a.len()),
            "cut at {cut}"
        );
    }
}

#[test]
fn duplicate_account_repeats_earlier_one() {
    let accounts = [TestAccount::new(b"raz")];
    let (program_id, mut data) = serialise_input(&accounts, b"data");
    // Declare two accounts and insert a repetition of the first after it.
    data[..8].copy_from_slice(&2u64.to_le_bytes());
    let trailer_at = data.len() - (8 + 4 + 32);
    let mut frame = data[..trailer_at].to_vec();
    frame.extend_from_slice(&[0, 0, 0, 0, 0, 0, 0, 0]);
    frame.extend_from_slice(&data[trailer_at..]);
    let (pid, got, ix) = deserialize(&frame).unwrap();
    assert_eq!(addr(&program_id), pid);
    assert_eq!(2, got.len());
    assert!(accounts[0].matches(&got[0]));
    assert!(accounts[0].matches(&got[1]));
    assert_eq!(b"data", ix);

    // A repetition of an account that does not precede it is rejected.
    let mut bad = frame.clone();
    let dup_at = trailer_at;
    bad[dup_at] = 1;
    assert_eq!(Err(Error::InvalidArgument), deserialize(&bad).map(|(_, a, _)| a.len()));
}

#[test]
fn deserialize_into_counts_visible_accounts() {
    let payload = b"\x04\x00\x00\x00data";
    let accounts = [TestAccount::new(b"raz"), TestAccount::new(payload)];
    let (_, data) = serialise_input(&accounts, b"");
    let blank = AccountView {
        key: Address { bytes: [0; 32] },
        owner: Address { bytes: [0; 32] },
        lamports: 0,
        rent_epoch: 0,
        is_signer: false,
        is_writable: false,
        executable: false,
        data: &[],
    };
    let mut buf = [blank; 4];
    let (_, count, got) = deserialize_into(&data, &mut buf).unwrap();
    assert_eq!(1, count);
    assert_eq!(b"data", got);
    assert!(accounts[0].matches(&buf[0]));
}

#[test]
fn no_alloc_rejects_too_many_accounts() {
    let accounts: Vec<TestAccount> = (0..65).map(|_| TestAccount::new(b"x")).collect();
    let (_, data) = serialise_input(&accounts, b"data");
    let mut check = Check { program_id: Address { bytes: [0; 32] }, accounts: &[], want: Err(0), calls: 0 };
    assert_eq!(u64::from(ProgramError::InvalidArgument), entrypoint_no_alloc_impl(&data, &mut check));
    assert_eq!(0, check.calls);
    let (pid, _, _) = deserialize(&data).unwrap();
    let mut check = Check { program_id: pid, accounts: &accounts, want: Ok((65, b"data")), calls: 0 };
    assert_eq!(0, entrypoint_impl(&data, &mut check));
    assert_eq!(1, check.calls);
}

#[test]
fn error_codes_match_host() {
    let pairs = [
        (Error::InvalidArgument, ProgramError::InvalidArgument),
        (Error::InvalidInstructionData, ProgramError::InvalidInstructionData),
        (Error::NotEnoughAccountKeys, ProgramError::NotEnoughAccountKeys),
        (Error::InsufficientFunds, ProgramError::InsufficientFunds),
        (Error::MissingRequiredSignature, ProgramError::MissingRequiredSignature),
        (Error::UninitializedAccount, ProgramError::UninitializedAccount),
        (Error::MaxSeedLengthExceeded, ProgramError::MaxSeedLengthExceeded),
        (Error::InvalidSeeds, ProgramError::InvalidSeeds),
        (Error::ArithmeticOverflow, ProgramError::ArithmeticOverflow),
        (Error::Custom(0), ProgramError::Custom(0)),
        (Error::Custom(42), ProgramError::Custom(42)),
    ];
    for (ours, host) in pairs {
        assert_eq!(u64::from(host), ours.code());
    }
    assert_eq!(12884901888, Error::InvalidInstructionData.code());
    assert_eq!(0, write_account::error::result_code(Ok(())));
}

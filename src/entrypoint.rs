//! Decoding of the host's invocation frame, with instruction data read from
//! the last account when the inline data is empty.
//!
//! The frame is laid out as follows, all integers little-endian:
//!
//! * `u64` number of accounts;
//! * for each account, one marker byte.  A marker other than
//!   [`NON_DUP_MARKER`] names an earlier account that this one repeats and is
//!   followed by 7 bytes of padding.  Otherwise the record follows: signer,
//!   writable and executable flags (one byte each), 4 bytes of padding, key
//!   (32 bytes), owner (32 bytes), `u64` lamports, `u64` data length, the
//!   data, [`MAX_PERMITTED_DATA_INCREASE`] bytes of room for growth, padding
//!   up to a multiple of [`BPF_ALIGN_OF_U128`] from the frame's start, and
//!   `u64` rent epoch;
//! * `u64` length of the inline instruction data, then the data;
//! * the program id (32 bytes).
//!
//! Every read is checked against the frame's length; a frame that ends too
//! early or repeats an account that does not precede it is rejected with
//! `InvalidArgument`.

use vstd::bytes::*;
use vstd::prelude::*;
use vstd::slice::slice_subrange;

use crate::address::Address;
use crate::codec::{
    content_payload, get_ix_data, is_valid_content, lemma_prefixed_round_trip, prefixed,
};
use crate::error::{error_code, result_code, Error, SUCCESS};

verus! {

/// Marker byte of an account record that is not a repetition.
pub const NON_DUP_MARKER: u8 = 0xff;

/// Room for growth the host leaves after each account's data.
pub const MAX_PERMITTED_DATA_INCREASE: usize = 10_240;

/// Alignment of the field that follows an account's data.
pub const BPF_ALIGN_OF_U128: usize = 8;

/// Capacity of the account buffer of [`entrypoint_no_alloc_impl`].
pub const MAX_ACCOUNTS: usize = 64;

/// Bytes of an account record between the marker and the data.
const RECORD_HEADER_LEN: usize = 87;

/// An account as passed to a program: its fields and its data, borrowed from
/// the frame.
#[derive(Clone, Copy, Debug)]
pub struct AccountView<'a> {
    pub key: Address,
    pub owner: Address,
    pub lamports: u64,
    pub rent_epoch: u64,
    pub is_signer: bool,
    pub is_writable: bool,
    pub executable: bool,
    pub data: &'a [u8],
}

/// Mathematical view of an [`AccountView`].
pub struct AccountModel {
    pub key: Seq<u8>,
    pub owner: Seq<u8>,
    pub lamports: nat,
    pub rent_epoch: nat,
    pub is_signer: bool,
    pub is_writable: bool,
    pub executable: bool,
    pub data: Seq<u8>,
}

impl<'a> View for AccountView<'a> {
    type V = AccountModel;

    open spec fn view(&self) -> AccountModel {
        AccountModel {
            key: self.key.bytes@,
            owner: self.owner.bytes@,
            lamports: self.lamports as nat,
            rent_epoch: self.rent_epoch as nat,
            is_signer: self.is_signer,
            is_writable: self.is_writable,
            executable: self.executable,
            data: self.data@,
        }
    }
}

/// The views of a sequence of accounts.
pub open spec fn views<'a>(accounts: Seq<AccountView<'a>>) -> Seq<AccountModel> {
    accounts.map_values(|a: AccountView<'a>| a@)
}

/// A decoded frame: program id, accounts and inline instruction data.
pub struct FrameModel {
    pub program_id: Seq<u8>,
    pub accounts: Seq<AccountModel>,
    pub data: Seq<u8>,
}

/// The little-endian `u64` at `pos`.
pub open spec fn u64_at(s: Seq<u8>, pos: int) -> nat {
    spec_u64_from_le_bytes(s.subrange(pos, pos + 8)) as nat
}

/// `n` rounded up to a multiple of [`BPF_ALIGN_OF_U128`].
pub open spec fn align_up(n: int) -> int {
    n + (8 - n % 8) % 8
}

/// The account record that starts at `p`, just after its marker, and the
/// position after it.
pub open spec fn record_at(s: Seq<u8>, p: int) -> Option<(AccountModel, int)> {
    if p + 87 > s.len() {
        None
    } else {
        let data_start = p + 87;
        let data_end = data_start + u64_at(s, p + 79);
        let rent_at = align_up(data_end + MAX_PERMITTED_DATA_INCREASE);
        if rent_at + 8 > s.len() {
            None
        } else {
            Some(
                (
                    AccountModel {
                        key: s.subrange(p + 7, p + 39),
                        owner: s.subrange(p + 39, p + 71),
                        lamports: u64_at(s, p + 71),
                        rent_epoch: u64_at(s, rent_at),
                        is_signer: s[p] != 0,
                        is_writable: s[p + 1] != 0,
                        executable: s[p + 2] != 0,
                        data: s.subrange(data_start, data_end),
                    },
                    rent_at + 8,
                ),
            )
        }
    }
}

/// The account entry at `p`, given the accounts before it, and the position
/// after it.
pub open spec fn entry_at(s: Seq<u8>, p: int, prev: Seq<AccountModel>) -> Option<
    (AccountModel, int),
> {
    if p >= s.len() {
        None
    } else if s[p] == NON_DUP_MARKER {
        record_at(s, p + 1)
    } else if (s[p] as int) < prev.len() && p + 8 <= s.len() {
        Some((prev[s[p] as int], p + 8))
    } else {
        None
    }
}

/// The first `n` accounts of the frame and the position after them.
pub open spec fn accounts_at(s: Seq<u8>, n: nat) -> Option<(Seq<AccountModel>, int)>
    decreases n,
{
    if n == 0 {
        if s.len() >= 8 {
            Some((seq![], 8))
        } else {
            None
        }
    } else {
        match accounts_at(s, (n - 1) as nat) {
            Some((prev, p)) => match entry_at(s, p, prev) {
                Some((a, q)) => Some((prev.push(a), q)),
                None => None,
            },
            None => None,
        }
    }
}

/// The number of accounts the frame declares.
pub open spec fn declared_accounts(s: Seq<u8>) -> nat {
    u64_at(s, 0)
}

/// The frame encoded in `s`, if it is well formed.
pub open spec fn parse_frame(s: Seq<u8>) -> Option<FrameModel> {
    if s.len() < 8 {
        None
    } else {
        match accounts_at(s, declared_accounts(s)) {
            Some((accounts, p)) => if p + 8 <= s.len() && p + 8 + u64_at(s, p) + 32 <= s.len() {
                let data_end = p + 8 + u64_at(s, p);
                Some(
                    FrameModel {
                        program_id: s.subrange(data_end, data_end + 32),
                        accounts,
                        data: s.subrange(p + 8, data_end),
                    },
                )
            } else {
                None
            },
            None => None,
        }
    }
}

/// The visible accounts and the effective instruction data of a frame: the
/// inline data if there is any, else the payload of the last account, which
/// is then left out of the accounts.
pub open spec fn redirected(f: FrameModel) -> Result<(Seq<AccountModel>, Seq<u8>), Error> {
    if f.data.len() > 0 {
        Ok((f.accounts, f.data))
    } else if f.accounts.len() == 0 {
        Err(Error::NotEnoughAccountKeys)
    } else if !is_valid_content(f.accounts.last().data) {
        Err(Error::InvalidInstructionData)
    } else {
        Ok((f.accounts.drop_last(), content_payload(f.accounts.last().data)))
    }
}

/// The outcome of decoding the frame `s`: program id, visible accounts and
/// effective instruction data.
pub open spec fn decoded_frame(s: Seq<u8>) -> Result<(Seq<u8>, Seq<AccountModel>, Seq<u8>), Error> {
    match parse_frame(s) {
        None => Err(Error::InvalidArgument),
        Some(f) => match redirected(f) {
            Ok((accounts, data)) => Ok((f.program_id, accounts, data)),
            Err(e) => Err(e),
        },
    }
}

proof fn lemma_accounts_fail_after(s: Seq<u8>, k: nat, m: nat)
    requires
        k <= m,
        accounts_at(s, k) is None,
    ensures
        accounts_at(s, m) is None,
    decreases m - k,
{
    if k < m {
        lemma_accounts_fail_after(s, k, (m - 1) as nat);
    }
}

fn read_u64(s: &[u8], pos: usize) -> (r: u64)
    requires
        pos + 8 <= s@.len(),
    ensures
        r as nat == u64_at(s@, pos as int),
{
    let len = s.len();
    assert(pos + 8 <= len);
    u64_from_le_bytes(slice_subrange(s, pos, pos + 8))
}

fn read_address(s: &[u8], pos: usize) -> (r: Address)
    requires
        pos + 32 <= s@.len(),
    ensures
        r.bytes@ == s@.subrange(pos as int, pos + 32),
{
    let len = s.len();
    let mut bytes = [0u8; 32];
    let mut i: usize = 0;
    while i < 32
        invariant
            i <= 32,
            pos + 32 <= s@.len(),
            len == s@.len(),
            forall|j: int| 0 <= j < i ==> bytes@[j] == s@[pos + j],
        decreases 32 - i,
    {
        bytes[i] = s[pos + i];
        i += 1;
    }
    assert(bytes@ =~= s@.subrange(pos as int, pos + 32));
    Address { bytes }
}

/// Reads the account record at `p`, just after its marker.
fn parse_record<'a>(s: &'a [u8], p: usize) -> (r: Option<(AccountView<'a>, usize)>)
    ensures
        match r {
            Some((a, q)) => record_at(s@, p as int) == Some((a@, q as int)),
            None => record_at(s@, p as int) is None,
        },
{
    if p > s.len() || s.len() - p < RECORD_HEADER_LEN {
        return None;
    }
    let data_start = p + RECORD_HEADER_LEN;
    let data_len = read_u64(s, p + 79);
    if data_len > (s.len() - data_start) as u64 {
        return None;
    }
    let data_end = data_start + data_len as usize;
    if s.len() - data_end < MAX_PERMITTED_DATA_INCREASE {
        return None;
    }
    let grown = data_end + MAX_PERMITTED_DATA_INCREASE;
    let pad = (BPF_ALIGN_OF_U128 - grown % BPF_ALIGN_OF_U128) % BPF_ALIGN_OF_U128;
    if s.len() - grown < pad + 8 {
        return None;
    }
    let rent_at = grown + pad;
    let account = AccountView {
        key: read_address(s, p + 7),
        owner: read_address(s, p + 39),
        lamports: read_u64(s, p + 71),
        rent_epoch: read_u64(s, rent_at),
        is_signer: s[p] != 0,
        is_writable: s[p + 1] != 0,
        executable: s[p + 2] != 0,
        data: slice_subrange(s, data_start, data_end),
    };
    Some((account, rent_at + 8))
}

/// An account entry: a record, or a repetition of an earlier account.
enum Entry<'a> {
    Record(AccountView<'a>),
    Repeat(usize),
}

/// Reads the account entry at `p`.  A repetition is returned by index, to be
/// resolved by the caller against the accounts read so far.
fn parse_entry<'a>(s: &'a [u8], p: usize) -> (r: Option<(Entry<'a>, usize)>)
    ensures
        match r {
            Some((Entry::Record(a), q)) => p < s@.len() && s@[p as int] == NON_DUP_MARKER
                && record_at(s@, p + 1) == Some((a@, q as int)),
            Some((Entry::Repeat(d), q)) => p < s@.len() && s@[p as int] != NON_DUP_MARKER && d
                == s@[p as int] && q == p + 8 && q <= s@.len(),
            None => p >= s@.len() || (s@[p as int] == NON_DUP_MARKER && record_at(s@, p + 1) is None)
                || (s@[p as int] != NON_DUP_MARKER && p + 8 > s@.len()),
        },
{
    if p >= s.len() {
        return None;
    }
    let marker = s[p];
    if marker == NON_DUP_MARKER {
        match parse_record(s, p + 1) {
            Some((a, q)) => Some((Entry::Record(a), q)),
            None => None,
        }
    } else if s.len() - p < 8 {
        None
    } else {
        Some((Entry::Repeat(marker as usize), p + 8))
    }
}

/// Reads the inline instruction data at `p` and the program id after it.
fn parse_trailer<'a>(s: &'a [u8], p: usize) -> (r: Option<(Address, &'a [u8])>)
    requires
        p <= s@.len(),
    ensures
        match r {
            Some((pid, data)) => {
                &&& p + 8 <= s@.len()
                &&& p + 8 + u64_at(s@, p as int) + 32 <= s@.len()
                &&& data@ == s@.subrange(p + 8, p + 8 + u64_at(s@, p as int))
                &&& pid.bytes@ == s@.subrange(
                    p + 8 + u64_at(s@, p as int),
                    p + 8 + u64_at(s@, p as int) + 32,
                )
            },
            None => !(p + 8 <= s@.len() && p + 8 + u64_at(s@, p as int) + 32 <= s@.len()),
        },
{
    if s.len() - p < 8 {
        return None;
    }
    let len = read_u64(s, p);
    let start = p + 8;
    if len > (s.len() - start) as u64 || s.len() - start - (len as usize) < 32 {
        return None;
    }
    let end = start + len as usize;
    Some((read_address(s, end), slice_subrange(s, start, end)))
}

/// Decodes the frame without the override: program id, all accounts and the
/// inline data.
fn parse_frame_vec<'a>(s: &'a [u8]) -> (r: Option<(Address, Vec<AccountView<'a>>, &'a [u8])>)
    ensures
        match r {
            Some((pid, accounts, data)) => parse_frame(s@) == Some(
                FrameModel { program_id: pid.bytes@, accounts: views(accounts@), data: data@ },
            ),
            None => parse_frame(s@) is None,
        },
{
    if s.len() < 8 {
        return None;
    }
    let n = read_u64(s, 0);
    let mut accounts: Vec<AccountView<'a>> = Vec::new();
    let mut pos: usize = 8;
    let mut i: u64 = 0;
    while i < n
        invariant
            s@.len() >= 8,
            n as nat == declared_accounts(s@),
            i <= n,
            pos <= s@.len(),
            accounts_at(s@, i as nat) == Some((views(accounts@), pos as int)),
        decreases n - i,
    {
        let ghost prev = views(accounts@);
        let entry = parse_entry(s, pos);
        let account = match entry {
            Some((Entry::Record(a), q)) => {
                pos = q;
                a
            },
            Some((Entry::Repeat(d), q)) => {
                if d >= accounts.len() {
                    proof {
                        lemma_accounts_fail_after(s@, (i + 1) as nat, n as nat);
                    }
                    return None;
                }
                pos = q;
                accounts[d]
            },
            None => {
                proof {
                    lemma_accounts_fail_after(s@, (i + 1) as nat, n as nat);
                }
                return None;
            },
        };
        accounts.push(account);
        assert(views(accounts@) =~= prev.push(account@));
        i += 1;
    }
    match parse_trailer(s, pos) {
        Some((pid, data)) => Some((pid, accounts, data)),
        None => None,
    }
}

/// Decodes the invocation frame `input`.
///
/// If the inline instruction data is empty, the last account is taken off
/// the account list and its content, a length-prefixed payload, is used as
/// the instruction data instead.  Fails with `InvalidArgument` on a malformed
/// frame, `NotEnoughAccountKeys` if there is no account to read from, and
/// `InvalidInstructionData` if its content is not a complete payload.  The
/// returned data borrows from `input`.
pub fn deserialize<'a>(input: &'a [u8]) -> (r: Result<(Address, Vec<AccountView<'a>>, &'a [u8]), Error>)
    ensures
        match r {
            Ok((pid, accounts, data)) => decoded_frame(input@) == Ok::<
                (Seq<u8>, Seq<AccountModel>, Seq<u8>),
                Error,
            >((pid.bytes@, views(accounts@), data@)),
            Err(e) => decoded_frame(input@) == Err::<(Seq<u8>, Seq<AccountModel>, Seq<u8>), Error>(e),
        },
{
    let (program_id, mut accounts, mut data) = match parse_frame_vec(input) {
        Some(frame) => frame,
        None => return Err(Error::InvalidArgument),
    };
    if data.len() == 0 {
        let ghost all = views(accounts@);
        let last = match accounts.pop() {
            Some(a) => a,
            None => return Err(Error::NotEnoughAccountKeys),
        };
        assert(views(accounts@) =~= all.drop_last());
        data = match get_ix_data(last.data) {
            Ok(d) => d,
            Err(e) => return Err(e),
        };
    }
    Ok((program_id, accounts, data))
}

/// Decodes the invocation frame `input` as [`deserialize`] does, but writes
/// the accounts into `accounts` instead of allocating, and returns how many
/// of them are visible.
pub fn deserialize_into<'a>(input: &'a [u8], accounts: &mut [AccountView<'a>]) -> (r: Result<
    (Address, usize, &'a [u8]),
    Error,
>)
    requires
        input@.len() >= 8 ==> declared_accounts(input@) <= old(accounts)@.len(),
    ensures
        final(accounts)@.len() == old(accounts)@.len(),
        match r {
            Ok((pid, count, data)) => count <= final(accounts)@.len() && decoded_frame(input@)
                == Ok::<(Seq<u8>, Seq<AccountModel>, Seq<u8>), Error>(
                (pid.bytes@, views(final(accounts)@.subrange(0, count as int)), data@),
            ),
            Err(e) => decoded_frame(input@) == Err::<(Seq<u8>, Seq<AccountModel>, Seq<u8>), Error>(e),
        },
{
    if input.len() < 8 {
        return Err(Error::InvalidArgument);
    }
    let n = read_u64(input, 0);
    let mut pos: usize = 8;
    let mut i: usize = 0;
    while (i as u64) < n
        invariant
            input@.len() >= 8,
            n as nat == declared_accounts(input@),
            n <= accounts@.len(),
            accounts@.len() == old(accounts)@.len(),
            i <= n,
            pos <= input@.len(),
            accounts_at(input@, i as nat) == Some(
                (views(accounts@.subrange(0, i as int)), pos as int),
            ),
        decreases n - i,
    {
        let ghost prev = views(accounts@.subrange(0, i as int));
        let entry = parse_entry(input, pos);
        let account = match entry {
            Some((Entry::Record(a), q)) => {
                pos = q;
                a
            },
            Some((Entry::Repeat(d), q)) => {
                if d >= i {
                    proof {
                        lemma_accounts_fail_after(input@, (i + 1) as nat, n as nat);
                    }
                    return Err(Error::InvalidArgument);
                }
                pos = q;
                accounts[d]
            },
            None => {
                proof {
                    lemma_accounts_fail_after(input@, (i + 1) as nat, n as nat);
                }
                return Err(Error::InvalidArgument);
            },
        };
        accounts[i] = account;
        assert(views(accounts@.subrange(0, i + 1)) =~= prev.push(account@));
        i += 1;
    }
    let (program_id, mut data) = match parse_trailer(input, pos) {
        Some(t) => t,
        None => return Err(Error::InvalidArgument),
    };
    let mut count = i;
    if data.len() == 0 {
        if count == 0 {
            return Err(Error::NotEnoughAccountKeys);
        }
        count = count - 1;
        let ghost all = views(accounts@.subrange(0, i as int));
        assert(views(accounts@.subrange(0, count as int)) =~= all.drop_last());
        data = match get_ix_data(accounts[count].data) {
            Ok(d) => d,
            Err(e) => return Err(e),
        };
    }
    Ok((program_id, count, data))
}

/// What a program does with a decoded invocation.  Programs implement it to
/// be called by [`entrypoint_impl`] or [`entrypoint_no_alloc_impl`].
pub trait Processor {
    /// The outcome the processor gives, in its current state, for an
    /// invocation of `program_id` with `accounts` and `data`.  A processor
    /// defines it for its own logic; left undefined, it is an unspecified
    /// value.
    closed spec fn outcome(
        &self,
        program_id: Seq<u8>,
        accounts: Seq<AccountModel>,
        data: Seq<u8>,
    ) -> Result<(), Error> {
        arbitrary()
    }

    /// Processes one invocation and returns its outcome.
    fn process(&mut self, program_id: &Address, accounts: &[AccountView<'_>], data: &[u8]) -> (r:
        Result<(), Error>)
        ensures
            r == old(self).outcome(program_id.bytes@, views(accounts@), data@),
    ;
}

/// The code for the host when `processor` handles the decoded frame `f`.
pub open spec fn processed_code<P: Processor>(
    processor: P,
    f: (Seq<u8>, Seq<AccountModel>, Seq<u8>),
) -> u64 {
    match processor.outcome(f.0, f.1, f.2) {
        Ok(()) => SUCCESS,
        Err(e) => error_code(e),
    }
}

/// Runs one invocation: decodes `input` with [`deserialize`], hands the
/// result to `processor` and returns the code for the host.
///
/// A frame that does not decode yields its error's code and leaves the
/// processor untouched.  Otherwise the processor is called once, with the
/// program id, visible accounts and data that [`deserialize`] returns, and
/// its outcome becomes the code as [`result_code`] states.
pub fn entrypoint_impl<P: Processor>(input: &[u8], processor: &mut P) -> (r: u64)
    ensures
        decoded_frame(input@) is Err ==> r == error_code(decoded_frame(input@)->Err_0)
            && *final(processor) == *old(processor),
        decoded_frame(input@) is Ok ==> r == processed_code(
            *old(processor),
            decoded_frame(input@)->Ok_0,
        ),
{
    match deserialize(input) {
        Ok((program_id, accounts, data)) => result_code(
            processor.process(&program_id, accounts.as_slice(), data),
        ),
        Err(e) => e.code(),
    }
}

/// Calls the processor in a call frame of its own, so that the account
/// buffer of the caller does not eat into the processor's stack space.
#[inline(never)]
fn inner<P: Processor>(
    program_id: &Address,
    accounts: &[AccountView<'_>],
    data: &[u8],
    processor: &mut P,
) -> (r: Result<(), Error>)
    ensures
        r == old(processor).outcome(program_id.bytes@, views(accounts@), data@),
{
    processor.process(program_id, accounts, data)
}

/// Runs one invocation as [`entrypoint_impl`] does, with the accounts in a
/// fixed buffer of [`MAX_ACCOUNTS`] entries instead of a vector.  A frame
/// with more accounts is rejected with `InvalidArgument`, leaving the
/// processor untouched.  Otherwise it behaves as [`entrypoint_impl`], the
/// processor getting what [`deserialize_into`] returns.
pub fn entrypoint_no_alloc_impl<P: Processor>(input: &[u8], processor: &mut P) -> (r: u64)
    ensures
        input@.len() >= 8 && declared_accounts(input@) > MAX_ACCOUNTS ==> r == error_code(
            Error::InvalidArgument,
        ) && *final(processor) == *old(processor),
        !(input@.len() >= 8 && declared_accounts(input@) > MAX_ACCOUNTS) && decoded_frame(
            input@,
        ) is Err ==> r == error_code(decoded_frame(input@)->Err_0) && *final(processor) == *old(
            processor,
        ),
        !(input@.len() >= 8 && declared_accounts(input@) > MAX_ACCOUNTS) && decoded_frame(
            input@,
        ) is Ok ==> r == processed_code(*old(processor), decoded_frame(input@)->Ok_0),
{
    if input.len() >= 8 && read_u64(input, 0) > MAX_ACCOUNTS as u64 {
        return Error::InvalidArgument.code();
    }
    let blank = AccountView {
        key: Address { bytes: [0u8; 32] },
        owner: Address { bytes: [0u8; 32] },
        lamports: 0,
        rent_epoch: 0,
        is_signer: false,
        is_writable: false,
        executable: false,
        data: slice_subrange(input, 0, 0),
    };
    let mut accounts = [blank; 64];
    match deserialize_into(input, &mut accounts) {
        Ok((program_id, count, data)) => {
            let visible = slice_subrange(accounts.as_slice(), 0, count);
            result_code(inner(&program_id, visible, data, processor))
        },
        Err(e) => e.code(),
    }
}

/// A payload staged in the last account is what decoding yields: with empty
/// inline data and the last account holding the length-prefixed payload and
/// any trailing bytes, the frame decodes to the payload and the other
/// accounts.
pub proof fn lemma_staged_payload_decodes(s: Seq<u8>, payload: Seq<u8>, trailing: Seq<u8>)
    requires
        payload.len() <= u32::MAX,
        parse_frame(s) is Some,
        parse_frame(s)->Some_0.data.len() == 0,
        parse_frame(s)->Some_0.accounts.len() > 0,
        parse_frame(s)->Some_0.accounts.last().data == prefixed(payload) + trailing,
    ensures
        decoded_frame(s) == Ok::<(Seq<u8>, Seq<AccountModel>, Seq<u8>), Error>(
            (
                parse_frame(s)->Some_0.program_id,
                parse_frame(s)->Some_0.accounts.drop_last(),
                payload,
            ),
        ),
{
    lemma_prefixed_round_trip(payload, trailing);
}

} // verus!

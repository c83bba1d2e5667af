//! Client-side construction of the relay operations: the chunked sequence of
//! Write operations filling a scratch account and the Free operation that
//! closes it.

use vstd::prelude::*;

use crate::address::{
    bump_address, create_address, derive_address, is_search_result, scratch_seeds, Address,
    SEED_LEN_LIMIT,
};
use crate::codec::{encode_free, encode_prefixed, encode_write, free_data, prefixed, write_data};
use crate::error::Error;

verus! {

/// Largest chunk a Write operation carries with an empty seed.  It uses all
/// the space of one transaction; each seed byte takes one byte from it.
pub const MAX_CHUNK_SIZE: u16 = 988;

/// Largest account the host allows: 10 MiB.
pub const MAX_DATA_SIZE: u32 = 10_485_760;

/// A reference to an account in an instruction.
#[derive(Clone, Copy, Debug, PartialEq, Eq)]
pub struct AccountMeta {
    pub pubkey: Address,
    pub is_signer: bool,
    pub is_writable: bool,
}

/// An instruction for the host: the program to call, the accounts it gets
/// and its inline data.
#[derive(Clone, Debug, PartialEq, Eq)]
pub struct Instruction {
    pub program_id: Address,
    pub accounts: Vec<AccountMeta>,
    pub data: Vec<u8>,
}

/// Mathematical view of an [`Instruction`].
pub struct InstructionView {
    pub program_id: Address,
    pub accounts: Seq<AccountMeta>,
    pub data: Seq<u8>,
}

impl View for Instruction {
    type V = InstructionView;

    open spec fn view(&self) -> InstructionView {
        InstructionView { program_id: self.program_id, accounts: self.accounts@, data: self.data@ }
    }
}

/// The system program, which funds account creation: the all-zero address.
pub open spec fn is_system_program(a: Address) -> bool {
    forall|i: int| 0 <= i < 32 ==> #[trigger] a.bytes@[i] == 0
}

/// Accounts of both relay operations: the payer (signer, writable), the
/// scratch account (writable) and the system program (read-only).
pub open spec fn relay_accounts(payer: Address, scratch: Address, system: Address) -> Seq<
    AccountMeta,
> {
    seq![
        AccountMeta { pubkey: payer, is_signer: true, is_writable: true },
        AccountMeta { pubkey: scratch, is_signer: false, is_writable: true },
        AccountMeta { pubkey: system, is_signer: false, is_writable: false },
    ]
}

/// Whether `ix` calls `program` on the relay accounts of `payer` and
/// `scratch` with `data`.
pub open spec fn is_relay_instruction(
    ix: InstructionView,
    program: Address,
    payer: Address,
    scratch: Address,
    data: Seq<u8>,
) -> bool {
    &&& ix.program_id == program
    &&& ix.accounts.len() == 3
    &&& ix.accounts == relay_accounts(payer, scratch, ix.accounts[2].pubkey)
    &&& is_system_program(ix.accounts[2].pubkey)
    &&& ix.data == data
}

/// The address of the system program.
pub fn system_program_id() -> (r: Address)
    ensures
        is_system_program(r),
{
    Address { bytes: [0u8; 32] }
}

fn relay_instruction(program: Address, payer: Address, scratch: Address, data: Vec<u8>) -> (r:
    Instruction)
    ensures
        is_relay_instruction(r@, program, payer, scratch, data@),
{
    let accounts = vec![
        AccountMeta { pubkey: payer, is_signer: true, is_writable: true },
        AccountMeta { pubkey: scratch, is_signer: false, is_writable: true },
        AccountMeta { pubkey: system_program_id(), is_signer: false, is_writable: false },
    ];
    Instruction { program_id: program, accounts, data }
}

/// End of the chunk that starts at `pos`.
pub open spec fn chunk_end(pos: nat, chunk_size: nat, len: nat) -> nat {
    if pos + chunk_size < len {
        pos + chunk_size
    } else {
        len
    }
}

/// The chunks, as (offset, bytes), that cover `data` from `pos` on.
pub open spec fn plan(data: Seq<u8>, pos: nat, chunk_size: nat) -> Seq<(nat, Seq<u8>)>
    decreases data.len() - pos,
{
    if pos >= data.len() || chunk_size == 0 {
        seq![]
    } else {
        let end = chunk_end(pos, chunk_size, data.len());
        seq![(pos, data.subrange(pos as int, end as int))] + plan(data, end, chunk_size)
    }
}

/// The chunks' bytes joined in order.
pub open spec fn concat_chunks(p: Seq<(nat, Seq<u8>)>) -> Seq<u8>
    decreases p.len(),
{
    if p.len() == 0 {
        seq![]
    } else {
        p[0].1 + concat_chunks(p.drop_first())
    }
}

/// The chunk size used when the caller asks for `requested` with a seed of
/// `seed_len` bytes: clamped to `1..=MAX_CHUNK_SIZE - seed_len`.
pub open spec fn clamped_chunk_size(requested: nat, seed_len: nat) -> nat {
    let max = MAX_CHUNK_SIZE - seed_len;
    if requested > max {
        max as nat
    } else if requested == 0 {
        1
    } else {
        requested
    }
}

/// The default chunk size for a seed of `seed_len` bytes.
pub open spec fn default_chunk_size(seed_len: nat) -> nat {
    (MAX_CHUNK_SIZE - seed_len) as nat
}

/// Generates the Write operations that fill a scratch account with data.
pub struct WriteIter {
    write_program: Address,
    payer: Address,
    write_account: Address,
    seed: Vec<u8>,
    bump: u8,
    data: Vec<u8>,
    position: usize,
    chunk_size: u16,
}

/// Mathematical view of a [`WriteIter`].
pub struct WriteIterView {
    pub write_program: Address,
    pub payer: Address,
    pub write_account: Address,
    pub seed: Seq<u8>,
    pub bump: u8,
    /// The bytes written to the account, length prefix included if any.
    pub data: Seq<u8>,
    /// Offset of the next chunk.
    pub position: nat,
    pub chunk_size: nat,
}

impl View for WriteIter {
    type V = WriteIterView;

    closed spec fn view(&self) -> WriteIterView {
        WriteIterView {
            write_program: self.write_program,
            payer: self.payer,
            write_account: self.write_account,
            seed: self.seed@,
            bump: self.bump,
            data: self.data@,
            position: self.position as nat,
            chunk_size: self.chunk_size as nat,
        }
    }
}

impl WriteIterView {
    /// The iterator's invariant.
    pub open spec fn wf(self) -> bool {
        &&& self.seed.len() < SEED_LEN_LIMIT
        &&& self.data.len() <= MAX_DATA_SIZE
        &&& 1 <= self.chunk_size <= MAX_CHUNK_SIZE - self.seed.len()
        &&& self.position <= self.data.len()
    }

    /// The chunks still to be written.
    pub open spec fn remaining(self) -> Seq<(nat, Seq<u8>)> {
        plan(self.data, self.position, self.chunk_size)
    }

    /// The Write operation for the chunk `[start, end)`.
    pub open spec fn is_write(self, ix: InstructionView, start: nat, end: nat) -> bool {
        is_relay_instruction(
            ix,
            self.write_program,
            self.payer,
            self.write_account,
            write_data(self.seed, self.bump, start, self.data.subrange(start as int, end as int)),
        )
    }

    /// A fresh iterator writing `data` to the derived scratch account of
    /// `payer` under `seed`, found at address `addr` with `bump`.
    pub open spec fn is_fresh(
        self,
        write_program: Address,
        payer: Address,
        seed: Seq<u8>,
        data: Seq<u8>,
        addr: Address,
        bump: u8,
    ) -> bool {
        &&& self.wf()
        &&& self.write_program == write_program
        &&& self.payer == payer
        &&& self.seed == seed
        &&& self.data == data
        &&& self.position == 0
        &&& self.chunk_size == default_chunk_size(seed.len())
        &&& self.write_account == addr
        &&& self.bump == bump
        &&& is_search_result(write_program.bytes@, scratch_seeds(payer, seed), Some((addr.bytes@, bump)))
    }
}

impl WriteIter {
    /// Plans the Write operations that store `data` with a 4-byte
    /// little-endian length prefix in the scratch account of `payer` under
    /// `seed`.
    ///
    /// Fails with `ArithmeticOverflow` if the prefixed data would not fit in
    /// an account, with `MaxSeedLengthExceeded` if the seed is too long, and
    /// with `InvalidSeeds` if no bump yields a program address.  On success
    /// returns the iterator and the scratch account's address and bump.
    pub fn new(write_program: &Address, payer: Address, seed: &[u8], data: Vec<u8>) -> (r: Result<
        (Self, Address, u8),
        Error,
    >)
        ensures
            data@.len() > MAX_DATA_SIZE - 4 ==> r == Err::<(Self, Address, u8), Error>(
                Error::ArithmeticOverflow,
            ),
            data@.len() <= MAX_DATA_SIZE - 4 ==> Self::planned(
                r,
                *write_program,
                payer,
                seed@,
                prefixed(data@),
            ),
    {
        if data.len() > (MAX_DATA_SIZE - 4) as usize {
            return Err(Error::ArithmeticOverflow);
        }
        let data = encode_prefixed(data.as_slice());
        proof {
            vstd::bytes::lemma_auto_spec_u32_to_from_le_bytes();
        }
        Self::new_impl(write_program, payer, seed, data)
    }

    /// Plans the Write operations that store `data` as it is, with no length
    /// prefix.
    ///
    /// Fails with `ArithmeticOverflow` if the data would not fit in an
    /// account; otherwise as [`WriteIter::new`].
    pub fn new_raw(write_program: &Address, payer: Address, seed: &[u8], data: Vec<u8>) -> (r:
        Result<(Self, Address, u8), Error>)
        ensures
            data@.len() > MAX_DATA_SIZE ==> r == Err::<(Self, Address, u8), Error>(
                Error::ArithmeticOverflow,
            ),
            data@.len() <= MAX_DATA_SIZE ==> Self::planned(r, *write_program, payer, seed@, data@),
    {
        if data.len() > MAX_DATA_SIZE as usize {
            return Err(Error::ArithmeticOverflow);
        }
        Self::new_impl(write_program, payer, seed, data)
    }

    /// What planning `data` for the scratch account of `payer` under `seed`
    /// returns once the size has been checked.
    pub open spec fn planned(
        r: Result<(Self, Address, u8), Error>,
        write_program: Address,
        payer: Address,
        seed: Seq<u8>,
        data: Seq<u8>,
    ) -> bool {
        &&& seed.len() >= SEED_LEN_LIMIT ==> r == Err::<(Self, Address, u8), Error>(
            Error::MaxSeedLengthExceeded,
        )
        &&& seed.len() < SEED_LEN_LIMIT ==> match r {
            Ok((it, addr, bump)) => it@.is_fresh(write_program, payer, seed, data, addr, bump),
            Err(e) => e == Error::InvalidSeeds && is_search_result(
                write_program.bytes@,
                scratch_seeds(payer, seed),
                None,
            ),
        }
    }

    fn new_impl(write_program: &Address, payer: Address, seed: &[u8], data: Vec<u8>) -> (r: Result<
        (Self, Address, u8),
        Error,
    >)
        requires
            data@.len() <= MAX_DATA_SIZE,
        ensures
            Self::planned(r, *write_program, payer, seed@, data@),
    {
        let (write_account, bump) = derive_address(write_program, &payer, seed)?;
        let seed = vstd::slice::slice_to_vec(seed);
        let chunk_size = MAX_CHUNK_SIZE - seed.len() as u16;
        let iter = WriteIter {
            write_program: *write_program,
            payer,
            write_account,
            seed,
            bump,
            data,
            position: 0,
            chunk_size,
        };
        Ok((iter, write_account, bump))
    }

    /// Sets the maximum chunk size, clamped to `1..=MAX_CHUNK_SIZE - seed
    /// length`.
    ///
    /// The default uses all the space of a transaction; a smaller size leaves
    /// room for other instructions in the same transaction.
    pub fn chunk_size(&mut self, chunk_size: usize)
        requires
            old(self)@.wf(),
        ensures
            final(self)@ == (WriteIterView {
                chunk_size: clamped_chunk_size(chunk_size as nat, old(self)@.seed.len()),
                ..old(self)@
            }),
            final(self)@.wf(),
    {
        let max = MAX_CHUNK_SIZE - self.seed.len() as u16;
        let chunk_size = if chunk_size > max as usize {
            max
        } else if chunk_size == 0 {
            1
        } else {
            chunk_size as u16
        };
        self.chunk_size = chunk_size;
    }

    /// Consumes the iterator and returns the scratch account's address and
    /// bump.
    pub fn into_account(self) -> (r: (Address, u8))
        ensures
            r == (self@.write_account, self@.bump),
    {
        (self.write_account, self.bump)
    }

    /// Returns the Write operation for the next chunk, or `None` once the
    /// whole data has been covered.
    pub fn next(&mut self) -> (r: Option<Instruction>)
        requires
            old(self)@.wf(),
        ensures
            final(self)@.wf(),
            old(self)@.position >= old(self)@.data.len() ==> r is None && final(self)@ == old(
                self,
            )@,
            old(self)@.position < old(self)@.data.len() ==> {
                let end = chunk_end(
                    old(self)@.position,
                    old(self)@.chunk_size,
                    old(self)@.data.len(),
                );
                &&& r is Some
                &&& old(self)@.is_write(r->Some_0@, old(self)@.position, end)
                &&& final(self)@ == (WriteIterView { position: end, ..old(self)@ })
            },
            old(self)@.remaining() == match r {
                Some(ix) => seq![
                    (
                        old(self)@.position,
                        old(self)@.data.subrange(
                            old(self)@.position as int,
                            final(self)@.position as int,
                        ),
                    ),
                ] + final(self)@.remaining(),
                None => Seq::<(nat, Seq<u8>)>::empty(),
            },
    {
        let len = self.data.len();
        let start = self.position;
        if start >= len {
            return None;
        }
        let end = if self.chunk_size as usize > len - start {
            len
        } else {
            start + self.chunk_size as usize
        };
        self.position = end;
        let chunk = vstd::slice::slice_subrange(self.data.as_slice(), start, end);
        let data = encode_write(self.seed.as_slice(), self.bump, start as u32, chunk);
        Some(relay_instruction(self.write_program, self.payer, self.write_account, data))
    }
}

/// Whether `ix` is the Free operation for the scratch account of `payer`
/// under `seed` and `bump`: at `explicit` if given, else at the address
/// computed from the seeds and the bump.
pub open spec fn is_free(
    ix: InstructionView,
    write_program: Address,
    payer: Address,
    explicit: Option<Address>,
    seed: Seq<u8>,
    bump: u8,
) -> bool {
    &&& is_relay_instruction(ix, write_program, payer, ix.accounts[1].pubkey, free_data(seed, bump))
    &&& match explicit {
        Some(acc) => ix.accounts[1].pubkey == acc,
        None => bump_address(write_program.bytes@, scratch_seeds(payer, seed), bump) == Some(
            ix.accounts[1].pubkey.bytes@,
        ),
    }
}

/// Builds the Free operation, which closes the scratch account of `payer`
/// under `seed` and `bump` and returns its balance to the payer.
///
/// If `write_account` is not given, the address is computed from the seeds
/// and the known bump, with no search.  Fails with `MaxSeedLengthExceeded` if
/// the seed is too long and with `InvalidSeeds` if the computed address does
/// not exist.
pub fn free(
    write_program_id: Address,
    payer: Address,
    write_account: Option<Address>,
    seed: &[u8],
    bump: u8,
) -> (r: Result<Instruction, Error>)
    ensures
        seed@.len() >= SEED_LEN_LIMIT ==> r == Err::<Instruction, Error>(
            Error::MaxSeedLengthExceeded,
        ),
        seed@.len() < SEED_LEN_LIMIT ==> match r {
            Ok(ix) => is_free(ix@, write_program_id, payer, write_account, seed@, bump),
            Err(e) => e == Error::InvalidSeeds && write_account is None && bump_address(
                write_program_id.bytes@,
                scratch_seeds(payer, seed@),
                bump,
            ) is None,
        },
{
    crate::address::check_seed(seed)?;
    let data = encode_free(seed, bump);
    let write_account = match write_account {
        None => create_address(&write_program_id, &payer, seed, bump)?,
        Some(acc) => acc,
    };
    Ok(relay_instruction(write_program_id, payer, write_account, data))
}

/// The chunks of a plan start at its first offset, follow each other with
/// no gap or overlap, are each non-empty and at most `chunk_size` long, end
/// at the end of the data, and joined in order give back the data from that
/// offset on.  In particular offsets strictly increase, and a plan from 0
/// reproduces the whole data.
pub proof fn lemma_plan_covers(data: Seq<u8>, pos: nat, chunk_size: nat)
    requires
        pos <= data.len(),
        chunk_size >= 1,
    ensures
        ({
            let p = plan(data, pos, chunk_size);
            &&& p.len() == 0 <==> pos == data.len()
            &&& p.len() > 0 ==> p[0].0 == pos
            &&& p.len() > 0 ==> p.last().0 + p.last().1.len() == data.len()
            &&& forall|i: int|
                0 <= i < p.len() ==> 1 <= (#[trigger] p[i]).1.len() <= chunk_size && p[i].1
                    == data.subrange(p[i].0 as int, (p[i].0 + p[i].1.len()) as int)
            &&& forall|i: int|
                0 <= i < p.len() - 1 ==> (#[trigger] p[i]).0 + p[i].1.len() == p[i + 1].0
                    && p[i].0 < p[i + 1].0
            &&& concat_chunks(p) == data.subrange(pos as int, data.len() as int)
        }),
    decreases data.len() - pos,
{
    let p = plan(data, pos, chunk_size);
    if pos < data.len() {
        let end = chunk_end(pos, chunk_size, data.len());
        let rest = plan(data, end, chunk_size);
        lemma_plan_covers(data, end, chunk_size);
        assert(p == seq![(pos, data.subrange(pos as int, end as int))] + rest);
        assert(p.drop_first() == rest);
        assert forall|i: int| 0 <= i < p.len() implies 1 <= (#[trigger] p[i]).1.len() <= chunk_size
            && p[i].1 == data.subrange(p[i].0 as int, (p[i].0 + p[i].1.len()) as int) by {
            if i > 0 {
                assert(p[i] == rest[i - 1]);
            }
        }
        assert forall|i: int| 0 <= i < p.len() - 1 implies (#[trigger] p[i]).0 + p[i].1.len()
            == p[i + 1].0 && p[i].0 < p[i + 1].0 by {
            assert(p[i + 1] == rest[i]);
            if i > 0 {
                assert(p[i] == rest[i - 1]);
            }
        }
        if rest.len() > 0 {
            assert(p.last() == rest.last());
        }
        assert(data.subrange(pos as int, data.len() as int) == data.subrange(pos as int, end as int)
            + data.subrange(end as int, data.len() as int));
    } else {
        assert(data.subrange(pos as int, data.len() as int) =~= Seq::<u8>::empty());
    }
}

/// After a sequence has been freed, the scratch account can be reused: the
/// Free operation built from the derived bump addresses the derived account,
/// and deriving the same payer and seed again gives the same address and bump
/// as before, whatever the account held.
pub proof fn lemma_free_then_rederive(
    write_program: Address,
    payer: Address,
    seed: Seq<u8>,
    addr: Address,
    bump: u8,
    free_ix: InstructionView,
    again: Option<(Seq<u8>, u8)>,
)
    requires
        is_search_result(write_program.bytes@, scratch_seeds(payer, seed), Some((addr.bytes@, bump))),
        is_free(free_ix, write_program, payer, None, seed, bump),
        is_search_result(write_program.bytes@, scratch_seeds(payer, seed), again),
    ensures
        free_ix.accounts[1].pubkey.bytes@ == addr.bytes@,
        again == Some((addr.bytes@, bump)),
{
    crate::address::lemma_derive_deterministic(
        write_program.bytes@,
        scratch_seeds(payer, seed),
        again,
        Some((addr.bytes@, bump)),
    );
}

} // verus!

//! What the relay program does with Write and Free operations, on a model of
//! the payer and the scratch account.
//!
//! A Write creates the scratch account if it is absent, grows it to hold the
//! chunk, and overwrites exactly the chunk's byte range; the payer tops the
//! account's balance up to the rent of its new size.  A Free moves the
//! account's whole balance to the payer and closes it.  Both first check that
//! the payer signed and that the scratch account is the one derived from the
//! payer, the seed and the bump.  On any error nothing changes.

use vstd::prelude::*;

use crate::address::{bump_address, create_address, scratch_seeds, Address};
use crate::codec::{
    decode_op, is_free_encoding, is_write_encoding, op_bump, op_chunk, op_offset, op_seed,
    RelayOp,
};
use crate::error::Error;
use crate::instruction::{plan, MAX_DATA_SIZE};

verus! {

/// The payer of a relay operation.
#[derive(Clone, Copy, Debug, PartialEq, Eq)]
pub struct Payer {
    pub key: Address,
    pub is_signer: bool,
    pub lamports: u64,
}

/// An existing scratch account: its balance and content.
#[derive(Clone, Debug, PartialEq, Eq)]
pub struct ScratchAccount {
    pub lamports: u64,
    pub data: Vec<u8>,
}

/// Mathematical view of a [`ScratchAccount`].
pub struct ScratchModel {
    pub lamports: nat,
    pub data: Seq<u8>,
}

impl View for ScratchAccount {
    type V = ScratchModel;

    open spec fn view(&self) -> ScratchModel {
        ScratchModel { lamports: self.lamports as nat, data: self.data@ }
    }
}

/// The view of a scratch account that may be absent.
pub open spec fn scratch_view(s: Option<ScratchAccount>) -> Option<ScratchModel> {
    match s {
        Some(a) => Some(a@),
        None => None,
    }
}

/// `content` after writing `chunk` at `offset`: grown with zeros to reach the
/// chunk's end if needed, the chunk's range replaced, all else kept.
pub open spec fn written(content: Seq<u8>, offset: nat, chunk: Seq<u8>) -> Seq<u8> {
    let end = offset + chunk.len();
    let len = if content.len() > end {
        content.len()
    } else {
        end
    };
    Seq::new(
        len as nat,
        |i: int|
            if offset <= i < end {
                chunk[i - offset]
            } else if i < content.len() {
                content[i]
            } else {
                0u8
            },
    )
}

/// Whether the scratch account `key` is the one derived for the operation in
/// `d` issued by `payer` to `program`.
pub open spec fn is_expected_scratch(program: Address, payer: Address, key: Address, d: Seq<u8>) -> bool {
    bump_address(program.bytes@, scratch_seeds(payer, op_seed(d)), op_bump(d)) == Some(key.bytes@)
}

/// Lamports an account of `len` bytes must hold at `rent_per_byte`.
pub open spec fn rent_for(len: nat, rent_per_byte: u64) -> nat {
    (len * rent_per_byte) as nat
}

/// The outcome of the relay program running operation `d`: the new payer
/// balance and scratch account, or the error.
///
/// A Write tops the scratch account's balance up, from the payer, to the
/// rent its new size requires at `rent_per_byte`.
pub open spec fn relay_step(
    program: Address,
    payer: Payer,
    key: Address,
    scratch: Option<ScratchModel>,
    d: Seq<u8>,
    rent_per_byte: u64,
) -> Result<(nat, Option<ScratchModel>), Error> {
    if !is_write_encoding(d) && !is_free_encoding(d) {
        Err(Error::InvalidInstructionData)
    } else if !payer.is_signer {
        Err(Error::MissingRequiredSignature)
    } else if op_seed(d).len() >= crate::address::SEED_LEN_LIMIT {
        Err(Error::MaxSeedLengthExceeded)
    } else if !is_expected_scratch(program, payer.key, key, d) {
        Err(Error::InvalidSeeds)
    } else if is_write_encoding(d) {
        if op_offset(d) + op_chunk(d).len() > MAX_DATA_SIZE {
            Err(Error::ArithmeticOverflow)
        } else {
            let (lamports, content) = match scratch {
                Some(s) => (s.lamports, s.data),
                None => (0, Seq::empty()),
            };
            let data = written(content, op_offset(d) as nat, op_chunk(d));
            let needed = rent_for(data.len(), rent_per_byte);
            if needed > u64::MAX {
                Err(Error::ArithmeticOverflow)
            } else if lamports >= needed {
                Ok((payer.lamports as nat, Some(ScratchModel { lamports, data })))
            } else if payer.lamports < needed - lamports {
                Err(Error::InsufficientFunds)
            } else {
                Ok(
                    (
                        (payer.lamports - (needed - lamports)) as nat,
                        Some(ScratchModel { lamports: needed, data }),
                    ),
                )
            }
        }
    } else {
        match scratch {
            None => Err(Error::UninitializedAccount),
            Some(s) => if payer.lamports + s.lamports > u64::MAX {
                Err(Error::ArithmeticOverflow)
            } else {
                Ok(((payer.lamports + s.lamports) as nat, None))
            },
        }
    }
}

/// Writes `chunk` at `offset` into `content`, growing it with zeros as
/// needed.  Fails with `ArithmeticOverflow`, leaving `content` unchanged, if
/// the chunk would end beyond the largest account size.
pub fn apply_write(content: &mut Vec<u8>, offset: u32, chunk: &[u8]) -> (r: Result<(), Error>)
    ensures
        offset + chunk@.len() > MAX_DATA_SIZE ==> r == Err::<(), Error>(Error::ArithmeticOverflow)
            && final(content)@ == old(content)@,
        offset + chunk@.len() <= MAX_DATA_SIZE ==> r is Ok && final(content)@ == written(
            old(content)@,
            offset as nat,
            chunk@,
        ),
{
    if chunk.len() > MAX_DATA_SIZE as usize || offset as usize > MAX_DATA_SIZE as usize
        - chunk.len() {
        return Err(Error::ArithmeticOverflow);
    }
    let start = offset as usize;
    let end = start + chunk.len();
    let ghost before = content@;
    while content.len() < end
        invariant
            content@.len() >= before.len(),
            content@.len() > before.len() ==> content@.len() <= end,
            forall|j: int| 0 <= j < before.len() ==> content@[j] == before[j],
            forall|j: int| before.len() <= j < content@.len() ==> content@[j] == 0,
        decreases end - content@.len(),
    {
        content.push(0);
    }
    let mut i: usize = 0;
    while i < chunk.len()
        invariant
            start + chunk@.len() == end,
            end <= MAX_DATA_SIZE,
            i <= chunk@.len(),
            content@.len() == written(before, start as nat, chunk@).len(),
            forall|j: int|
                0 <= j < content@.len() ==> #[trigger] content@[j] == if start <= j < start + i {
                    chunk@[j - start]
                } else if j < before.len() {
                    before[j]
                } else {
                    0u8
                },
        decreases chunk@.len() - i,
    {
        content.set(start + i, chunk[i]);
        i += 1;
    }
    assert(content@ =~= written(before, start as nat, chunk@));
    Ok(())
}

/// Runs the relay operation `data` for `program` with the given payer and
/// scratch account (`None` if it does not exist yet).
///
/// Fails, changing nothing, with `InvalidInstructionData` if `data` is not an
/// operation, `MissingRequiredSignature` if the payer did not sign,
/// `MaxSeedLengthExceeded` or `InvalidSeeds` if `scratch_key` is not the
/// derived scratch account, `ArithmeticOverflow` if a chunk would end beyond
/// the largest account size or a balance would overflow,
/// `InsufficientFunds` if the payer cannot pay the rent of the written
/// account at `rent_per_byte`, and `UninitializedAccount` when freeing an
/// absent account.
pub fn execute(
    program: &Address,
    payer: &mut Payer,
    scratch_key: &Address,
    scratch: &mut Option<ScratchAccount>,
    data: &[u8],
    rent_per_byte: u64,
) -> (r: Result<(), Error>)
    ensures
        match relay_step(
            *program,
            *old(payer),
            *scratch_key,
            scratch_view(*old(scratch)),
            data@,
            rent_per_byte,
        ) {
            Ok((lamports, s)) => {
                &&& r is Ok
                &&& *final(payer) == (Payer { lamports: lamports as u64, ..*old(payer) })
                &&& scratch_view(*final(scratch)) == s
            },
            Err(e) => {
                &&& r == Err::<(), Error>(e)
                &&& *final(payer) == *old(payer)
                &&& *final(scratch) == *old(scratch)
            },
        },
{
    let op = decode_op(data)?;
    if !payer.is_signer {
        return Err(Error::MissingRequiredSignature);
    }
    let (seed, bump) = match op {
        RelayOp::Write { seed, bump, .. } => (seed, bump),
        RelayOp::Free { seed, bump } => (seed, bump),
    };
    let expected = create_address(program, &payer.key, seed, bump)?;
    if !bytes_equal(&expected.bytes, &scratch_key.bytes) {
        return Err(Error::InvalidSeeds);
    }
    match op {
        RelayOp::Write { offset, chunk, .. } => {
            let (lamports, mut content) = match scratch {
                Some(s) => (s.lamports, vstd::slice::slice_to_vec(s.data.as_slice())),
                None => (0, Vec::new()),
            };
            apply_write(&mut content, offset, chunk)?;
            let needed = match (content.len() as u64).checked_mul(rent_per_byte) {
                Some(n) => n,
                None => return Err(Error::ArithmeticOverflow),
            };
            if lamports >= needed {
                *scratch = Some(ScratchAccount { lamports, data: content });
            } else {
                let top_up = needed - lamports;
                if payer.lamports < top_up {
                    return Err(Error::InsufficientFunds);
                }
                payer.lamports = payer.lamports - top_up;
                *scratch = Some(ScratchAccount { lamports: needed, data: content });
            }
            Ok(())
        },
        RelayOp::Free { .. } => {
            let balance = match scratch {
                Some(s) => s.lamports,
                None => return Err(Error::UninitializedAccount),
            };
            if balance > u64::MAX - payer.lamports {
                return Err(Error::ArithmeticOverflow);
            }
            payer.lamports = payer.lamports + balance;
            *scratch = None;
            Ok(())
        },
    }
}

/// Whether two addresses' bytes are equal.
fn bytes_equal(a: &[u8; 32], b: &[u8; 32]) -> (r: bool)
    ensures
        r == (a@ == b@),
{
    let mut i: usize = 0;
    while i < 32
        invariant
            i <= 32,
            forall|j: int| 0 <= j < i ==> a@[j] == b@[j],
        decreases 32 - i,
    {
        if a[i] != b[i] {
            return false;
        }
        i += 1;
    }
    assert(a@ =~= b@);
    true
}

/// The content after writing each chunk of a plan in order.
pub open spec fn apply_plan(content: Seq<u8>, p: Seq<(nat, Seq<u8>)>) -> Seq<u8>
    decreases p.len(),
{
    if p.len() == 0 {
        content
    } else {
        apply_plan(written(content, p[0].0, p[0].1), p.drop_first())
    }
}

/// Writing the planned chunks in order into an account that already holds
/// the data up to the plan's first offset leaves the whole data at the
/// account's start, and anything beyond it untouched.  From offset 0 this
/// holds for a fresh account and for a reused one alike.
pub proof fn lemma_plan_fills_account(data: Seq<u8>, pos: nat, chunk_size: nat, content: Seq<u8>)
    requires
        pos <= data.len(),
        chunk_size >= 1,
        content.len() >= pos,
        content.subrange(0, pos as int) == data.subrange(0, pos as int),
    ensures
        ({
            let r = apply_plan(content, plan(data, pos, chunk_size));
            &&& r.len() == if content.len() > data.len() {
                content.len()
            } else {
                data.len()
            }
            &&& r.subrange(0, data.len() as int) == data
            &&& forall|i: int| data.len() <= i < content.len() ==> r[i] == content[i]
        }),
    decreases data.len() - pos,
{
    let p = plan(data, pos, chunk_size);
    if pos < data.len() {
        let end = crate::instruction::chunk_end(pos, chunk_size, data.len());
        let chunk = data.subrange(pos as int, end as int);
        let next = written(content, pos, chunk);
        assert(p.drop_first() == plan(data, end, chunk_size));
        assert(next.len() >= end);
        assert forall|i: int| 0 <= i < end implies next[i] == data[i] by {
            if i < pos {
                assert(content.subrange(0, pos as int)[i] == content[i]);
                assert(data.subrange(0, pos as int)[i] == data[i]);
            } else {
                assert(chunk[i - pos] == data[i]);
            }
        }
        assert forall|i: int| end <= i < content.len() implies next[i] == content[i] by {}
        assert(next.subrange(0, end as int) =~= data.subrange(0, end as int));
        lemma_plan_fills_account(data, end, chunk_size, next);
    } else {
        assert(content.subrange(0, data.len() as int) =~= data);
    }
}

} // verus!

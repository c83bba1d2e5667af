//! Byte layouts of the relay operations and of the scratch account.
//!
//! * Write: `[0][seed_len][seed..][bump][offset u32 LE][chunk..]`
//! * Free: `[1][seed_len][seed..][bump]`
//! * Scratch content: `[len u32 LE][payload (len bytes)][ignored trailing]`

use vstd::bytes::*;
use vstd::prelude::*;

use crate::error::Error;

verus! {

/// Discriminant of the Write operation.
pub const WRITE_DISCRIMINANT: u8 = 0;

/// Discriminant of the Free operation.
pub const FREE_DISCRIMINANT: u8 = 1;

/// Size of the little-endian length prefix.
pub const PREFIX_LEN: usize = 4;

/// The 4-byte little-endian encoding of `n`.
pub open spec fn le32(n: nat) -> Seq<u8> {
    spec_u32_to_le_bytes(n as u32)
}

/// `payload` preceded by its length as a 4-byte little-endian number.
pub open spec fn prefixed(payload: Seq<u8>) -> Seq<u8> {
    le32(payload.len()) + payload
}

/// The length declared by the first four bytes of a scratch account.
pub open spec fn declared_len(content: Seq<u8>) -> nat {
    spec_u32_from_le_bytes(content.subrange(0, 4)) as nat
}

/// Whether `content` holds a complete length-prefixed payload.
pub open spec fn is_valid_content(content: Seq<u8>) -> bool {
    content.len() >= 4 && 4 + declared_len(content) <= content.len()
}

/// The payload held by a valid scratch account; trailing bytes are ignored.
pub open spec fn content_payload(content: Seq<u8>) -> Seq<u8> {
    content.subrange(4, 4 + declared_len(content) as int)
}

/// Instruction data of a Write operation.
pub open spec fn write_data(seed: Seq<u8>, bump: u8, offset: nat, chunk: Seq<u8>) -> Seq<u8> {
    seq![WRITE_DISCRIMINANT, seed.len() as u8] + seed + seq![bump] + le32(offset) + chunk
}

/// Instruction data of a Free operation.
pub open spec fn free_data(seed: Seq<u8>, bump: u8) -> Seq<u8> {
    seq![FREE_DISCRIMINANT, seed.len() as u8] + seed + seq![bump]
}

/// Interprets the content of a scratch account as a length-prefixed payload.
///
/// The first four bytes hold the payload's length in little-endian order; the
/// payload follows and anything after it is ignored.  The result borrows from
/// `content`.
pub fn get_ix_data(content: &[u8]) -> (r: Result<&[u8], Error>)
    ensures
        r.is_ok() == is_valid_content(content@),
        r is Ok ==> r->Ok_0@ == content_payload(content@),
        r is Err ==> r->Err_0 == Error::InvalidInstructionData,
{
    if content.len() < PREFIX_LEN {
        return Err(Error::InvalidInstructionData);
    }
    let len = u32_from_le_bytes(vstd::slice::slice_subrange(content, 0, PREFIX_LEN));
    // A `u32` always fits in `usize` on the supported targets.
    let len = len as usize;
    if len > content.len() - PREFIX_LEN {
        return Err(Error::InvalidInstructionData);
    }
    Ok(vstd::slice::slice_subrange(content, PREFIX_LEN, PREFIX_LEN + len))
}

/// Encodes `len` as four little-endian bytes followed by `payload`.
pub fn encode_prefixed(payload: &[u8]) -> (r: Vec<u8>)
    requires
        payload@.len() <= u32::MAX,
    ensures
        r@ == prefixed(payload@),
{
    let mut out = u32_to_le_bytes(payload.len() as u32);
    let mut i: usize = 0;
    while i < payload.len()
        invariant
            i <= payload@.len(),
            out@ == le32(payload@.len()) + payload@.subrange(0, i as int),
        decreases payload@.len() - i,
    {
        out.push(payload[i]);
        i += 1;
        assert(payload@.subrange(0, i as int) == payload@.subrange(0, i - 1).push(payload@[i - 1]));
    }
    assert(payload@.subrange(0, payload@.len() as int) == payload@);
    out
}

/// Appends all of `bytes` to `out`.
fn append(out: &mut Vec<u8>, bytes: &[u8])
    ensures
        final(out)@ == old(out)@ + bytes@,
{
    let mut i: usize = 0;
    while i < bytes.len()
        invariant
            i <= bytes@.len(),
            out@ == old(out)@ + bytes@.subrange(0, i as int),
        decreases bytes@.len() - i,
    {
        out.push(bytes[i]);
        i += 1;
        assert(bytes@.subrange(0, i as int) == bytes@.subrange(0, i - 1).push(bytes@[i - 1]));
    }
    assert(bytes@.subrange(0, bytes@.len() as int) == bytes@);
}

/// Encodes the instruction data of a Write operation.
pub fn encode_write(seed: &[u8], bump: u8, offset: u32, chunk: &[u8]) -> (r: Vec<u8>)
    requires
        seed@.len() <= u8::MAX,
    ensures
        r@ == write_data(seed@, bump, offset as nat, chunk@),
{
    let mut out: Vec<u8> = Vec::new();
    out.push(WRITE_DISCRIMINANT);
    out.push(seed.len() as u8);
    append(&mut out, seed);
    out.push(bump);
    let off = u32_to_le_bytes(offset);
    append(&mut out, off.as_slice());
    append(&mut out, chunk);
    assert(out@ == write_data(seed@, bump, offset as nat, chunk@));
    out
}

/// Encodes the instruction data of a Free operation.
pub fn encode_free(seed: &[u8], bump: u8) -> (r: Vec<u8>)
    requires
        seed@.len() <= u8::MAX,
    ensures
        r@ == free_data(seed@, bump),
{
    let mut out: Vec<u8> = Vec::new();
    out.push(FREE_DISCRIMINANT);
    out.push(seed.len() as u8);
    append(&mut out, seed);
    out.push(bump);
    assert(out@ == free_data(seed@, bump));
    out
}

/// Decoding a length-prefixed payload gives the payload back, whatever bytes
/// follow it in the account.
pub proof fn lemma_prefixed_round_trip(payload: Seq<u8>, trailing: Seq<u8>)
    requires
        payload.len() <= u32::MAX,
    ensures
        is_valid_content(prefixed(payload) + trailing),
        content_payload(prefixed(payload) + trailing) == payload,
{
    lemma_auto_spec_u32_to_from_le_bytes();
    let c = prefixed(payload) + trailing;
    assert(c.subrange(0, 4) == le32(payload.len()));
    assert(declared_len(c) == payload.len());
    assert(c.subrange(4, 4 + payload.len() as int) == payload);
}

/// A decoded relay operation, borrowing from the instruction data.
#[derive(Clone, Copy, Debug, PartialEq, Eq)]
pub enum RelayOp<'a> {
    /// Write `chunk` at `offset` into the scratch account.
    Write { seed: &'a [u8], bump: u8, offset: u32, chunk: &'a [u8] },
    /// Close the scratch account, returning its balance to the payer.
    Free { seed: &'a [u8], bump: u8 },
}

/// Length of the seed declared by an operation's second byte.
pub open spec fn op_seed_len(d: Seq<u8>) -> int {
    d[1] as int
}

/// The seed of an encoded operation.
pub open spec fn op_seed(d: Seq<u8>) -> Seq<u8> {
    d.subrange(2, 2 + op_seed_len(d))
}

/// The bump of an encoded operation.
pub open spec fn op_bump(d: Seq<u8>) -> u8 {
    d[2 + op_seed_len(d)]
}

/// The offset of an encoded Write operation.
pub open spec fn op_offset(d: Seq<u8>) -> u32 {
    spec_u32_from_le_bytes(d.subrange(3 + op_seed_len(d), 7 + op_seed_len(d)))
}

/// The chunk of an encoded Write operation.
pub open spec fn op_chunk(d: Seq<u8>) -> Seq<u8> {
    d.subrange(7 + op_seed_len(d), d.len() as int)
}

/// Whether `d` is a well-formed Write operation.
pub open spec fn is_write_encoding(d: Seq<u8>) -> bool {
    d.len() >= 2 && d[0] == WRITE_DISCRIMINANT && d.len() >= 7 + op_seed_len(d)
}

/// Whether `d` is a well-formed Free operation.
pub open spec fn is_free_encoding(d: Seq<u8>) -> bool {
    d.len() >= 2 && d[0] == FREE_DISCRIMINANT && d.len() == 3 + op_seed_len(d)
}

/// Decodes the instruction data of a relay operation.  Fails with
/// `InvalidInstructionData` unless it is a complete Write or Free operation.
pub fn decode_op(data: &[u8]) -> (r: Result<RelayOp<'_>, Error>)
    ensures
        r is Ok <==> is_write_encoding(data@) || is_free_encoding(data@),
        r is Err ==> r->Err_0 == Error::InvalidInstructionData,
        match r {
            Ok(RelayOp::Write { seed, bump, offset, chunk }) => {
                &&& is_write_encoding(data@)
                &&& seed@ == op_seed(data@)
                &&& bump == op_bump(data@)
                &&& offset == op_offset(data@)
                &&& chunk@ == op_chunk(data@)
                &&& data@ == write_data(seed@, bump, offset as nat, chunk@)
            },
            Ok(RelayOp::Free { seed, bump }) => {
                &&& is_free_encoding(data@)
                &&& seed@ == op_seed(data@)
                &&& bump == op_bump(data@)
                &&& data@ == free_data(seed@, bump)
            },
            Err(_) => true,
        },
{
    let len = data.len();
    if len < 2 {
        return Err(Error::InvalidInstructionData);
    }
    let seed_len = data[1] as usize;
    if data[0] == WRITE_DISCRIMINANT && len - 2 >= seed_len + 5 {
        let seed = vstd::slice::slice_subrange(data, 2, 2 + seed_len);
        let bump = data[2 + seed_len];
        let offset = u32_from_le_bytes(vstd::slice::slice_subrange(data, 3 + seed_len, 7 + seed_len));
        let chunk = vstd::slice::slice_subrange(data, 7 + seed_len, len);
        proof {
            lemma_auto_spec_u32_to_from_le_bytes();
            assert(le32(offset as nat) == data@.subrange(3 + seed_len, 7 + seed_len));
            assert(data@ =~= write_data(seed@, bump, offset as nat, chunk@));
        }
        Ok(RelayOp::Write { seed, bump, offset, chunk })
    } else if data[0] == FREE_DISCRIMINANT && len - 2 == seed_len + 1 {
        let seed = vstd::slice::slice_subrange(data, 2, 2 + seed_len);
        let bump = data[2 + seed_len];
        assert(data@ =~= free_data(seed@, bump));
        Ok(RelayOp::Free { seed, bump })
    } else {
        Err(Error::InvalidInstructionData)
    }
}

/// Encoding a Write operation and decoding it gives back its fields.
pub proof fn lemma_write_round_trip(seed: Seq<u8>, bump: u8, offset: u32, chunk: Seq<u8>)
    requires
        seed.len() <= u8::MAX,
    ensures
        is_write_encoding(write_data(seed, bump, offset as nat, chunk)),
        op_seed(write_data(seed, bump, offset as nat, chunk)) == seed,
        op_bump(write_data(seed, bump, offset as nat, chunk)) == bump,
        op_offset(write_data(seed, bump, offset as nat, chunk)) == offset,
        op_chunk(write_data(seed, bump, offset as nat, chunk)) == chunk,
{
    lemma_auto_spec_u32_to_from_le_bytes();
    let d = write_data(seed, bump, offset as nat, chunk);
    let n = seed.len() as int;
    assert(d[1] == seed.len() as u8);
    assert(op_seed(d) =~= seed);
    assert(d.subrange(3 + n, 7 + n) =~= le32(offset as nat));
    assert(op_chunk(d) =~= chunk);
}

/// Encoding a Free operation and decoding it gives back its fields.
pub proof fn lemma_free_round_trip(seed: Seq<u8>, bump: u8)
    requires
        seed.len() <= u8::MAX,
    ensures
        is_free_encoding(free_data(seed, bump)),
        op_seed(free_data(seed, bump)) == seed,
        op_bump(free_data(seed, bump)) == bump,
{
    let d = free_data(seed, bump);
    assert(d[1] == seed.len() as u8);
    assert(op_seed(d) =~= seed);
}

} // verus!

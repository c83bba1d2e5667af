//! The order of steps of a relay sequence, as a state machine that the
//! caller drives with the outcome of each confirmed transaction.
//!
//! A sequence sends each Write operation in turn, then invokes the target
//! program with empty instruction data and the scratch account appended last,
//! then sends the Free operation.  The first failure aborts the sequence with
//! no rollback: the scratch account may be left written and not freed, to be
//! resumed or freed later from the same address and bump.

use vstd::prelude::*;

use crate::address::Address;
use crate::error::Error;
use crate::instruction::{AccountMeta, Instruction};

verus! {

/// The next thing a relay sequence does, or how it ended.
#[derive(Clone, Copy, Debug, PartialEq, Eq)]
pub enum RelayStep {
    /// Send the Write operation with this index.
    SendWrite(usize),
    /// Invoke the target program with the payload read from the account.
    InvokeTarget,
    /// Send the Free operation.
    SendFree,
    /// Every step succeeded.
    Done,
    /// A step failed with this error; nothing more is sent.
    Aborted(Error),
}

/// The first step of a sequence with `n_writes` Write operations.
pub open spec fn first_step(n_writes: nat) -> RelayStep {
    if n_writes > 0 {
        RelayStep::SendWrite(0)
    } else {
        RelayStep::InvokeTarget
    }
}

/// The step after `step` once its transaction succeeded.
pub open spec fn step_after(n_writes: nat, step: RelayStep) -> RelayStep {
    match step {
        RelayStep::SendWrite(i) => if i + 1 < n_writes {
            RelayStep::SendWrite((i + 1) as usize)
        } else {
            RelayStep::InvokeTarget
        },
        RelayStep::InvokeTarget => RelayStep::SendFree,
        RelayStep::SendFree => RelayStep::Done,
        s => s,
    }
}

/// The step reached from `step` after `k` successful steps.
pub open spec fn steps_after(n_writes: nat, step: RelayStep, k: nat) -> RelayStep
    decreases k,
{
    if k == 0 {
        step
    } else {
        steps_after(n_writes, step_after(n_writes, step), (k - 1) as nat)
    }
}

/// The first step of a sequence with `n_writes` Write operations.
pub fn relay_start(n_writes: usize) -> (r: RelayStep)
    ensures
        r == first_step(n_writes as nat),
{
    if n_writes > 0 {
        RelayStep::SendWrite(0)
    } else {
        RelayStep::InvokeTarget
    }
}

/// The step that follows `step` given the outcome of its transaction: the
/// next step on success, `Aborted` with the error on failure.  A finished
/// sequence stays finished on success.
pub fn relay_next(n_writes: usize, step: RelayStep, outcome: Result<(), Error>) -> (r: RelayStep)
    ensures
        outcome is Err ==> r == RelayStep::Aborted(outcome->Err_0),
        outcome is Ok ==> r == step_after(n_writes as nat, step),
{
    match outcome {
        Err(e) => RelayStep::Aborted(e),
        Ok(()) => match step {
            RelayStep::SendWrite(i) => if n_writes > 1 && i < n_writes - 1 {
                RelayStep::SendWrite(i + 1)
            } else {
                RelayStep::InvokeTarget
            },
            RelayStep::InvokeTarget => RelayStep::SendFree,
            RelayStep::SendFree => RelayStep::Done,
            s => s,
        },
    }
}

/// The invocation of the target program that reads its instruction data from
/// the scratch account: empty inline data, with the scratch account
/// (writable, not a signer) appended after the target's own accounts.
pub fn target_invocation(target: Address, accounts: Vec<AccountMeta>, scratch: Address) -> (r:
    Instruction)
    ensures
        r@.program_id == target,
        r@.data.len() == 0,
        r@.accounts == accounts@.push(
            AccountMeta { pubkey: scratch, is_signer: false, is_writable: true },
        ),
{
    let mut accounts = accounts;
    accounts.push(AccountMeta { pubkey: scratch, is_signer: false, is_writable: true });
    Instruction { program_id: target, accounts, data: Vec::new() }
}

/// When every transaction succeeds, a sequence sends the Write operations in
/// order of their index, then invokes the target, then frees the account,
/// and is done after `n_writes + 2` steps.
pub proof fn lemma_relay_all_succeed(n_writes: nat)
    requires
        n_writes <= usize::MAX,
    ensures
        forall|i: nat|
            i < n_writes ==> #[trigger] steps_after(n_writes, first_step(n_writes), i)
                == RelayStep::SendWrite(i as usize),
        steps_after(n_writes, first_step(n_writes), n_writes) == RelayStep::InvokeTarget,
        steps_after(n_writes, first_step(n_writes), n_writes + 1) == RelayStep::SendFree,
        steps_after(n_writes, first_step(n_writes), n_writes + 2) == RelayStep::Done,
{
    assert forall|i: nat| i < n_writes implies #[trigger] steps_after(
        n_writes,
        first_step(n_writes),
        i,
    ) == RelayStep::SendWrite(i as usize) by {
        lemma_writes_in_order(n_writes, i);
    }
    if n_writes > 0 {
        lemma_writes_in_order(n_writes, (n_writes - 1) as nat);
        lemma_steps_split(n_writes, first_step(n_writes), (n_writes - 1) as nat, 1);
    }
    lemma_steps_split(n_writes, first_step(n_writes), n_writes, 1);
    lemma_steps_split(n_writes, first_step(n_writes), n_writes, 2);
    lemma_one_step(n_writes, RelayStep::InvokeTarget);
    lemma_steps_split(n_writes, RelayStep::InvokeTarget, 1, 1);
    lemma_one_step(n_writes, RelayStep::SendFree);
    if n_writes > 0 {
        lemma_one_step(n_writes, RelayStep::SendWrite((n_writes - 1) as usize));
    }
}

proof fn lemma_writes_in_order(n_writes: nat, i: nat)
    requires
        i < n_writes <= usize::MAX,
    ensures
        steps_after(n_writes, first_step(n_writes), i) == RelayStep::SendWrite(i as usize),
    decreases i,
{
    if i > 0 {
        lemma_writes_in_order(n_writes, (i - 1) as nat);
        lemma_steps_split(n_writes, first_step(n_writes), (i - 1) as nat, 1);
        lemma_one_step(n_writes, RelayStep::SendWrite((i - 1) as usize));
        assert((i - 1) as nat + 1 == i);
    }
}

proof fn lemma_one_step(n_writes: nat, step: RelayStep)
    ensures
        steps_after(n_writes, step, 1) == step_after(n_writes, step),
{
    assert(steps_after(n_writes, step, 1) == steps_after(n_writes, step_after(n_writes, step), 0));
}

proof fn lemma_steps_split(n_writes: nat, step: RelayStep, j: nat, k: nat)
    ensures
        steps_after(n_writes, step, j + k) == steps_after(
            n_writes,
            steps_after(n_writes, step, j),
            k,
        ),
    decreases j,
{
    if j > 0 {
        lemma_steps_split(n_writes, step_after(n_writes, step), (j - 1) as nat, k);
        assert((j + k - 1) as nat == ((j - 1) as nat + k));
    }
}

/// A failed step ends the sequence: whatever succeeds afterwards, it stays
/// aborted with the same error.
pub proof fn lemma_abort_is_final(n_writes: nat, e: Error, k: nat)
    ensures
        steps_after(n_writes, RelayStep::Aborted(e), k) == RelayStep::Aborted(e),
    decreases k,
{
    if k > 0 {
        lemma_abort_is_final(n_writes, e, (k - 1) as nat);
    }
}

} // verus!

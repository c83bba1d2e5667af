//! Relaying instruction payloads that exceed the transaction size limit.
//!
//! A payload too large for one transaction is written, chunk by chunk, into
//! a scratch account whose address is derived from the payer and a seed.  The
//! target program is then invoked with empty instruction data and the scratch
//! account passed last; its entry point reads the length-prefixed payload
//! from that account instead.  Finally the scratch account is freed.
//!
//! * [`error`] holds the error type shared by all parts.
//! * [`codec`] defines the byte layouts of Write and Free operations and of
//!   the scratch account's content.
//! * [`address`] derives scratch-account addresses.
//! * [`instruction`] plans the Write operations and builds the Free one.
//! * [`executor`] states what the relay program does with each operation.
//! * [`sequencer`] orders the steps of a relay sequence.
//! * [`entrypoint`] decodes the invocation frame with the override applied.

pub mod address;
pub mod codec;
pub mod entrypoint;
pub mod error;
pub mod executor;
pub mod instruction;
pub mod sequencer;

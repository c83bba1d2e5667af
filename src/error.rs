//! Errors reported by the library, with the numeric codes that the host
//! platform uses for them.

use vstd::prelude::*;

verus! {

/// Errors of the relay library.  Each one corresponds to a builtin error of
/// the host platform, except `Custom` which carries a program-defined code.
#[derive(Clone, Copy, Debug, PartialEq, Eq)]
pub enum Error {
    /// The invocation frame is malformed or has more accounts than the
    /// caller's buffer holds.
    InvalidArgument,
    /// The scratch account's content is not a valid length-prefixed payload.
    InvalidInstructionData,
    /// The payer cannot pay for the scratch account.
    InsufficientFunds,
    /// The payer did not sign the operation.
    MissingRequiredSignature,
    /// The scratch account does not exist.
    UninitializedAccount,
    /// Inline data is empty but no account was supplied to read it from.
    NotEnoughAccountKeys,
    /// The seed is too long.
    MaxSeedLengthExceeded,
    /// No program address exists for the given seeds.
    InvalidSeeds,
    /// The payload is larger than an account can hold.
    ArithmeticOverflow,
    /// A program-defined error code.
    Custom(u32),
}

/// Code returned to the host for a successful invocation.
pub const SUCCESS: u64 = 0;

/// The builtin error with index `n` is reported as `n` shifted into the
/// upper half of the 64-bit result.
pub open spec fn builtin_code(n: u64) -> u64 {
    (n * 0x1_0000_0000) as u64
}

/// Code the host platform assigns to each error.
pub open spec fn error_code(e: Error) -> u64 {
    match e {
        Error::InvalidArgument => builtin_code(2),
        Error::InvalidInstructionData => builtin_code(3),
        Error::InsufficientFunds => builtin_code(6),
        Error::MissingRequiredSignature => builtin_code(8),
        Error::UninitializedAccount => builtin_code(10),
        Error::NotEnoughAccountKeys => builtin_code(11),
        Error::MaxSeedLengthExceeded => builtin_code(13),
        Error::InvalidSeeds => builtin_code(14),
        Error::ArithmeticOverflow => builtin_code(24),
        Error::Custom(c) => if c == 0 { builtin_code(1) } else { c as u64 },
    }
}

impl Error {
    /// Numeric code of the error as reported to the host.
    pub fn code(&self) -> (r: u64)
        ensures
            r == error_code(*self),
            r != SUCCESS,
    {
        match self {
            Error::InvalidArgument => 2 * 0x1_0000_0000,
            Error::InvalidInstructionData => 3 * 0x1_0000_0000,
            Error::InsufficientFunds => 6 * 0x1_0000_0000,
            Error::MissingRequiredSignature => 8 * 0x1_0000_0000,
            Error::UninitializedAccount => 10 * 0x1_0000_0000,
            Error::NotEnoughAccountKeys => 11 * 0x1_0000_0000,
            Error::MaxSeedLengthExceeded => 13 * 0x1_0000_0000,
            Error::InvalidSeeds => 14 * 0x1_0000_0000,
            Error::ArithmeticOverflow => 24 * 0x1_0000_0000,
            Error::Custom(c) => if *c == 0 {
                0x1_0000_0000
            } else {
                *c as u64
            },
        }
    }
}

/// Code to return to the host for the outcome of an invocation.
pub fn result_code(r: Result<(), Error>) -> (code: u64)
    ensures
        code == match r {
            Ok(()) => SUCCESS,
            Err(e) => error_code(e),
        },
{
    match r {
        Ok(()) => SUCCESS,
        Err(e) => e.code(),
    }
}

} // verus!

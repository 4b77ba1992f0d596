//! Status codes of the protocol engine and the packed endpoint-state flags.
use vstd::prelude::*;

verus! {

/// End of stream.
pub const PN_EOS: i8 = -1;
/// Generic error.
pub const PN_ERR: i8 = -2;
/// The output did not fit in the space given.
pub const PN_OVERFLOW: i8 = -3;
/// The input ended before a complete value.
pub const PN_UNDERFLOW: i8 = -4;
/// The operation is not valid in the current state.
pub const PN_STATE_ERR: i8 = -5;
/// An argument was not acceptable.
pub const PN_ARG_ERR: i8 = -6;
/// The operation timed out.
pub const PN_TIMEOUT: i8 = -7;
/// The operation was interrupted.
pub const PN_INTR: i8 = -8;
/// The operation is still in progress.
pub const PN_INPROGRESS: i8 = -9;

/// The failure statuses that the engine reports, one for each negative status code.
#[derive(Clone, Copy, Debug, PartialEq, Eq, Structural)]
pub enum ErrorCode {
    Eos,
    Generic,
    Overflow,
    Underflow,
    StateErr,
    ArgErr,
    Timeout,
    Intr,
    InProgress,
}

impl ErrorCode {
    /// The negative status code that stands for this failure.
    pub open spec fn spec_code(self) -> i8 {
        match self {
            ErrorCode::Eos => PN_EOS,
            ErrorCode::Generic => PN_ERR,
            ErrorCode::Overflow => PN_OVERFLOW,
            ErrorCode::Underflow => PN_UNDERFLOW,
            ErrorCode::StateErr => PN_STATE_ERR,
            ErrorCode::ArgErr => PN_ARG_ERR,
            ErrorCode::Timeout => PN_TIMEOUT,
            ErrorCode::Intr => PN_INTR,
            ErrorCode::InProgress => PN_INPROGRESS,
        }
    }

    pub fn code(&self) -> (r: i8)
        ensures
            r == self.spec_code(),
            r < 0,
    {
        match self {
            ErrorCode::Eos => PN_EOS,
            ErrorCode::Generic => PN_ERR,
            ErrorCode::Overflow => PN_OVERFLOW,
            ErrorCode::Underflow => PN_UNDERFLOW,
            ErrorCode::StateErr => PN_STATE_ERR,
            ErrorCode::ArgErr => PN_ARG_ERR,
            ErrorCode::Timeout => PN_TIMEOUT,
            ErrorCode::Intr => PN_INTR,
            ErrorCode::InProgress => PN_INPROGRESS,
        }
    }
}

pub const LOCAL_UNINIT_BITS: i32 = 1;
pub const LOCAL_ACTIVE_BITS: i32 = 2;
pub const LOCAL_CLOSED_BITS: i32 = 4;
pub const REMOTE_UNINIT_BITS: i32 = 8;
pub const REMOTE_ACTIVE_BITS: i32 = 16;
pub const REMOTE_CLOSED_BITS: i32 = 32;
pub const LOCAL_MASK_BITS: i32 = 7;
pub const REMOTE_MASK_BITS: i32 = 56;

/// A set of endpoint-state flags, packed into the low six bits of an `i32`.
#[derive(Clone, Copy, Debug, PartialEq, Eq, Structural)]
pub struct StateFlags {
    pub bits: i32,
}

impl StateFlags {
    /// The flags of the local side alone.
    pub fn local_state(&self) -> (r: StateFlags)
        ensures
            r.bits == self.bits & LOCAL_MASK_BITS,
    {
        StateFlags { bits: self.bits & LOCAL_MASK_BITS }
    }

    /// The flags of the remote side alone.
    pub fn remote_state(&self) -> (r: StateFlags)
        ensures
            r.bits == self.bits & REMOTE_MASK_BITS,
    {
        StateFlags { bits: self.bits & REMOTE_MASK_BITS }
    }
}

} // verus!

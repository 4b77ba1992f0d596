//! The state of a protocol endpoint, local and remote side apart, and its
//! packed flag form.
use vstd::prelude::*;
use crate::sys::{
    StateFlags,
    LOCAL_UNINIT_BITS,
    LOCAL_ACTIVE_BITS,
    LOCAL_CLOSED_BITS,
    REMOTE_UNINIT_BITS,
    REMOTE_ACTIVE_BITS,
    REMOTE_CLOSED_BITS,
    LOCAL_MASK_BITS,
    REMOTE_MASK_BITS,
};

verus! {

/// How much the protocol engine traces.
#[derive(Clone, Copy, Debug, PartialEq, Eq, Structural)]
pub enum Trace {
    OFF,
    DRV,
    FRM,
    RAW,
}

/// The state of one side of an endpoint.
#[derive(Clone, Copy, Debug, PartialEq, Eq, Structural)]
pub enum State {
    Uninit,
    Active,
    Closed,
}

impl State {
    pub fn is_active(&self) -> (r: bool)
        ensures
            r == (*self == State::Active),
    {
        match self {
            State::Active => true,
            _ => false,
        }
    }

    pub fn is_closed(&self) -> (r: bool)
        ensures
            r == (*self == State::Closed),
    {
        match self {
            State::Closed => true,
            _ => false,
        }
    }
}

/// The local state, then the remote state, of an endpoint.
#[derive(Clone, Copy, Debug, PartialEq, Eq, Structural)]
pub struct EndpointState(pub State, pub State);

/// The local flag that stands for a state.
pub open spec fn local_bits(s: State) -> i32 {
    match s {
        State::Uninit => LOCAL_UNINIT_BITS,
        State::Active => LOCAL_ACTIVE_BITS,
        State::Closed => LOCAL_CLOSED_BITS,
    }
}

/// The remote flag that stands for a state.
pub open spec fn remote_bits(s: State) -> i32 {
    match s {
        State::Uninit => REMOTE_UNINIT_BITS,
        State::Active => REMOTE_ACTIVE_BITS,
        State::Closed => REMOTE_CLOSED_BITS,
    }
}

/// The local state that a set of flags holds: uninitialised unless its local
/// part is exactly the active or the closed flag.
pub open spec fn local_of(bits: i32) -> State {
    let l = bits & LOCAL_MASK_BITS;
    if l == LOCAL_ACTIVE_BITS {
        State::Active
    } else if l == LOCAL_CLOSED_BITS {
        State::Closed
    } else {
        State::Uninit
    }
}

/// The remote state that a set of flags holds, read as `local_of` reads the local one.
pub open spec fn remote_of(bits: i32) -> State {
    let r = bits & REMOTE_MASK_BITS;
    if r == REMOTE_ACTIVE_BITS {
        State::Active
    } else if r == REMOTE_CLOSED_BITS {
        State::Closed
    } else {
        State::Uninit
    }
}

impl EndpointState {
    /// The state that the packed flags `bits` hold.
    pub fn from_bits(bits: i32) -> (r: EndpointState)
        requires
            0 <= bits < 64,
        ensures
            r == EndpointState(local_of(bits), remote_of(bits)),
    {
        EndpointState::from_flags(&StateFlags { bits })
    }

    /// The state that `flags` hold, each side read from its own part.
    pub fn from_flags(flags: &StateFlags) -> (r: EndpointState)
        ensures
            r == EndpointState(local_of(flags.bits), remote_of(flags.bits)),
    {
        let l = flags.local_state();
        let local = if l.bits == LOCAL_ACTIVE_BITS {
            State::Active
        } else if l.bits == LOCAL_CLOSED_BITS {
            State::Closed
        } else {
            State::Uninit
        };
        let r = flags.remote_state();
        let remote = if r.bits == REMOTE_ACTIVE_BITS {
            State::Active
        } else if r.bits == REMOTE_CLOSED_BITS {
            State::Closed
        } else {
            State::Uninit
        };
        EndpointState(local, remote)
    }

    /// The packed flags of this state.
    pub fn as_bits(&self) -> (r: i32)
        ensures
            r == local_bits(self.0) | remote_bits(self.1),
    {
        self.as_flags().bits
    }

    /// The flags of this state: the local flag and the remote flag together.
    pub fn as_flags(&self) -> (r: StateFlags)
        ensures
            r.bits == local_bits(self.0) | remote_bits(self.1),
    {
        let local = match self.0 {
            State::Uninit => LOCAL_UNINIT_BITS,
            State::Active => LOCAL_ACTIVE_BITS,
            State::Closed => LOCAL_CLOSED_BITS,
        };
        let remote = match self.1 {
            State::Uninit => REMOTE_UNINIT_BITS,
            State::Active => REMOTE_ACTIVE_BITS,
            State::Closed => REMOTE_CLOSED_BITS,
        };
        StateFlags { bits: local | remote }
    }
}

/// Packing a state into flags and reading them back gives the same state,
/// on each side apart.
pub proof fn lemma_state_flags_round_trip(s: EndpointState)
    ensures
        ({
            let bits = local_bits(s.0) | remote_bits(s.1);
            &&& 0 <= bits < 64
            &&& local_of(bits) == s.0
            &&& remote_of(bits) == s.1
        }),
{
    let l = local_bits(s.0);
    let r = remote_bits(s.1);
    assert((l == 1 || l == 2 || l == 4) && (r == 8 || r == 16 || r == 32));
    assert(0 <= (l | r) < 64 && (l | r) & 7 == l && (l | r) & 56 == r) by (bit_vector)
        requires
            (l == 1 || l == 2 || l == 4) && (r == 8 || r == 16 || r == 32),
    ;
}

/// A protocol connection endpoint.
#[derive(Clone, Copy, Debug, PartialEq, Eq, Structural)]
pub struct Connection {
    state: EndpointState,
}

impl Connection {
    pub closed spec fn spec_state(&self) -> EndpointState {
        self.state
    }

    /// A connection that neither side has opened.
    pub fn new() -> (r: Connection)
        ensures
            r.spec_state() == EndpointState(State::Uninit, State::Uninit),
    {
        Connection { state: EndpointState(State::Uninit, State::Uninit) }
    }

    pub fn state(&self) -> (r: EndpointState)
        ensures
            r == self.spec_state(),
    {
        self.state
    }
}

} // verus!

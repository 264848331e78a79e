//! The finite enumerations shared by all connection records: TCP protocol
//! states, the role a tracked connection plays, and the cause for which it
//! was released.  Each enumeration carries an explicit, total mapping to and
//! from its small-integer encoding, so that records can be reported in the
//! encoded form without ever leaving the closed set of variants.

use vstd::prelude::*;

verus! {

/// The TCP protocol states a tracked connection can pass through.  The
/// tracker records transitions; it does not validate that they are legal.
#[derive(Clone, Copy, Debug, PartialEq, Eq, Structural)]
pub enum TcpState {
    Closed,
    Listen,
    SynSent,
    SynReceived,
    Established,
    FinWait,
    Closing,
    LastAck,
    TimeWait,
}

/// Which side of a tracked flow this record describes.
#[derive(Clone, Copy, Debug, PartialEq, Eq, Structural)]
pub enum TcpRole {
    Client,
    Server,
}

/// Why a tracked connection was torn down; set exactly once at teardown.
#[derive(Clone, Copy, Debug, PartialEq, Eq, Structural)]
pub enum ReleaseCause {
    Unknown,
    Timeout,
    PassiveClose,
    ActiveClose,
    PassiveRst,
    ActiveRst,
}

/// The integer encoding of a TCP state.
pub open spec fn spec_tcp_state_code(s: TcpState) -> u8 {
    match s {
        TcpState::Closed => 0,
        TcpState::Listen => 1,
        TcpState::SynSent => 2,
        TcpState::SynReceived => 3,
        TcpState::Established => 4,
        TcpState::FinWait => 5,
        TcpState::Closing => 6,
        TcpState::LastAck => 7,
        TcpState::TimeWait => 8,
    }
}

/// The state a given code denotes; codes outside the enumeration fall back
/// to `Closed`, keeping the mapping total.
pub open spec fn spec_tcp_state_from_code(c: u8) -> TcpState {
    if c == 1 {
        TcpState::Listen
    } else if c == 2 {
        TcpState::SynSent
    } else if c == 3 {
        TcpState::SynReceived
    } else if c == 4 {
        TcpState::Established
    } else if c == 5 {
        TcpState::FinWait
    } else if c == 6 {
        TcpState::Closing
    } else if c == 7 {
        TcpState::LastAck
    } else if c == 8 {
        TcpState::TimeWait
    } else {
        TcpState::Closed
    }
}

pub fn tcp_state_code(s: TcpState) -> (r: u8)
    ensures
        r == spec_tcp_state_code(s),
{
    match s {
        TcpState::Closed => 0,
        TcpState::Listen => 1,
        TcpState::SynSent => 2,
        TcpState::SynReceived => 3,
        TcpState::Established => 4,
        TcpState::FinWait => 5,
        TcpState::Closing => 6,
        TcpState::LastAck => 7,
        TcpState::TimeWait => 8,
    }
}

pub fn tcp_state_from_code(c: u8) -> (r: TcpState)
    ensures
        r == spec_tcp_state_from_code(c),
{
    if c == 1 {
        TcpState::Listen
    } else if c == 2 {
        TcpState::SynSent
    } else if c == 3 {
        TcpState::SynReceived
    } else if c == 4 {
        TcpState::Established
    } else if c == 5 {
        TcpState::FinWait
    } else if c == 6 {
        TcpState::Closing
    } else if c == 7 {
        TcpState::LastAck
    } else if c == 8 {
        TcpState::TimeWait
    } else {
        TcpState::Closed
    }
}

/// Decoding inverts encoding: the integer mapping is lossless over the
/// closed set of states.
pub proof fn lemma_tcp_state_code_round_trip(s: TcpState)
    ensures
        spec_tcp_state_from_code(spec_tcp_state_code(s)) == s,
{
}

/// The integer encoding of a role.
pub open spec fn spec_tcp_role_code(r: TcpRole) -> u8 {
    match r {
        TcpRole::Client => 0,
        TcpRole::Server => 1,
    }
}

/// The role a given code denotes; unknown codes fall back to `Client`.
pub open spec fn spec_tcp_role_from_code(c: u8) -> TcpRole {
    if c == 1 {
        TcpRole::Server
    } else {
        TcpRole::Client
    }
}

pub fn tcp_role_code(r: TcpRole) -> (c: u8)
    ensures
        c == spec_tcp_role_code(r),
{
    match r {
        TcpRole::Client => 0,
        TcpRole::Server => 1,
    }
}

pub fn tcp_role_from_code(c: u8) -> (r: TcpRole)
    ensures
        r == spec_tcp_role_from_code(c),
{
    if c == 1 {
        TcpRole::Server
    } else {
        TcpRole::Client
    }
}

/// The integer encoding of a release cause.
pub open spec fn spec_release_cause_code(c: ReleaseCause) -> u8 {
    match c {
        ReleaseCause::Unknown => 0,
        ReleaseCause::Timeout => 1,
        ReleaseCause::PassiveClose => 2,
        ReleaseCause::ActiveClose => 3,
        ReleaseCause::PassiveRst => 4,
        ReleaseCause::ActiveRst => 5,
    }
}

/// The release cause a given code denotes; unknown codes fall back to
/// `Unknown`, keeping the mapping total.
pub open spec fn spec_release_cause_from_code(c: u8) -> ReleaseCause {
    if c == 1 {
        ReleaseCause::Timeout
    } else if c == 2 {
        ReleaseCause::PassiveClose
    } else if c == 3 {
        ReleaseCause::ActiveClose
    } else if c == 4 {
        ReleaseCause::PassiveRst
    } else if c == 5 {
        ReleaseCause::ActiveRst
    } else {
        ReleaseCause::Unknown
    }
}

pub fn release_cause_code(c: ReleaseCause) -> (r: u8)
    ensures
        r == spec_release_cause_code(c),
{
    match c {
        ReleaseCause::Unknown => 0,
        ReleaseCause::Timeout => 1,
        ReleaseCause::PassiveClose => 2,
        ReleaseCause::ActiveClose => 3,
        ReleaseCause::PassiveRst => 4,
        ReleaseCause::ActiveRst => 5,
    }
}

pub fn release_cause_from_code(c: u8) -> (r: ReleaseCause)
    ensures
        r == spec_release_cause_from_code(c),
{
    if c == 1 {
        ReleaseCause::Timeout
    } else if c == 2 {
        ReleaseCause::PassiveClose
    } else if c == 3 {
        ReleaseCause::ActiveClose
    } else if c == 4 {
        ReleaseCause::PassiveRst
    } else if c == 5 {
        ReleaseCause::ActiveRst
    } else {
        ReleaseCause::Unknown
    }
}

/// Decoding inverts encoding for release causes as well.
pub proof fn lemma_release_cause_code_round_trip(c: ReleaseCause)
    ensures
        spec_release_cause_from_code(spec_release_cause_code(c)) == c,
{
}

/// The TCP state a fresh connection starts in, determined by its role: a
/// client starts closed, a listening server starts in `Listen`.
pub open spec fn spec_tcp_start_state(role: TcpRole) -> TcpState {
    match role {
        TcpRole::Client => TcpState::Closed,
        TcpRole::Server => TcpState::Listen,
    }
}

pub fn tcp_start_state(role: TcpRole) -> (s: TcpState)
    ensures
        s == spec_tcp_start_state(role),
{
    match role {
        TcpRole::Client => TcpState::Closed,
        TcpRole::Server => TcpState::Listen,
    }
}

} // verus!

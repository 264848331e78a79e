//! The compact, fixed-size record describing one tracked connection: its
//! role, socket identity, bounded TCP-state history with reduced timestamps,
//! payload-packet counters and release cause.
//!
//! The record holds at most seven state transitions.  The first transition
//! stores an absolute base timestamp; every later transition stores the
//! distance to that base, divided by a fixed scale factor and truncated to
//! 32 bits, trading time resolution for record compactness.  Timestamps are
//! read by the engine from its cycle counter and passed in, so every
//! computation on them is verified here.

use vstd::prelude::*;
use vstd::arithmetic::div_mod::lemma_div_is_ordered;

use crate::tcp_common::ReleaseCause;
use crate::tcp_common::TcpRole;
use crate::tcp_common::TcpState;
use crate::tcp_common::spec_tcp_start_state;
use crate::tcp_common::tcp_start_state;
use crate::recstore::Storable;

verus! {

/// Cycle counts are divided by this factor before being truncated to 32
/// bits, so that a record's timestamp array stays compact.
pub const TIME_STAMP_REDUCTION_FACTOR: u64 = 1000;

/// The stored form of the distance from `now` back to the base timestamp:
/// reduced by the scale factor, then truncated to 32 bits.
pub open spec fn spec_reduced_delta(now: u64, base: u64) -> u32 {
    ((if now >= base {
        (now - base) as int
    } else {
        0
    }) / (TIME_STAMP_REDUCTION_FACTOR as int)) as u32
}

/// The absolute timestamp a stored delta denotes, saturating at the top of
/// the 64-bit range so that reading a record can never overflow.
pub open spec fn spec_abs_stamp(base: u64, delta: u32) -> u64 {
    if base + delta * TIME_STAMP_REDUCTION_FACTOR <= u64::MAX {
        (base + delta * TIME_STAMP_REDUCTION_FACTOR) as u64
    } else {
        u64::MAX
    }
}

/// One tracked connection.  All fields are fixed-size so a record never
/// allocates; a slot store can hold millions of them in a flat array.
#[derive(Clone, Copy, Debug)]
pub struct ConRecord {
    base_stamp: u64,
    uid: u64,
    stamps: [u32; 6],
    sent_payload_packets: u16,
    recv_payload_packets: u16,
    client_ip: u32,
    client_port: u16,
    port: u16,
    state: [TcpState; 7],
    state_count: u8,
    server_index: u8,
    release_cause: ReleaseCause,
    role: TcpRole,
    server_state: TcpState,
}

/// State-machine operations of a record: the bounded state history with its
/// timestamps, and the release cause.
pub trait HasTcpState {
    /// The record's representation stays within its fixed bounds.
    spec fn wf(&self) -> bool;

    /// The implicit state the connection was in before any transition.
    spec fn start_state(&self) -> TcpState;

    /// The recorded transitions, oldest first, without the implicit start.
    spec fn history(&self) -> Seq<TcpState>;

    /// The absolute timestamp of the first transition (0 before it).
    spec fn base_stamp_spec(&self) -> u64;

    /// The reduced timestamp distances of the second and later transitions.
    spec fn deltas(&self) -> Seq<u32>;

    spec fn release_cause_spec(&self) -> ReleaseCause;

    /// Appends a transition, stamping it with `now`, the caller's reading of
    /// its monotonic cycle counter.  The history holds at most seven
    /// transitions; pushing beyond that is a precondition violation, not a
    /// recoverable error.
    fn push_state(&mut self, state: TcpState, now: u64)
        requires
            old(self).wf(),
            old(self).history().len() < 7,
            old(self).history().len() >= 1 ==> now >= old(self).base_stamp_spec(),
    ;

    fn last_state(&self) -> TcpState
        requires
            self.wf(),
    ;

    fn states(&self) -> Vec<TcpState>
        requires
            self.wf(),
    ;

    fn get_last_stamp(&self) -> Option<u64>
        requires
            self.wf(),
    ;

    fn get_first_stamp(&self) -> Option<u64>
        requires
            self.wf(),
    ;

    fn deltas_to_base_stamp(&self) -> Vec<u32>
        requires
            self.wf(),
    ;

    fn release_cause(&self) -> ReleaseCause;

    fn set_release_cause(&mut self, cause: ReleaseCause);
}

/// Plain field accessors of a record: socket identity, ports, correlation
/// key, peer bookkeeping and the payload-packet counters.
pub trait HasConData {
    /// The tracked remote endpoint; an address of zero means "unset".
    spec fn sock_spec(&self) -> (u32, u16);

    /// The local port used for demultiplexing.
    spec fn port_spec(&self) -> u16;

    /// The monotonic creation timestamp correlating the two sides of a flow.
    spec fn uid_spec(&self) -> u64;

    spec fn server_index_spec(&self) -> u8;

    spec fn sent_spec(&self) -> u16;

    spec fn recv_spec(&self) -> u16;

    /// The shadow TCP state tracked for the peer side.
    spec fn server_state_spec(&self) -> TcpState;

    fn sock(&self) -> (u32, u16);

    fn set_sock(&mut self, s: (u32, u16));

    fn port(&self) -> u16;

    fn set_port(&mut self, port: u16);

    fn uid(&self) -> u64;

    fn set_uid(&mut self, new_uid: u64);

    fn server_index(&self) -> u8;

    fn set_server_index(&mut self, index: u8);

    fn sent_payload_packets(&self) -> u16;

    fn recv_payload_packets(&self) -> u16;

    /// The counters are bounded; advancing one at its top is a precondition
    /// violation.
    fn inc_sent_payload_pkts(&mut self) -> u16
        requires
            old(self).sent_spec() < u16::MAX,
    ;

    fn inc_recv_payload_pkts(&mut self) -> u16
        requires
            old(self).recv_spec() < u16::MAX,
    ;

    fn server_state(&self) -> TcpState;

    fn set_server_state(&mut self, state: TcpState);
}


impl ConRecord {
    pub closed spec fn spec_role(&self) -> TcpRole {
        self.role
    }

    pub closed spec fn inv(&self) -> bool {
        self.state_count <= 7
    }

    pub closed spec fn spec_history(&self) -> Seq<TcpState> {
        self.state@.subrange(0, self.state_count as int)
    }

    pub closed spec fn spec_base_stamp(&self) -> u64 {
        self.base_stamp
    }

    pub closed spec fn spec_deltas(&self) -> Seq<u32> {
        if self.state_count == 0 {
            Seq::empty()
        } else {
            self.stamps@.subrange(0, self.state_count - 1)
        }
    }

    pub closed spec fn spec_release_cause(&self) -> ReleaseCause {
        self.release_cause
    }

    pub closed spec fn spec_sock(&self) -> (u32, u16) {
        (self.client_ip, self.client_port)
    }

    pub closed spec fn spec_port(&self) -> u16 {
        self.port
    }

    pub closed spec fn spec_uid(&self) -> u64 {
        self.uid
    }

    pub closed spec fn spec_server_index(&self) -> u8 {
        self.server_index
    }

    pub closed spec fn spec_sent(&self) -> u16 {
        self.sent_payload_packets
    }

    pub closed spec fn spec_recv(&self) -> u16 {
        self.recv_payload_packets
    }

    pub closed spec fn spec_server_state(&self) -> TcpState {
        self.server_state
    }

    /// The visible state sequence: the implicit start state followed by the
    /// recorded transitions.
    pub open spec fn states_spec(&self) -> Seq<TcpState> {
        seq![spec_tcp_start_state(self.spec_role())] + self.spec_history()
    }

    /// Resets every field of the record for a newly admitted connection,
    /// the release cause included: a reused slot must not show the previous
    /// occupant's teardown cause.  `uid` is the engine's cycle-counter
    /// reading at creation, used as the flow correlation key.
    pub fn init(&mut self, role: TcpRole, port: u16, sock: Option<(u32, u16)>, uid: u64)
        ensures
            final(self).inv(),
            final(self).spec_role() == role,
            final(self).spec_history() == Seq::<TcpState>::empty(),
            final(self).spec_deltas() == Seq::<u32>::empty(),
            final(self).spec_base_stamp() == 0,
            final(self).spec_sock() == (match sock {
                Some(s) => s,
                None => (0u32, 0u16),
            }),
            final(self).spec_port() == port,
            final(self).spec_uid() == uid,
            final(self).spec_server_index() == 0,
            final(self).spec_sent() == 0,
            final(self).spec_recv() == 0,
            final(self).spec_server_state() == spec_tcp_start_state(role),
            final(self).spec_release_cause() == ReleaseCause::Unknown,
    {
        self.release_cause = ReleaseCause::Unknown;
        self.state_count = 0;
        self.base_stamp = 0;
        self.sent_payload_packets = 0;
        self.recv_payload_packets = 0;
        self.uid = uid;
        self.server_index = 0;
        let s = match sock {
            Some(s) => s,
            None => (0u32, 0u16),
        };
        self.client_ip = s.0;
        self.client_port = s.1;
        self.role = role;
        self.port = port;
        self.server_state = tcp_start_state(role);
        proof {
            assert(final(self).spec_history() =~= Seq::<TcpState>::empty());
            assert(final(self).spec_deltas() =~= Seq::<u32>::empty());
        }
    }

    pub fn role(&self) -> (r: TcpRole)
        ensures
            r == self.spec_role(),
    {
        self.role
    }

    pub fn base_stamp(&self) -> (r: u64)
        ensures
            r == self.spec_base_stamp(),
    {
        self.base_stamp
    }
}

impl HasTcpState for ConRecord {
    open spec fn wf(&self) -> bool {
        self.inv()
    }

    open spec fn start_state(&self) -> TcpState {
        spec_tcp_start_state(self.spec_role())
    }

    open spec fn history(&self) -> Seq<TcpState> {
        self.spec_history()
    }

    open spec fn base_stamp_spec(&self) -> u64 {
        self.spec_base_stamp()
    }

    open spec fn deltas(&self) -> Seq<u32> {
        self.spec_deltas()
    }

    open spec fn release_cause_spec(&self) -> ReleaseCause {
        self.spec_release_cause()
    }

    fn push_state(&mut self, state: TcpState, now: u64)
        ensures
            final(self).inv(),
            final(self).spec_history() == old(self).spec_history().push(state),
            old(self).spec_history().len() == 0 ==> final(self).spec_base_stamp() == now
                && final(self).spec_deltas() == Seq::<u32>::empty(),
            old(self).spec_history().len() >= 1 ==> final(self).spec_base_stamp() == old(
                self,
            ).spec_base_stamp() && final(self).spec_deltas() == old(self).spec_deltas().push(
                spec_reduced_delta(now, old(self).spec_base_stamp()),
            ),
            unchanged_con_data(*old(self), *final(self)),
            final(self).spec_release_cause() == old(self).spec_release_cause(),
    {
        let c = self.state_count as usize;
        self.state[c] = state;
        if self.state_count == 0 {
            self.base_stamp = now;
        } else {
            let reduced: u64 = (now - self.base_stamp) / TIME_STAMP_REDUCTION_FACTOR;
            let stored: u32 = #[verifier::truncate] (reduced as u32);
            proof {
                assert(stored == spec_reduced_delta(now, self.base_stamp));
            }
            self.stamps[c - 1] = stored;
        }
        self.state_count = self.state_count + 1;
        proof {
            assert(final(self).spec_history() =~= old(self).spec_history().push(state));
            if old(self).spec_history().len() == 0 {
                assert(final(self).spec_deltas() =~= Seq::<u32>::empty());
            } else {
                assert(final(self).spec_deltas() =~= old(self).spec_deltas().push(
                    spec_reduced_delta(now, old(self).spec_base_stamp()),
                ));
            }
        }
    }

    fn last_state(&self) -> (r: TcpState)
        ensures
            r == (if self.spec_history().len() == 0 {
                self.start_state()
            } else {
                self.spec_history().last()
            }),
    {
        if self.state_count == 0 {
            tcp_start_state(self.role)
        } else {
            self.state[self.state_count as usize - 1]
        }
    }

    fn states(&self) -> (r: Vec<TcpState>)
        ensures
            r@ == self.states_spec(),
            r@.len() == self.spec_history().len() + 1,
    {
        let mut result: Vec<TcpState> = Vec::new();
        result.push(tcp_start_state(self.role));
        let count = self.state_count as usize;
        let mut i: usize = 0;
        while i < count
            invariant
                self.inv(),
                count == self.spec_history().len(),
                i <= count,
                result@ == seq![spec_tcp_start_state(self.spec_role())] + self.spec_history().subrange(0, i as int),
            decreases count - i,
        {
            result.push(self.state[i]);
            proof {
                assert(seq![spec_tcp_start_state(self.spec_role())] + self.spec_history().subrange(0, i as int)
                    + seq![self.spec_history()[i as int]] =~= seq![spec_tcp_start_state(self.spec_role())]
                    + self.spec_history().subrange(0, i + 1));
            }
            i = i + 1;
        }
        proof {
            assert(self.spec_history().subrange(0, count as int) =~= self.spec_history());
            assert(result@ == self.states_spec());
        }
        result
    }

    fn get_last_stamp(&self) -> (r: Option<u64>)
        ensures
            self.spec_history().len() == 0 ==> r == None::<u64>,
            self.spec_history().len() == 1 ==> r == Some(self.spec_base_stamp()),
            self.spec_history().len() >= 2 ==> r == Some(
                spec_abs_stamp(self.spec_base_stamp(), self.spec_deltas().last()),
            ),
    {
        if self.state_count == 0 {
            None
        } else if self.state_count == 1 {
            Some(self.base_stamp)
        } else {
            let delta = self.stamps[self.state_count as usize - 2];
            let grown: u64 = delta as u64 * TIME_STAMP_REDUCTION_FACTOR;
            if self.base_stamp <= u64::MAX - grown {
                Some(self.base_stamp + grown)
            } else {
                Some(u64::MAX)
            }
        }
    }

    fn get_first_stamp(&self) -> (r: Option<u64>)
        ensures
            self.spec_history().len() == 0 ==> r == None::<u64>,
            self.spec_history().len() >= 1 ==> r == Some(self.spec_base_stamp()),
    {
        if self.state_count > 0 {
            Some(self.base_stamp)
        } else {
            None
        }
    }

    fn deltas_to_base_stamp(&self) -> (r: Vec<u32>)
        ensures
            r@ == self.spec_deltas(),
    {
        let mut result: Vec<u32> = Vec::new();
        if self.state_count >= 2 {
            let n = self.state_count as usize - 1;
            let mut i: usize = 0;
            while i < n
                invariant
                    self.inv(),
                    n == self.spec_deltas().len(),
                    i <= n,
                    result@ == self.spec_deltas().subrange(0, i as int),
                decreases n - i,
            {
                result.push(self.stamps[i]);
                proof {
                    assert(self.spec_deltas().subrange(0, i as int).push(self.spec_deltas()[i as int])
                        =~= self.spec_deltas().subrange(0, i + 1));
                }
                i = i + 1;
            }
            proof {
                assert(self.spec_deltas().subrange(0, n as int) =~= self.spec_deltas());
            }
        } else {
            proof {
                assert(result@ =~= self.spec_deltas());
            }
        }
        result
    }

    fn release_cause(&self) -> (r: ReleaseCause)
        ensures
            r == self.spec_release_cause(),
    {
        self.release_cause
    }

    fn set_release_cause(&mut self, cause: ReleaseCause)
        ensures
            final(self).inv() == old(self).inv(),
            final(self).spec_release_cause() == cause,
            final(self).spec_history() == old(self).spec_history(),
            final(self).spec_deltas() == old(self).spec_deltas(),
            final(self).spec_base_stamp() == old(self).spec_base_stamp(),
            unchanged_con_data(*old(self), *final(self)),
    {
        self.release_cause = cause;
    }
}

impl HasConData for ConRecord {
    open spec fn sock_spec(&self) -> (u32, u16) {
        self.spec_sock()
    }

    open spec fn port_spec(&self) -> u16 {
        self.spec_port()
    }

    open spec fn uid_spec(&self) -> u64 {
        self.spec_uid()
    }

    open spec fn server_index_spec(&self) -> u8 {
        self.spec_server_index()
    }

    open spec fn sent_spec(&self) -> u16 {
        self.spec_sent()
    }

    open spec fn recv_spec(&self) -> u16 {
        self.spec_recv()
    }

    open spec fn server_state_spec(&self) -> TcpState {
        self.spec_server_state()
    }

    fn sock(&self) -> (s: (u32, u16))
        ensures
            s == self.spec_sock(),
    {
        (self.client_ip, self.client_port)
    }

    fn set_sock(&mut self, s: (u32, u16))
        ensures
            final(self).spec_sock() == s,
            unchanged_history(*old(self), *final(self)),
            final(self).spec_port() == old(self).spec_port(),
            final(self).spec_uid() == old(self).spec_uid(),
            final(self).spec_server_index() == old(self).spec_server_index(),
            final(self).spec_sent() == old(self).spec_sent(),
            final(self).spec_recv() == old(self).spec_recv(),
            final(self).spec_server_state() == old(self).spec_server_state(),
    {
        self.client_ip = s.0;
        self.client_port = s.1;
    }

    fn port(&self) -> (r: u16)
        ensures
            r == self.spec_port(),
    {
        self.port
    }

    fn set_port(&mut self, port: u16)
        ensures
            final(self).spec_port() == port,
            unchanged_history(*old(self), *final(self)),
            final(self).spec_sock() == old(self).spec_sock(),
            final(self).spec_uid() == old(self).spec_uid(),
            final(self).spec_server_index() == old(self).spec_server_index(),
            final(self).spec_sent() == old(self).spec_sent(),
            final(self).spec_recv() == old(self).spec_recv(),
            final(self).spec_server_state() == old(self).spec_server_state(),
    {
        self.port = port;
    }

    fn uid(&self) -> (r: u64)
        ensures
            r == self.spec_uid(),
    {
        self.uid
    }

    fn set_uid(&mut self, new_uid: u64)
        ensures
            final(self).spec_uid() == new_uid,
            unchanged_history(*old(self), *final(self)),
            final(self).spec_sock() == old(self).spec_sock(),
            final(self).spec_port() == old(self).spec_port(),
            final(self).spec_server_index() == old(self).spec_server_index(),
            final(self).spec_sent() == old(self).spec_sent(),
            final(self).spec_recv() == old(self).spec_recv(),
            final(self).spec_server_state() == old(self).spec_server_state(),
    {
        self.uid = new_uid;
    }

    fn server_index(&self) -> (r: u8)
        ensures
            r == self.spec_server_index(),
    {
        self.server_index
    }

    fn set_server_index(&mut self, index: u8)
        ensures
            final(self).spec_server_index() == index,
            unchanged_history(*old(self), *final(self)),
            final(self).spec_sock() == old(self).spec_sock(),
            final(self).spec_port() == old(self).spec_port(),
            final(self).spec_uid() == old(self).spec_uid(),
            final(self).spec_sent() == old(self).spec_sent(),
            final(self).spec_recv() == old(self).spec_recv(),
            final(self).spec_server_state() == old(self).spec_server_state(),
    {
        self.server_index = index;
    }

    fn sent_payload_packets(&self) -> (r: u16)
        ensures
            r == self.spec_sent(),
    {
        self.sent_payload_packets
    }

    fn recv_payload_packets(&self) -> (r: u16)
        ensures
            r == self.spec_recv(),
    {
        self.recv_payload_packets
    }

    fn inc_sent_payload_pkts(&mut self) -> (r: u16)
        ensures
            final(self).spec_sent() == old(self).spec_sent() + 1,
            r == final(self).spec_sent(),
            unchanged_history(*old(self), *final(self)),
            final(self).spec_sock() == old(self).spec_sock(),
            final(self).spec_port() == old(self).spec_port(),
            final(self).spec_uid() == old(self).spec_uid(),
            final(self).spec_server_index() == old(self).spec_server_index(),
            final(self).spec_recv() == old(self).spec_recv(),
            final(self).spec_server_state() == old(self).spec_server_state(),
    {
        self.sent_payload_packets = self.sent_payload_packets + 1;
        self.sent_payload_packets
    }

    fn inc_recv_payload_pkts(&mut self) -> (r: u16)
        ensures
            final(self).spec_recv() == old(self).spec_recv() + 1,
            r == final(self).spec_recv(),
            unchanged_history(*old(self), *final(self)),
            final(self).spec_sock() == old(self).spec_sock(),
            final(self).spec_port() == old(self).spec_port(),
            final(self).spec_uid() == old(self).spec_uid(),
            final(self).spec_server_index() == old(self).spec_server_index(),
            final(self).spec_sent() == old(self).spec_sent(),
            final(self).spec_server_state() == old(self).spec_server_state(),
    {
        self.recv_payload_packets = self.recv_payload_packets + 1;
        self.recv_payload_packets
    }

    fn server_state(&self) -> (r: TcpState)
        ensures
            r == self.spec_server_state(),
    {
        self.server_state
    }

    fn set_server_state(&mut self, state: TcpState)
        ensures
            final(self).spec_server_state() == state,
            unchanged_history(*old(self), *final(self)),
            final(self).spec_sock() == old(self).spec_sock(),
            final(self).spec_port() == old(self).spec_port(),
            final(self).spec_uid() == old(self).spec_uid(),
            final(self).spec_server_index() == old(self).spec_server_index(),
            final(self).spec_sent() == old(self).spec_sent(),
            final(self).spec_recv() == old(self).spec_recv(),
    {
        self.server_state = state;
    }
}


/// The default record used to pre-fill a store: a client-side record with
/// every field cleared, an unknown release cause, and the peer shadow state
/// at `Listen`.
impl Storable for ConRecord {
    open spec fn is_default(&self) -> bool {
        &&& self.inv()
        &&& self.spec_role() == TcpRole::Client
        &&& self.spec_history() == Seq::<TcpState>::empty()
        &&& self.spec_deltas() == Seq::<u32>::empty()
        &&& self.spec_base_stamp() == 0
        &&& self.spec_sock() == (0u32, 0u16)
        &&& self.spec_port() == 0
        &&& self.spec_uid() == 0
        &&& self.spec_server_index() == 0
        &&& self.spec_sent() == 0
        &&& self.spec_recv() == 0
        &&& self.spec_release_cause() == ReleaseCause::Unknown
        &&& self.spec_server_state() == TcpState::Listen
    }

    fn new() -> (r: ConRecord) {
        let r = ConRecord {
            role: TcpRole::Client,
            server_index: 0,
            release_cause: ReleaseCause::Unknown,
            state_count: 0,
            base_stamp: 0,
            state: [TcpState::Closed; 7],
            stamps: [0u32; 6],
            port: 0u16,
            client_ip: 0,
            client_port: 0,
            sent_payload_packets: 0,
            recv_payload_packets: 0,
            uid: 0,
            server_state: TcpState::Listen,
        };
        proof {
            assert(r.spec_history() =~= Seq::<TcpState>::empty());
            assert(r.spec_deltas() =~= Seq::<u32>::empty());
        }
        r
    }
}

/// The plain data fields a state-history mutator leaves untouched.
pub open spec fn unchanged_con_data(a: ConRecord, b: ConRecord) -> bool {
    &&& b.spec_role() == a.spec_role()
    &&& b.spec_sock() == a.spec_sock()
    &&& b.spec_port() == a.spec_port()
    &&& b.spec_uid() == a.spec_uid()
    &&& b.spec_server_index() == a.spec_server_index()
    &&& b.spec_sent() == a.spec_sent()
    &&& b.spec_recv() == a.spec_recv()
    &&& b.spec_server_state() == a.spec_server_state()
}

/// The state history, its timestamps and the release cause, which the
/// plain-field mutators leave untouched.
pub open spec fn unchanged_history(a: ConRecord, b: ConRecord) -> bool {
    &&& b.inv() == a.inv()
    &&& b.spec_role() == a.spec_role()
    &&& b.spec_history() == a.spec_history()
    &&& b.spec_deltas() == a.spec_deltas()
    &&& b.spec_base_stamp() == a.spec_base_stamp()
    &&& b.spec_release_cause() == a.spec_release_cause()
}

/// Reduction keeps order: the stored delta of an earlier instant is never
/// larger than that of a later one, as long as the reduced distance of the
/// later instant still fits in 32 bits.
pub proof fn lemma_reduced_delta_ordered(base: u64, t1: u64, t2: u64)
    requires
        base <= t1 <= t2,
        (t2 - base) / (TIME_STAMP_REDUCTION_FACTOR as int) <= u32::MAX,
    ensures
        spec_reduced_delta(t1, base) <= spec_reduced_delta(t2, base),
{
    lemma_div_is_ordered((t1 - base) as int, (t2 - base) as int, TIME_STAMP_REDUCTION_FACTOR as int);
}

/// Reading deltas back as absolute timestamps keeps order as well, and the
/// reconstructed stamp never falls below the base stamp.
pub proof fn lemma_abs_stamp_ordered(base: u64, d1: u32, d2: u32)
    requires
        d1 <= d2,
    ensures
        base <= spec_abs_stamp(base, d1) <= spec_abs_stamp(base, d2),
{
}

/// The visible state sequence follows the calls: it is one longer than the
/// recorded history, opens with the role's implicit start state, and lists
/// the recorded transitions in the order they were pushed.
pub proof fn lemma_states_follow_history(r: ConRecord)
    ensures
        r.states_spec().len() == r.spec_history().len() + 1,
        r.states_spec()[0] == spec_tcp_start_state(r.spec_role()),
        forall|i: int|
            0 <= i < r.spec_history().len() ==> r.states_spec()[i + 1] == r.spec_history()[i],
{
}

/// Pushing transitions at non-decreasing instants leaves the stored deltas
/// ordered: the delta of each later instant is at least that of each
/// earlier one, as long as the reduced distances still fit in 32 bits.
pub proof fn lemma_reduced_deltas_sorted(base: u64, times: Seq<u64>)
    requires
        forall|k: int| 0 <= k < times.len() ==> base <= #[trigger] times[k],
        forall|k: int, l: int| 0 <= k <= l < times.len() ==> #[trigger] times[k] <= #[trigger] times[l],
        forall|k: int|
            0 <= k < times.len() ==> (#[trigger] times[k] - base) / (
            TIME_STAMP_REDUCTION_FACTOR as int) <= u32::MAX,
    ensures
        forall|k: int, l: int|
            0 <= k <= l < times.len() ==> spec_reduced_delta(#[trigger] times[k], base)
                <= spec_reduced_delta(#[trigger] times[l], base),
{
    assert forall|k: int, l: int| 0 <= k <= l < times.len() implies spec_reduced_delta(
        #[trigger] times[k],
        base,
    ) <= spec_reduced_delta(#[trigger] times[l], base) by {
        lemma_reduced_delta_ordered(base, times[k], times[l]);
    }
}

/// The reconstructed stamps of a record are monotonically non-decreasing:
/// for every record whose deltas are ordered (as successive `push_state`
/// calls with a monotonic counter leave them), each stamp lies between the
/// base stamp and the stamp of any later transition.
pub proof fn lemma_stamps_monotonic(r: ConRecord, i: int, j: int)
    requires
        0 <= i <= j < r.spec_deltas().len(),
        forall|m: int, n: int|
            0 <= m <= n < r.spec_deltas().len() ==> r.spec_deltas()[m] <= r.spec_deltas()[n],
    ensures
        r.spec_base_stamp() <= spec_abs_stamp(r.spec_base_stamp(), r.spec_deltas()[i]),
        spec_abs_stamp(r.spec_base_stamp(), r.spec_deltas()[i]) <= spec_abs_stamp(
            r.spec_base_stamp(),
            r.spec_deltas()[j],
        ),
{
    lemma_abs_stamp_ordered(r.spec_base_stamp(), r.spec_deltas()[i], r.spec_deltas()[j]);
}

} // verus!

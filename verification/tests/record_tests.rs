use conntrack::ConRecord;
use conntrack::HasConData;
use conntrack::HasTcpState;
use conntrack::ReleaseCause;
use conntrack::Storable;
use conntrack::TcpRole;
use conntrack::TcpState;
use conntrack::tcp_common::release_cause_code;
use conntrack::tcp_common::release_cause_from_code;
use conntrack::tcp_common::tcp_role_code;
use conntrack::tcp_common::tcp_role_from_code;
use conntrack::tcp_common::tcp_start_state;
use conntrack::tcp_common::tcp_state_code;
use conntrack::tcp_common::tcp_state_from_code;

#[test]
fn it_works() {
    assert_eq!(2 + 2, 4);
}

#[test]
fn state_codes_round_trip() {
    let states = [
        TcpState::Closed,
        TcpState::Listen,
        TcpState::SynSent,
        TcpState::SynReceived,
        TcpState::Established,
        TcpState::FinWait,
        TcpState::Closing,
        TcpState::LastAck,
        TcpState::TimeWait,
    ];
    for (i, s) in states.iter().enumerate() {
        assert_eq!(tcp_state_code(*s), i as u8);
        assert_eq!(tcp_state_from_code(i as u8), *s);
    }
    // codes outside the enumeration fall back to Closed
    assert_eq!(tcp_state_from_code(9), TcpState::Closed);
    assert_eq!(tcp_state_from_code(255), TcpState::Closed);
}

#[test]
fn role_and_cause_codes_round_trip() {
    assert_eq!(tcp_role_code(TcpRole::Client), 0);
    assert_eq!(tcp_role_code(TcpRole::Server), 1);
    assert_eq!(tcp_role_from_code(0), TcpRole::Client);
    assert_eq!(tcp_role_from_code(1), TcpRole::Server);
    assert_eq!(tcp_role_from_code(7), TcpRole::Client);

    let causes = [
        ReleaseCause::Unknown,
        ReleaseCause::Timeout,
        ReleaseCause::PassiveClose,
        ReleaseCause::ActiveClose,
        ReleaseCause::PassiveRst,
        ReleaseCause::ActiveRst,
    ];
    for (i, c) in causes.iter().enumerate() {
        assert_eq!(release_cause_code(*c), i as u8);
        assert_eq!(release_cause_from_code(i as u8), *c);
    }
    assert_eq!(release_cause_from_code(200), ReleaseCause::Unknown);
}

#[test]
fn start_states_by_role() {
    assert_eq!(tcp_start_state(TcpRole::Client), TcpState::Closed);
    assert_eq!(tcp_start_state(TcpRole::Server), TcpState::Listen);
}

#[test]
fn fresh_record_defaults() {
    let r = ConRecord::new();
    assert_eq!(r.role(), TcpRole::Client);
    assert_eq!(r.base_stamp(), 0);
    assert_eq!(r.uid(), 0);
    assert_eq!(r.sock(), (0, 0));
    assert_eq!(r.port(), 0);
    assert_eq!(r.server_index(), 0);
    assert_eq!(r.sent_payload_packets(), 0);
    assert_eq!(r.recv_payload_packets(), 0);
    assert_eq!(r.release_cause(), ReleaseCause::Unknown);
    assert_eq!(r.server_state(), TcpState::Listen);
    assert_eq!(r.states(), vec![TcpState::Closed]);
    assert_eq!(r.last_state(), TcpState::Closed);
    assert_eq!(r.get_first_stamp(), None);
    assert_eq!(r.get_last_stamp(), None);
}

#[test]
fn init_stamps_identity() {
    let mut r = ConRecord::new();
    r.init(TcpRole::Server, 8080, Some((0x0a000001, 40000)), 777);
    assert_eq!(r.role(), TcpRole::Server);
    assert_eq!(r.port(), 8080);
    assert_eq!(r.sock(), (0x0a000001, 40000));
    assert_eq!(r.uid(), 777);
    assert_eq!(r.server_state(), TcpState::Listen);
    assert_eq!(r.states(), vec![TcpState::Listen]);
    assert_eq!(r.last_state(), TcpState::Listen);

    r.init(TcpRole::Client, 80, None, 9);
    assert_eq!(r.sock(), (0, 0));
    assert_eq!(r.server_state(), TcpState::Closed);
    assert_eq!(r.states(), vec![TcpState::Closed]);
}

#[test]
fn push_states_in_call_order_with_stamps() {
    let mut r = ConRecord::new();
    r.init(TcpRole::Client, 40, None, 1);
    r.push_state(TcpState::SynSent, 1_000);
    assert_eq!(r.base_stamp(), 1_000);
    assert_eq!(r.get_first_stamp(), Some(1_000));
    assert_eq!(r.get_last_stamp(), Some(1_000));
    // 2500 cycles past the base reduce to a stored delta of 2, so the
    // reconstructed stamp is base + 2 * 1000.
    r.push_state(TcpState::Established, 3_500);
    assert_eq!(r.get_last_stamp(), Some(3_000));
    assert_eq!(r.deltas_to_base_stamp(), vec![2]);
    r.push_state(TcpState::FinWait, 9_999);
    assert_eq!(r.deltas_to_base_stamp(), vec![2, 8]);
    assert_eq!(r.get_last_stamp(), Some(9_000));
    assert_eq!(
        r.states(),
        vec![
            TcpState::Closed,
            TcpState::SynSent,
            TcpState::Established,
            TcpState::FinWait,
        ]
    );
    assert_eq!(r.last_state(), TcpState::FinWait);
    assert_eq!(r.get_first_stamp(), Some(1_000));
}

#[test]
fn seven_pushes_fill_the_history() {
    let mut r = ConRecord::new();
    r.init(TcpRole::Server, 1, None, 0);
    let seq = [
        TcpState::SynReceived,
        TcpState::Established,
        TcpState::FinWait,
        TcpState::Closing,
        TcpState::LastAck,
        TcpState::TimeWait,
        TcpState::Closed,
    ];
    let mut last = None;
    for (i, s) in seq.iter().enumerate() {
        let now = 10_000 + (i as u64) * 5_000;
        r.push_state(*s, now);
        let stamp = r.get_last_stamp().unwrap();
        if let Some(prev) = last {
            assert!(stamp >= prev, "stamps must not decrease");
        }
        last = Some(stamp);
    }
    let states = r.states();
    assert_eq!(states.len(), 8);
    assert_eq!(states[0], TcpState::Listen);
    assert_eq!(&states[1..], &seq);
    assert_eq!(r.deltas_to_base_stamp().len(), 6);
}

#[test]
fn counters_and_release_cause() {
    let mut r = ConRecord::new();
    r.init(TcpRole::Client, 5, None, 0);
    assert_eq!(r.inc_sent_payload_pkts(), 1);
    assert_eq!(r.inc_sent_payload_pkts(), 2);
    assert_eq!(r.inc_recv_payload_pkts(), 1);
    assert_eq!(r.sent_payload_packets(), 2);
    assert_eq!(r.recv_payload_packets(), 1);

    r.set_release_cause(ReleaseCause::ActiveClose);
    assert_eq!(r.release_cause(), ReleaseCause::ActiveClose);

    // re-initializing the record for a new connection resets every field,
    // the previous occupant's release cause included
    r.init(TcpRole::Client, 5, None, 0);
    assert_eq!(r.release_cause(), ReleaseCause::Unknown);

    r.set_sock((7, 70));
    r.set_port(99);
    r.set_uid(1234);
    r.set_server_index(3);
    r.set_server_state(TcpState::Established);
    assert_eq!(r.sock(), (7, 70));
    assert_eq!(r.port(), 99);
    assert_eq!(r.uid(), 1234);
    assert_eq!(r.server_index(), 3);
    assert_eq!(r.server_state(), TcpState::Established);
    // the mutators above left the history untouched
    assert_eq!(r.states(), vec![TcpState::Closed]);
}

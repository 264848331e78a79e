use std::cmp::Ordering;

use conntrack::ConRecord;
use conntrack::ConnectionHandle;
use conntrack::HasConData;
use conntrack::HasTcpState;
use conntrack::RecordStore;
use conntrack::ReleaseCause;
use conntrack::SimpleStore;
use conntrack::Storable;
use conntrack::Store64;
use conntrack::TcpRole;
use conntrack::TcpState;

#[test]
fn capacity_cycle_single_array() {
    // capacity-4 store: slots 0..3 are issued without a wrap
    let mut store: RecordStore<ConRecord> = RecordStore::with_capacity(4);
    assert_eq!(store.len(), 0);
    for expected in 0..4usize {
        let slot = store.get_next_slot();
        assert_eq!(slot, expected);
        assert_eq!(store.len(), expected + 1);
    }
    // no wrap so far
    assert_eq!(store.record_count(), 4);
    assert_eq!(store.overflow_count(), 0);
    // mark physical index 0 so the wrap is observable
    store.get_mut(0).set_uid(42);

    // the 5th allocation wraps: the overflow mark becomes 4, and the call
    // returns logical slot 4, which maps to physical index 0, where the
    // marked record still sits
    let slot = store.get_next_slot();
    assert_eq!(slot, 4);
    assert_eq!(store.overflow_count(), 4);
    assert_eq!(store.record_count(), 5);
    assert_eq!(store.len(), 4);
    assert_eq!(store.get(4).uid(), 42);
}

#[test]
fn capacity_cycle_dual_array() {
    let mut store: Store64<ConRecord> = Store64::with_capacity(3);
    for expected in 0..3usize {
        assert_eq!(store.get_next_slot(), expected);
    }
    store.get_mut_1(0).set_uid(77);
    let slot = store.get_next_slot();
    assert_eq!(slot, 3);
    assert_eq!(store.overflow_count(), 3);
    assert_eq!(store.record_count(), 4);
    assert_eq!(store.len(), 3);
    // both arrays wrapped in lock-step: logical slot 3 is physical 0
    assert_eq!(store.get_1(3).uid(), 77);
}

#[test]
fn stores_prefill_default_records() {
    let mut store: RecordStore<ConRecord> = RecordStore::with_capacity(2);
    let slot = store.get_next_slot();
    let r = store.get(slot);
    assert_eq!(r.uid(), 0);
    assert_eq!(r.port(), 0);
    assert_eq!(r.release_cause(), ReleaseCause::Unknown);
}

fn store_with_uids_ports(pairs: &[(u64, u16)]) -> RecordStore<ConRecord> {
    let mut store: RecordStore<ConRecord> = RecordStore::with_capacity(8);
    for (uid, port) in pairs {
        let slot = store.get_next_slot();
        let r = store.get_mut(slot);
        r.init(TcpRole::Client, *port, None, *uid);
    }
    store
}

#[test]
fn sort_by_orders_valid_prefix_and_is_stable() {
    // three records with ports 9, 5, 5; uids tell the two equal keys apart
    let mut store = store_with_uids_ports(&[(1, 9), (2, 5), (3, 5)]);
    store.sort_by(|a: &ConRecord, b: &ConRecord| a.port().cmp(&b.port()));
    let recs = store.iter();
    assert_eq!(recs.len(), 3);
    assert_eq!(recs[0].port(), 5);
    assert_eq!(recs[1].port(), 5);
    assert_eq!(recs[2].port(), 9);
    // stable: the two port-5 records keep their original relative order
    assert_eq!(recs[0].uid(), 2);
    assert_eq!(recs[1].uid(), 3);

    // records beyond len() are untouched: the next slot still holds the
    // pre-filled default record
    let slot = store.get_next_slot();
    assert_eq!(slot, 3);
    assert_eq!(store.get(3).uid(), 0);
    assert_eq!(store.get(3).port(), 0);
}

#[test]
fn sort_0_by_leaves_payloads_alone() {
    let mut store: Store64<ConRecord> = Store64::with_capacity(4);
    for (uid, port) in [(10u64, 3u16), (20, 1), (30, 2)] {
        let slot = store.get_next_slot();
        store.get_mut(slot).init(TcpRole::Client, port, None, uid);
        store.get_mut_1(slot).set_uid(uid);
    }
    store.sort_0_by(|a: &ConRecord, b: &ConRecord| a.port().cmp(&b.port()));
    let hot = store.iter_0();
    assert_eq!(hot[0].port(), 1);
    assert_eq!(hot[1].port(), 2);
    assert_eq!(hot[2].port(), 3);
    // the cold array kept its physical order
    let cold = store.iter_1();
    assert_eq!(cold[0].uid(), 10);
    assert_eq!(cold[1].uid(), 20);
    assert_eq!(cold[2].uid(), 30);
    let pairs = store.iter();
    assert_eq!(pairs.len(), 3);
    assert_eq!(pairs[0].0.port(), 1);
    assert_eq!(pairs[0].1.uid(), 10);
}

#[test]
fn sort_by_with_reverse_comparator() {
    let mut store = store_with_uids_ports(&[(1, 2), (2, 9), (3, 4)]);
    store.sort_by(|a: &ConRecord, b: &ConRecord| b.port().cmp(&a.port()));
    let recs = store.iter();
    assert_eq!(
        recs.iter().map(|r| r.port()).collect::<Vec<_>>(),
        vec![9, 4, 2]
    );
}

#[test]
fn equal_comparator_keeps_original_order() {
    let mut store = store_with_uids_ports(&[(5, 1), (6, 2), (7, 3)]);
    store.sort_by(|_a: &ConRecord, _b: &ConRecord| Ordering::Equal);
    let recs = store.iter();
    assert_eq!(
        recs.iter().map(|r| r.uid()).collect::<Vec<_>>(),
        vec![5, 6, 7]
    );
}

#[test]
fn handles_share_one_record() {
    let mut store: RecordStore<ConRecord> = RecordStore::with_capacity(4);
    let slot = store.get_next_slot();
    store.get_mut(slot).init(TcpRole::Client, 1234, None, 99);

    let h1 = ConnectionHandle::new(slot);
    let h2 = ConnectionHandle::new(slot);
    assert_eq!(h1.con_rec(), slot);

    assert_eq!(h1.port(&store), 1234);
    h1.set_port(&mut store, 4321);
    // the second handle observes the first one's mutation
    assert_eq!(h2.port(&store), 4321);

    assert_eq!(h1.sock(&store), None);
    h1.set_sock(&mut store, (0x7f000001, 555));
    assert_eq!(h2.sock(&store), Some((0x7f000001, 555)));

    assert_eq!(h1.get_uid(&store), 99);
    h1.set_uid(&mut store, 100);
    assert_eq!(h2.get_uid(&store), 100);

    assert_eq!(h1.inc_sent_payload_pkts(&mut store), 1);
    assert_eq!(h2.inc_sent_payload_pkts(&mut store), 2);
    assert_eq!(h1.sent_payload_pkts(&store), 2);
    assert_eq!(h1.inc_recv_payload_pkts(&mut store), 1);
    assert_eq!(h2.recv_payload_pkts(&store), 1);

    h1.set_server_index(&mut store, 5);
    assert_eq!(h2.server_index(&store), 5);

    h1.set_release_cause(&mut store, ReleaseCause::Timeout);
    assert_eq!(store.get(slot).release_cause(), ReleaseCause::Timeout);

    store.get_mut(slot).push_state(TcpState::SynSent, 10);
    assert_eq!(h2.states(&store), vec![TcpState::Closed, TcpState::SynSent]);
}

#[test]
fn handle_works_on_dual_array_store() {
    let mut store: Store64<ConRecord> = Store64::with_capacity(2);
    let slot = store.get_next_slot();
    let h = ConnectionHandle::new(slot);
    h.set_port(&mut store, 8080);
    assert_eq!(h.port(&store), 8080);
    assert_eq!(h.states(&store), vec![TcpState::Closed]);
}

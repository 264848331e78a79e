//! The connection-handle capability layer.
//!
//! A handle is a small value holding only a logical slot number.  Many
//! handles may reference the same slot of the same store; every operation
//! borrows the store explicitly, resolves the slot, works on the record in
//! place and releases the borrow before returning, so two handles for one
//! slot always observe each other's mutations.  The store is passed as an
//! explicit argument — an arena — rather than being owned or aliased by the
//! handle, so nothing here relies on reference counting or runtime borrow
//! checks.  A handle whose slot was invalidated by a store wrap must not be
//! used; liveness of the slot is a precondition of every operation.

use vstd::prelude::*;

use crate::conrecord::ConRecord;
use crate::conrecord::HasConData;
use crate::conrecord::HasTcpState;
use crate::conrecord::unchanged_con_data;
use crate::conrecord::unchanged_history;
use crate::recstore::SimpleStore;
use crate::tcp_common::ReleaseCause;
use crate::tcp_common::TcpState;

verus! {

/// A capability on one tracked connection: the logical slot of its record
/// in a shared store.
#[derive(Clone, Copy, Debug, PartialEq, Eq, Structural)]
pub struct ConnectionHandle {
    con_rec: usize,
}

impl ConnectionHandle {
    /// The logical slot this handle resolves to.
    pub closed spec fn slot_spec(&self) -> nat {
        self.con_rec as nat
    }

    /// The handle's slot is live in the store: issued since the store's
    /// most recent wrap.
    pub open spec fn live_in<S: SimpleStore>(&self, store: &S) -> bool {
        store.overflow_spec() <= self.slot_spec() < store.count_spec()
    }

    /// The record this handle denotes in the given store.
    pub open spec fn rec_of<S: SimpleStore>(&self, store: &S) -> ConRecord {
        store.records_spec()[self.slot_spec() - store.overflow_spec()]
    }

    pub fn new(slot: usize) -> (h: ConnectionHandle)
        ensures
            h.slot_spec() == slot,
    {
        ConnectionHandle { con_rec: slot }
    }

    /// The slot number of the connection record in the store.
    pub fn con_rec(&self) -> (r: usize)
        ensures
            r == self.slot_spec(),
    {
        self.con_rec
    }

    pub fn port<S: SimpleStore>(&self, store: &S) -> (r: u16)
        requires
            store.store_inv(),
            self.live_in(store),
        ensures
            r == self.rec_of(store).spec_port(),
    {
        store.get(self.con_rec).port()
    }

    pub fn set_port<S: SimpleStore>(&self, store: &mut S, port: u16)
        requires
            old(store).store_inv(),
            self.live_in(old(store)),
        ensures
            final(store).store_inv(),
            same_shape(old(store), final(store)),
            only_slot_changed(old(store), final(store), self.slot_spec()),
            self.rec_of(final(store)).spec_port() == port,
            unchanged_history(self.rec_of(old(store)), self.rec_of(final(store))),
            self.rec_of(final(store)).spec_sock() == self.rec_of(old(store)).spec_sock(),
            self.rec_of(final(store)).spec_uid() == self.rec_of(old(store)).spec_uid(),
            self.rec_of(final(store)).spec_server_index() == self.rec_of(
                old(store),
            ).spec_server_index(),
            self.rec_of(final(store)).spec_sent() == self.rec_of(old(store)).spec_sent(),
            self.rec_of(final(store)).spec_recv() == self.rec_of(old(store)).spec_recv(),
            self.rec_of(final(store)).spec_server_state() == self.rec_of(
                old(store),
            ).spec_server_state(),
    {
        proof {
            store.lemma_store_inv();
        }
        let mut rec = *store.get(self.con_rec);
        rec.set_port(port);
        store.set(self.con_rec, rec);
    }

    pub fn server_index<S: SimpleStore>(&self, store: &S) -> (r: usize)
        requires
            store.store_inv(),
            self.live_in(store),
        ensures
            r == self.rec_of(store).spec_server_index(),
    {
        store.get(self.con_rec).server_index() as usize
    }

    /// Stores the index of the proxied server-side connection; indexes are
    /// small and must fit the record's byte-wide field.
    pub fn set_server_index<S: SimpleStore>(&self, store: &mut S, index: usize)
        requires
            old(store).store_inv(),
            self.live_in(old(store)),
            index <= u8::MAX,
        ensures
            final(store).store_inv(),
            same_shape(old(store), final(store)),
            only_slot_changed(old(store), final(store), self.slot_spec()),
            self.rec_of(final(store)).spec_server_index() == index,
            unchanged_history(self.rec_of(old(store)), self.rec_of(final(store))),
    {
        proof {
            store.lemma_store_inv();
        }
        let mut rec = *store.get(self.con_rec);
        rec.set_server_index(index as u8);
        store.set(self.con_rec, rec);
    }

    pub fn sent_payload_pkts<S: SimpleStore>(&self, store: &S) -> (r: usize)
        requires
            store.store_inv(),
            self.live_in(store),
        ensures
            r == self.rec_of(store).spec_sent(),
    {
        store.get(self.con_rec).sent_payload_packets() as usize
    }

    pub fn recv_payload_pkts<S: SimpleStore>(&self, store: &S) -> (r: usize)
        requires
            store.store_inv(),
            self.live_in(store),
        ensures
            r == self.rec_of(store).spec_recv(),
    {
        store.get(self.con_rec).recv_payload_packets() as usize
    }

    pub fn inc_sent_payload_pkts<S: SimpleStore>(&self, store: &mut S) -> (r: usize)
        requires
            old(store).store_inv(),
            self.live_in(old(store)),
            self.rec_of(old(store)).spec_sent() < u16::MAX,
        ensures
            final(store).store_inv(),
            same_shape(old(store), final(store)),
            only_slot_changed(old(store), final(store), self.slot_spec()),
            self.rec_of(final(store)).spec_sent() == self.rec_of(old(store)).spec_sent()
                + 1,
            r == self.rec_of(final(store)).spec_sent(),
            unchanged_history(self.rec_of(old(store)), self.rec_of(final(store))),
            self.rec_of(final(store)).spec_recv() == self.rec_of(old(store)).spec_recv(),
    {
        proof {
            store.lemma_store_inv();
        }
        let mut rec = *store.get(self.con_rec);
        let c = rec.inc_sent_payload_pkts();
        store.set(self.con_rec, rec);
        c as usize
    }

    pub fn inc_recv_payload_pkts<S: SimpleStore>(&self, store: &mut S) -> (r: usize)
        requires
            old(store).store_inv(),
            self.live_in(old(store)),
            self.rec_of(old(store)).spec_recv() < u16::MAX,
        ensures
            final(store).store_inv(),
            same_shape(old(store), final(store)),
            only_slot_changed(old(store), final(store), self.slot_spec()),
            self.rec_of(final(store)).spec_recv() == self.rec_of(old(store)).spec_recv()
                + 1,
            r == self.rec_of(final(store)).spec_recv(),
            unchanged_history(self.rec_of(old(store)), self.rec_of(final(store))),
            self.rec_of(final(store)).spec_sent() == self.rec_of(old(store)).spec_sent(),
    {
        proof {
            store.lemma_store_inv();
        }
        let mut rec = *store.get(self.con_rec);
        let c = rec.inc_recv_payload_pkts();
        store.set(self.con_rec, rec);
        c as usize
    }

    /// The visible state sequence of the record, starting with the implicit
    /// start state of its role.
    pub fn states<S: SimpleStore>(&self, store: &S) -> (r: Vec<TcpState>)
        requires
            store.store_inv(),
            self.live_in(store),
        ensures
            r@ == self.rec_of(store).states_spec(),
    {
        store.get(self.con_rec).states()
    }

    pub fn set_release_cause<S: SimpleStore>(&self, store: &mut S, cause: ReleaseCause)
        requires
            old(store).store_inv(),
            self.live_in(old(store)),
        ensures
            final(store).store_inv(),
            same_shape(old(store), final(store)),
            only_slot_changed(old(store), final(store), self.slot_spec()),
            self.rec_of(final(store)).spec_release_cause() == cause,
            self.rec_of(final(store)).spec_history() == self.rec_of(
                old(store),
            ).spec_history(),
            self.rec_of(final(store)).spec_deltas() == self.rec_of(
                old(store),
            ).spec_deltas(),
            self.rec_of(final(store)).spec_base_stamp() == self.rec_of(
                old(store),
            ).spec_base_stamp(),
            unchanged_con_data(self.rec_of(old(store)), self.rec_of(final(store))),
    {
        proof {
            store.lemma_store_inv();
        }
        let mut rec = *store.get(self.con_rec);
        rec.set_release_cause(cause);
        store.set(self.con_rec, rec);
    }

    /// The tracked remote endpoint, or `None` while the zero address marks
    /// it unset.
    pub fn sock<S: SimpleStore>(&self, store: &S) -> (r: Option<(u32, u16)>)
        requires
            store.store_inv(),
            self.live_in(store),
        ensures
            r == (if self.rec_of(store).spec_sock().0 != 0 {
                Some(self.rec_of(store).spec_sock())
            } else {
                None::<(u32, u16)>
            }),
    {
        let s = store.get(self.con_rec).sock();
        if s.0 != 0 {
            Some(s)
        } else {
            None
        }
    }

    pub fn set_sock<S: SimpleStore>(&self, store: &mut S, sock: (u32, u16))
        requires
            old(store).store_inv(),
            self.live_in(old(store)),
        ensures
            final(store).store_inv(),
            same_shape(old(store), final(store)),
            only_slot_changed(old(store), final(store), self.slot_spec()),
            self.rec_of(final(store)).spec_sock() == sock,
            unchanged_history(self.rec_of(old(store)), self.rec_of(final(store))),
    {
        proof {
            store.lemma_store_inv();
        }
        let mut rec = *store.get(self.con_rec);
        rec.set_sock(sock);
        store.set(self.con_rec, rec);
    }

    pub fn set_uid<S: SimpleStore>(&self, store: &mut S, uid: u64)
        requires
            old(store).store_inv(),
            self.live_in(old(store)),
        ensures
            final(store).store_inv(),
            same_shape(old(store), final(store)),
            only_slot_changed(old(store), final(store), self.slot_spec()),
            self.rec_of(final(store)).spec_uid() == uid,
            unchanged_history(self.rec_of(old(store)), self.rec_of(final(store))),
    {
        proof {
            store.lemma_store_inv();
        }
        let mut rec = *store.get(self.con_rec);
        rec.set_uid(uid);
        store.set(self.con_rec, rec);
    }

    pub fn get_uid<S: SimpleStore>(&self, store: &S) -> (r: u64)
        requires
            store.store_inv(),
            self.live_in(store),
        ensures
            r == self.rec_of(store).spec_uid(),
    {
        store.get(self.con_rec).uid()
    }
}

/// The store kept its counters: slot numbering and wrap position are
/// untouched by record mutations through a handle.
pub open spec fn same_shape<S: SimpleStore>(a: &S, b: &S) -> bool {
    &&& b.count_spec() == a.count_spec()
    &&& b.overflow_spec() == a.overflow_spec()
    &&& b.records_spec().len() == a.records_spec().len()
}

/// Every record except the one at the given logical slot is untouched.
pub open spec fn only_slot_changed<S: SimpleStore>(a: &S, b: &S, slot: nat) -> bool {
    forall|i: int|
        0 <= i < a.records_spec().len() && i != slot - a.overflow_spec()
            ==> #[trigger] b.records_spec()[i] == a.records_spec()[i]
}

} // verus!

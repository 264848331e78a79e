//! Bounded, allocation-free slot stores for connection records.
//!
//! A store owns a fixed array of records, pre-filled at construction and
//! reused by overwrite when capacity is exhausted.  A logical slot number is
//! issued for every allocation and grows without bound; the physical index
//! of a live slot is its distance to the slot issued at the most recent
//! wrap.  When the distance between the allocation counter and the last
//! wrap reaches capacity, the store wraps: every slot issued before that
//! moment becomes stale, and the array is overwritten in capacity order.
//! Callers must size capacity above the number of simultaneously live
//! connections and must not retain a slot number across a capacity cycle.

use vstd::prelude::*;

use crate::conrecord::ConRecord;
use crate::sort::SortOrdering;
use crate::sort::spec_cmp_leq;
use crate::sort::spec_cmp_deterministic;
use crate::sort::spec_insertion_sort;
use crate::sort::lemma_insertion_sort_membership;
use crate::sort::lemma_insertion_sort_len;
use crate::sort::sort_prefix;

verus! {

/// A value a slot store can hold: it is plainly copyable and has a default
/// used to pre-fill the store.
pub trait Storable: Sized + Copy {
    /// Recognizes the default value that `new` returns.
    spec fn is_default(&self) -> bool;

    fn new() -> (r: Self)
        ensures
            r.is_default(),
    ;
}

/// The overflow counter after one more allocation: when the distance from
/// the allocation counter to the last wrap has reached capacity, the store
/// wraps and the counter of the current allocation becomes the new overflow
/// mark; otherwise the mark is unchanged.
pub open spec fn next_overflow(rc: nat, oc: nat, cap: nat) -> nat {
    if rc - oc == cap {
        rc
    } else {
        oc
    }
}

/// The overflow counter after `n` allocations on a fresh store of the given
/// capacity.
pub open spec fn overflow_after(n: nat, cap: nat) -> nat
    decreases n,
{
    if n == 0 {
        0
    } else {
        next_overflow((n - 1) as nat, overflow_after((n - 1) as nat, cap), cap)
    }
}

/// A store of capacity N accepts N allocations without wrapping; the
/// (N+1)-th allocation performs the first wrap, setting the overflow mark to
/// N, so that the slot it returns (logical slot N) maps to physical index 0.
pub proof fn lemma_no_wrap_up_to_capacity(n: nat, cap: nat)
    requires
        cap >= 1,
        n <= cap,
    ensures
        overflow_after(n, cap) == 0,
    decreases n,
{
    if n > 0 {
        lemma_no_wrap_up_to_capacity((n - 1) as nat, cap);
    }
}

/// The allocation cycle of a store of capacity N, stated end to end: after
/// exactly N allocations no wrap has occurred and all N slots are live;
/// the (N+1)-th allocation wraps, the overflow mark becomes N, exactly one
/// slot (the one just issued) is live, and its physical index is 0.
pub proof fn lemma_allocation_cycle(cap: nat)
    requires
        cap >= 1,
    ensures
        overflow_after(cap, cap) == 0,
        cap - overflow_after(cap, cap) == cap,
        overflow_after((cap + 1) as nat, cap) == cap,
        (cap + 1) - overflow_after((cap + 1) as nat, cap) == 1,
        cap - overflow_after((cap + 1) as nat, cap) == 0,
{
    lemma_no_wrap_up_to_capacity(cap, cap);
}

/// The single-array slot store.
#[derive(Clone)]
pub struct RecordStore<T: Storable> {
    store: Vec<T>,
    record_count: usize,
    overflow_count: usize,
}

impl<T: Storable> RecordStore<T> {
    /// The physical record array.
    pub closed spec fn records(&self) -> Seq<T> {
        self.store@
    }

    /// Count of slots ever issued; the next logical slot number.
    pub closed spec fn spec_record_count(&self) -> nat {
        self.record_count as nat
    }

    /// The logical slot number at the most recent wrap.
    pub closed spec fn spec_overflow_count(&self) -> nat {
        self.overflow_count as nat
    }

    pub open spec fn capacity(&self) -> nat {
        self.records().len()
    }

    pub open spec fn inv(&self) -> bool {
        &&& self.capacity() >= 1
        &&& self.spec_overflow_count() <= self.spec_record_count()
        &&& self.spec_record_count() - self.spec_overflow_count() <= self.capacity()
    }

    /// The number of currently valid records.
    pub open spec fn spec_len(&self) -> nat {
        if self.spec_record_count() <= self.capacity() {
            self.spec_record_count()
        } else {
            self.capacity()
        }
    }

    /// A logical slot issued since the most recent wrap; only these may be
    /// passed to `get` and `get_mut`.
    pub open spec fn slot_live(&self, slot: nat) -> bool {
        self.spec_overflow_count() <= slot < self.spec_record_count()
    }

    /// The physical index of a live logical slot.
    pub open spec fn phys(&self, slot: nat) -> int {
        slot - self.spec_overflow_count()
    }

    /// Pre-fills a store with `capacity` default records.
    pub fn with_capacity(capacity: usize) -> (r: RecordStore<T>)
        requires
            capacity >= 1,
        ensures
            r.inv(),
            r.capacity() == capacity,
            r.spec_record_count() == 0,
            r.spec_overflow_count() == 0,
            forall|i: int| 0 <= i < capacity ==> r.records()[i].is_default(),
    {
        let mut store: Vec<T> = Vec::new();
        let mut i: usize = 0;
        while i < capacity
            invariant
                i <= capacity,
                store@.len() == i,
                forall|j: int| 0 <= j < i ==> store@[j].is_default(),
            decreases capacity - i,
        {
            store.push(T::new());
            i = i + 1;
        }
        RecordStore { store, record_count: 0, overflow_count: 0 }
    }

    /// Issues the next logical slot number.  If the store is at capacity it
    /// wraps first: every previously issued slot becomes stale and the array
    /// is reused from physical index 0.  Wrapping is the store's only
    /// eviction policy; it silently abandons the oldest allocations.
    pub fn get_next_slot(&mut self) -> (slot: usize)
        requires
            old(self).inv(),
            old(self).spec_record_count() < usize::MAX,
        ensures
            final(self).inv(),
            slot == old(self).spec_record_count(),
            final(self).spec_record_count() == old(self).spec_record_count() + 1,
            final(self).spec_overflow_count() == next_overflow(
                old(self).spec_record_count(),
                old(self).spec_overflow_count(),
                old(self).capacity(),
            ),
            final(self).records() == old(self).records(),
            final(self).slot_live(slot as nat),
    {
        if self.record_count - self.overflow_count == self.store.len() {
            self.overflow_count = self.record_count;
        }
        self.record_count = self.record_count + 1;
        self.record_count - 1
    }

    /// The number of records currently stored, excluding overwritten ones.
    pub fn len(&self) -> (r: usize)
        ensures
            r == self.spec_len(),
    {
        if self.record_count <= self.store.len() {
            self.record_count
        } else {
            self.store.len()
        }
    }

    /// Count of slots ever issued; lets callers observe and report a wrap.
    pub fn record_count(&self) -> (r: usize)
        ensures
            r == self.spec_record_count(),
    {
        self.record_count
    }

    /// The logical slot number at the most recent wrap; it changes exactly
    /// when an allocation wraps the store.
    pub fn overflow_count(&self) -> (r: usize)
        ensures
            r == self.spec_overflow_count(),
    {
        self.overflow_count
    }

    /// The currently valid records in physical order.
    pub fn iter(&self) -> (r: Vec<T>)
        requires
            self.inv(),
        ensures
            r@ == self.records().subrange(0, self.spec_len() as int),
    {
        let n = self.len();
        let mut result: Vec<T> = Vec::new();
        let mut i: usize = 0;
        while i < n
            invariant
                i <= n,
                n <= self.records().len(),
                result@ == self.records().subrange(0, i as int),
            decreases n - i,
        {
            result.push(self.store[i]);
            proof {
                assert(result@ =~= self.records().subrange(0, i + 1));
            }
            i = i + 1;
        }
        result
    }

    /// Reads the record of a live logical slot.
    pub fn get(&self, slot: usize) -> (r: &T)
        requires
            self.inv(),
            self.slot_live(slot as nat),
        ensures
            *r == self.records()[self.phys(slot as nat)],
    {
        &self.store[slot - self.overflow_count]
    }

    /// Borrows the record of a live logical slot for mutation in place.
    pub fn get_mut(&mut self, slot: usize) -> (r: &mut T)
        requires
            old(self).inv(),
            old(self).slot_live(slot as nat),
        ensures
            *r == old(self).records()[old(self).phys(slot as nat)],
            final(self).records() == old(self).records().update(
                old(self).phys(slot as nat),
                *final(r),
            ),
            final(self).spec_record_count() == old(self).spec_record_count(),
            final(self).spec_overflow_count() == old(self).spec_overflow_count(),
            final(self).inv(),
    {
        let i = slot - self.overflow_count;
        &mut self.store[i]
    }

    /// Sorts the valid prefix in place by the given comparator; records
    /// beyond `len()` are untouched.  The result is exactly the stable
    /// insertion sort of the prefix under the ordering the comparator
    /// decides.
    pub fn sort_by<F: Fn(&T, &T) -> SortOrdering>(&mut self, compare: F)
        requires
            old(self).inv(),
            forall|x: &T, y: &T| #[trigger] call_requires(compare, (x, y)),
            spec_cmp_deterministic(compare),
        ensures
            final(self).inv(),
            final(self).records() == spec_insertion_sort(
                old(self).records().subrange(0, old(self).spec_len() as int),
                spec_cmp_leq(compare),
            ) + old(self).records().subrange(
                old(self).spec_len() as int,
                old(self).records().len() as int,
            ),
            final(self).spec_record_count() == old(self).spec_record_count(),
            final(self).spec_overflow_count() == old(self).spec_overflow_count(),
            final(self).capacity() == old(self).capacity(),
    {
        let n = self.len();
        sort_prefix(&mut self.store, n, &compare);
    }
}

/// The dual-array slot store: each logical slot pairs a connection record
/// in the hot array with a caller-defined payload in the cold array.  Both
/// arrays are allocated and wrapped in lock-step; one allocation advances
/// both.
#[derive(Clone)]
pub struct Store64<T: Storable> {
    store_0: Vec<ConRecord>,
    store_1: Vec<T>,
    record_count: usize,
    overflow_count: usize,
}

impl<T: Storable> Store64<T> {
    /// The physical array of connection records.
    pub closed spec fn records(&self) -> Seq<ConRecord> {
        self.store_0@
    }

    /// The physical array of payload values.
    pub closed spec fn payloads(&self) -> Seq<T> {
        self.store_1@
    }

    pub closed spec fn spec_record_count(&self) -> nat {
        self.record_count as nat
    }

    pub closed spec fn spec_overflow_count(&self) -> nat {
        self.overflow_count as nat
    }

    pub open spec fn capacity(&self) -> nat {
        self.records().len()
    }

    pub open spec fn inv(&self) -> bool {
        &&& self.capacity() >= 1
        &&& self.payloads().len() == self.capacity()
        &&& self.spec_overflow_count() <= self.spec_record_count()
        &&& self.spec_record_count() - self.spec_overflow_count() <= self.capacity()
        &&& forall|i: int| 0 <= i < self.capacity() ==> (#[trigger] self.records()[i]).inv()
    }

    pub open spec fn spec_len(&self) -> nat {
        if self.spec_record_count() <= self.capacity() {
            self.spec_record_count()
        } else {
            self.capacity()
        }
    }

    pub open spec fn slot_live(&self, slot: nat) -> bool {
        self.spec_overflow_count() <= slot < self.spec_record_count()
    }

    pub open spec fn phys(&self, slot: nat) -> int {
        slot - self.spec_overflow_count()
    }

    /// Pre-fills both arrays with `capacity` default values.
    pub fn with_capacity(capacity: usize) -> (r: Store64<T>)
        requires
            capacity >= 1,
        ensures
            r.inv(),
            r.capacity() == capacity,
            r.spec_record_count() == 0,
            r.spec_overflow_count() == 0,
            forall|i: int| 0 <= i < capacity ==> r.records()[i].is_default(),
            forall|i: int| 0 <= i < capacity ==> r.payloads()[i].is_default(),
    {
        let mut store_0: Vec<ConRecord> = Vec::new();
        let mut store_1: Vec<T> = Vec::new();
        let mut i: usize = 0;
        while i < capacity
            invariant
                i <= capacity,
                store_0@.len() == i,
                store_1@.len() == i,
                forall|j: int| 0 <= j < i ==> store_0@[j].is_default(),
                forall|j: int| 0 <= j < i ==> store_1@[j].is_default(),
            decreases capacity - i,
        {
            store_0.push(ConRecord::new());
            store_1.push(T::new());
            i = i + 1;
        }
        Store64 { store_0, store_1, record_count: 0, overflow_count: 0 }
    }

    /// Issues the next logical slot for both arrays at once; wrap behavior
    /// is identical to the single-array store and applies to both arrays
    /// simultaneously.
    pub fn get_next_slot(&mut self) -> (slot: usize)
        requires
            old(self).inv(),
            old(self).spec_record_count() < usize::MAX,
        ensures
            final(self).inv(),
            slot == old(self).spec_record_count(),
            final(self).spec_record_count() == old(self).spec_record_count() + 1,
            final(self).spec_overflow_count() == next_overflow(
                old(self).spec_record_count(),
                old(self).spec_overflow_count(),
                old(self).capacity(),
            ),
            final(self).records() == old(self).records(),
            final(self).payloads() == old(self).payloads(),
            final(self).slot_live(slot as nat),
    {
        if self.record_count - self.overflow_count == self.store_0.len() {
            self.overflow_count = self.record_count;
        }
        self.record_count = self.record_count + 1;
        self.record_count - 1
    }

    pub fn len(&self) -> (r: usize)
        ensures
            r == self.spec_len(),
    {
        if self.record_count <= self.store_0.len() {
            self.record_count
        } else {
            self.store_0.len()
        }
    }

    /// Count of slots ever issued; lets callers observe and report a wrap.
    pub fn record_count(&self) -> (r: usize)
        ensures
            r == self.spec_record_count(),
    {
        self.record_count
    }

    /// The logical slot number at the most recent wrap; it changes exactly
    /// when an allocation wraps the store.
    pub fn overflow_count(&self) -> (r: usize)
        ensures
            r == self.spec_overflow_count(),
    {
        self.overflow_count
    }

    /// The currently valid connection records in physical order.
    pub fn iter_0(&self) -> (r: Vec<ConRecord>)
        requires
            self.inv(),
        ensures
            r@ == self.records().subrange(0, self.spec_len() as int),
    {
        let n = self.len();
        let mut result: Vec<ConRecord> = Vec::new();
        let mut i: usize = 0;
        while i < n
            invariant
                i <= n,
                n <= self.records().len(),
                result@ == self.records().subrange(0, i as int),
            decreases n - i,
        {
            result.push(self.store_0[i]);
            proof {
                assert(result@ =~= self.records().subrange(0, i + 1));
            }
            i = i + 1;
        }
        result
    }

    /// The currently valid payload values in physical order.
    pub fn iter_1(&self) -> (r: Vec<T>)
        requires
            self.inv(),
        ensures
            r@ == self.payloads().subrange(0, self.spec_len() as int),
    {
        let n = self.len();
        let mut result: Vec<T> = Vec::new();
        let mut i: usize = 0;
        while i < n
            invariant
                i <= n,
                n <= self.payloads().len(),
                result@ == self.payloads().subrange(0, i as int),
            decreases n - i,
        {
            result.push(self.store_1[i]);
            proof {
                assert(result@ =~= self.payloads().subrange(0, i + 1));
            }
            i = i + 1;
        }
        result
    }

    /// The currently valid record/payload pairs in physical order.
    pub fn iter(&self) -> (r: Vec<(ConRecord, T)>)
        requires
            self.inv(),
        ensures
            r@.len() == self.spec_len(),
            forall|i: int|
                0 <= i < self.spec_len() ==> #[trigger] r@[i] == (
                    self.records()[i],
                    self.payloads()[i],
                ),
    {
        let n = self.len();
        let mut result: Vec<(ConRecord, T)> = Vec::new();
        let mut i: usize = 0;
        while i < n
            invariant
                i <= n,
                n <= self.records().len(),
                n <= self.payloads().len(),
                result@.len() == i,
                forall|j: int|
                    0 <= j < i ==> #[trigger] result@[j] == (
                        self.records()[j],
                        self.payloads()[j],
                    ),
            decreases n - i,
        {
            result.push((self.store_0[i], self.store_1[i]));
            i = i + 1;
        }
        result
    }

    /// Borrows the payload of a live logical slot for mutation in place.
    pub fn get_mut_1(&mut self, slot: usize) -> (r: &mut T)
        requires
            old(self).inv(),
            old(self).slot_live(slot as nat),
        ensures
            *r == old(self).payloads()[old(self).phys(slot as nat)],
            final(self).payloads() == old(self).payloads().update(
                old(self).phys(slot as nat),
                *final(r),
            ),
            final(self).records() == old(self).records(),
            final(self).spec_record_count() == old(self).spec_record_count(),
            final(self).spec_overflow_count() == old(self).spec_overflow_count(),
            final(self).inv(),
    {
        let i = slot - self.overflow_count;
        &mut self.store_1[i]
    }

    /// Reads the payload of a live logical slot.
    pub fn get_1(&self, slot: usize) -> (r: &T)
        requires
            self.inv(),
            self.slot_live(slot as nat),
        ensures
            *r == self.payloads()[self.phys(slot as nat)],
    {
        &self.store_1[slot - self.overflow_count]
    }

    /// Sorts the valid prefix of the record array in place; the payload
    /// array and the records beyond `len()` are untouched.
    pub fn sort_0_by<F: Fn(&ConRecord, &ConRecord) -> SortOrdering>(&mut self, compare: F)
        requires
            old(self).inv(),
            forall|x: &ConRecord, y: &ConRecord| #[trigger] call_requires(compare, (x, y)),
            spec_cmp_deterministic(compare),
        ensures
            final(self).inv(),
            final(self).records() == spec_insertion_sort(
                old(self).records().subrange(0, old(self).spec_len() as int),
                spec_cmp_leq(compare),
            ) + old(self).records().subrange(
                old(self).spec_len() as int,
                old(self).records().len() as int,
            ),
            final(self).payloads() == old(self).payloads(),
            final(self).spec_record_count() == old(self).spec_record_count(),
            final(self).spec_overflow_count() == old(self).spec_overflow_count(),
            final(self).capacity() == old(self).capacity(),
    {
        let n = self.len();
        let ghost prefix = self.records().subrange(0, self.spec_len() as int);
        let ghost leq = spec_cmp_leq(compare);
        sort_prefix(&mut self.store_0, n, &compare);
        proof {
            lemma_insertion_sort_membership(prefix, leq);
            lemma_insertion_sort_len(prefix, leq);
            assert forall|i: int| 0 <= i < self.records().len() implies (
            #[trigger] self.records()[i]).inv() by {
                if i < n {
                    let x = self.records()[i];
                    assert(x == spec_insertion_sort(prefix, leq)[i]);
                    assert(prefix.contains(x));
                    let k = choose|k: int| 0 <= k < prefix.len() && prefix[k] == x;
                    assert(old(self).records()[k] == x);
                } else {
                    assert(self.records()[i] == old(self).records()[i]);
                }
            }
        }
    }
}

/// Shared interface of the two stores for the record they hold, used by the
/// connection-handle capability layer: a handle resolves its logical slot
/// through either store without owning the record.
pub trait SimpleStore {
    /// The physical record array.
    spec fn records_spec(&self) -> Seq<ConRecord>;

    /// Count of slots ever issued.
    spec fn count_spec(&self) -> nat;

    /// The logical slot number at the most recent wrap.
    spec fn overflow_spec(&self) -> nat;

    /// Counters are in range and every stored record is within its bounds.
    spec fn store_inv(&self) -> bool;

    /// What the store invariant guarantees to every caller: the live span
    /// fits the array and each stored record is within its bounds.
    proof fn lemma_store_inv(&self)
        requires
            self.store_inv(),
        ensures
            self.overflow_spec() <= self.count_spec(),
            self.count_spec() - self.overflow_spec() <= self.records_spec().len(),
            forall|i: int|
                0 <= i < self.records_spec().len() ==> (#[trigger] self.records_spec()[i]).inv(),
    ;

    /// Reads the record of a live logical slot.
    fn get(&self, slot: usize) -> (r: &ConRecord)
        requires
            self.store_inv(),
            self.overflow_spec() <= slot < self.count_spec(),
        ensures
            *r == self.records_spec()[slot - self.overflow_spec()],
            r.inv(),
    ;

    /// Borrows the record of a live logical slot for mutation in place.
    fn get_mut(&mut self, slot: usize) -> (r: &mut ConRecord)
        requires
            old(self).store_inv(),
            old(self).overflow_spec() <= slot < old(self).count_spec(),
        ensures
            *r == old(self).records_spec()[slot - old(self).overflow_spec()],
            r.inv(),
            final(self).records_spec() == old(self).records_spec().update(
                slot - old(self).overflow_spec(),
                *final(r),
            ),
            final(self).count_spec() == old(self).count_spec(),
            final(self).overflow_spec() == old(self).overflow_spec(),
            (*final(r)).inv() ==> final(self).store_inv(),
    ;

    /// Replaces the record of a live logical slot.
    fn set(&mut self, slot: usize, rec: ConRecord)
        requires
            old(self).store_inv(),
            old(self).overflow_spec() <= slot < old(self).count_spec(),
            rec.inv(),
        ensures
            final(self).store_inv(),
            final(self).records_spec() == old(self).records_spec().update(
                slot - old(self).overflow_spec(),
                rec,
            ),
            final(self).count_spec() == old(self).count_spec(),
            final(self).overflow_spec() == old(self).overflow_spec(),
    ;
}

impl SimpleStore for RecordStore<ConRecord> {
    open spec fn records_spec(&self) -> Seq<ConRecord> {
        self.records()
    }

    open spec fn count_spec(&self) -> nat {
        self.spec_record_count()
    }

    open spec fn overflow_spec(&self) -> nat {
        self.spec_overflow_count()
    }

    open spec fn store_inv(&self) -> bool {
        self.inv() && forall|i: int|
            0 <= i < self.records().len() ==> (#[trigger] self.records()[i]).inv()
    }

    proof fn lemma_store_inv(&self) {
    }

    fn get(&self, slot: usize) -> (r: &ConRecord) {
        &self.store[slot - self.overflow_count]
    }

    fn get_mut(&mut self, slot: usize) -> (r: &mut ConRecord) {
        let i = slot - self.overflow_count;
        &mut self.store[i]
    }

    fn set(&mut self, slot: usize, rec: ConRecord) {
        let i = slot - self.overflow_count;
        self.store.set(i, rec);
    }
}

impl<T: Storable> SimpleStore for Store64<T> {
    open spec fn records_spec(&self) -> Seq<ConRecord> {
        self.records()
    }

    open spec fn count_spec(&self) -> nat {
        self.spec_record_count()
    }

    open spec fn overflow_spec(&self) -> nat {
        self.spec_overflow_count()
    }

    open spec fn store_inv(&self) -> bool {
        self.inv()
    }

    proof fn lemma_store_inv(&self) {
    }

    fn get(&self, slot: usize) -> (r: &ConRecord) {
        &self.store_0[slot - self.overflow_count]
    }

    fn get_mut(&mut self, slot: usize) -> (r: &mut ConRecord) {
        let i = slot - self.overflow_count;
        &mut self.store_0[i]
    }

    fn set(&mut self, slot: usize, rec: ConRecord) {
        let i = slot - self.overflow_count;
        self.store_0.set(i, rec);
    }
}

} // verus!

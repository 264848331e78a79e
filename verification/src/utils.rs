//! Small helpers around the tracking core: the socket-to-slot index that
//! demultiplexes inbound packets, a running-time accumulator for profiling,
//! and the shuffled port range a load generator draws local ports from.

use vstd::prelude::*;
use vstd::seq_lib::group_seq_properties;
use rand::seq::SliceRandom;

verus! {

/// Why a socket-index operation failed.
#[derive(Clone, Copy, Debug, PartialEq, Eq, Structural)]
pub enum SockIndexError {
    /// All eight banks are assigned to distinct local IP addresses already.
    BankExhausted,
}

/// The bank id an ordered association list assigns to an IP address: the
/// first entry with that address, if any.
pub open spec fn lookup_tree(s: Seq<(u32, u8)>, ip: u32) -> Option<u8>
    decreases s.len(),
{
    if s.len() == 0 {
        None
    } else if s[0].0 == ip {
        Some(s[0].1)
    } else {
        lookup_tree(s.drop_first(), ip)
    }
}

/// On a sorted list, the entry holding `ip` decides the lookup.
pub proof fn lemma_lookup_tree_found(s: Seq<(u32, u8)>, ip: u32, k: int)
    requires
        0 <= k < s.len(),
        s[k].0 == ip,
        forall|i: int, j: int| 0 <= i < j < s.len() ==> (#[trigger] s[i]).0 < (#[trigger] s[j]).0,
    ensures
        lookup_tree(s, ip) == Some(s[k].1),
    decreases s.len(),
{
    if k > 0 {
        assert(s[0].0 < s[k].0);
        lemma_lookup_tree_found(s.drop_first(), ip, k - 1);
    }
}

/// An address no entry holds is not found.
pub proof fn lemma_lookup_tree_absent(s: Seq<(u32, u8)>, ip: u32)
    requires
        forall|i: int| 0 <= i < s.len() ==> (#[trigger] s[i]).0 != ip,
    ensures
        lookup_tree(s, ip) == None::<u8>,
    decreases s.len(),
{
    if s.len() > 0 {
        lemma_lookup_tree_absent(s.drop_first(), ip);
    }
}

/// Maps an observed (IPv4 address, port) pair to the slot number of its
/// tracked connection.  An ordered map from address to a small bank id
/// (at most eight concurrent local addresses), and per bank a flat array of
/// 65,535 slots indexed by port − 1; the value 0 marks an empty entry, so
/// slot number 0 cannot be distinguished from "unmapped".
pub struct Sock2Index {
    sock_tree: Vec<(u32, u8)>,
    port_maps: Vec<Vec<u16>>,
    free_maps: Vec<u8>,
}

impl Sock2Index {
    /// The address-to-bank association, sorted by address.
    pub closed spec fn tree(&self) -> Seq<(u32, u8)> {
        self.sock_tree@
    }

    /// The port array of one bank.
    pub closed spec fn map_at(&self, b: int) -> Seq<u16> {
        self.port_maps@[b]@
    }

    /// The bank ids not yet assigned to an address.
    pub closed spec fn free(&self) -> Seq<u8> {
        self.free_maps@
    }

    pub open spec fn wf(&self) -> bool {
        &&& self.tree().len() <= 8
        &&& forall|b: int| 0 <= b < 8 ==> self.map_at(b).len() == 0xFFFF
        &&& forall|i: int, j: int|
            0 <= i < j < self.tree().len() ==> (#[trigger] self.tree()[i]).0 < (
            #[trigger] self.tree()[j]).0
        &&& forall|i: int| 0 <= i < self.tree().len() ==> (#[trigger] self.tree()[i]).1 < 8
        &&& forall|i: int, j: int|
            0 <= i < self.tree().len() && 0 <= j < self.tree().len() && i != j ==> (
            #[trigger] self.tree()[i]).1 != (#[trigger] self.tree()[j]).1
        &&& forall|i: int| 0 <= i < self.free().len() ==> #[trigger] self.free()[i] < 8
        &&& forall|i: int, j: int|
            0 <= i < j < self.free().len() ==> #[trigger] self.free()[i] != #[trigger] self.free()[j]
        &&& forall|i: int, j: int|
            0 <= i < self.tree().len() && 0 <= j < self.free().len() ==> (
            #[trigger] self.tree()[i]).1 != #[trigger] self.free()[j]
        &&& self.free().len() + self.tree().len() == 8
        &&& self.spec_port_map_count() == 8
        &&& forall|j: int, p: int|
            0 <= j < self.free().len() && 0 <= p < 0xFFFF ==> #[trigger] self.map_at(
                self.free()[j] as int,
            )[p] == 0
    }

    pub closed spec fn spec_port_map_count(&self) -> nat {
        self.port_maps@.len()
    }

    /// The slot mapped for an (address, port) pair: the bank of the address
    /// holds it at port − 1; 0 means "no mapping".
    pub open spec fn spec_get(&self, ip: u32, port: u16) -> Option<u16> {
        match lookup_tree(self.tree(), ip) {
            None => None,
            Some(b) => {
                if self.map_at(b as int)[port - 1] == 0 {
                    None
                } else {
                    Some(self.map_at(b as int)[port - 1])
                }
            },
        }
    }

    /// Bank accounting: a full index (eight addresses) has no free bank
    /// left, and while at most seven addresses are present a free bank
    /// remains, so an eighth distinct address is still accepted.
    pub proof fn lemma_bank_accounting(&self)
        requires
            self.wf(),
        ensures
            self.tree().len() == 8 ==> self.free().len() == 0,
            self.tree().len() <= 7 ==> self.free().len() >= 1,
    {
    }

    /// An empty index: no address mapped, all eight banks free.
    pub fn new() -> (r: Sock2Index)
        ensures
            r.wf(),
            r.tree().len() == 0,
            r.free().len() == 8,
            forall|b: int, p: int| 0 <= b < 8 && 0 <= p < 0xFFFF ==> r.map_at(b)[p] == 0,
    {
        let mut port_maps: Vec<Vec<u16>> = Vec::new();
        let mut b: usize = 0;
        while b < 8
            invariant
                b <= 8,
                port_maps@.len() == b,
                forall|k: int| 0 <= k < b ==> (#[trigger] port_maps@[k])@.len() == 0xFFFF,
                forall|k: int, p: int|
                    0 <= k < b && 0 <= p < 0xFFFF ==> #[trigger] (port_maps@[k])@[p] == 0,
            decreases 8 - b,
        {
            let mut m: Vec<u16> = Vec::new();
            let mut p: usize = 0;
            while p < 0xFFFF
                invariant
                    p <= 0xFFFF,
                    m@.len() == p,
                    forall|q: int| 0 <= q < p ==> m@[q] == 0,
                decreases 0xFFFF - p,
            {
                m.push(0);
                p = p + 1;
            }
            port_maps.push(m);
            b = b + 1;
        }
        let mut free_maps: Vec<u8> = Vec::new();
        let mut f: usize = 0;
        while f < 8
            invariant
                f <= 8,
                free_maps@.len() == f,
                forall|k: int| 0 <= k < f ==> #[trigger] free_maps@[k] == 7 - k,
            decreases 8 - f,
        {
            free_maps.push((7 - f) as u8);
            f = f + 1;
        }
        Sock2Index { sock_tree: Vec::new(), port_maps, free_maps }
    }

    /// Looks the pair up; `None` is an expected miss, not an error.
    pub fn get(&self, sock: &(u32, u16)) -> (r: Option<u16>)
        requires
            self.wf(),
            sock.1 >= 1,
        ensures
            r == self.spec_get(sock.0, sock.1),
    {
        let ip = sock.0;
        let port = sock.1;
        let n = self.sock_tree.len();
        let mut i: usize = 0;
        while i < n
            invariant
                self.wf(),
                n == self.tree().len(),
                i <= n,
                sock.1 >= 1,
                ip == sock.0,
                port == sock.1,
                forall|k: int| 0 <= k < i ==> (#[trigger] self.tree()[k]).0 != ip,
            decreases n - i,
        {
            let entry = self.sock_tree[i];
            if entry.0 == ip {
                proof {
                    lemma_lookup_tree_found(self.tree(), ip, i as int);
                }
                let b = entry.1;
                let v = self.port_maps[b as usize][(port - 1) as usize];
                if v == 0 {
                    return None;
                } else {
                    return Some(v);
                }
            }
            i = i + 1;
        }
        proof {
            lemma_lookup_tree_absent(self.tree(), ip);
        }
        None
    }

    /// Assigns a bank to a new address and links it into the ordered tree
    /// at position `i`; fails exactly when no bank is free.
    #[verifier::rlimit(60)]
    fn add_ip_sorted(&mut self, ip: u32, i: usize) -> (r: Option<u8>)
        requires
            old(self).wf(),
            i <= old(self).tree().len(),
            forall|k: int| 0 <= k < i ==> (#[trigger] old(self).tree()[k]).0 < ip,
            i < old(self).tree().len() ==> old(self).tree()[i as int].0 > ip,
        ensures
            final(self).wf(),
            (r == None::<u8>) <==> old(self).free().len() == 0,
            r == None::<u8> ==> final(self).tree() == old(self).tree() && final(self).free()
                == old(self).free() && (forall|b2: int|
                0 <= b2 < 8 ==> final(self).map_at(b2) == old(self).map_at(b2)),
            (r matches Some(b) ==> final(self).tree() == old(self).tree().insert(
                i as int,
                (ip, b),
            ) && final(self).free() == old(self).free().drop_last() && b == old(
                self,
            ).free().last() && b < 8 && (forall|b2: int|
                0 <= b2 < 8 ==> #[trigger] final(self).map_at(b2) == old(self).map_at(b2)) && (
            forall|k: int|
                0 <= k < old(self).tree().len() ==> (#[trigger] old(self).tree()[k]).1 != b)),
    {
        let ghost t0 = self.tree();
        let ghost f0 = self.free();
        match self.free_maps.pop() {
            None => {
                proof {
                    assert(self.free() == f0);
                    assert(self.tree() == t0);
                    assert forall|b2: int| 0 <= b2 < 8 implies #[trigger] self.map_at(b2) == old(
                        self,
                    ).map_at(b2) by {}
                    assert(self.wf());
                }
                None
            },
            Some(b) => {
                proof {
                    assert(b == f0[f0.len() - 1]);
                    assert(b < 8);
                    assert(self.free() =~= f0.drop_last());
                }
                self.sock_tree.insert(i, (ip, b));
                proof {
                    let t1 = self.tree();
                    assert(t1 =~= t0.insert(i as int, (ip, b)));
                    assert forall|x: int, y: int| 0 <= x < y < t1.len() implies (
                    #[trigger] t1[x]).0 < (#[trigger] t1[y]).0 by {
                        if x == i {
                            assert(t1[y] == t0[y - 1]);
                            if y - 1 > i {
                                assert(t0[i as int].0 < t0[y - 1].0);
                            }
                        } else if y == i {
                            assert(t1[x] == t0[x]);
                        } else {
                            let x0: int = if x < i {
                                x
                            } else {
                                x - 1
                            };
                            let y0: int = if y < i {
                                y
                            } else {
                                y - 1
                            };
                            assert(t1[x] == t0[x0]);
                            assert(t1[y] == t0[y0]);
                        }
                    }
                    assert forall|x: int| 0 <= x < t1.len() implies (#[trigger] t1[x]).1 < 8 by {
                        if x != i {
                            let x0: int = if x < i {
                                x
                            } else {
                                x - 1
                            };
                            assert(t1[x] == t0[x0]);
                        }
                    }
                    assert forall|x: int, y: int|
                        0 <= x < t1.len() && 0 <= y < t1.len() && x != y implies (
                    #[trigger] t1[x]).1 != (#[trigger] t1[y]).1 by {
                        let x0: int = if x < i {
                            x
                        } else {
                            x - 1
                        };
                        let y0: int = if y < i {
                            y
                        } else {
                            y - 1
                        };
                        if x == i {
                            assert(t1[y] == t0[y0]);
                            assert(t0[y0].1 != f0[f0.len() - 1]);
                        } else if y == i {
                            assert(t1[x] == t0[x0]);
                            assert(t0[x0].1 != f0[f0.len() - 1]);
                        } else {
                            assert(t1[x] == t0[x0]);
                            assert(t1[y] == t0[y0]);
                        }
                    }
                    assert forall|x: int, y: int|
                        0 <= x < t1.len() && 0 <= y < self.free().len() implies (
                    #[trigger] t1[x]).1 != #[trigger] self.free()[y] by {
                        assert(self.free()[y] == f0[y]);
                        if x == i {
                            assert(f0[y] != f0[f0.len() - 1]);
                        } else {
                            let x0: int = if x < i {
                                x
                            } else {
                                x - 1
                            };
                            assert(t1[x] == t0[x0]);
                        }
                    }
                    assert forall|k: int| 0 <= k < t0.len() implies (#[trigger] t0[k]).0
                        != ip by {
                        if k >= i {
                            if k > i {
                                assert(t0[i as int].0 < t0[k].0);
                            }
                        }
                    }
                    assert forall|b2: int| 0 <= b2 < 8 implies #[trigger] self.map_at(b2) == old(
                        self,
                    ).map_at(b2) by {}
                    assert(self.spec_port_map_count() == 8);
                    assert forall|y: int| 0 <= y < self.free().len() implies #[trigger] self
                        .free()[y] < 8 by {
                        assert(self.free()[y] == f0[y]);
                    }
                    assert forall|x: int, y: int| 0 <= x < y < self.free().len() implies
                        #[trigger] self.free()[x] != #[trigger] self.free()[y] by {
                        assert(self.free()[x] == f0[x]);
                        assert(self.free()[y] == f0[y]);
                    }
                    assert(self.tree().len() <= 8);
                    assert(self.free().len() + self.tree().len() == 8);
                    assert forall|j: int, p: int|
                        0 <= j < self.free().len() && 0 <= p < 0xFFFF implies #[trigger] self
                        .map_at(self.free()[j] as int)[p] == 0 by {
                        assert(self.free()[j] == f0[j]);
                        assert(self.map_at(f0[j] as int) == old(self).map_at(f0[j] as int));
                        assert(old(self).map_at(old(self).free()[j] as int)[p] == 0);
                    }
                    assert(self.wf());
                }
                Some(b)
            },
        }
    }

    /// Writes `index` into the bank's array at port − 1.
    fn write_bank(&mut self, bank: u8, port: u16, index: u16)
        requires
            old(self).wf(),
            bank < 8,
            port >= 1,
            forall|j: int| 0 <= j < old(self).free().len() ==> #[trigger] old(self).free()[j] != bank,
        ensures
            final(self).wf(),
            final(self).tree() == old(self).tree(),
            final(self).free() == old(self).free(),
            final(self).map_at(bank as int) == old(self).map_at(bank as int).update(
                port - 1,
                index,
            ),
            forall|b2: int|
                0 <= b2 < 8 && b2 != bank ==> #[trigger] final(self).map_at(b2) == old(
                    self,
                ).map_at(b2),
    {
        let bi = bank as usize;
        let ghost pm0 = self.map_at(bank as int);
        let pm = &mut self.port_maps[bi];
        pm.set((port - 1) as usize, index);
        proof {
            assert(self.map_at(bank as int) =~= pm0.update(port - 1, index));
            assert(self.tree() == old(self).tree());
            assert(self.free() == old(self).free());
            assert(self.spec_port_map_count() == 8);
            assert(self.tree().len() <= 8);
            assert forall|b2: int| 0 <= b2 < 8 implies self.map_at(b2).len() == 0xFFFF by {
                if b2 != bank {
                    assert(self.map_at(b2) == old(self).map_at(b2));
                    assert(old(self).map_at(b2).len() == 0xFFFF);
                } else {
                    assert(old(self).map_at(bank as int).len() == 0xFFFF);
                }
            }
            assert forall|j: int, p: int|
                0 <= j < self.free().len() && 0 <= p < 0xFFFF implies #[trigger] self.map_at(
                    self.free()[j] as int,
                )[p] == 0 by {
                assert(self.free()[j] != bank);
                assert(self.map_at(self.free()[j] as int) == old(self).map_at(
                    self.free()[j] as int,
                ));
                assert(old(self).map_at(old(self).free()[j] as int)[p] == 0);
            }
        }
    }

    /// Maps the pair to `index`.  A new address takes a bank from the free
    /// list; with all eight banks assigned the call fails, and fails only
    /// then.  Writing `index` 0 erases the mapping, since 0 marks an empty
    /// entry.
    #[verifier::rlimit(60)]
    pub fn insert(&mut self, sock: (u32, u16), index: u16) -> (r: Result<(), SockIndexError>)
        requires
            old(self).wf(),
            sock.1 >= 1,
        ensures
            final(self).wf(),
            r == Ok::<(), SockIndexError>(()) || r == Err::<(), SockIndexError>(
                SockIndexError::BankExhausted,
            ),
            (r == Err::<(), SockIndexError>(SockIndexError::BankExhausted)) <==> (lookup_tree(
                old(self).tree(),
                sock.0,
            ) == None::<u8> && old(self).free().len() == 0),
            r == Err::<(), SockIndexError>(SockIndexError::BankExhausted) ==> final(self).tree()
                == old(self).tree() && final(self).free() == old(self).free() && (forall|b: int|
                0 <= b < 8 ==> final(self).map_at(b) == old(self).map_at(b)),
            r == Ok::<(), SockIndexError>(()) ==> (forall|ip2: u32, port2: u16|
                port2 >= 1 ==> #[trigger] final(self).spec_get(ip2, port2) == (if ip2 == sock.0
                    && port2 == sock.1 {
                    if index == 0 {
                        None
                    } else {
                        Some(index)
                    }
                } else {
                    old(self).spec_get(ip2, port2)
                })),
            r == Ok::<(), SockIndexError>(()) ==> final(self).tree().len() == (if lookup_tree(
                old(self).tree(),
                sock.0,
            ) == None::<u8> {
                old(self).tree().len() + 1
            } else {
                old(self).tree().len()
            }),
    {
        let ip = sock.0;
        let port = sock.1;
        let ghost t0 = self.tree();
        let n = self.sock_tree.len();
        let mut i: usize = 0;
        while i < n && self.sock_tree[i].0 < ip
            invariant
                self.wf(),
                n == self.tree().len(),
                i <= n,
                forall|k: int| 0 <= k < i ==> (#[trigger] self.tree()[k]).0 < ip,
            decreases n - i,
        {
            i = i + 1;
        }
        let bank: u8;
        let ghost was_new: bool;
        if i < n && self.sock_tree[i].0 == ip {
            bank = self.sock_tree[i].1;
            proof {
                was_new = false;
                lemma_lookup_tree_found(t0, ip, i as int);
            }
        } else {
            proof {
                was_new = true;
                assert forall|k: int| 0 <= k < t0.len() implies (#[trigger] t0[k]).0 != ip by {
                    if k >= i {
                        assert(i < n ==> t0[i as int].0 > ip);
                        if k > i {
                            assert(t0[i as int].0 < t0[k].0);
                        }
                    }
                }
                lemma_lookup_tree_absent(t0, ip);
            }
            match self.add_ip_sorted(ip, i) {
                None => {
                    return Err(SockIndexError::BankExhausted);
                },
                Some(b) => {
                    bank = b;
                    proof {
                        lemma_lookup_tree_found(self.tree(), ip, i as int);
                    }
                },
            }
        }
        let ghost t1 = self.tree();
        proof {
            assert(lookup_tree(t1, ip) == Some(bank));
            if was_new {
                assert(self.free() == old(self).free().drop_last());
                assert(bank == old(self).free()[old(self).free().len() - 1]);
                assert forall|j: int| 0 <= j < self.free().len() implies #[trigger] self.free()[j]
                    != bank by {
                    assert(self.free()[j] == old(self).free()[j]);
                }
            } else {
                assert(self.tree()[i as int].1 == bank);
                assert forall|j: int| 0 <= j < self.free().len() implies #[trigger] self.free()[j]
                    != bank by {
                    assert(self.tree()[i as int].1 != self.free()[j]);
                }
            }
        }
        let ghost free_mid = self.free();
        let ghost maps_mid = Seq::new(8, |b2: int| self.map_at(b2));
        let ghost wf_mid = self.wf();
        self.write_bank(bank, port, index);
        proof {
            assert forall|ip2: u32, port2: u16| port2 >= 1 implies #[trigger] self.spec_get(
                ip2,
                port2,
            ) == (if ip2 == sock.0 && port2 == sock.1 {
                if index == 0 {
                    None
                } else {
                    Some(index)
                }
            } else {
                old(self).spec_get(ip2, port2)
            }) by {
                assert(self.tree() == t1);
                if ip2 == ip {
                    assert(lookup_tree(t1, ip) == Some(bank));
                    if !was_new {
                        lemma_lookup_tree_found(t0, ip, i as int);
                    } else {
                        if port2 != port {
                            assert(wf_mid);
                            assert(free_mid == old(self).free().drop_last());
                            assert(bank == old(self).free()[old(self).free().len() - 1]);
                            assert(old(self).free()[old(self).free().len() - 1]
                                == old(self).free().last());
                            assert(old(self).map_at(
                                old(self).free()[old(self).free().len() - 1] as int,
                            )[port2 - 1] == 0);
                            assert(maps_mid[bank as int] == old(self).map_at(bank as int));
                            assert(self.map_at(bank as int)[port2 - 1] == 0);
                        }
                    }
                } else {
                    if exists|k: int| 0 <= k < t0.len() && (#[trigger] t0[k]).0 == ip2 {
                        let k = choose|k: int| 0 <= k < t0.len() && (#[trigger] t0[k]).0 == ip2;
                        lemma_lookup_tree_found(t0, ip2, k);
                        if was_new {
                            let k2: int = if k < i {
                                k
                            } else {
                                k + 1
                            };
                            assert(t1 == t0.insert(i as int, (ip, bank)));
                            assert(t1[k2] == t0[k]);
                            lemma_lookup_tree_found(t1, ip2, k2);
                            assert(t0[k].1 != bank);
                        } else {
                            lemma_lookup_tree_found(t1, ip2, k);
                            assert(t1[i as int].0 == ip);
                            assert(k != i);
                            assert(t0[k].1 != t0[i as int].1);
                        }
                    } else {
                        assert(forall|k: int| 0 <= k < t0.len() ==> (#[trigger] t0[k]).0 != ip2);
                        lemma_lookup_tree_absent(t0, ip2);
                        if was_new {
                            assert(t1 == t0.insert(i as int, (ip, bank)));
                            assert forall|k: int| 0 <= k < t1.len() implies (#[trigger] t1[k]).0
                                != ip2 by {
                                if k < i {
                                    assert(t1[k] == t0[k]);
                                } else if k == i {
                                } else {
                                    assert(t1[k] == t0[k - 1]);
                                }
                            }
                            lemma_lookup_tree_absent(t1, ip2);
                        } else {
                            lemma_lookup_tree_absent(t1, ip2);
                        }
                    }
                }
            }
        }
        Ok(())
    }

    /// Clears the pair's mapping, returning the slot it held, if any.  The
    /// address keeps its bank: banks are never returned to the free list.
    #[verifier::rlimit(60)]
    pub fn remove(&mut self, sock: &(u32, u16)) -> (r: Option<u16>)
        requires
            old(self).wf(),
            sock.1 >= 1,
        ensures
            final(self).wf(),
            r == old(self).spec_get(sock.0, sock.1),
            final(self).tree() == old(self).tree(),
            final(self).free() == old(self).free(),
            forall|ip2: u32, port2: u16|
                port2 >= 1 ==> #[trigger] final(self).spec_get(ip2, port2) == (if ip2 == sock.0
                    && port2 == sock.1 {
                    None
                } else {
                    old(self).spec_get(ip2, port2)
                }),
    {
        let ip = sock.0;
        let port = sock.1;
        let ghost t0 = self.tree();
        let n = self.sock_tree.len();
        let mut i: usize = 0;
        while i < n && self.sock_tree[i].0 < ip
            invariant
                self.wf(),
                n == self.tree().len(),
                i <= n,
                forall|k: int| 0 <= k < i ==> (#[trigger] self.tree()[k]).0 < ip,
            decreases n - i,
        {
            i = i + 1;
        }
        if i < n && self.sock_tree[i].0 == ip {
            proof {
                lemma_lookup_tree_found(self.tree(), ip, i as int);
            }
            let bank = self.sock_tree[i].1;
            let bi = bank as usize;
            let ghost pm0 = self.map_at(bank as int);
            let old_val = self.port_maps[bi][(port - 1) as usize];
            let pm = &mut self.port_maps[bi];
            pm.set((port - 1) as usize, 0);
            proof {
                assert(self.map_at(bank as int) =~= pm0.update(port - 1, 0));
                assert forall|b2: int| 0 <= b2 < 8 && b2 != bank implies self.map_at(b2) == old(
                    self,
                ).map_at(b2) by {}
                assert forall|ip2: u32, port2: u16| port2 >= 1 implies #[trigger] self.spec_get(
                    ip2,
                    port2,
                ) == (if ip2 == sock.0 && port2 == sock.1 {
                    None
                } else {
                    old(self).spec_get(ip2, port2)
                }) by {
                    if ip2 == ip {
                        lemma_lookup_tree_found(self.tree(), ip, i as int);
                    } else {
                        if exists|k: int| 0 <= k < t0.len() && (#[trigger] t0[k]).0 == ip2 {
                            let k = choose|k: int|
                                0 <= k < t0.len() && (#[trigger] t0[k]).0 == ip2;
                            lemma_lookup_tree_found(self.tree(), ip2, k);
                            assert(self.tree()[k].1 != bank);
                        } else {
                            lemma_lookup_tree_absent(self.tree(), ip2);
                        }
                    }
                }
            }
            if old_val == 0 {
                None
            } else {
                Some(old_val)
            }
        } else {
            proof {
                assert forall|k: int| 0 <= k < t0.len() implies (#[trigger] t0[k]).0 != ip by {
                    if k >= i {
                        assert(i < n ==> t0[i as int].0 > ip);
                        if k > i {
                            assert(t0[i as int].0 < t0[k].0);
                        }
                    }
                }
                lemma_lookup_tree_absent(self.tree(), ip);
            }
            None
        }
    }

    /// The nonzero entries of one bank, in port order.
    pub open spec fn bank_values(m: Seq<u16>) -> Seq<u16> {
        m.filter(|x: u16| x != 0)
    }

    /// All mapped slot numbers from the banks of the addresses at tree
    /// position `i` and after, in address-then-port order.
    pub open spec fn spec_values_from(&self, i: int) -> Seq<u16>
        decreases self.tree().len() - i when i <= self.tree().len()
    {
        if i >= self.tree().len() {
            Seq::empty()
        } else {
            Self::bank_values(self.map_at(self.tree()[i].1 as int)) + self.spec_values_from(i + 1)
        }
    }

    /// Every currently mapped slot number, in address-then-port order.
    pub open spec fn spec_values(&self) -> Seq<u16> {
        self.spec_values_from(0)
    }

    pub fn values(&self) -> (r: Vec<u16>)
        requires
            self.wf(),
        ensures
            r@ == self.spec_values(),
    {
        broadcast use group_seq_properties;

        let mut result: Vec<u16> = Vec::new();
        let n = self.sock_tree.len();
        let mut i: usize = 0;
        while i < n
            invariant
                self.wf(),
                n == self.tree().len(),
                i <= n,
                result@ + self.spec_values_from(i as int) == self.spec_values(),
            decreases n - i,
        {
            let bank = self.sock_tree[i].1;
            let bi = bank as usize;
            let ghost m = self.map_at(bank as int);
            let ghost before = result@;
            let mut p: usize = 0;
            while p < 0xFFFF
                invariant
                    self.wf(),
                    i < self.tree().len(),
                    bank == self.tree()[i as int].1,
                    bi == bank as usize,
                    m == self.map_at(bank as int),
                    p <= 0xFFFF,
                    result@ == before + m.subrange(0, p as int).filter(|x: u16| x != 0),
                decreases 0xFFFF - p,
            {
                let v = self.port_maps[bi][p];
                proof {
                    reveal_with_fuel(Seq::filter, 2);
                    assert(m.subrange(0, p + 1).drop_last() =~= m.subrange(0, p as int));
                    assert(m.subrange(0, p + 1).last() == m[p as int]);
                }
                if v != 0 {
                    result.push(v);
                }
                p = p + 1;
            }
            proof {
                assert(m.subrange(0, 0xFFFF) =~= m);
                assert(result@ == before + Self::bank_values(m));
                assert(result@ + self.spec_values_from(i + 1) =~= before + self.spec_values_from(
                    i as int,
                ));
            }
            i = i + 1;
        }
        proof {
            assert(result@ =~= self.spec_values());
        }
        result
    }
}

/// Accumulates time differences and reports the running average after every
/// `sample_size`-th addition; printing the report is the caller's concern.
pub struct TimeAdder {
    sum: u64,
    count: u64,
    name: String,
    sample_size: u64,
}

impl TimeAdder {
    pub closed spec fn sum_spec(&self) -> u64 {
        self.sum
    }

    pub closed spec fn count_spec(&self) -> u64 {
        self.count
    }

    pub closed spec fn name_spec(&self) -> Seq<char> {
        self.name@
    }

    pub closed spec fn sample_size_spec(&self) -> u64 {
        self.sample_size
    }

    pub fn new(name: &str, sample_size: u64) -> (r: TimeAdder)
        ensures
            r.sum_spec() == 0,
            r.count_spec() == 0,
            r.name_spec() == name@,
            r.sample_size_spec() == sample_size,
    {
        broadcast use vstd::string::to_string_from_display_ensures_for_str;

        TimeAdder { sum: 0, count: 0, name: name.to_string(), sample_size }
    }

    pub fn name(&self) -> (r: &String)
        ensures
            r@ == self.name_spec(),
    {
        &self.name
    }

    pub fn sum(&self) -> (r: u64)
        ensures
            r == self.sum_spec(),
    {
        self.sum
    }

    pub fn count(&self) -> (r: u64)
        ensures
            r == self.count_spec(),
    {
        self.count
    }

    pub fn sample_size(&self) -> (r: u64)
        ensures
            r == self.sample_size_spec(),
    {
        self.sample_size
    }

    /// Adds one time difference.  After every `sample_size`-th addition it
    /// hands back a report of (sum, count, average) for the caller to print.
    pub fn add(&mut self, time_diff: u64) -> (r: Option<(u64, u64, u64)>)
        requires
            old(self).sample_size_spec() >= 1,
            old(self).sum_spec() + time_diff <= u64::MAX,
            old(self).count_spec() < u64::MAX,
        ensures
            final(self).sum_spec() == old(self).sum_spec() + time_diff,
            final(self).count_spec() == old(self).count_spec() + 1,
            final(self).name_spec() == old(self).name_spec(),
            final(self).sample_size_spec() == old(self).sample_size_spec(),
            r == (if final(self).count_spec() % final(self).sample_size_spec() == 0 {
                Some(
                    (
                        final(self).sum_spec(),
                        final(self).count_spec(),
                        (final(self).sum_spec() / final(self).count_spec()) as u64,
                    ),
                )
            } else {
                None::<(u64, u64, u64)>
            }),
    {
        self.sum = self.sum + time_diff;
        self.count = self.count + 1;
        if self.count % self.sample_size == 0 {
            Some((self.sum, self.count, self.sum / self.count))
        } else {
            None
        }
    }
}

/// rand's thread-local generator, declared so its values can pass through
/// verified code; nothing inside it is visible here.
#[verifier::external_type_specification]
#[verifier::external_body]
pub struct ExThreadRng(rand::rngs::ThreadRng);

/// Relies on rand's `thread_rng`: hands out the calling thread's generator.
/// Nothing is assumed about the values it will produce.
#[verifier::external_body]
fn fresh_rng() -> rand::rngs::ThreadRng {
    rand::thread_rng()
}

/// Relies on rand's `SliceRandom::shuffle`, a Fisher-Yates shuffle that only
/// swaps elements in place: whatever randomness is drawn, the result holds
/// exactly the same values, each as often as before.
#[verifier::external_body]
fn shuffle_in_place(v: &mut Vec<u16>, rng: &mut rand::rngs::ThreadRng)
    ensures
        final(v)@.len() == old(v)@.len(),
        final(v)@.to_multiset() == old(v)@.to_multiset(),
{
    v.as_mut_slice().shuffle(rng)
}

/// The inclusive port range as a sequence, lowest first.
pub open spec fn spec_port_range(first_port: u16, last_port: u16) -> Seq<u16> {
    Seq::new((last_port - first_port + 1) as nat, |i: int| (first_port + i) as u16)
}

/// The ports `first_port..=last_port`, each exactly once, in the order the
/// thread's random generator chose.
pub fn shuffle_ports(first_port: u16, last_port: u16) -> (r: Vec<u16>)
    requires
        first_port <= last_port,
        last_port < u16::MAX,
    ensures
        r@.len() == last_port - first_port + 1,
        r@.to_multiset() == spec_port_range(first_port, last_port).to_multiset(),
{
    let mut v: Vec<u16> = Vec::new();
    let mut p: u16 = first_port;
    while p < last_port + 1
        invariant
            first_port <= p <= last_port + 1,
            last_port < u16::MAX,
            v@ == spec_port_range(first_port, last_port).subrange(0, p - first_port),
        decreases last_port + 1 - p,
    {
        v.push(p);
        proof {
            assert(v@ =~= spec_port_range(first_port, last_port).subrange(
                0,
                p + 1 - first_port,
            ));
        }
        p = p + 1;
    }
    proof {
        assert(spec_port_range(first_port, last_port).subrange(
            0,
            (last_port + 1 - first_port) as int,
        ) =~= spec_port_range(first_port, last_port));
    }
    let mut rng = fresh_rng();
    shuffle_in_place(&mut v, &mut rng);
    v
}

} // verus!

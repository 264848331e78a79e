use conntrack::Sock2Index;
use conntrack::SockIndexError;

#[test]
fn get_after_insert_returns_slot() {
    let mut s = Sock2Index::new();
    assert_eq!(s.get(&(0x0a000001, 80)), None);
    assert_eq!(s.insert((0x0a000001, 80), 17), Ok(()));
    assert_eq!(s.get(&(0x0a000001, 80)), Some(17));
    // other ports and addresses stay unmapped
    assert_eq!(s.get(&(0x0a000001, 81)), None);
    assert_eq!(s.get(&(0x0a000002, 80)), None);
}

#[test]
fn get_after_remove_returns_no_match() {
    let mut s = Sock2Index::new();
    s.insert((1, 1), 5).unwrap();
    s.insert((1, 2), 6).unwrap();
    assert_eq!(s.remove(&(1, 1)), Some(5));
    assert_eq!(s.get(&(1, 1)), None);
    // the sibling mapping is untouched
    assert_eq!(s.get(&(1, 2)), Some(6));
    // removing again is an expected miss, not an error
    assert_eq!(s.remove(&(1, 1)), None);
}

#[test]
fn insert_overwrites_previous_slot() {
    let mut s = Sock2Index::new();
    s.insert((9, 9), 1).unwrap();
    s.insert((9, 9), 2).unwrap();
    assert_eq!(s.get(&(9, 9)), Some(2));
}

#[test]
fn eighth_ip_succeeds_ninth_fails() {
    let mut s = Sock2Index::new();
    for ip in 1..=7u32 {
        assert_eq!(s.insert((ip, 10), ip as u16), Ok(()));
    }
    // the eighth distinct local address still gets a bank
    assert_eq!(s.insert((8, 10), 8), Ok(()));
    assert_eq!(s.get(&(8, 10)), Some(8));
    // the ninth exhausts the banks
    assert_eq!(s.insert((9, 10), 9), Err(SockIndexError::BankExhausted));
    // a port on an already-known address is still accepted
    assert_eq!(s.insert((8, 11), 88), Ok(()));
    assert_eq!(s.get(&(8, 11)), Some(88));
}

#[test]
fn values_in_address_then_port_order() {
    let mut s = Sock2Index::new();
    s.insert((20, 300), 4).unwrap();
    s.insert((10, 500), 2).unwrap();
    s.insert((10, 100), 1).unwrap();
    s.insert((20, 200), 3).unwrap();
    assert_eq!(s.values(), vec![1, 2, 3, 4]);
}

#[test]
fn values_skips_removed_entries() {
    let mut s = Sock2Index::new();
    s.insert((5, 1), 11).unwrap();
    s.insert((5, 2), 12).unwrap();
    s.remove(&(5, 1));
    assert_eq!(s.values(), vec![12]);
}

#[test]
fn slot_zero_means_unmapped() {
    let mut s = Sock2Index::new();
    // writing slot 0 erases rather than stores: 0 marks an empty entry
    s.insert((3, 3), 0).unwrap();
    assert_eq!(s.get(&(3, 3)), None);
    assert_eq!(s.values(), Vec::<u16>::new());
}

use hammer2::chain::{Chain, Cid, CHAIN_COUNTED_BLOCKREF, CHAIN_TESTED_GOOD, CID_CHAIN_OFFSET};
use hammer2::errno::Errno;
use hammer2::fs::{Hammer2Blockref, HAMMER2_BREF_TYPE_INODE};
use hammer2::keys::{cmp_chain_key, ChainKey};
use std::cmp::Ordering;

// Keys (0x00, 0x10, 0x20) rather than (0x0, 0x1, 0x2), so that the delta
// does not change the order.
const K0: u64 = 0x00;
const K1: u64 = 0x10;
const K2: u64 = 0x20;

fn alloc_empty_chain() -> Chain {
    match Chain::new(&Hammer2Blockref::new(HAMMER2_BREF_TYPE_INODE), CID_CHAIN_OFFSET) {
        Ok(v) => v,
        Err(e) => panic!("{e:?}"),
    }
}

fn alloc_chain(cid: Cid, key: u64, keybits: u8) -> Chain {
    let mut chain = alloc_empty_chain();
    chain.cid = cid;
    chain.bref.key = key;
    chain.bref.keybits = keybits;
    chain
}

fn alloc_chain_key(cid: Cid, key: u64, keybits: u8) -> ChainKey {
    ChainKey::new(cid, key, keybits)
}

// The largest delta for which cmp_chain_key still returns Equal.
fn get_delta(n: u8) -> u64 {
    (1 << n) - 1
}

#[test]
fn test_chain_flags() {
    let mut c = alloc_empty_chain();
    assert!(!c.has_flags(CHAIN_TESTED_GOOD));
    c.set_flags(CHAIN_TESTED_GOOD);
    assert!(c.has_flags(CHAIN_TESTED_GOOD));
    c.clear_flags(CHAIN_TESTED_GOOD);
    assert!(!c.has_flags(CHAIN_TESTED_GOOD));

    assert!(!c.has_flags(CHAIN_COUNTED_BLOCKREF));
    c.set_flags(CHAIN_COUNTED_BLOCKREF);
    assert!(c.has_flags(CHAIN_COUNTED_BLOCKREF));
    c.clear_flags(CHAIN_COUNTED_BLOCKREF);
    assert!(!c.has_flags(CHAIN_COUNTED_BLOCKREF));
}

fn check_cmp_chain_key(n: u8) {
    let d = get_delta(n);
    for k in [K0, K1, K2] {
        let x1 = alloc_chain_key(0, k << n, n);
        let x2 = alloc_chain_key(0, (k << n) + d, n);
        assert!(cmp_chain_key(&x1, &x2) == Ordering::Equal, "{k}: {x1:#?} vs {x2:#?}");
    }
    let d = get_delta(n) + 1;
    for k in [K0, K1, K2] {
        let x1 = alloc_chain_key(0, k << n, n);
        let x2 = alloc_chain_key(0, (k << n) + d, n);
        assert!(cmp_chain_key(&x1, &x2) == Ordering::Less, "{k}: {x1:#?} vs {x2:#?}");
    }
    let d = get_delta(n) + 1;
    for k in [K0, K1, K2] {
        let x1 = alloc_chain_key(0, (k << n) + d, n);
        let x2 = alloc_chain_key(0, k << n, n);
        assert!(cmp_chain_key(&x1, &x2) == Ordering::Greater, "{k}: {x1:#?} vs {x2:#?}");
    }
}

#[test]
fn test_cmp_chain_key_keybits_0() {
    check_cmp_chain_key(0);
}

#[test]
fn test_cmp_chain_key_keybits_1() {
    check_cmp_chain_key(1);
}

#[test]
fn test_cmp_chain_key_keybits_8() {
    check_cmp_chain_key(8);
}

#[test]
fn test_cmp_chain_key_keybits_16() {
    check_cmp_chain_key(16);
}

fn check_chain_get_child(n: u8) {
    let c = alloc_empty_chain();
    assert_eq!(c.get_first_child(), None);
    assert!(c.get_child().is_empty());

    let d = get_delta(n);
    let mut c = alloc_empty_chain();
    c.add_child(&alloc_chain(0, K0 << n, n));
    c.add_child(&alloc_chain(1, (K0 << n) + d, n));
    c.add_child(&alloc_chain(2, K1 << n, n));
    c.add_child(&alloc_chain(3, (K1 << n) + d, n));
    c.add_child(&alloc_chain(4, K2 << n, n));
    c.add_child(&alloc_chain(5, (K2 << n) + d, n));
    assert_eq!(c.get_first_child(), Some(0));
    let v = c.get_child();
    assert_eq!(v[0], 0, "{v:#?}");
    assert_eq!(v[1], 1, "{v:#?}");
    assert_eq!(v[2], 2, "{v:#?}");
    assert_eq!(v[3], 3, "{v:#?}");
    assert_eq!(v[4], 4, "{v:#?}");
    assert_eq!(v[5], 5, "{v:#?}");

    let mut c = alloc_empty_chain();
    c.add_child(&alloc_chain(0, (K2 << n) + d, n));
    c.add_child(&alloc_chain(1, K2 << n, n));
    c.add_child(&alloc_chain(2, (K1 << n) + d, n));
    c.add_child(&alloc_chain(3, K1 << n, n));
    c.add_child(&alloc_chain(4, (K0 << n) + d, n));
    c.add_child(&alloc_chain(5, K0 << n, n));
    assert_eq!(c.get_first_child(), Some(4));
    let v = c.get_child();
    assert_eq!(v[0], 4, "{v:#?}");
    assert_eq!(v[1], 5, "{v:#?}");
    assert_eq!(v[2], 2, "{v:#?}");
    assert_eq!(v[3], 3, "{v:#?}");
    assert_eq!(v[4], 0, "{v:#?}");
    assert_eq!(v[5], 1, "{v:#?}");

    let mut c = alloc_empty_chain();
    for cid in 0..6 {
        c.add_child(&alloc_chain(cid, K1 << n, n));
    }
    assert_eq!(c.get_first_child(), Some(0));
    let v = c.get_child();
    assert_eq!(v[0], 0, "{v:#?}");
    assert_eq!(v[1], 1, "{v:#?}");
    assert_eq!(v[2], 2, "{v:#?}");
    assert_eq!(v[3], 3, "{v:#?}");
    assert_eq!(v[4], 4, "{v:#?}");
    assert_eq!(v[5], 5, "{v:#?}");
}

#[test]
fn test_chain_get_child_keybits_0() {
    check_chain_get_child(0);
}

#[test]
fn test_chain_get_child_keybits_1() {
    check_chain_get_child(1);
}

#[test]
fn test_chain_get_child_keybits_8() {
    check_chain_get_child(8);
}

#[test]
fn test_chain_get_child_keybits_16() {
    check_chain_get_child(16);
}

fn check_chain_add_child(n: u8) {
    let d = get_delta(n);
    let mut c = alloc_empty_chain();
    c.add_child(&alloc_chain(0, K0 << n, n));
    c.add_child(&alloc_chain(1, (K0 << n) + d, n));
    c.add_child(&alloc_chain(2, K1 << n, n));
    c.add_child(&alloc_chain(3, (K1 << n) + d, n));
    c.add_child(&alloc_chain(4, K2 << n, n));
    c.add_child(&alloc_chain(5, (K2 << n) + d, n));
    let v = &c.ccids;
    assert_eq!((v[0].cid, v[0].key), (0, K0 << n), "{v:#?}");
    assert_eq!((v[1].cid, v[1].key), (1, (K0 << n) + d), "{v:#?}");
    assert_eq!((v[2].cid, v[2].key), (2, K1 << n), "{v:#?}");
    assert_eq!((v[3].cid, v[3].key), (3, (K1 << n) + d), "{v:#?}");
    assert_eq!((v[4].cid, v[4].key), (4, K2 << n), "{v:#?}");
    assert_eq!((v[5].cid, v[5].key), (5, (K2 << n) + d), "{v:#?}");

    let mut c = alloc_empty_chain();
    c.add_child(&alloc_chain(0, (K2 << n) + d, n));
    c.add_child(&alloc_chain(1, K2 << n, n));
    c.add_child(&alloc_chain(2, (K1 << n) + d, n));
    c.add_child(&alloc_chain(3, K1 << n, n));
    c.add_child(&alloc_chain(4, (K0 << n) + d, n));
    c.add_child(&alloc_chain(5, K0 << n, n));
    let v = &c.ccids;
    assert_eq!((v[0].cid, v[0].key), (4, (K0 << n) + d), "{v:#?}");
    assert_eq!((v[1].cid, v[1].key), (5, K0 << n), "{v:#?}");
    assert_eq!((v[2].cid, v[2].key), (2, (K1 << n) + d), "{v:#?}");
    assert_eq!((v[3].cid, v[3].key), (3, K1 << n), "{v:#?}");
    assert_eq!((v[4].cid, v[4].key), (0, (K2 << n) + d), "{v:#?}");
    assert_eq!((v[5].cid, v[5].key), (1, K2 << n), "{v:#?}");

    let mut c = alloc_empty_chain();
    for cid in 0..6 {
        c.add_child(&alloc_chain(cid, K1 << n, n));
    }
    let v = &c.ccids;
    assert_eq!((v[0].cid, v[0].key), (0, K1 << n), "{v:#?}");
    assert_eq!((v[1].cid, v[1].key), (1, K1 << n), "{v:#?}");
    assert_eq!((v[2].cid, v[2].key), (2, K1 << n), "{v:#?}");
    assert_eq!((v[3].cid, v[3].key), (3, K1 << n), "{v:#?}");
    assert_eq!((v[4].cid, v[4].key), (4, K1 << n), "{v:#?}");
    assert_eq!((v[5].cid, v[5].key), (5, K1 << n), "{v:#?}");
}

#[test]
fn test_chain_add_child_keybits_0() {
    check_chain_add_child(0);
}

#[test]
fn test_chain_add_child_keybits_1() {
    check_chain_add_child(1);
}

#[test]
fn test_chain_add_child_keybits_8() {
    check_chain_add_child(8);
}

#[test]
fn test_chain_add_child_keybits_16() {
    check_chain_add_child(16);
}

fn new_three_children(n: u8) -> Chain {
    let mut c = alloc_empty_chain();
    c.add_child(&alloc_chain(0, K0 << n, n));
    c.add_child(&alloc_chain(1, K1 << n, n));
    c.add_child(&alloc_chain(2, K2 << n, n));
    let v = &c.ccids;
    assert_eq!(v.len(), 3);
    assert_eq!((v[0].cid, v[0].key), (0, K0 << n), "{v:#?}");
    assert_eq!((v[1].cid, v[1].key), (1, K1 << n), "{v:#?}");
    assert_eq!((v[2].cid, v[2].key), (2, K2 << n), "{v:#?}");
    c
}

fn check_chain_remove_child(n: u8) {
    // 0 1 2
    let mut c = new_three_children(n);
    if let Err(e) = c.remove_child(0) {
        panic!("{e:?}: {:#?}", c.ccids);
    }
    let v = &c.ccids;
    assert_eq!(v.len(), 2);
    assert_eq!((v[0].cid, v[0].key), (1, K1 << n), "{v:#?}");
    assert_eq!((v[1].cid, v[1].key), (2, K2 << n), "{v:#?}");
    if let Err(e) = c.remove_child(1) {
        panic!("{e:?}: {:#?}", c.ccids);
    }
    let v = &c.ccids;
    assert_eq!(v.len(), 1);
    assert_eq!((v[0].cid, v[0].key), (2, K2 << n), "{v:#?}");
    if let Err(e) = c.remove_child(2) {
        panic!("{e:?}: {:#?}", c.ccids);
    }
    assert!(!c.has_child());
    assert_eq!(c.remove_child(0), Err(Errno::ENOENT));

    // 0 2 1
    let mut c = new_three_children(n);
    if let Err(e) = c.remove_child(0) {
        panic!("{e:?}: {:#?}", c.ccids);
    }
    let v = &c.ccids;
    assert_eq!(v.len(), 2);
    assert_eq!((v[0].cid, v[0].key), (1, K1 << n), "{v:#?}");
    assert_eq!((v[1].cid, v[1].key), (2, K2 << n), "{v:#?}");
    if let Err(e) = c.remove_child(2) {
        panic!("{e:?}: {:#?}", c.ccids);
    }
    let v = &c.ccids;
    assert_eq!(v.len(), 1);
    assert_eq!((v[0].cid, v[0].key), (1, K1 << n), "{v:#?}");
    if let Err(e) = c.remove_child(1) {
        panic!("{e:?}: {:#?}", c.ccids);
    }
    assert!(!c.has_child());
    assert_eq!(c.remove_child(0), Err(Errno::ENOENT));

    // 1 0 2
    let mut c = new_three_children(n);
    if let Err(e) = c.remove_child(1) {
        panic!("{e:?}: {:#?}", c.ccids);
    }
    let v = &c.ccids;
    assert_eq!(v.len(), 2);
    assert_eq!((v[0].cid, v[0].key), (0, K0 << n), "{v:#?}");
    assert_eq!((v[1].cid, v[1].key), (2, K2 << n), "{v:#?}");
    if let Err(e) = c.remove_child(0) {
        panic!("{e:?}: {:#?}", c.ccids);
    }
    let v = &c.ccids;
    assert_eq!(v.len(), 1);
    assert_eq!((v[0].cid, v[0].key), (2, K2 << n), "{v:#?}");
    if let Err(e) = c.remove_child(2) {
        panic!("{e:?}: {:#?}", c.ccids);
    }
    assert!(!c.has_child());
    assert_eq!(c.remove_child(0), Err(Errno::ENOENT));

    // 1 2 0
    let mut c = new_three_children(n);
    if let Err(e) = c.remove_child(1) {
        panic!("{e:?}: {:#?}", c.ccids);
    }
    let v = &c.ccids;
    assert_eq!(v.len(), 2);
    assert_eq!((v[0].cid, v[0].key), (0, K0 << n), "{v:#?}");
    assert_eq!((v[1].cid, v[1].key), (2, K2 << n), "{v:#?}");
    if let Err(e) = c.remove_child(2) {
        panic!("{e:?}: {:#?}", c.ccids);
    }
    let v = &c.ccids;
    assert_eq!(v.len(), 1);
    assert_eq!((v[0].cid, v[0].key), (0, K0 << n), "{v:#?}");
    if let Err(e) = c.remove_child(0) {
        panic!("{e:?}: {:#?}", c.ccids);
    }
    assert!(!c.has_child());
    assert_eq!(c.remove_child(0), Err(Errno::ENOENT));

    // 2 0 1
    let mut c = new_three_children(n);
    if let Err(e) = c.remove_child(2) {
        panic!("{e:?}: {:#?}", c.ccids);
    }
    let v = &c.ccids;
    assert_eq!(v.len(), 2);
    assert_eq!((v[0].cid, v[0].key), (0, K0 << n), "{v:#?}");
    assert_eq!((v[1].cid, v[1].key), (1, K1 << n), "{v:#?}");
    if let Err(e) = c.remove_child(0) {
        panic!("{e:?}: {:#?}", c.ccids);
    }
    let v = &c.ccids;
    assert_eq!(v.len(), 1);
    assert_eq!((v[0].cid, v[0].key), (1, K1 << n), "{v:#?}");
    if let Err(e) = c.remove_child(1) {
        panic!("{e:?}: {:#?}", c.ccids);
    }
    assert!(!c.has_child());
    assert_eq!(c.remove_child(0), Err(Errno::ENOENT));

    // 2 1 0
    let mut c = new_three_children(n);
    if let Err(e) = c.remove_child(2) {
        panic!("{e:?}: {:#?}", c.ccids);
    }
    let v = &c.ccids;
    assert_eq!(v.len(), 2);
    assert_eq!((v[0].cid, v[0].key), (0, K0 << n), "{v:#?}");
    assert_eq!((v[1].cid, v[1].key), (1, K1 << n), "{v:#?}");
    if let Err(e) = c.remove_child(1) {
        panic!("{e:?}: {:#?}", c.ccids);
    }
    let v = &c.ccids;
    assert_eq!(v.len(), 1);
    assert_eq!((v[0].cid, v[0].key), (0, K0 << n), "{v:#?}");
    if let Err(e) = c.remove_child(0) {
        panic!("{e:?}: {:#?}", c.ccids);
    }
    assert!(!c.has_child());
    assert_eq!(c.remove_child(0), Err(Errno::ENOENT));

}

#[test]
fn test_chain_remove_child_keybits_0() {
    check_chain_remove_child(0);
}

#[test]
fn test_chain_remove_child_keybits_1() {
    check_chain_remove_child(1);
}

#[test]
fn test_chain_remove_child_keybits_8() {
    check_chain_remove_child(8);
}

#[test]
fn test_chain_remove_child_keybits_16() {
    check_chain_remove_child(16);
}

fn check_chain_find_child_index(n: u8) {
    let d = get_delta(n);
    let mut c = alloc_empty_chain();
    c.add_child(&alloc_chain(0, K0 << n, n));
    c.add_child(&alloc_chain(1, (K0 << n) + d, n));
    c.add_child(&alloc_chain(2, K1 << n, n));
    c.add_child(&alloc_chain(3, (K1 << n) + d, n));
    c.add_child(&alloc_chain(4, K2 << n, n));
    c.add_child(&alloc_chain(5, (K2 << n) + d, n));
    let x = alloc_chain_key(0, K1 << n, n);
    let Some(i) = c.find_child_index(&x) else {
        panic!("{x:#?}")
    };
    assert!((2..=3).contains(&i), "{:#?}", c.ccids);
    let v = &c.ccids;
    assert_eq!((v[i].key, v[i].keybits), (x.key, x.keybits), "{v:#?}");
    assert!(cmp_chain_key(&v[i], &x) == Ordering::Equal, "{:#?} vs {x:#?}", v[i]);

    let mut c = alloc_empty_chain();
    for cid in 0..6 {
        c.add_child(&alloc_chain(cid, K1 << n, n));
    }
    let x = alloc_chain_key(0, K1 << n, n);
    let Some(i) = c.find_child_index(&x) else {
        panic!("{x:#?}")
    };
    assert!((0..=5).contains(&i), "{:#?}", c.ccids);
    let v = &c.ccids;
    assert_eq!((v[i].key, v[i].keybits), (x.key, x.keybits), "{v:#?}");
    assert!(cmp_chain_key(&v[i], &x) == Ordering::Equal, "{:#?} vs {x:#?}", v[i]);
}

#[test]
fn test_chain_find_child_index_keybits_0() {
    check_chain_find_child_index(0);
}

#[test]
fn test_chain_find_child_index_keybits_1() {
    check_chain_find_child_index(1);
}

#[test]
fn test_chain_find_child_index_keybits_8() {
    check_chain_find_child_index(8);
}

#[test]
fn test_chain_find_child_index_keybits_16() {
    check_chain_find_child_index(16);
}

fn six_children(n: u8) -> Chain {
    let d = get_delta(n);
    let mut c = alloc_empty_chain();
    c.add_child(&alloc_chain(0, K0 << n, n));
    c.add_child(&alloc_chain(1, (K0 << n) + d, n));
    c.add_child(&alloc_chain(2, K1 << n, n));
    c.add_child(&alloc_chain(3, (K1 << n) + d, n));
    c.add_child(&alloc_chain(4, K2 << n, n));
    c.add_child(&alloc_chain(5, (K2 << n) + d, n));
    c
}

fn expect_range(c: &Chain, x: &ChainKey, want: (usize, usize)) {
    let (beg, end) = match c.find_child_range(x) {
        Ok(v) => match v {
            Some(v) => v,
            None => panic!("{x:#?}"),
        },
        Err(e) => panic!("{e:?}"),
    };
    assert_eq!((beg, end), want, "{:#?}", c.ccids);
    for y in c.ccids.iter().take(end + 1).skip(beg) {
        assert!(cmp_chain_key(y, x) == Ordering::Equal, "{y:#?} vs {x:#?}");
    }
}

fn check_chain_find_child_range(n: u8) {
    let c = six_children(n);
    expect_range(&c, &alloc_chain_key(0, K0 << n, n), (0, 1));
    let c = six_children(n);
    expect_range(&c, &alloc_chain_key(0, K1 << n, n), (2, 3));
    let c = six_children(n);
    expect_range(&c, &alloc_chain_key(0, K2 << n, n), (4, 5));

    let mut c = alloc_empty_chain();
    for cid in 0..6 {
        c.add_child(&alloc_chain(cid, K1 << n, n));
    }
    expect_range(&c, &alloc_chain_key(0, K1 << n, n), (0, 5));
}

#[test]
fn test_chain_find_child_range_keybits_0() {
    check_chain_find_child_range(0);
}

#[test]
fn test_chain_find_child_range_keybits_1() {
    check_chain_find_child_range(1);
}

#[test]
fn test_chain_find_child_range_keybits_8() {
    check_chain_find_child_range(8);
}

#[test]
fn test_chain_find_child_range_keybits_16() {
    check_chain_find_child_range(16);
}

#[test]
fn chain_add_keeps_order_and_remove_restores() {
    // Ranges that are equal or apart stay sorted by both ends whatever the
    // order they are added and removed in.
    let mut c = alloc_empty_chain();
    for (cid, key) in [(7, 0x30), (8, 0x10), (9, 0x20), (10, 0x10), (11, 0x00)] {
        c.add_child(&alloc_chain(cid, key << 4, 4));
    }
    let keys: Vec<u64> = c.ccids.iter().map(|x| x.key).collect();
    assert_eq!(keys, [0x000, 0x100, 0x100, 0x200, 0x300]);
    let before: Vec<Cid> = {
        let mut v = c.get_child();
        v.sort_unstable();
        v
    };
    c.add_child(&alloc_chain(42, 0x250, 4));
    assert_eq!(c.remove_child(42), Ok(()));
    let mut after = c.get_child();
    after.sort_unstable();
    assert_eq!(before, after);
    let keys: Vec<u64> = c.ccids.iter().map(|x| x.key).collect();
    assert_eq!(keys, [0x000, 0x100, 0x100, 0x200, 0x300]);
    assert_eq!(c.remove_child(42), Err(Errno::ENOENT));
}

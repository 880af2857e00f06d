use cuckoo_hash::{CuckooHash, TableError, WUHashBuilder};

#[test]
fn what() {
    let x: CuckooHash<u64, u64> = CuckooHash::new(100);
    assert_eq!(x.len(), 0);
    assert_eq!(x.capacity(), 100);
}

#[test]
fn insert_then_get() {
    let mut t: CuckooHash<u64, u64> = CuckooHash::new(64);
    for k in 0..20u64 {
        assert_eq!(t.insert(k, k * 10), Ok(None));
        assert_eq!(t.get(&k), Some(&(k * 10)));
    }
    for k in 0..20u64 {
        assert_eq!(t.get(&k), Some(&(k * 10)));
    }
    assert_eq!(t.get(&99), None);
    assert_eq!(t.len(), 20);
}

#[test]
fn overwrite_keeps_len() {
    let mut t: CuckooHash<u64, &str> = CuckooHash::new(8);
    assert_eq!(t.insert(5, "one"), Ok(None));
    assert_eq!(t.len(), 1);
    assert_eq!(t.insert(5, "two"), Ok(Some("one")));
    assert_eq!(t.get(&5), Some(&"two"));
    assert_eq!(t.len(), 1);
}

#[test]
fn remove_then_get() {
    let mut t: CuckooHash<u64, u64> = CuckooHash::new(8);
    t.insert(1, 100).unwrap();
    t.insert(2, 200).unwrap();
    assert_eq!(t.remove(&1), Some(100));
    assert_eq!(t.get(&1), None);
    assert_eq!(t.len(), 1);
    assert_eq!(t.remove(&1), None);
    assert_eq!(t.remove(&42), None);
    assert_eq!(t.len(), 1);
    assert_eq!(t.get(&2), Some(&200));
}

#[test]
fn growth_keeps_all_keys() {
    let mut t: CuckooHash<u64, u64> = CuckooHash::new(2);
    for round in 0..2u64 {
        for k in 0..300u64 {
            t.insert(k * 7919, k + round).unwrap();
        }
    }
    assert_eq!(t.len(), 300);
    assert!(t.capacity() >= 600);
    for k in 0..300u64 {
        assert_eq!(t.get(&(k * 7919)), Some(&(k + 1)));
    }
}

#[test]
fn small_table_with_displacement() {
    let mut t: CuckooHash<u64, &str> = CuckooHash::new(4);
    t.insert(1, "a").unwrap();
    t.insert(2, "b").unwrap();
    t.insert(3, "c").unwrap();
    assert_eq!(t.get(&1), Some(&"a"));
    assert_eq!(t.get(&2), Some(&"b"));
    assert_eq!(t.get(&3), Some(&"c"));
    t.insert(4, "d").unwrap();
    assert_eq!(t.get(&1), Some(&"a"));
    assert_eq!(t.get(&2), Some(&"b"));
    assert_eq!(t.get(&3), Some(&"c"));
    assert_eq!(t.get(&4), Some(&"d"));
    assert_eq!(t.len(), 4);
}

#[test]
fn colliding_hash_functions() {
    // With a = 0 both functions are constant: every key has the same two slots.
    let h1 = WUHashBuilder::new().modulus(2).a(0).b(0).finalize().unwrap();
    let h2 = WUHashBuilder::new().modulus(2).a(0).b(1).finalize().unwrap();
    let mut t: CuckooHash<u64, u64> = CuckooHash::with_hash_functions(h1, h2);
    assert_eq!(t.capacity(), 2);
    t.insert(10, 1).unwrap();
    t.insert(20, 2).unwrap();
    match t.insert(30, 3) {
        Ok(None) => assert_eq!(t.get(&30), Some(&3)),
        Ok(Some(_)) => panic!("key 30 was not present"),
        Err(e) => assert_eq!(e, TableError::ResizeExhausted),
    }
    assert_eq!(t.get(&10), Some(&1));
    assert_eq!(t.get(&20), Some(&2));
}

#[test]
fn same_slot_twice_forces_growth() {
    // Both functions send every key to slot 0; a second key cannot be displaced.
    let h = WUHashBuilder::new().modulus(4).a(0).b(0).finalize().unwrap();
    let mut t: CuckooHash<u64, u64> = CuckooHash::with_hash_functions(h, h);
    t.insert(1, 10).unwrap();
    t.insert(2, 20).unwrap();
    assert_eq!(t.get(&1), Some(&10));
    assert_eq!(t.get(&2), Some(&20));
    assert!(t.capacity() > 4);
}

#[test]
fn usize_and_u32_keys() {
    let mut a: CuckooHash<usize, u8> = CuckooHash::new(4);
    a.insert(7usize, 1).unwrap();
    assert_eq!(a.get(&7usize), Some(&1));
    let mut b: CuckooHash<u32, u8> = CuckooHash::new(4);
    b.insert(7u32, 2).unwrap();
    assert_eq!(b.get(&7u32), Some(&2));
    assert_eq!(b.get(&8u32), None);
}

#[test]
fn fits_without_growth_predicts_insert() {
    let mut t: CuckooHash<u64, u64> = CuckooHash::new(8);
    assert!(t.fits_without_growth(&1));
    assert_eq!(t.insert(1, 10), Ok(None));
    assert_eq!(t.capacity(), 8);
    let mut small: CuckooHash<u64, u64> = CuckooHash::new(2);
    small.insert(1, 1).unwrap();
    // A second key would make the table more than half full.
    assert!(!small.fits_without_growth(&2));
}

#[test]
fn coinciding_positions_do_not_fit() {
    let h = WUHashBuilder::new().modulus(4).a(0).b(0).finalize().unwrap();
    let mut t: CuckooHash<u64, u64> = CuckooHash::with_hash_functions(h, h);
    assert!(t.fits_without_growth(&1));
    t.insert(1, 10).unwrap();
    assert!(!t.fits_without_growth(&2));
    assert_eq!(t.capacity(), 4);
}

#[test]
fn half_load_after_inserts() {
    let mut t: CuckooHash<u64, u64> = CuckooHash::new(2);
    for k in 0..100u64 {
        let before = t.capacity();
        t.insert(k, k).unwrap();
        assert!(t.capacity() >= before);
        assert!(2 * t.len() <= t.capacity());
    }
}

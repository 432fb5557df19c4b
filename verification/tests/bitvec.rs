use index_set::{BitSet, BitSetMut};

#[test]
fn test_bitvec() {
    let mut bitset: Vec<u64> = Vec::new();

    assert!(BitSetMut::insert(&mut bitset, 42).is_ok());
    assert!(BitSet::has(&bitset, 42));

    assert_eq!(BitSetMut::remove(&mut bitset, 42), Some(true));
    assert_eq!(BitSetMut::remove(&mut bitset, 0), Some(false));
}

#[test]
fn growable_set_makes_room() {
    let mut bitset: Vec<u64> = Vec::new();
    assert_eq!(BitSet::capacity(&bitset), 0);
    assert_eq!(BitSetMut::remove(&mut bitset, 130), None);

    assert_eq!(BitSetMut::insert(&mut bitset, 130), Ok(false));
    assert_eq!(BitSet::capacity(&bitset), 192);
    assert!(BitSet::has(&bitset, 130));
    assert_eq!(BitSet::size(&bitset), 1);

    assert_eq!(BitSetMut::insert(&mut bitset, 130), Ok(true));
    assert_eq!(BitSet::size(&bitset), 1);

    assert_eq!(BitSetMut::remove(&mut bitset, 130), Some(true));
    assert!(!BitSet::has(&bitset, 130));
    assert!(BitSet::is_empty(&bitset));
}

#[test]
fn growable_set_clears_its_words() {
    let mut bitset: Vec<u64> = Vec::new();
    assert_eq!(BitSetMut::insert(&mut bitset, 5), Ok(false));
    assert_eq!(BitSetMut::insert(&mut bitset, 70), Ok(false));
    assert!(!BitSet::is_empty(&bitset));

    BitSetMut::clear(&mut bitset);
    assert!(BitSet::is_empty(&bitset));
    assert_eq!(BitSet::size(&bitset), 0);
    assert!(!BitSet::has(&bitset, 5));
}

#[test]
fn fixed_set_reports_required_slot() {
    let mut bitset: index_set::AtomicBitSet<1> = index_set::AtomicBitSet::new();
    assert_eq!(BitSetMut::insert(&mut bitset, 3), Ok(false));
    assert_eq!(BitSetMut::insert(&mut bitset, 3), Ok(true));
    assert_eq!(BitSetMut::insert(&mut bitset, 64), Err(1));
    assert_eq!(BitSetMut::insert(&mut bitset, 200), Err(3));
    assert_eq!(BitSetMut::remove(&mut bitset, 64), None);
    assert_eq!(BitSetMut::remove(&mut bitset, 3), Some(true));
    BitSetMut::clear(&mut bitset);
    assert!(BitSet::is_empty(&bitset));
}

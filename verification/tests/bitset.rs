use index_set::{AtomicBitSet, BitSet, SharedBitSet};

#[test]
fn test_id_set() {
    let mut bitset: AtomicBitSet<2> = AtomicBitSet::new();

    bitset.insert(0);
    assert_eq!(bitset.has(0), true);

    assert_eq!(bitset.set_next_free_bit(), Some(1));
    assert_eq!(bitset.has(1), true);

    bitset.insert(2);
    assert_eq!(bitset.set_next_free_bit(), Some(3));
    assert_eq!(bitset.set_next_free_bit(), Some(4));
    assert_eq!(bitset.set_next_free_bit(), Some(5));

    bitset.remove(4);
    assert_eq!(bitset.has(4), false);
    assert_eq!(bitset.set_next_free_bit(), Some(4));

    while let Some(_) = bitset.set_next_free_bit() {}
    assert_eq!(bitset.set_next_free_bit(), None);

    assert_eq!(bitset.size(), 128);
    bitset.clear();
    assert_eq!(bitset.size(), 0);
}

#[test]
fn test_prev_value() {
    let mut bitset: AtomicBitSet<1> = AtomicBitSet::new();

    assert_eq!(bitset.remove(0), Some(false));
    assert_eq!(bitset.insert(0), Some(false));
    assert_eq!(bitset.insert(0), Some(true));
    assert_eq!(bitset.remove(0), Some(true));
    assert_eq!(bitset.remove(0), Some(false));

    assert!(bitset.insert(65).is_none());
}

#[test]
fn fresh_set_has_nothing() {
    let bitset: AtomicBitSet<2> = AtomicBitSet::new();
    for i in 0..128 {
        assert_eq!(bitset.has(i), false);
    }
    assert_eq!(bitset.has(200), false);
    assert!(bitset.is_empty());
    assert_eq!(bitset.size(), 0);
}

#[test]
fn insert_remove_roundtrip() {
    let mut bitset: AtomicBitSet<2> = AtomicBitSet::new();

    assert_eq!(bitset.insert(7), Some(false));
    assert_eq!(bitset.has(7), true);
    assert_eq!(bitset.size(), 1);

    // re-inserting an already-set bit reports it and changes nothing
    assert_eq!(bitset.insert(7), Some(true));
    assert_eq!(bitset.has(7), true);
    assert_eq!(bitset.size(), 1);

    assert_eq!(bitset.remove(7), Some(true));
    assert_eq!(bitset.has(7), false);
    assert_eq!(bitset.size(), 0);
}

#[test]
fn size_counts_present_indices() {
    let mut bitset: AtomicBitSet<2> = AtomicBitSet::new();
    let picks = [0, 1, 63, 64, 77, 127];
    for &i in picks.iter() {
        assert_eq!(bitset.insert(i), Some(false));
    }
    let mut counted: usize = 0;
    for i in 0..128 {
        if bitset.has(i) {
            counted += 1;
        }
    }
    assert_eq!(bitset.size(), counted);
    assert_eq!(bitset.size(), picks.len());

    bitset.clear();
    assert_eq!(bitset.size(), 0);
    assert!(bitset.is_empty());
}

#[test]
fn capacity_is_words_times_width() {
    let two: AtomicBitSet<2> = AtomicBitSet::new();
    assert_eq!(two.capacity(), 128);

    let five: AtomicBitSet<5> = AtomicBitSet::new();
    assert_eq!(five.capacity(), 320);

    let mut zero_slots: AtomicBitSet<0> = AtomicBitSet::new();
    assert_eq!(zero_slots.capacity(), 0);
    assert_eq!(zero_slots.set_next_free_bit(), None);
}

#[test]
fn allocation_until_exhaustion_is_distinct() {
    let mut bitset: AtomicBitSet<1> = AtomicBitSet::new();
    let mut seen = [false; 64];
    for _ in 0..64 {
        let idx = bitset.set_next_free_bit().expect("a free bit should be left");
        assert!(idx < 64);
        assert!(!seen[idx], "index handed out twice");
        seen[idx] = true;
    }
    assert_eq!(bitset.set_next_free_bit(), None);
    assert_eq!(bitset.size(), 64);
    assert!(seen.iter().all(|&s| s));
}

#[test]
fn out_of_range_is_reported() {
    let mut bitset: AtomicBitSet<1> = AtomicBitSet::new();
    assert_eq!(bitset.insert(65), None);
    assert_eq!(bitset.remove(65), None);
    assert_eq!(bitset.has(65), false);
    assert_eq!(bitset.has(64), false);
    assert_eq!(bitset.insert(63), Some(false));
}

#[test]
fn allocation_scans_from_the_cursor() {
    let mut bitset: AtomicBitSet<2> = AtomicBitSet::new();
    for i in 0..64 {
        assert_eq!(bitset.insert(i), Some(false));
    }
    // the first word is saturated: the claim lands in the second word
    // and moves the cursor there
    assert_eq!(bitset.set_next_free_bit(), Some(64));
    assert_eq!(bitset.set_next_free_bit(), Some(65));
    // a bit freed in the first word is not seen while the cursor's own
    // word still has room
    assert_eq!(bitset.remove(3), Some(true));
    assert_eq!(bitset.set_next_free_bit(), Some(66));
}

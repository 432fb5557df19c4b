use index_set::slot_count;

#[test]
fn slots_from_bits_round_up() {
    assert_eq!(slot_count::from_bits(0), 0);
    assert_eq!(slot_count::from_bits(1), 1);
    assert_eq!(slot_count::from_bits(64), 1);
    assert_eq!(slot_count::from_bits(65), 2);
    assert_eq!(slot_count::from_bits(128), 2);
    assert_eq!(slot_count::from_bits(8192), 128);
}

#[test]
fn slots_from_bytes_round_up() {
    assert_eq!(slot_count::from_bytes(0), 0);
    assert_eq!(slot_count::from_bytes(1), 1);
    assert_eq!(slot_count::from_bytes(8), 1);
    assert_eq!(slot_count::from_bytes(9), 2);
    assert_eq!(slot_count::from_bytes(1024), 128);
}

#[test]
fn slots_from_kilobytes_and_megabytes() {
    assert_eq!(slot_count::from_kilobytes(0), 0);
    assert_eq!(slot_count::from_kilobytes(1), 128);
    assert_eq!(slot_count::from_kilobytes(3), 384);
    assert_eq!(slot_count::from_megabytes(0), 0);
    assert_eq!(slot_count::from_megabytes(1), 131072);
}

use index_set::utils::rotate_left;

#[test]
fn rotate_left_reorders_the_slice() {
    let slice: [u32; 5] = [1, 2, 3, 4, 5];
    assert_eq!(rotate_left(&slice, 2), vec![3, 4, 5, 1, 2]);
    assert_eq!(rotate_left(&slice, 0), vec![1, 2, 3, 4, 5]);
    assert_eq!(rotate_left(&slice, 5), vec![1, 2, 3, 4, 5]);
    let empty: [u32; 0] = [];
    assert_eq!(rotate_left(&empty, 0), Vec::<u32>::new());
}

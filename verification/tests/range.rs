use seq_algebra::range_of;

#[test]
fn range_from_seven_to_fourteen() {
    assert_eq!(range_of(7, 14), vec![7, 8, 9, 10, 11, 12, 13]);
}

#[test]
fn range_of_one_element() {
    assert_eq!(range_of(0, 1), vec![0]);
}

#[test]
fn range_is_empty_when_begin_is_not_below_end() {
    assert_eq!(range_of(3, 3), Vec::<u32>::new());
    assert_eq!(range_of(3, 2), Vec::<u32>::new());
    assert_eq!(range_of(u32::MAX, 0), Vec::<u32>::new());
}

#[test]
fn range_up_to_the_largest_integer() {
    assert_eq!(range_of(u32::MAX - 2, u32::MAX), vec![u32::MAX - 2, u32::MAX - 1]);
}

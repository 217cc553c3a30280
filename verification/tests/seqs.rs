use autopilot::seqs::{retain_by_mask, reversed};

#[test]
fn reversed_turns_the_order_round() {
    assert_eq!(reversed(vec![1, 2, 3]), vec![3, 2, 1]);
    assert_eq!(reversed(Vec::<u8>::new()), Vec::<u8>::new());
    assert_eq!(reversed(vec!["a".to_string()]), vec!["a".to_string()]);
}

#[test]
fn mask_keeps_flagged_elements() {
    assert_eq!(retain_by_mask(vec![1, 2, 3, 4], &vec![true, false, false, true]), vec![1, 4]);
    assert_eq!(retain_by_mask(vec![1, 2], &vec![false, false]), Vec::<i32>::new());
    assert_eq!(retain_by_mask(vec![1, 2], &vec![true, true]), vec![1, 2]);
    assert_eq!(retain_by_mask(Vec::<i32>::new(), &vec![]), Vec::<i32>::new());
}

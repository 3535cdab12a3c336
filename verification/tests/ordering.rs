use finplan_server::ordering::reconcile;

#[test]
fn named_rows_come_first_in_the_order_named() {
    assert_eq!(reconcile(&[1, 2, 3, 4], &[3, 1]), vec![3, 1, 2, 4]);
}

#[test]
fn unknown_and_repeated_ids_are_dropped() {
    assert_eq!(reconcile(&[10, 20, 30], &[99, 30, 30, 10, 7]), vec![30, 10, 20]);
}

#[test]
fn empty_request_keeps_current_order() {
    assert_eq!(reconcile(&[5, 6, 7], &[]), vec![5, 6, 7]);
}

#[test]
fn current_order_is_a_no_op() {
    assert_eq!(reconcile(&[5, 6, 7], &[5, 6, 7]), vec![5, 6, 7]);
}

#[test]
fn reconciling_twice_changes_nothing_more() {
    let once = reconcile(&[1, 2, 3, 4, 5], &[4, 2]);
    let twice = reconcile(&once, &[4, 2]);
    assert_eq!(once, twice);
    assert_eq!(once, vec![4, 2, 1, 3, 5]);
}

#[test]
fn empty_collection_stays_empty() {
    assert!(reconcile(&[], &[1, 2]).is_empty());
}

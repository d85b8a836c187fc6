use virtual_node::events::batch_events;

#[test]
fn batch_events_splits_in_order() {
    assert_eq!(batch_events(&vec![]), (vec![], vec![]));
    assert_eq!(
        batch_events(&vec![true, false, false, true, false]),
        (vec![0, 3], vec![1, 2, 4])
    );
    assert_eq!(batch_events(&vec![true, true]), (vec![0, 1], vec![]));
}

use sedsprintf_rs::queue::BoundedDeque;

#[test]
fn iter_lists_items_front_first() {
    let mut q: BoundedDeque<u64> = BoundedDeque::new(64, 16, 2, 1);
    q.push_back(3).unwrap();
    q.push_back(5).unwrap();
    q.push_back(7).unwrap();
    let items: Vec<u64> = q.iter().into_iter().copied().collect();
    assert_eq!(items, vec![3, 5, 7]);
    q.pop_front();
    let items: Vec<u64> = q.iter().into_iter().copied().collect();
    assert_eq!(items, vec![5, 7]);
}

#[test]
fn full_queue_evicts_front_on_push() {
    // Budget for two u64 items.
    let mut q: BoundedDeque<u64> = BoundedDeque::new(16, 8, 2, 1);
    q.push_back(1).unwrap();
    q.push_back(2).unwrap();
    q.push_back(3).unwrap();
    let items: Vec<u64> = q.iter().into_iter().copied().collect();
    assert_eq!(items, vec![2, 3]);
    assert_eq!(q.bytes_used(), 16);
}

use rich_py::workers::WorkerRegistry;

#[test]
fn workers_register_under_fresh_ids() {
    let mut r: WorkerRegistry<&str> = WorkerRegistry::new();
    assert_eq!(r.start("a"), 1);
    assert_eq!(r.start("b"), 2);
    assert_eq!(r.take(1), Some("a"));
    assert_eq!(r.take(1), None);
    assert_eq!(r.start("c"), 3);
    r.put_back(1, "a");
    assert_eq!(r.len(), 3);
    assert_eq!(r.drain(), vec![(2, "b"), (3, "c"), (1, "a")]);
    assert_eq!(r.len(), 0);
}

#[test]
fn put_back_thread_can_be_taken_again() {
    let mut r: WorkerRegistry<&str> = WorkerRegistry::new();
    r.start("a");
    r.start("b");
    assert_eq!(r.take(1), Some("a"));
    assert!(!r.contains(1));
    r.put_back(1, "a");
    assert!(r.contains(1));
    assert_eq!(r.next_id(), 3);
    assert_eq!(r.take(1), Some("a"));
    assert_eq!(r.start("c"), 3);
}

use dataflow_node::ShutdownSignal;

#[test]
fn first_raise_wins_and_is_recorded_once() {
    let mut s = ShutdownSignal::new();
    assert!(!s.fired());
    assert!(s.reason().is_none());

    assert!(s.raise("fatal repository error".to_string()));
    assert!(s.fired());
    assert_eq!(s.reason().unwrap(), "fatal repository error");

    // Every later raise loses and changes nothing.
    assert!(!s.raise("cancel by signal".to_string()));
    assert!(s.fired());
    assert_eq!(s.reason().unwrap(), "fatal repository error");

    assert!(!s.raise("third".to_string()));
    assert_eq!(s.reason().unwrap(), "fatal repository error");
}

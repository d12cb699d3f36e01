use dataflow_node::{DataBatch, FanOut, RecvOutcome};

fn batch(id: &str) -> DataBatch {
    DataBatch { record_id: id.to_string() }
}

#[test]
fn overflow_lags_without_blocking_and_order_is_kept() {
    // Three subscribers, bounded queues of capacity 2; publishing 3
    // batches before any read overflows the bounded subscribers, which
    // observe a lag signal; the one with room receives all batches in
    // publish order. No publish ever blocks: each call returns.
    let mut f = FanOut::new();
    let s0 = f.subscribe("n1".to_string(), 2);
    let s1 = f.subscribe("n2".to_string(), 2);
    let s2 = f.subscribe("n3".to_string(), 4);

    f.publish(&batch("b1"));
    f.publish(&batch("b2"));
    f.publish(&batch("b3"));

    assert!(f.is_lagged(s0));
    assert!(f.is_lagged(s1));
    assert!(!f.is_lagged(s2));

    // A lagging subscriber sees the lag signal first, then what its queue
    // kept, in order.
    assert!(matches!(f.recv(s0), RecvOutcome::Lagged));
    match f.recv(s0) {
        RecvOutcome::Batch(b) => assert_eq!(b.record_id, "b1"),
        other => panic!("expected b1, got {:?}", other),
    }

    // The subscriber within capacity receives every batch, in order.
    for expected in ["b1", "b2", "b3"] {
        match f.recv(s2) {
            RecvOutcome::Batch(b) => assert_eq!(b.record_id, expected),
            other => panic!("expected {}, got {:?}", expected, other),
        }
    }
    assert!(matches!(f.recv(s2), RecvOutcome::Empty));
}

#[test]
fn lag_is_isolated_to_the_slow_subscriber() {
    let mut f = FanOut::new();
    let slow = f.subscribe("slow".to_string(), 1);
    let fast = f.subscribe("fast".to_string(), 8);
    f.publish(&batch("b1"));
    f.publish(&batch("b2"));
    assert!(f.is_lagged(slow));
    assert!(!f.is_lagged(fast));
    match f.recv(fast) {
        RecvOutcome::Batch(b) => assert_eq!(b.record_id, "b1"),
        other => panic!("expected b1, got {:?}", other),
    }
}

#[test]
fn recv_on_empty_queue_is_empty() {
    let mut f = FanOut::new();
    let s = f.subscribe("n1".to_string(), 2);
    assert!(matches!(f.recv(s), RecvOutcome::Empty));
    assert_eq!(f.subscriber_count(), 1);
    assert_eq!(f.subscriber_name(s), "n1");
}

#[test]
fn lag_signal_is_consumed_once() {
    let mut f = FanOut::new();
    let s = f.subscribe("n1".to_string(), 0);
    f.publish(&batch("b1"));
    assert!(matches!(f.recv(s), RecvOutcome::Lagged));
    assert!(matches!(f.recv(s), RecvOutcome::Empty));
}

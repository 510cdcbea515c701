use storage_engine::wire::ExportTraceServiceRequest;
use tokio::sync::mpsc;
use tokio::sync::mpsc::error::TrySendError;

#[test]
fn test_backpressure_at_capacity() {
    // The bounded intake channel is the system's sole backpressure
    // mechanism: with capacity C, the (C+1)-th submission cannot
    // proceed until the consumer drains at least one slot.
    let capacity = 2;
    let (tx, mut rx) = mpsc::channel::<ExportTraceServiceRequest>(capacity);

    let request = || ExportTraceServiceRequest { resource_spans: Vec::new() };

    tx.try_send(request()).expect("slot one is free");
    tx.try_send(request()).expect("slot two is free");
    match tx.try_send(request()) {
        Err(TrySendError::Full(_)) => {}
        other => panic!("expected the channel to be full, got {:?}", other),
    }

    // Draining one slot unblocks exactly one producer.
    rx.try_recv().expect("one item is queued");
    tx.try_send(request()).expect("a slot opened up");
    match tx.try_send(request()) {
        Err(TrySendError::Full(_)) => {}
        other => panic!("expected the channel to be full again, got {:?}", other),
    }
}

#[test]
fn test_enqueue_fails_when_consumer_gone() {
    // An export acknowledgement promises only that the item was
    // enqueued; with the consumer gone, enqueueing must fail.
    let (tx, rx) = mpsc::channel::<ExportTraceServiceRequest>(1);
    drop(rx);
    let request = ExportTraceServiceRequest { resource_spans: Vec::new() };
    assert!(tx.try_send(request).is_err());
}

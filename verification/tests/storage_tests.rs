use storage_engine::memory::MemStorageWriter;
use storage_engine::span::{EvictedQueue, SpanContext, SpanData, SpanKind, SpanStatus};
use storage_engine::storage::{
    make_full_key, select_recent, span_key_of, to_stored_span, SpanEntry, StorageWriter,
    StoredSpan,
};

fn sample_span_data() -> SpanData {
    SpanData {
        span_context: SpanContext {
            trace_id: "0102030405060708090a0b0c0d0e0f10".to_string(),
            span_id: "0102030405060708".to_string(),
        },
        parent_span_id: None,
        span_kind: SpanKind::Client,
        name: "op".to_string(),
        start_time_unix_nano: 100,
        end_time_unix_nano: 250,
        status: SpanStatus::Okay,
        attributes: EvictedQueue::new(128),
        events: EvictedQueue::new(128),
        links: EvictedQueue::new(128),
    }
}

#[test]
fn test_full_key_prefix_normalization() {
    assert_eq!(make_full_key("messages", "a/b.json"), "messages/a/b.json");
    assert_eq!(make_full_key("messages///", "a"), "messages/a");
    assert_eq!(make_full_key("", "a"), "a");
    assert_eq!(make_full_key("p/q/", "a"), "p/q/a");
}

#[test]
fn test_span_key_scheme() {
    let stored = to_stored_span(&sample_span_data());
    assert_eq!(
        span_key_of(&stored),
        "0102030405060708090a0b0c0d0e0f10/0102030405060708.json"
    );
}

#[test]
fn test_key_scheme_round_trip() {
    // Writing spans, then listing and reading under the same
    // identifiers, recovers the stored span's fields.
    let mut store = MemStorageWriter::new("messages".to_string());
    let span = sample_span_data();
    store.write_spans(vec![span.clone()]).expect("in-memory write succeeds");

    let entries = store.list(5).expect("list succeeds");
    assert_eq!(entries.len(), 1);
    assert_eq!(
        entries[0].key,
        "messages/0102030405060708090a0b0c0d0e0f10/0102030405060708.json"
    );

    let read_back: StoredSpan = store.read(&entries[0].key).expect("read succeeds");
    assert_eq!(read_back.trace_id, span.span_context.trace_id);
    assert_eq!(read_back.span_id, span.span_context.span_id);
    assert_eq!(read_back.name, span.name);
    assert_eq!(read_back.kind, "Client");
    assert_eq!(read_back.start_time, 100);
    assert_eq!(read_back.end_time, 250);
    assert_eq!(read_back.status, "Ok");
}

#[test]
fn test_write_and_read_raw() {
    let mut store = MemStorageWriter::new("p".to_string());
    store.write("k", b"not a record").expect("write succeeds");
    assert!(store.read("p/k").is_err());
    assert!(store.read("unknown").is_err());
}

#[test]
fn test_write_batch_applies_all() {
    let mut store = MemStorageWriter::new("p".to_string());
    store
        .write_batch(vec![
            ("a".to_string(), b"1".to_vec()),
            ("b".to_string(), b"2".to_vec()),
        ])
        .expect("batch write succeeds");
    let entries = store.list(10).expect("list succeeds");
    assert_eq!(entries.len(), 2);
    // Newest first.
    assert_eq!(entries[0].key, "p/b");
    assert_eq!(entries[1].key, "p/a");
}

#[test]
fn test_latest_write_wins_for_equal_keys() {
    let mut store = MemStorageWriter::new("messages".to_string());
    let mut span = sample_span_data();
    store.write_spans(vec![span.clone()]).expect("first write succeeds");
    span.name = "renamed".to_string();
    store.write_spans(vec![span]).expect("second write succeeds");

    // Both writes share the key; reading it yields the latest record.
    let key = "messages/0102030405060708090a0b0c0d0e0f10/0102030405060708.json";
    let read_back = store.read(key).expect("read succeeds");
    assert_eq!(read_back.name, "renamed");
}

#[test]
fn test_list_reports_each_key_once() {
    // Re-writing a key leaves several log entries, but a listing
    // reports one entry per object: the newest one per key.
    let mut store = MemStorageWriter::new("p".to_string());
    store.write("a", b"one").expect("write succeeds");
    store.write("b", b"two").expect("write succeeds");
    store.write("a", b"three").expect("write succeeds");

    let entries = store.list(10).expect("list succeeds");
    assert_eq!(entries.len(), 2);
    assert_eq!(entries[0].key, "p/a");
    assert_eq!(entries[1].key, "p/b");
    assert!(entries[0].last_modified > entries[1].last_modified);
}

#[test]
fn test_flush_is_a_no_op() {
    let mut store = MemStorageWriter::new("p".to_string());
    store.write("k", b"v").expect("write succeeds");
    store.flush().expect("flush succeeds");
    assert_eq!(store.list(10).expect("list succeeds").len(), 1);
}

#[test]
fn test_select_recent_orders_and_caps() {
    let entries = vec![
        SpanEntry { key: "a".to_string(), last_modified: 5 },
        SpanEntry { key: "b".to_string(), last_modified: 1 },
        SpanEntry { key: "c".to_string(), last_modified: 9 },
        SpanEntry { key: "d".to_string(), last_modified: 7 },
    ];
    let top = select_recent(entries, 2);
    assert_eq!(top.len(), 2);
    assert_eq!(top[0].key, "c");
    assert_eq!(top[1].key, "d");

    let all = select_recent(
        vec![SpanEntry { key: "x".to_string(), last_modified: 3 }],
        10,
    );
    assert_eq!(all.len(), 1);
}

#[test]
fn test_evicted_queue_evicts_oldest_first() {
    let mut q: EvictedQueue<u64> = EvictedQueue::new(3);
    q.push(1);
    q.push(2);
    q.push(3);
    assert_eq!(q.len(), 3);
    q.push(4);
    assert_eq!(q.len(), 3);
    assert_eq!(q.entries().as_slice(), &[2, 3, 4]);
}

use storage_engine::config::ProcessingConfig;
use storage_engine::convert::{convert_request_to_spans, convert_span};
use storage_engine::engine::EngineCore;
use storage_engine::error::ProcessingError;
use storage_engine::memory::MemStorageWriter;
use storage_engine::reader::SpanReader;
use storage_engine::storage::StorageWriter;
use storage_engine::wire::{ExportTraceServiceRequest, ResourceSpans, ScopeSpans, Span};

fn wire_span(seed: u8) -> Span {
    Span {
        trace_id: (0..16).map(|i| i as u8 + seed).collect(),
        span_id: (0..8).map(|i| i as u8 + seed).collect(),
        parent_span_id: Vec::new(),
        name: format!("op-{}", seed),
        start_time_unix_nano: 1_000,
        end_time_unix_nano: 2_000,
    }
}

fn request_of(spans: Vec<Span>) -> ExportTraceServiceRequest {
    ExportTraceServiceRequest {
        resource_spans: vec![ResourceSpans {
            scope_spans: vec![ScopeSpans { spans }],
        }],
    }
}

fn malformed_request() -> ExportTraceServiceRequest {
    let mut bad = wire_span(1);
    bad.span_id = Vec::new(); // zero-length span identifier
    request_of(vec![bad])
}

fn engine(batch_size: usize) -> EngineCore<MemStorageWriter> {
    EngineCore::new(
        MemStorageWriter::new("messages".to_string()),
        ProcessingConfig {
            batch_size,
            batch_timeout_ms: 10_000,
        },
    )
}

#[test]
fn test_conversion_idempotent() {
    // Converting the same wire span twice yields identical values.
    let span = wire_span(3);
    let first = convert_span(&span).expect("valid span converts");
    let second = convert_span(&span).expect("valid span converts");
    assert_eq!(first, second);
}

#[test]
fn test_conversion_fields() {
    let span = wire_span(0);
    let converted = convert_span(&span).expect("valid span converts");
    assert_eq!(
        converted.span_context.trace_id,
        "000102030405060708090a0b0c0d0e0f"
    );
    assert_eq!(converted.span_context.span_id, "0001020304050607");
    assert_eq!(converted.parent_span_id, None);
    assert_eq!(converted.name, "op-0");
    assert_eq!(converted.start_time_unix_nano, 1_000);
    assert_eq!(converted.end_time_unix_nano, 2_000);
}

#[test]
fn test_conversion_parent_and_errors() {
    let mut with_parent = wire_span(0);
    with_parent.parent_span_id = vec![9; 8];
    let converted = convert_span(&with_parent).expect("valid parent converts");
    assert_eq!(converted.parent_span_id.as_deref(), Some("0909090909090909"));

    let mut bad_parent = wire_span(0);
    bad_parent.parent_span_id = vec![9; 3];
    match convert_span(&bad_parent) {
        Err(ProcessingError::ValidationError(m)) => {
            assert_eq!(m, "invalid parent span identifier")
        }
        other => panic!("expected validation error, got {:?}", other),
    }

    let mut bad_trace = wire_span(0);
    bad_trace.trace_id = vec![1; 5];
    match convert_span(&bad_trace) {
        Err(ProcessingError::ValidationError(m)) => assert_eq!(m, "invalid trace identifier"),
        other => panic!("expected validation error, got {:?}", other),
    }

    let mut bad_span = wire_span(0);
    bad_span.span_id = Vec::new();
    match convert_span(&bad_span) {
        Err(ProcessingError::ValidationError(m)) => assert_eq!(m, "invalid span identifier"),
        other => panic!("expected validation error, got {:?}", other),
    }
}

#[test]
fn test_request_conversion_flattens_in_order() {
    let request = ExportTraceServiceRequest {
        resource_spans: vec![
            ResourceSpans {
                scope_spans: vec![
                    ScopeSpans { spans: vec![wire_span(1), wire_span(2)] },
                    ScopeSpans { spans: vec![wire_span(3)] },
                ],
            },
            ResourceSpans {
                scope_spans: vec![ScopeSpans { spans: vec![wire_span(4)] }],
            },
        ],
    };
    let spans = convert_request_to_spans(&request).expect("valid request converts");
    let names: Vec<&str> = spans.iter().map(|s| s.name.as_str()).collect();
    assert_eq!(names, vec!["op-1", "op-2", "op-3", "op-4"]);
}

#[test]
fn test_size_triggered_flush() {
    // With batch_size 2, the second arrival triggers the flush and the
    // timer is told to reset; the first does not.
    let mut core = engine(2);
    assert!(!core.handle_message(request_of(vec![wire_span(1)]), 10));
    assert_eq!(core.get_health_check().get_health_status().queue_size, 1);
    assert!(core.handle_message(request_of(vec![wire_span(2)]), 11));

    let status = core.get_health_check().get_health_status();
    assert_eq!(status.queue_size, 0);
    assert_eq!(status.total_processed, 2);
    assert_eq!(core.storage().list(10).expect("list succeeds").len(), 2);
}

#[test]
fn test_timer_flush_and_empty_tick() {
    let mut core = engine(10);
    core.handle_tick(5); // empty queue: a no-op tick
    assert_eq!(core.get_health_check().get_health_status().total_processed, 0);

    assert!(!core.handle_message(request_of(vec![wire_span(1)]), 6));
    core.handle_tick(7); // timeout fires with one item queued
    let status = core.get_health_check().get_health_status();
    assert_eq!(status.total_processed, 1);
    assert_eq!(status.queue_size, 0);
    assert_eq!(core.storage().list(10).expect("list succeeds").len(), 1);
}

#[test]
fn test_shutdown_drains_fully() {
    // K = 3 items with batch_size 10: none triggers a size flush, yet
    // all three must reach the storage port before shutdown completes.
    let mut core = engine(10);
    for seed in 1..=3 {
        assert!(!core.handle_message(request_of(vec![wire_span(seed)]), seed as u64));
    }
    assert_eq!(core.storage().list(10).expect("list succeeds").len(), 0);

    core.shutdown(99).expect("shutdown completes");

    let status = core.get_health_check().get_health_status();
    assert_eq!(status.total_processed, 3);
    assert_eq!(status.queue_size, 0);
    assert_eq!(core.storage().list(10).expect("list succeeds").len(), 3);
}

#[test]
fn test_malformed_item_is_isolated() {
    // A batch holding one malformed item among well-formed ones lands
    // every well-formed item and records exactly one failure; the
    // engine does not halt.
    let mut core = engine(10);
    assert!(!core.handle_message(request_of(vec![wire_span(1)]), 1));
    assert!(!core.handle_message(request_of(vec![wire_span(2)]), 2));
    assert!(!core.handle_message(malformed_request(), 3));
    core.handle_tick(4);

    let status = core.get_health_check().get_health_status();
    assert_eq!(status.total_processed, 2);
    assert_eq!(status.failed_writes, 1);
    assert!(status.is_healthy);
    assert_eq!(core.storage().list(10).expect("list succeeds").len(), 2);
}

#[test]
fn test_process_message_reports_validation_error() {
    let mut core = engine(10);
    match core.process_message(malformed_request(), 1) {
        Err(ProcessingError::ValidationError(_)) => {}
        other => panic!("expected validation error, got {:?}", other),
    }
    let status = core.get_health_check().get_health_status();
    assert_eq!(status.failed_writes, 1);
    assert_eq!(status.total_processed, 0);
}

#[test]
fn test_recent_spans_through_reader() {
    let mut store = MemStorageWriter::new("messages".to_string());
    let spans = convert_request_to_spans(&request_of(vec![wire_span(1), wire_span(2)]))
        .expect("valid request converts");
    store.write_spans(spans).expect("in-memory write succeeds");

    let reader = SpanReader::new(store);
    let summaries = reader.get_recent_spans(10).expect("query succeeds");
    assert_eq!(summaries.len(), 2);
    // Newest first: the second span was written last.
    assert_eq!(summaries[0].name, "op-2");
    assert_eq!(summaries[1].name, "op-1");
    assert_eq!(summaries[0].timestamp, 1_000);
    assert_eq!(summaries[0].duration_ns, 1_000);
}

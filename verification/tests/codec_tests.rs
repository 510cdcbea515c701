use storage_engine::codec::{encode_stored_span, parse_stored_span};
use storage_engine::storage::StoredSpan;

fn sample() -> StoredSpan {
    StoredSpan {
        trace_id: "0102030405060708090a0b0c0d0e0f10".to_string(),
        span_id: "0102030405060708".to_string(),
        name: "span-name".to_string(),
        kind: "Client".to_string(),
        start_time: 1,
        end_time: 2,
        status: "Ok".to_string(),
    }
}

#[test]
fn test_encode_exact_record() {
    let bytes = encode_stored_span(&sample());
    let expected = "{\"trace_id\":\"0102030405060708090a0b0c0d0e0f10\",\"span_id\":\"0102030405060708\",\"name\":\"span-name\",\"kind\":\"Client\",\"start_time\":1,\"end_time\":2,\"status\":\"Ok\"}";
    assert_eq!(bytes, expected.as_bytes());
}

#[test]
fn test_record_round_trip_plain() {
    let original = sample();
    let bytes = encode_stored_span(&original);
    let parsed = parse_stored_span(&bytes).expect("record must parse back");
    assert_eq!(parsed, original);
}

#[test]
fn test_record_round_trip_escapes() {
    let mut tricky = sample();
    tricky.name = "quote:\" backslash:\\ newline:\n tab:\t unicode:héllo→𝄞".to_string();
    let bytes = encode_stored_span(&tricky);
    let parsed = parse_stored_span(&bytes).expect("escaped record must parse back");
    assert_eq!(parsed, tricky);
}

#[test]
fn test_record_round_trip_extreme_times() {
    let mut wide = sample();
    wide.start_time = 0;
    wide.end_time = u64::MAX;
    let bytes = encode_stored_span(&wide);
    let parsed = parse_stored_span(&bytes).expect("record with extreme times must parse back");
    assert_eq!(parsed.start_time, 0);
    assert_eq!(parsed.end_time, u64::MAX);
}

#[test]
fn test_parse_rejects_garbage() {
    assert!(parse_stored_span(b"junk").is_none());
    assert!(parse_stored_span(b"").is_none());
    assert!(parse_stored_span(b"{\"trace_id\":\"ab\"}").is_none());
}

#[test]
fn test_parse_rejects_trailing_data() {
    let mut bytes = encode_stored_span(&sample());
    bytes.push(b' ');
    assert!(parse_stored_span(&bytes).is_none());
}

#[test]
fn test_encoded_record_is_json() {
    // The record bytes must be readable by an ordinary JSON parser
    // with the same field values.
    let mut tricky = sample();
    tricky.name = "a \"quoted\" name with \\ and \u{1}".to_string();
    let bytes = encode_stored_span(&tricky);
    let value: serde_json::Value = serde_json::from_slice(&bytes).expect("record must be JSON");
    assert_eq!(
        value.get("trace_id").and_then(|v| v.as_str()),
        Some(tricky.trace_id.as_str())
    );
    assert_eq!(
        value.get("name").and_then(|v| v.as_str()),
        Some(tricky.name.as_str())
    );
    assert_eq!(value.get("start_time").and_then(|v| v.as_u64()), Some(1));
    assert_eq!(value.get("end_time").and_then(|v| v.as_u64()), Some(2));
    assert_eq!(value.get("status").and_then(|v| v.as_str()), Some("Ok"));
    assert_eq!(value.get("kind").and_then(|v| v.as_str()), Some("Client"));
}

use qbench::json::JsonValue;
use qbench::loki::{
    build_loki_push_body, flatten_json, loki_batch_size, loki_build_info_from_response,
    loki_entries, loki_flush_accepts, loki_push_accepts, parse_timestamp_to_nanoseconds,
    LokiSendError,
};

fn obj(fields: Vec<(&str, JsonValue)>) -> JsonValue {
    JsonValue::Object(fields.into_iter().map(|(k, v)| (k.to_string(), v)).collect())
}

#[test]
fn test_flatten_json() {
    let json_value = obj(vec![
        ("a", JsonValue::Number("1".to_string())),
        (
            "b",
            obj(vec![
                ("c", JsonValue::Text("2".to_string())),
                (
                    "d",
                    JsonValue::Array(vec![
                        JsonValue::Text("3".to_string()),
                        JsonValue::Number("4".to_string()),
                    ]),
                ),
            ]),
        ),
    ]);

    let mut flattened: Vec<(String, String)> = Vec::new();
    flatten_json(&json_value, "", &mut flattened);

    let expected = vec![
        ("a".to_string(), "1".to_string()),
        ("b.c".to_string(), "2".to_string()),
        ("b.d".to_string(), "3".to_string()),
        ("b.d[1]".to_string(), "4".to_string()),
    ];

    assert_eq!(flattened, expected);
}

#[test]
fn test_flatten_json_scalars() {
    let json_value = obj(vec![
        ("t", JsonValue::Bool(true)),
        ("n", JsonValue::Null),
        ("s", JsonValue::Text("x".to_string())),
    ]);
    let mut flattened: Vec<(String, String)> = Vec::new();
    flatten_json(&json_value, "", &mut flattened);
    assert_eq!(
        flattened,
        vec![
            ("t".to_string(), "true".to_string()),
            ("n".to_string(), "null".to_string()),
            ("s".to_string(), "x".to_string()),
        ]
    );
}

#[test]
fn test_parse_timestamp_to_nanoseconds() {
    // Define a sample RFC3339 timestamp
    let timestamp_str = "2020-01-01T12:00:00Z"; // January 1, 2020, at 12:00:00 UTC

    // Expected nanoseconds since the UNIX epoch for the given timestamp
    // This value is calculated based on the specific timestamp above
    let expected = "1577880000000000000"; // This value should be the equivalent in nanoseconds

    // Call the function with the sample timestamp
    let result = parse_timestamp_to_nanoseconds(timestamp_str).unwrap();

    // Assert that the result is as expected
    assert_eq!(
        result, expected,
        "The parsed timestamp did not match the expected value"
    );
}

#[test]
fn test_parse_timestamp_rejects_invalid() {
    assert!(parse_timestamp_to_nanoseconds("not a timestamp").is_err());
    assert!(parse_timestamp_to_nanoseconds("2020-13-45T99:00:00Z").is_err());
    assert!(parse_timestamp_to_nanoseconds("").is_err());
}

#[test]
fn test_parse_timestamp_with_offset() {
    // One hour east of UTC: one hour earlier as an instant.
    let result = parse_timestamp_to_nanoseconds("2020-01-01T12:00:00+01:00").unwrap();
    assert_eq!(result, "1577876400000000000");
}

#[test]
fn test_loki_entries_and_push_body() {
    // A single document with a nested object and array: the push body has
    // exactly one stream whose value triple is the timestamp in
    // nanoseconds, the document's rendering, and the flattened map.
    let batch =
        b"{\"timestamp\":\"2020-01-01T12:00:00Z\",\"b\":{\"c\":\"2\",\"d\":[\"3\",4]}}\n";
    let entries = loki_entries(batch).unwrap();
    assert_eq!(entries.len(), 1);
    assert_eq!(entries[0].timestamp, "1577880000000000000");
    assert_eq!(
        entries[0].log_line,
        r#"{"b":{"c":"2","d":["3",4]},"timestamp":"2020-01-01T12:00:00Z"}"#
    );
    assert_eq!(
        entries[0].metadata,
        vec![
            ("b.c".to_string(), "2".to_string()),
            ("b.d".to_string(), "3".to_string()),
            ("b.d[1]".to_string(), "4".to_string()),
            ("timestamp".to_string(), "2020-01-01T12:00:00Z".to_string()),
        ]
    );
    let body = build_loki_push_body(&entries);
    assert_eq!(
        body,
        r#"{"streams":[{"stream":{"label":"benchmark"},"values":[["1577880000000000000","{\"b\":{\"c\":\"2\",\"d\":[\"3\",4]},\"timestamp\":\"2020-01-01T12:00:00Z\"}",{"b.c":"2","b.d":"3","b.d[1]":"4","timestamp":"2020-01-01T12:00:00Z"}]]}]}"#
    );
}

#[test]
fn test_loki_entries_errors() {
    assert!(matches!(loki_entries(b"not json\n"), Err(LokiSendError::InvalidJson)));
    assert!(matches!(
        loki_entries(b"{\"a\":1}\n"),
        Err(LokiSendError::MissingTimestamp)
    ));
    assert!(matches!(
        loki_entries(b"{\"timestamp\":\"nope\"}\n"),
        Err(LokiSendError::BadTimestamp)
    ));
}

#[test]
fn test_loki_constants_and_statuses() {
    assert_eq!(loki_batch_size(), 2 * 1024 * 1024);
    assert!(loki_push_accepts(200));
    assert!(loki_push_accepts(204));
    assert!(!loki_push_accepts(202));
    assert!(loki_flush_accepts(204));
    assert!(!loki_flush_accepts(500));
}

#[test]
fn test_loki_build_info() {
    let body = b"{\"version\":\"2.9.0\",\"buildDate\":\"2023-09-01\",\"revision\":\"abc123\"}";
    let info = loki_build_info_from_response(body).unwrap();
    assert_eq!(info.version, "2.9.0");
    assert_eq!(info.commit_date, "2023-09-01");
    assert_eq!(info.commit_hash, "abc123");
    assert_eq!(info.build_target, "");

    let sparse = loki_build_info_from_response(b"{}").unwrap();
    assert_eq!(sparse.version, "");

    assert!(loki_build_info_from_response(b"not json").is_err());
}

use qbench::metrics::{parse_number_from_metrics, parse_sci_u64, try_parse_number_from_metrics};

#[test]
fn test_parse_sci_plain_integers() {
    assert_eq!(parse_sci_u64("0"), Some(0));
    assert_eq!(parse_sci_u64("42"), Some(42));
    assert_eq!(parse_sci_u64("007"), Some(7));
    assert_eq!(parse_sci_u64("18446744073709551615"), Some(u64::MAX));
}

#[test]
fn test_parse_sci_truncates_fractions() {
    assert_eq!(parse_sci_u64("1.99"), Some(1));
    assert_eq!(parse_sci_u64("0.5"), Some(0));
    assert_eq!(parse_sci_u64(".5"), Some(0));
    assert_eq!(parse_sci_u64("3."), Some(3));
}

#[test]
fn test_parse_sci_scientific_notation() {
    assert_eq!(parse_sci_u64("1.5e3"), Some(1500));
    assert_eq!(parse_sci_u64("1.234e3"), Some(1234));
    assert_eq!(parse_sci_u64("2e0"), Some(2));
    assert_eq!(parse_sci_u64("12345e-2"), Some(123));
    assert_eq!(parse_sci_u64("5e-10"), Some(0));
    assert_eq!(parse_sci_u64("1E2"), Some(100));
    assert_eq!(parse_sci_u64("4.2e+6"), Some(4200000));
}

#[test]
fn test_parse_sci_saturates() {
    assert_eq!(parse_sci_u64("1e20"), Some(u64::MAX));
    assert_eq!(parse_sci_u64("9e99"), Some(u64::MAX));
    assert_eq!(parse_sci_u64("1e999999999999999999999999"), Some(u64::MAX));
    assert_eq!(parse_sci_u64("-5"), Some(0));
    assert_eq!(parse_sci_u64("-1.5e3"), Some(0));
    assert_eq!(parse_sci_u64("1e-999999999999999999999999"), Some(0));
}

#[test]
fn test_parse_sci_rejects_malformed() {
    assert_eq!(parse_sci_u64(""), None);
    assert_eq!(parse_sci_u64("abc"), None);
    assert_eq!(parse_sci_u64("1.2.3"), None);
    assert_eq!(parse_sci_u64("1e"), None);
    assert_eq!(parse_sci_u64("e5"), None);
    assert_eq!(parse_sci_u64("1x"), None);
    assert_eq!(parse_sci_u64("."), None);
}

const SAMPLE_METRICS: &str = "# HELP loki_ingester_chunk_entries Distribution of entries per chunk.\n\
loki_ingester_chunk_entries_sum 1.5e3\n\
loki_ingester_chunk_size_bytes_sum 123456\n\
loki_ingester_chunks_stored_total 7\n";

#[test]
fn test_parse_number_from_metrics_finds_values() {
    assert_eq!(
        parse_number_from_metrics(SAMPLE_METRICS, "loki_ingester_chunk_entries_sum"),
        1500
    );
    assert_eq!(
        parse_number_from_metrics(SAMPLE_METRICS, "loki_ingester_chunk_size_bytes_sum"),
        123456
    );
    assert_eq!(
        parse_number_from_metrics(SAMPLE_METRICS, "loki_ingester_chunks_stored_total"),
        7
    );
}

#[test]
fn test_parse_number_from_metrics_missing_defaults_to_zero() {
    assert_eq!(parse_number_from_metrics(SAMPLE_METRICS, "loki_not_a_metric"), 0);
    assert_eq!(parse_number_from_metrics("", "anything"), 0);
}

#[test]
fn test_parse_number_from_metrics_prefix_match_first_line_wins() {
    let text = "metric_a 1\nmetric_a 2\n";
    assert_eq!(parse_number_from_metrics(text, "metric_a"), 1);
}

#[test]
fn test_parse_number_from_metrics_bare_name_reads_zero() {
    // A line with the name and no value field falls back to 0.
    assert_eq!(parse_number_from_metrics("metric_b\n", "metric_b"), 0);
}

#[test]
fn test_try_parse_number_from_metrics_malformed_value() {
    assert_eq!(try_parse_number_from_metrics("metric_c banana\n", "metric_c"), None);
    assert_eq!(
        try_parse_number_from_metrics(SAMPLE_METRICS, "loki_ingester_chunks_stored_total"),
        Some(7)
    );
}

#[test]
fn test_parse_number_from_metrics_crlf_lines() {
    let text = "metric_d 9\r\nmetric_e 10\r\n";
    assert_eq!(parse_number_from_metrics(text, "metric_d"), 9);
    assert_eq!(parse_number_from_metrics(text, "metric_e"), 10);
}

use qbench::expand::expand_uris;
use qbench::source::UriSource;

#[test]
fn test_uri_expand() {
    let uri = "http://localhost:3000/{0..5}.json";
    let uris = expand_uris(uri.to_string()).unwrap();

    assert_eq!(
        uris,
        vec![
            "http://localhost:3000/0.json",
            "http://localhost:3000/1.json",
            "http://localhost:3000/2.json",
            "http://localhost:3000/3.json",
            "http://localhost:3000/4.json",
        ]
    )
}

#[test]
fn test_uri_expand_zero_padded() {
    let uris = expand_uris("a/{00..03}.x".to_string()).unwrap();
    assert_eq!(uris, vec!["a/00.x", "a/01.x", "a/02.x"]);
}

#[test]
fn test_uri_expand_nested_ranges() {
    let uris = expand_uris("a/{0..2}/{0..2}".to_string()).unwrap();
    assert_eq!(uris, vec!["a/0/0", "a/0/1", "a/1/0", "a/1/1"]);
}

#[test]
fn test_uri_expand_no_range_unchanged() {
    let uris = expand_uris("https://host/data.json.gz".to_string()).unwrap();
    assert_eq!(uris, vec!["https://host/data.json.gz"]);
}

#[test]
fn test_uri_expand_empty_range_fails() {
    assert!(expand_uris("a/{5..2}.json".to_string()).is_err());
    assert!(expand_uris("a/{3..3}.json".to_string()).is_err());
}

#[test]
fn test_uri_expand_huge_bound_fails() {
    assert!(expand_uris("a/{0..99999999999999999999999999}.json".to_string()).is_err());
}

#[test]
fn test_uri_expand_ignores_malformed_tokens() {
    let uris = expand_uris("a/{x..2}/{0..2}".to_string()).unwrap();
    assert_eq!(uris, vec!["a/{x..2}/0", "a/{x..2}/1"]);
}

#[test]
fn test_scan_ranges_fields() {
    let ranges = qbench::expand::scan_ranges("x{07..19}y").unwrap();
    assert_eq!(ranges.len(), 1);
    assert_eq!(ranges[0].replace_str, "{07..19}");
    assert_eq!(ranges[0].start, 7);
    assert_eq!(ranges[0].end, 19);
    assert_eq!(ranges[0].zero_pad_by, 2);

    let ranges = qbench::expand::scan_ranges("x{7..19}y").unwrap();
    assert_eq!(ranges[0].zero_pad_by, 0);
}

#[test]
fn test_uri_source_expands() {
    let source = UriSource::new("http://h/{0..3}.json.gz").unwrap();
    assert_eq!(
        source.uris(),
        vec!["http://h/0.json.gz", "http://h/1.json.gz", "http://h/2.json.gz"]
    );
}

#[test]
fn test_uri_source_rejects_bad_template() {
    assert!(UriSource::new("http://h/{9..1}.json").is_err());
}

use qbench::elasticsearch::{
    build_bulk_payload, check_bulk_response, es_build_info_from_response, es_bulk_path,
    es_commit_paths, es_index_info_from_response, es_stats_path, BulkCheck,
};
use qbench::engine::Engine;
use qbench::quickwit::{
    qw_build_info_from_response, qw_describe_path, qw_index_info_from_response, qw_ingest_path,
    qw_send_decision, QwSendStep,
};
use qbench::source::{is_gzip_uri, is_http_uri};

#[test]
fn test_build_bulk_payload_prepends_action_lines() {
    let batch = b"{\"a\":1}\n{\"b\":2}\n";
    let payload = build_bulk_payload(batch);
    let expected = b"{\"create\": {  }}\n{\"a\":1}\n{\"create\": {  }}\n{\"b\":2}\n".to_vec();
    assert_eq!(payload, expected);
}

#[test]
fn test_build_bulk_payload_skips_empty_lines() {
    let batch = b"{\"a\":1}\n\n{\"b\":2}";
    let payload = build_bulk_payload(batch);
    let expected = b"{\"create\": {  }}\n{\"a\":1}\n{\"create\": {  }}\n{\"b\":2}\n".to_vec();
    assert_eq!(payload, expected);
}

#[test]
fn test_check_bulk_response_cases() {
    assert_eq!(check_bulk_response(b"{\"errors\":false,\"items\":[]}"), BulkCheck::NoErrors);
    assert_eq!(check_bulk_response(b"{\"errors\":true}"), BulkCheck::HasErrors);
    assert_eq!(check_bulk_response(b"{}"), BulkCheck::NoErrors);
    assert_eq!(check_bulk_response(b"{\"errors\":1}"), BulkCheck::FlagNotBool);
    assert_eq!(check_bulk_response(b"garbage"), BulkCheck::NotJson);
}

#[test]
fn test_es_index_info_extraction() {
    let body = b"{\"_all\":{\"total\":{\"docs\":{\"count\":10000},\"segments\":{\"count\":1},\"store\":{\"size_in_bytes\":1234567}}}}";
    let info = es_index_info_from_response(body).unwrap();
    assert_eq!(info.num_docs, 10000);
    assert_eq!(info.num_splits, 1);
    assert_eq!(info.num_bytes, 1234567);

    assert!(es_index_info_from_response(b"{}").is_err());
    assert!(es_index_info_from_response(b"nope").is_err());
}

#[test]
fn test_es_build_info_extraction() {
    let body = b"{\"version\":{\"number\":\"8.1.0\",\"build_hash\":\"deadbeef\",\"build_type\":\"tar\"}}";
    let info = es_build_info_from_response(body).unwrap();
    assert_eq!(info.version, "8.1.0");
    assert_eq!(info.commit_date, "");
    assert_eq!(info.commit_hash, "deadbeef");
    assert_eq!(info.build_target, "tar");
}

#[test]
fn test_es_paths() {
    assert_eq!(es_bulk_path("idx"), "/idx/_bulk");
    assert_eq!(es_stats_path("idx"), "/idx/_stats");
    assert_eq!(es_commit_paths("idx", false), vec!["/idx/_refresh"]);
    assert_eq!(
        es_commit_paths("idx", true),
        vec!["/idx/_refresh", "/idx/_forcemerge?max_num_segments=1"]
    );
}

#[test]
fn test_qw_ingest_path_commit_on_last() {
    assert_eq!(qw_ingest_path("idx", false, false), "/api/v1/idx/ingest");
    assert_eq!(qw_ingest_path("idx", true, false), "/api/v1/idx/ingest-v2");
    assert_eq!(qw_ingest_path("idx", false, true), "/api/v1/idx/ingest?commit=force");
    assert_eq!(qw_describe_path("idx"), "/api/v1/indexes/idx/describe");
}

#[test]
fn test_qw_send_decision() {
    assert_eq!(qw_send_decision(429), QwSendStep::RetryAfterWait);
    assert_eq!(qw_send_decision(200), QwSendStep::Done);
    assert_eq!(qw_send_decision(201), QwSendStep::Done);
    assert_eq!(qw_send_decision(500), QwSendStep::Fail);
    assert_eq!(qw_send_decision(404), QwSendStep::Fail);
}

#[test]
fn test_qw_index_info_extraction() {
    let body = b"{\"num_published_docs\":5,\"num_published_splits\":2,\"size_published_splits\":999}";
    let info = qw_index_info_from_response(body).unwrap();
    assert_eq!(info.num_docs, 5);
    assert_eq!(info.num_splits, 2);
    assert_eq!(info.num_bytes, 999);
    assert!(qw_index_info_from_response(b"{\"num_published_docs\":5}").is_err());
}

#[test]
fn test_qw_build_info_extraction() {
    let body = b"{\"build\":{\"version\":\"0.8\",\"commit_date\":\"2024-01-01\",\"commit_hash\":\"c0ffee\",\"build_target\":\"x86_64\"}}";
    let info = qw_build_info_from_response(body).unwrap();
    assert_eq!(info.version, "0.8");
    assert_eq!(info.commit_date, "2024-01-01");
    assert_eq!(info.commit_hash, "c0ffee");
    assert_eq!(info.build_target, "x86_64");
}

#[test]
fn test_engine_names_and_hosts() {
    assert_eq!(Engine::Quickwit.default_host(), "127.0.0.1:7280");
    assert_eq!(Engine::Elasticsearch.default_host(), "127.0.0.1:9200");
    assert_eq!(Engine::Opensearch.default_host(), "127.0.0.1:9301");
    assert_eq!(Engine::Loki.default_host(), "127.0.0.1:3100");
    assert_eq!(Engine::Parseable.default_host(), "127.0.0.1:8000");
    assert_eq!(Engine::Signoz.default_host(), "127.0.0.1:3301");
    assert_eq!(Engine::ZincObserve.default_host(), "127.0.0.1:5080");
    assert_eq!(Engine::Loki.as_ref(), "loki");
    assert_eq!(Engine::from_str("quickwit"), Some(Engine::Quickwit));
    assert_eq!(Engine::from_str("zincobserve"), Some(Engine::ZincObserve));
    assert_eq!(Engine::from_str("unknown"), None);
}

#[test]
fn test_uri_kind_helpers() {
    assert!(is_http_uri("http://x/y"));
    assert!(is_http_uri("https://x/y"));
    assert!(!is_http_uri("/data/file.json"));
    assert!(is_gzip_uri("a/b.json.gz"));
    assert!(!is_gzip_uri("a/b.json"));
}

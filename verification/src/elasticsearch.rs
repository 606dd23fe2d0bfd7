use vstd::prelude::*;

use crate::json::{
    json_field, json_of, json_string_field, json_u64_field, parse_json, JsonModel, JsonValue,
};
use crate::lines::{byte_lines, split_lines};
use crate::sink::IndexInfo;

verus! {

broadcast use vstd::seq_lib::group_seq_lib_default, vstd::seq::group_seq_axioms;

/// The action line that precedes every document of a bulk request.
pub open spec fn bulk_meta_line() -> Seq<u8> {
    seq![
        123u8,
        34u8,
        99u8,
        114u8,
        101u8,
        97u8,
        116u8,
        101u8,
        34u8,
        58u8,
        32u8,
        123u8,
        32u8,
        32u8,
        125u8,
        125u8,
        10u8,
    ]
}

/// The bulk request body for a list of input lines: every non-empty line
/// is preceded by the action line and followed by a newline; empty lines
/// are dropped.
pub open spec fn bulk_payload_of(ls: Seq<Seq<u8>>) -> Seq<u8>
    decreases ls.len(),
{
    if ls.len() == 0 {
        Seq::empty()
    } else if ls[0].len() == 0 {
        bulk_payload_of(ls.drop_first())
    } else {
        bulk_meta_line() + ls[0] + seq![10u8] + bulk_payload_of(ls.drop_first())
    }
}

/// The bulk request body for a raw NDJSON batch.
pub open spec fn spec_bulk_payload(batch: Seq<u8>) -> Seq<u8> {
    bulk_payload_of(byte_lines(batch))
}

/// Appends the bulk action line to `out`.
fn push_bulk_meta(out: &mut Vec<u8>)
    ensures
        final(out)@ == old(out)@ + bulk_meta_line(),
{
    out.push(123);
    out.push(34);
    out.push(99);
    out.push(114);
    out.push(101);
    out.push(97);
    out.push(116);
    out.push(101);
    out.push(34);
    out.push(58);
    out.push(32);
    out.push(123);
    out.push(32);
    out.push(32);
    out.push(125);
    out.push(125);
    out.push(10);
    proof {
        assert(final(out)@ =~= old(out)@ + bulk_meta_line());
    }
}

/// Transforms a raw NDJSON batch into an Elasticsearch/OpenSearch bulk
/// request body: `{"create": {  }}` before each non-empty line, each
/// document line newline-terminated.
pub fn build_bulk_payload(batch: &[u8]) -> (r: Vec<u8>)
    ensures
        r@ == spec_bulk_payload(batch@),
{
    let lines = split_lines(batch);
    let ghost ls = lines.deep_view();
    let mut out: Vec<u8> = Vec::new();
    let mut j: usize = 0;
    proof {
        assert(ls.skip(0) =~= ls);
        assert(out@ + bulk_payload_of(ls.skip(0)) =~= bulk_payload_of(ls));
    }
    while j < lines.len()
        invariant
            ls == lines.deep_view(),
            0 <= j <= lines@.len(),
            bulk_payload_of(ls) == out@ + bulk_payload_of(ls.skip(j as int)),
        decreases lines@.len() - j,
    {
        let ghost pre_out = out@;
        proof {
            assert(ls.skip(j as int).len() > 0);
            assert(ls.skip(j as int)[0] == ls[j as int]);
            assert(ls.skip(j as int).drop_first() =~= ls.skip(j + 1));
            assert(lines@[j as int]@ == ls[j as int]);
        }
        let line = &lines[j];
        if line.len() > 0 {
            push_bulk_meta(&mut out);
            let mut copy = line.clone();
            proof {
                assert(copy.deep_view() =~= copy@);
                assert(copy@ =~= ls[j as int]);
            }
            out.append(&mut copy);
            out.push(10);
            proof {
                assert(out@ =~= pre_out + (bulk_meta_line() + ls[j as int] + seq![10u8]));
                assert(pre_out + (bulk_meta_line() + ls[j as int] + seq![10u8]) + bulk_payload_of(
                    ls.skip(j + 1),
                ) =~= pre_out + (bulk_meta_line() + ls[j as int] + seq![10u8] + bulk_payload_of(
                    ls.skip(j + 1),
                )));
            }
        }
        j += 1;
    }
    proof {
        assert(ls.skip(ls.len() as int) =~= Seq::<Seq<u8>>::empty());
        assert(out@ + Seq::<u8>::empty() =~= out@);
    }
    out
}

/// How a 2xx bulk response reads.
#[derive(Debug, Clone, Copy, PartialEq, Eq, Structural)]
pub enum BulkCheck {
    /// The body is JSON and its `errors` flag is absent or `false`.
    NoErrors,
    /// The body is JSON and its `errors` flag is `true`: the whole batch
    /// counts as failed.
    HasErrors,
    /// The body is JSON but its `errors` field is not a boolean.
    FlagNotBool,
    /// The body is not JSON.
    NotJson,
}

/// What a parsed bulk response body means.
pub open spec fn spec_bulk_check(m: JsonModel) -> BulkCheck {
    match json_field(m, "errors"@) {
        Some(JsonModel::Bool(true)) => BulkCheck::HasErrors,
        Some(JsonModel::Bool(false)) => BulkCheck::NoErrors,
        Some(_) => BulkCheck::FlagNotBool,
        None => BulkCheck::NoErrors,
    }
}

/// Reads a bulk response body: the batch failed exactly when the body's
/// `errors` flag is `true`.
pub fn check_bulk_response(body: &[u8]) -> (r: BulkCheck)
    ensures
        match json_of(body@) {
            Some(m) => r == spec_bulk_check(m),
            None => r == BulkCheck::NotJson,
        },
{
    match parse_json(body) {
        None => BulkCheck::NotJson,
        Some(v) => match crate::json::get_field(&v, "errors") {
            Some(JsonValue::Bool(b)) => {
                if *b {
                    BulkCheck::HasErrors
                } else {
                    BulkCheck::NoErrors
                }
            },
            Some(_) => BulkCheck::FlagNotBool,
            None => BulkCheck::NoErrors,
        },
    }
}

/// Why an engine response could not be read.
#[derive(Debug, Clone, Copy, PartialEq, Eq, Structural)]
pub enum ResponseError {
    /// The body is not JSON.
    NotJson,
    /// A field the adapter needs is missing or of the wrong kind.
    FieldMissing,
}

/// The index statistics in an Elasticsearch `_stats` response:
/// `_all.total.docs.count`, `_all.total.segments.count` and
/// `_all.total.store.size_in_bytes`.
pub open spec fn spec_es_index_info(m: JsonModel) -> Option<IndexInfo> {
    match json_field(m, "_all"@) {
        Some(all) => match json_field(all, "total"@) {
            Some(total) => {
                let docs = match json_field(total, "docs"@) {
                    Some(d) => json_u64_field(d, "count"@),
                    None => None,
                };
                let segs = match json_field(total, "segments"@) {
                    Some(d) => json_u64_field(d, "count"@),
                    None => None,
                };
                let store = match json_field(total, "store"@) {
                    Some(d) => json_u64_field(d, "size_in_bytes"@),
                    None => None,
                };
                match (docs, segs, store) {
                    (Some(a), Some(b), Some(c)) => Some(
                        IndexInfo { num_docs: a, num_splits: b, num_bytes: c },
                    ),
                    _ => None,
                }
            },
            None => None,
        },
        None => None,
    }
}

/// Reads an Elasticsearch `_stats` response body into `IndexInfo`.
pub fn es_index_info_from_response(body: &[u8]) -> (r: Result<IndexInfo, ResponseError>)
    ensures
        match r {
            Ok(info) => json_of(body@) is Some && spec_es_index_info(json_of(body@)->Some_0)
                == Some(info),
            Err(ResponseError::NotJson) => json_of(body@) is None,
            Err(ResponseError::FieldMissing) => json_of(body@) is Some && spec_es_index_info(
                json_of(body@)->Some_0,
            ) is None,
        },
{
    let v = match parse_json(body) {
        Some(v) => v,
        None => {
            return Err(ResponseError::NotJson);
        },
    };
    let all = match crate::json::get_field(&v, "_all") {
        Some(x) => x,
        None => {
            return Err(ResponseError::FieldMissing);
        },
    };
    let total = match crate::json::get_field(all, "total") {
        Some(x) => x,
        None => {
            return Err(ResponseError::FieldMissing);
        },
    };
    let docs = match crate::json::get_field(total, "docs") {
        Some(d) => crate::json::get_u64_field(d, "count"),
        None => None,
    };
    let segs = match crate::json::get_field(total, "segments") {
        Some(d) => crate::json::get_u64_field(d, "count"),
        None => None,
    };
    let store = match crate::json::get_field(total, "store") {
        Some(d) => crate::json::get_u64_field(d, "size_in_bytes"),
        None => None,
    };
    match (docs, segs, store) {
        (Some(a), Some(b), Some(c)) => Ok(IndexInfo { num_docs: a, num_splits: b, num_bytes: c }),
        _ => Err(ResponseError::FieldMissing),
    }
}

/// The build information in an Elasticsearch root response, as
/// `(version, commit_date, commit_hash, build_target)` texts:
/// `version.number`, the empty date, `version.build_hash` and
/// `version.build_type`.
pub open spec fn spec_es_build_info(m: JsonModel) -> Option<
    (Seq<char>, Seq<char>, Seq<char>, Seq<char>),
> {
    match json_field(m, "version"@) {
        Some(ver) => {
            let number = json_string_field(ver, "number"@);
            let hash = json_string_field(ver, "build_hash"@);
            let btype = json_string_field(ver, "build_type"@);
            match (number, hash, btype) {
                (Some(n), Some(h), Some(t)) => Some((n, Seq::empty(), h, t)),
                _ => None,
            }
        },
        None => None,
    }
}

/// Reads an Elasticsearch root response body into build-information
/// strings.
pub fn es_build_info_from_response(body: &[u8]) -> (r: Result<
    crate::sink::BuildInfo,
    ResponseError,
>)
    ensures
        match r {
            Ok(info) => json_of(body@) is Some && spec_es_build_info(json_of(body@)->Some_0)
                == Some((info.version@, info.commit_date@, info.commit_hash@, info.build_target@)),
            Err(ResponseError::NotJson) => json_of(body@) is None,
            Err(ResponseError::FieldMissing) => json_of(body@) is Some && spec_es_build_info(
                json_of(body@)->Some_0,
            ) is None,
        },
{
    let v = match parse_json(body) {
        Some(v) => v,
        None => {
            return Err(ResponseError::NotJson);
        },
    };
    let ver = match crate::json::get_field(&v, "version") {
        Some(x) => x,
        None => {
            return Err(ResponseError::FieldMissing);
        },
    };
    let number = crate::json::get_string_field(ver, "number");
    let hash = crate::json::get_string_field(ver, "build_hash");
    let btype = crate::json::get_string_field(ver, "build_type");
    match (number, hash, btype) {
        (Some(n), Some(h), Some(t)) => Ok(
            crate::sink::BuildInfo {
                version: n.clone(),
                commit_date: String::new(),
                commit_hash: h.clone(),
                build_target: t.clone(),
            },
        ),
        _ => Err(ResponseError::FieldMissing),
    }
}

/// The request paths of the commit step: a `_refresh`, then a force-merge
/// to one segment when merging is on.
pub fn es_commit_paths(index_id: &str, merge: bool) -> (r: Vec<String>)
    ensures
        merge ==> r.deep_view() == seq![
            "/"@ + index_id@ + "/_refresh"@,
            "/"@ + index_id@ + "/_forcemerge?max_num_segments=1"@,
        ],
        !merge ==> r.deep_view() == seq!["/"@ + index_id@ + "/_refresh"@],
{
    let mut refresh = String::from_str("/");
    refresh.append(index_id);
    refresh.append("/_refresh");
    let mut out: Vec<String> = Vec::new();
    out.push(refresh);
    if merge {
        let mut m = String::from_str("/");
        m.append(index_id);
        m.append("/_forcemerge?max_num_segments=1");
        out.push(m);
    }
    proof {
        if merge {
            assert(out.deep_view() =~= seq![
                "/"@ + index_id@ + "/_refresh"@,
                "/"@ + index_id@ + "/_forcemerge?max_num_segments=1"@,
            ]);
        } else {
            assert(out.deep_view() =~= seq!["/"@ + index_id@ + "/_refresh"@]);
        }
    }
    out
}

/// The ingest path of the bulk request.
pub fn es_bulk_path(index_id: &str) -> (r: String)
    ensures
        r@ == "/"@ + index_id@ + "/_bulk"@,
{
    let mut p = String::from_str("/");
    p.append(index_id);
    p.append("/_bulk");
    p
}

/// The path of the statistics request.
pub fn es_stats_path(index_id: &str) -> (r: String)
    ensures
        r@ == "/"@ + index_id@ + "/_stats"@,
{
    let mut p = String::from_str("/");
    p.append(index_id);
    p.append("/_stats");
    p
}

} // verus!

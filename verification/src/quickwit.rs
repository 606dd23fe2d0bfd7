use vstd::prelude::*;

use crate::elasticsearch::ResponseError;
use crate::json::{json_field, json_of, json_string_field, json_u64_field, parse_json, JsonModel};
use crate::sink::IndexInfo;

verus! {

/// The ingest request path and query for one batch: the v2 endpoint when
/// requested, and `commit=force` appended exactly on the final batch of
/// the run.
pub open spec fn spec_qw_ingest_path(
    index_id: Seq<char>,
    ingest_v2: bool,
    last: bool,
) -> Seq<char> {
    let base = "/api/v1/"@ + index_id + (if ingest_v2 {
        "/ingest-v2"@
    } else {
        "/ingest"@
    });
    if last {
        base + "?commit=force"@
    } else {
        base
    }
}

pub fn qw_ingest_path(index_id: &str, ingest_v2: bool, last: bool) -> (r: String)
    ensures
        r@ == spec_qw_ingest_path(index_id@, ingest_v2, last),
{
    let mut p = String::from_str("/api/v1/");
    p.append(index_id);
    if ingest_v2 {
        p.append("/ingest-v2");
    } else {
        p.append("/ingest");
    }
    if last {
        p.append("?commit=force");
    }
    proof {
        assert(p@ =~= spec_qw_ingest_path(index_id@, ingest_v2, last));
    }
    p
}

/// What the send loop does with one ingest response status.
#[derive(Debug, Clone, Copy, PartialEq, Eq, Structural)]
pub enum QwSendStep {
    /// The engine is shedding load: wait a second and send the same
    /// request again.
    RetryAfterWait,
    /// The batch is ingested.
    Done,
    /// Any other status is a terminal failure of this send.
    Fail,
}

/// The send policy on a response status: 429 waits and retries the same
/// request indefinitely, any 2xx succeeds, anything else fails.
pub fn qw_send_decision(status: u16) -> (r: QwSendStep)
    ensures
        status == 429 ==> r == QwSendStep::RetryAfterWait,
        status != 429 && 200 <= status <= 299 ==> r == QwSendStep::Done,
        status != 429 && !(200 <= status <= 299) ==> r == QwSendStep::Fail,
{
    if status == 429 {
        QwSendStep::RetryAfterWait
    } else if 200 <= status && status <= 299 {
        QwSendStep::Done
    } else {
        QwSendStep::Fail
    }
}

/// The index statistics in a Quickwit `describe` response:
/// `num_published_docs`, `num_published_splits` and
/// `size_published_splits`.
pub open spec fn spec_qw_index_info(m: JsonModel) -> Option<IndexInfo> {
    let docs = json_u64_field(m, "num_published_docs"@);
    let splits = json_u64_field(m, "num_published_splits"@);
    let bytes = json_u64_field(m, "size_published_splits"@);
    match (docs, splits, bytes) {
        (Some(a), Some(b), Some(c)) => Some(IndexInfo { num_docs: a, num_splits: b, num_bytes: c }),
        _ => None,
    }
}

/// Reads a Quickwit `describe` response body into `IndexInfo`.
pub fn qw_index_info_from_response(body: &[u8]) -> (r: Result<IndexInfo, ResponseError>)
    ensures
        match r {
            Ok(info) => json_of(body@) is Some && spec_qw_index_info(json_of(body@)->Some_0)
                == Some(info),
            Err(ResponseError::NotJson) => json_of(body@) is None,
            Err(ResponseError::FieldMissing) => json_of(body@) is Some && spec_qw_index_info(
                json_of(body@)->Some_0,
            ) is None,
        },
{
    let v = match parse_json(body) {
        Some(v) => v,
        None => {
            return Err(ResponseError::NotJson);
        },
    };
    let docs = crate::json::get_u64_field(&v, "num_published_docs");
    let splits = crate::json::get_u64_field(&v, "num_published_splits");
    let bytes = crate::json::get_u64_field(&v, "size_published_splits");
    match (docs, splits, bytes) {
        (Some(a), Some(b), Some(c)) => Ok(IndexInfo { num_docs: a, num_splits: b, num_bytes: c }),
        _ => Err(ResponseError::FieldMissing),
    }
}

/// The build information in a Quickwit `version` response, as
/// `(version, commit_date, commit_hash, build_target)` texts, all under
/// the `build` object.
pub open spec fn spec_qw_build_info(m: JsonModel) -> Option<
    (Seq<char>, Seq<char>, Seq<char>, Seq<char>),
> {
    match json_field(m, "build"@) {
        Some(build) => {
            let version = json_string_field(build, "version"@);
            let date = json_string_field(build, "commit_date"@);
            let hash = json_string_field(build, "commit_hash"@);
            let target = json_string_field(build, "build_target"@);
            match (version, date, hash, target) {
                (Some(v), Some(d), Some(h), Some(t)) => Some((v, d, h, t)),
                _ => None,
            }
        },
        None => None,
    }
}

/// Reads a Quickwit `version` response body into build-information
/// strings.
pub fn qw_build_info_from_response(body: &[u8]) -> (r: Result<crate::sink::BuildInfo, ResponseError>)
    ensures
        match r {
            Ok(info) => json_of(body@) is Some && spec_qw_build_info(json_of(body@)->Some_0)
                == Some((info.version@, info.commit_date@, info.commit_hash@, info.build_target@)),
            Err(ResponseError::NotJson) => json_of(body@) is None,
            Err(ResponseError::FieldMissing) => json_of(body@) is Some && spec_qw_build_info(
                json_of(body@)->Some_0,
            ) is None,
        },
{
    let v = match parse_json(body) {
        Some(v) => v,
        None => {
            return Err(ResponseError::NotJson);
        },
    };
    let build = match crate::json::get_field(&v, "build") {
        Some(x) => x,
        None => {
            return Err(ResponseError::FieldMissing);
        },
    };
    let version = crate::json::get_string_field(build, "version");
    let date = crate::json::get_string_field(build, "commit_date");
    let hash = crate::json::get_string_field(build, "commit_hash");
    let target = crate::json::get_string_field(build, "build_target");
    match (version, date, hash, target) {
        (Some(vs), Some(d), Some(h), Some(t)) => Ok(
            crate::sink::BuildInfo {
                version: vs.clone(),
                commit_date: d.clone(),
                commit_hash: h.clone(),
                build_target: t.clone(),
            },
        ),
        _ => Err(ResponseError::FieldMissing),
    }
}

/// The path of the `describe` request for one index.
pub fn qw_describe_path(index_id: &str) -> (r: String)
    ensures
        r@ == "/api/v1/indexes/"@ + index_id@ + "/describe"@,
{
    let mut p = String::from_str("/api/v1/indexes/");
    p.append(index_id);
    p.append("/describe");
    p
}

} // verus!

use vstd::prelude::*;

use crate::json::{
    json_of, json_string_field, parse_json, render_json, render_json_value, JsonModel, JsonValue,
};
use crate::lines::{byte_lines, split_lines};
use crate::text::{dec_chars, int_dec_chars, i64_to_dec_string};

verus! {

broadcast use vstd::seq_lib::group_seq_lib_default, vstd::seq::group_seq_axioms,
    vstd::std_specs::vec::group_vec_axioms;

/// Loki's push payload limit: batches for the Loki adapter are capped at
/// 2 MiB rather than the general default.
pub fn loki_batch_size() -> (r: usize)
    ensures
        r == 2097152,
{
    2 * 1024 * 1024
}

/// A push is accepted on 204 or 200 exactly.
pub fn loki_push_accepts(status: u16) -> (r: bool)
    ensures
        r == (status == 204 || status == 200),
{
    status == 204 || status == 200
}

/// A flush is accepted on any 2xx status.
pub fn loki_flush_accepts(status: u16) -> (r: bool)
    ensures
        r == (200 <= status <= 299),
{
    200 <= status && status <= 299
}

/// What an RFC 3339 timestamp means in nanoseconds since the Unix epoch,
/// `None` on parse failure or out of `i64` range; the result depends on
/// the characters alone.
pub uninterp spec fn rfc3339_unix_nanos(s: Seq<char>) -> Option<i64>;

/// Relies on chrono's `DateTime::parse_from_rfc3339` and
/// `timestamp_nanos_opt`: the nanoseconds since the Unix epoch of an
/// RFC 3339 timestamp, `None` when the string does not parse or the
/// instant does not fit in `i64` nanoseconds. Both are functions of the
/// characters alone; the pair is named `rfc3339_unix_nanos`.
#[verifier::external_body]
fn rfc3339_to_unix_nanos(s: &str) -> (r: Option<i64>)
    ensures
        r == rfc3339_unix_nanos(s@),
{
    match chrono::DateTime::parse_from_rfc3339(s) {
        Ok(dt) => dt.timestamp_nanos_opt(),
        Err(_) => None,
    }
}

/// A timestamp that could not be converted: it is not RFC 3339, or it is
/// out of the nanosecond range.
#[derive(Debug, Clone, Copy, PartialEq, Eq, Structural)]
pub struct TimestampError;

/// Converts an RFC 3339 timestamp to nanoseconds since the Unix epoch, as
/// a decimal string.
pub fn parse_timestamp_to_nanoseconds(timestamp_str: &str) -> (r: Result<String, TimestampError>)
    ensures
        match r {
            Ok(s) => rfc3339_unix_nanos(timestamp_str@) is Some && s@ == int_dec_chars(
                rfc3339_unix_nanos(timestamp_str@)->Some_0 as int,
            ),
            Err(_) => rfc3339_unix_nanos(timestamp_str@) is None,
        },
{
    match rfc3339_to_unix_nanos(timestamp_str) {
        Some(n) => Ok(i64_to_dec_string(n)),
        None => Err(TimestampError),
    }
}

/// The string a scalar contributes to the flattened map: strings stand
/// unquoted, every other scalar as its JSON rendering (Loki rejects
/// non-string values, so numbers are carried as their digit strings).
pub open spec fn scalar_chars(v: JsonModel) -> Seq<char> {
    match v {
        JsonModel::Null => "null"@,
        JsonModel::Bool(b) => if b {
            "true"@
        } else {
            "false"@
        },
        JsonModel::Number(s) => s,
        JsonModel::Text(s) => s,
        _ => Seq::empty(),
    }
}

/// A nested key: the parent path, a dot when the path is non-empty, then
/// the key.
pub open spec fn dot_prefix(prefix: Seq<char>, key: Seq<char>) -> Seq<char> {
    if prefix.len() == 0 {
        key
    } else {
        prefix + seq!['.'] + key
    }
}

/// An array element's key: the parent path alone for the first element,
/// with an `[i]` suffix for the others.
pub open spec fn index_prefix(prefix: Seq<char>, i: nat) -> Seq<char> {
    if i == 0 {
        prefix
    } else {
        prefix + seq!['['] + dec_chars(i) + seq![']']
    }
}

/// The flattening of a JSON value under a key path: objects descend with
/// dotted keys, arrays with index suffixes, scalars emit one pair, in
/// traversal order.
pub open spec fn flatten_model(v: JsonModel, prefix: Seq<char>) -> Seq<(Seq<char>, Seq<char>)>
    decreases v,
{
    match v {
        JsonModel::Object(fields) => {
            proof {
                assert(decreases_to!(v => fields));
            }
            flatten_obj_fields(fields, prefix)
        },
        JsonModel::Array(items) => {
            proof {
                assert(decreases_to!(v => items));
            }
            flatten_arr_items(items, prefix, 0)
        },
        _ => seq![(prefix, scalar_chars(v))],
    }
}

pub open spec fn flatten_obj_fields(
    fields: Seq<(Seq<char>, JsonModel)>,
    prefix: Seq<char>,
) -> Seq<(Seq<char>, Seq<char>)>
    decreases fields,
{
    if fields.len() == 0 {
        Seq::empty()
    } else {
        proof {
            assert(fields.drop_first() == fields.subrange(1, fields.len() as int));
            assert(decreases_to!(fields => fields.subrange(1, fields.len() as int)));
            assert(decreases_to!(fields => fields[0]));
        }
        flatten_model(fields[0].1, dot_prefix(prefix, fields[0].0)) + flatten_obj_fields(
            fields.drop_first(),
            prefix,
        )
    }
}

pub open spec fn flatten_arr_items(
    items: Seq<JsonModel>,
    prefix: Seq<char>,
    idx: nat,
) -> Seq<(Seq<char>, Seq<char>)>
    decreases items,
{
    if items.len() == 0 {
        Seq::empty()
    } else {
        proof {
            assert(items.drop_first() == items.subrange(1, items.len() as int));
            assert(decreases_to!(items => items.subrange(1, items.len() as int)));
        }
        flatten_model(items[0], index_prefix(prefix, idx)) + flatten_arr_items(
            items.drop_first(),
            prefix,
            idx + 1,
        )
    }
}

/// Flattens a JSON document into key-path/value pairs, appended to
/// `flattened` in traversal order; Loki takes the result as structured
/// metadata.
pub fn flatten_json(value: &JsonValue, prefix: &str, flattened: &mut Vec<(String, String)>)
    ensures
        final(flattened).deep_view() == old(flattened).deep_view() + flatten_model(
            value.model(),
            prefix@,
        ),
    decreases value,
{
    broadcast use crate::json::lemma_json_models_of, crate::json::lemma_json_field_models_of;

    match value {
        JsonValue::Object(fields) => {
            let ghost m = value.model()->Object_0;
            proof {
                crate::json::lemma_json_field_models_of(fields@);
                assert(m.skip(0) =~= m);
                assert(old(flattened).deep_view() + flatten_obj_fields(m.skip(0), prefix@)
                    =~= old(flattened).deep_view() + flatten_obj_fields(m, prefix@));
            }
            let mut j: usize = 0;
            while j < fields.len()
                invariant
                    value == JsonValue::Object(*fields),
                    m == value.model()->Object_0,
                    m.len() == fields@.len(),
                    0 <= j <= fields@.len(),
                    old(flattened).deep_view() + flatten_obj_fields(m, prefix@) == flattened.deep_view()
                        + flatten_obj_fields(m.skip(j as int), prefix@),
                decreases fields@.len() - j,
            {
                proof {
                    crate::json::lemma_json_field_models_of(fields@);
                    assert(m.skip(j as int).len() > 0);
                    assert(m.skip(j as int)[0] == m[j as int]);
                    assert(m.skip(j as int).drop_first() =~= m.skip(j + 1));
                    assert(m[j as int].0 == fields@[j as int].0@);
                    assert(m[j as int].1 == fields@[j as int].1.model());
                }
                let mut child_prefix = String::new();
                if prefix.unicode_len() > 0 {
                    child_prefix.append(prefix);
                    child_prefix.push('.');
                }
                child_prefix.append(fields[j].0.as_str());
                proof {
                    assert(child_prefix@ =~= dot_prefix(prefix@, m[j as int].0));
                    assert(decreases_to!(*value => fields@[j as int].1));
                }
                flatten_json(&fields[j].1, child_prefix.as_str(), flattened);
                proof {
                    assert(flattened.deep_view() + flatten_obj_fields(m.skip(j + 1), prefix@)
                        =~= old(flattened).deep_view() + flatten_obj_fields(m, prefix@));
                }
                j += 1;
            }
            proof {
                assert(m.skip(m.len() as int) =~= Seq::<(Seq<char>, JsonModel)>::empty());
                assert(flattened.deep_view() + Seq::<(Seq<char>, Seq<char>)>::empty()
                    =~= flattened.deep_view());
            }
        },
        JsonValue::Array(items) => {
            let ghost m = value.model()->Array_0;
            proof {
                crate::json::lemma_json_models_of(items@);
                assert(m.skip(0) =~= m);
            }
            let mut j: usize = 0;
            while j < items.len()
                invariant
                    value == JsonValue::Array(*items),
                    m == value.model()->Array_0,
                    m.len() == items@.len(),
                    0 <= j <= items@.len(),
                    old(flattened).deep_view() + flatten_arr_items(m, prefix@, 0) == flattened.deep_view()
                        + flatten_arr_items(m.skip(j as int), prefix@, j as nat),
                decreases items@.len() - j,
            {
                proof {
                    crate::json::lemma_json_models_of(items@);
                    assert(m.skip(j as int).len() > 0);
                    assert(m.skip(j as int)[0] == m[j as int]);
                    assert(m.skip(j as int).drop_first() =~= m.skip(j + 1));
                    assert(m[j as int] == items@[j as int].model());
                }
                let mut child_prefix = String::new();
                child_prefix.append(prefix);
                if j != 0 {
                    child_prefix.push('[');
                    let idx_string = crate::text::u64_to_dec_string(j as u64);
                    child_prefix.append(idx_string.as_str());
                    child_prefix.push(']');
                }
                proof {
                    assert(child_prefix@ =~= index_prefix(prefix@, j as nat));
                    assert(decreases_to!(*value => items@[j as int]));
                }
                flatten_json(&items[j], child_prefix.as_str(), flattened);
                proof {
                    assert(flattened.deep_view() + flatten_arr_items(m.skip(j + 1), prefix@, (j
                        + 1) as nat) =~= old(flattened).deep_view() + flatten_arr_items(
                        m,
                        prefix@,
                        0,
                    ));
                }
                j += 1;
            }
            proof {
                assert(m.skip(m.len() as int) =~= Seq::<JsonModel>::empty());
                assert(flattened.deep_view() + Seq::<(Seq<char>, Seq<char>)>::empty()
                    =~= flattened.deep_view());
            }
        },
        JsonValue::Null => {
            let pair = (String::from_str(prefix), String::from_str("null"));
            let ghost pv = (pair.0@, pair.1@);
            flattened.push(pair);
            proof {
                assert(final(flattened).deep_view() =~= old(flattened).deep_view() + seq![pv]);
            }
        },
        JsonValue::Bool(b) => {
            let text = if *b {
                String::from_str("true")
            } else {
                String::from_str("false")
            };
            let pair = (String::from_str(prefix), text);
            let ghost pv = (pair.0@, pair.1@);
            flattened.push(pair);
            proof {
                assert(final(flattened).deep_view() =~= old(flattened).deep_view() + seq![pv]);
            }
        },
        JsonValue::Number(s) => {
            let pair = (String::from_str(prefix), s.clone());
            let ghost pv = (pair.0@, pair.1@);
            flattened.push(pair);
            proof {
                assert(final(flattened).deep_view() =~= old(flattened).deep_view() + seq![pv]);
            }
        },
        JsonValue::Text(s) => {
            let pair = (String::from_str(prefix), s.clone());
            let ghost pv = (pair.0@, pair.1@);
            flattened.push(pair);
            proof {
                assert(final(flattened).deep_view() =~= old(flattened).deep_view() + seq![pv]);
            }
        },
    }
}

/// One document prepared for a push: the timestamp in nanoseconds as a
/// decimal string, the document's JSON rendering as the log line, and the
/// flattened key/value pairs as structured metadata.
pub struct LokiEntry {
    pub timestamp: String,
    pub log_line: String,
    pub metadata: Vec<(String, String)>,
}

impl LokiEntry {
    pub open spec fn model(self) -> (Seq<char>, Seq<char>, Seq<(Seq<char>, Seq<char>)>) {
        (self.timestamp@, self.log_line@, self.metadata.deep_view())
    }
}

/// Why a batch could not be prepared for a push.
#[derive(Debug, Clone, Copy, PartialEq, Eq, Structural)]
pub enum LokiSendError {
    /// A line of the batch is not a JSON document.
    InvalidJson,
    /// A document has no string field `timestamp`.
    MissingTimestamp,
    /// A document's timestamp is not RFC 3339 or is out of range.
    BadTimestamp,
}

/// What one batch line becomes: its entry, or the first failure.
pub open spec fn spec_loki_entry(line: Seq<u8>) -> Result<
    (Seq<char>, Seq<char>, Seq<(Seq<char>, Seq<char>)>),
    LokiSendError,
> {
    match json_of(line) {
        None => Err(LokiSendError::InvalidJson),
        Some(m) => match json_string_field(m, "timestamp"@) {
            None => Err(LokiSendError::MissingTimestamp),
            Some(ts) => match rfc3339_unix_nanos(ts) {
                None => Err(LokiSendError::BadTimestamp),
                Some(n) => Ok(
                    (int_dec_chars(n as int), render_json(m), flatten_model(m, Seq::empty())),
                ),
            },
        },
    }
}

/// What a list of batch lines becomes: all entries in order, or the first
/// line's failure.
pub open spec fn spec_loki_entries(ls: Seq<Seq<u8>>) -> Result<
    Seq<(Seq<char>, Seq<char>, Seq<(Seq<char>, Seq<char>)>)>,
    LokiSendError,
>
    decreases ls.len(),
{
    if ls.len() == 0 {
        Ok(Seq::empty())
    } else {
        match spec_loki_entry(ls[0]) {
            Err(e) => Err(e),
            Ok(x) => match spec_loki_entries(ls.drop_first()) {
                Err(e) => Err(e),
                Ok(rest) => Ok(seq![x] + rest),
            },
        }
    }
}

/// Prepares one NDJSON line for a push.
pub fn loki_entry_of_line(line: &[u8]) -> (r: Result<LokiEntry, LokiSendError>)
    ensures
        match r {
            Ok(e) => spec_loki_entry(line@) == Ok::<_, LokiSendError>(e.model()),
            Err(e) => spec_loki_entry(line@) == Err::<(Seq<char>, Seq<char>, Seq<(Seq<char>, Seq<char>)>), _>(e),
        },
{
    let v = match parse_json(line) {
        Some(v) => v,
        None => {
            return Err(LokiSendError::InvalidJson);
        },
    };
    let ts = match crate::json::get_string_field(&v, "timestamp") {
        Some(ts) => ts,
        None => {
            return Err(LokiSendError::MissingTimestamp);
        },
    };
    let timestamp = match parse_timestamp_to_nanoseconds(ts.as_str()) {
        Ok(t) => t,
        Err(_) => {
            return Err(LokiSendError::BadTimestamp);
        },
    };
    let log_line = render_json_value(&v);
    let mut metadata: Vec<(String, String)> = Vec::new();
    proof {
        reveal_strlit("");
        assert(""@ =~= Seq::<char>::empty());
        assert(metadata.deep_view() =~= Seq::<(Seq<char>, Seq<char>)>::empty());
    }
    flatten_json(&v, "", &mut metadata);
    let entry = LokiEntry { timestamp, log_line, metadata };
    proof {
        assert(entry.model() == (
            int_dec_chars(rfc3339_unix_nanos(ts@)->Some_0 as int),
            render_json(v.model()),
            flatten_model(v.model(), Seq::empty()),
        ));
    }
    Ok(entry)
}

/// Prepares a whole batch: every line becomes an entry, or the first bad
/// line's failure comes back.
pub fn loki_entries(batch: &[u8]) -> (r: Result<Vec<LokiEntry>, LokiSendError>)
    ensures
        match r {
            Ok(es) => spec_loki_entries(byte_lines(batch@)) == Ok::<_, LokiSendError>(
                es@.map_values(|e: LokiEntry| e.model()),
            ),
            Err(e) => spec_loki_entries(byte_lines(batch@)) == Err::<
                Seq<(Seq<char>, Seq<char>, Seq<(Seq<char>, Seq<char>)>)>,
                _,
            >(e),
        },
{
    let lines = split_lines(batch);
    let ghost ls = lines.deep_view();
    let mut out: Vec<LokiEntry> = Vec::new();
    let mut j: usize = 0;
    proof {
        assert(ls.skip(0) =~= ls);
        assert(out@.map_values(|e: LokiEntry| e.model()) =~= Seq::<
            (Seq<char>, Seq<char>, Seq<(Seq<char>, Seq<char>)>),
        >::empty());
    }
    while j < lines.len()
        invariant
            ls == lines.deep_view(),
            ls == byte_lines(batch@),
            0 <= j <= lines@.len(),
            ({
                let done = out@.map_values(|e: LokiEntry| e.model());
                match spec_loki_entries(ls) {
                    Ok(all) => spec_loki_entries(ls.skip(j as int)) is Ok && all == done
                        + spec_loki_entries(ls.skip(j as int))->Ok_0,
                    Err(e) => spec_loki_entries(ls.skip(j as int)) == Err::<
                        Seq<(Seq<char>, Seq<char>, Seq<(Seq<char>, Seq<char>)>)>,
                        _,
                    >(e),
                }
            }),
        decreases lines@.len() - j,
    {
        proof {
            assert(ls.skip(j as int).len() > 0);
            assert(ls.skip(j as int)[0] == ls[j as int]);
            assert(ls.skip(j as int).drop_first() =~= ls.skip(j + 1));
            assert(lines@[j as int]@ == ls[j as int]);
        }
        let ghost pre_done = out@.map_values(|e: LokiEntry| e.model());
        match loki_entry_of_line(lines[j].as_slice()) {
            Ok(entry) => {
                let ghost em = entry.model();
                out.push(entry);
                proof {
                    assert(out@.map_values(|e: LokiEntry| e.model()) =~= pre_done.push(em));
                    if spec_loki_entries(ls) is Ok {
                        assert(pre_done.push(em) + spec_loki_entries(ls.skip(j + 1))->Ok_0
                            =~= pre_done + (seq![em] + spec_loki_entries(ls.skip(j + 1))->Ok_0));
                    }
                }
            },
            Err(e) => {
                proof {
                    assert(spec_loki_entries(ls.skip(j as int)) == Err::<
                        Seq<(Seq<char>, Seq<char>, Seq<(Seq<char>, Seq<char>)>)>,
                        _,
                    >(e));
                }
                return Err(e);
            },
        }
        j += 1;
    }
    proof {
        assert(ls.skip(ls.len() as int) =~= Seq::<Seq<u8>>::empty());
        assert(out@.map_values(|e: LokiEntry| e.model()) + Seq::<
            (Seq<char>, Seq<char>, Seq<(Seq<char>, Seq<char>)>),
        >::empty() =~= out@.map_values(|e: LokiEntry| e.model()));
    }
    Ok(out)
}

/// The JSON shape of one pushed value: a three-element array of the
/// timestamp string, the log line, and the metadata as an object of
/// string fields.
pub open spec fn loki_value_model(
    e: (Seq<char>, Seq<char>, Seq<(Seq<char>, Seq<char>)>),
) -> JsonModel {
    JsonModel::Array(
        seq![
            JsonModel::Text(e.0),
            JsonModel::Text(e.1),
            JsonModel::Object(
                e.2.map_values(|p: (Seq<char>, Seq<char>)| (p.0, JsonModel::Text(p.1))),
            ),
        ],
    )
}

/// The JSON shape of a whole push body: one stream labelled `benchmark`
/// carrying all values in order.
pub open spec fn loki_body_model(
    es: Seq<(Seq<char>, Seq<char>, Seq<(Seq<char>, Seq<char>)>)>,
) -> JsonModel {
    JsonModel::Object(
        seq![
            (
                "streams"@,
                JsonModel::Array(
                    seq![
                        JsonModel::Object(
                            seq![
                                (
                                    "stream"@,
                                    JsonModel::Object(
                                        seq![("label"@, JsonModel::Text("benchmark"@))],
                                    ),
                                ),
                                ("values"@, JsonModel::Array(es.map_values(loki_value_model_fn()))),
                            ],
                        ),
                    ],
                ),
            ),
        ],
    )
}

/// The value-shape map as a function value, for `map_values`.
pub open spec fn loki_value_model_fn() -> spec_fn(
    (Seq<char>, Seq<char>, Seq<(Seq<char>, Seq<char>)>),
) -> JsonModel {
    |e: (Seq<char>, Seq<char>, Seq<(Seq<char>, Seq<char>)>)| loki_value_model(e)
}

/// The push body text for a list of entries.
pub open spec fn spec_loki_push_body(
    es: Seq<(Seq<char>, Seq<char>, Seq<(Seq<char>, Seq<char>)>)>,
) -> Seq<char> {
    render_json(loki_body_model(es))
}

/// Builds the push request body: a single stream labelled `benchmark`
/// whose values are `[timestamp, log line, metadata]` triples in batch
/// order.
pub fn build_loki_push_body(entries: &Vec<LokiEntry>) -> (r: String)
    ensures
        r@ == spec_loki_push_body(entries@.map_values(|e: LokiEntry| e.model())),
{
    let ghost ems = entries@.map_values(|e: LokiEntry| e.model());
    let mut values: Vec<JsonValue> = Vec::new();
    let mut i: usize = 0;
    while i < entries.len()
        invariant
            ems == entries@.map_values(|e: LokiEntry| e.model()),
            0 <= i <= entries@.len(),
            values@.len() == i,
            forall|t: int|
                0 <= t < i ==> (#[trigger] values@[t]).model() == loki_value_model(ems[t]),
        decreases entries@.len() - i,
    {
        let entry = &entries[i];
        let value = loki_value_of_entry(entry);
        proof {
            assert(entries@[i as int].model() == ems[i as int]);
        }
        values.push(value);
        i += 1;
    }
    proof {
        assert(crate::json::json_models_of(values@) =~= ems.map_values(loki_value_model_fn())) by {
            crate::json::lemma_json_models_of(values@);
        }
    }
    let ghost values_m = crate::json::json_models_of(values@);
    let label_key = String::from_str("label");
    let label_val = JsonValue::Text(String::from_str("benchmark"));
    let mut stream_fields: Vec<(String, JsonValue)> = Vec::new();
    stream_fields.push((label_key, label_val));
    let stream_obj = JsonValue::Object(stream_fields);
    let ghost stream_obj_m = stream_obj.model();
    proof {
        crate::json::lemma_json_field_models_of(stream_obj->Object_0@);
        assert(stream_obj_m == JsonModel::Object(
            seq![("label"@, JsonModel::Text("benchmark"@))],
        )) by {
            assert(crate::json::json_field_models_of(stream_obj->Object_0@) =~= seq![
                ("label"@, JsonModel::Text("benchmark"@)),
            ]);
        }
    }
    let mut inner_fields: Vec<(String, JsonValue)> = Vec::new();
    inner_fields.push((String::from_str("stream"), stream_obj));
    inner_fields.push((String::from_str("values"), JsonValue::Array(values)));
    let inner_obj = JsonValue::Object(inner_fields);
    let ghost inner_obj_m = inner_obj.model();
    proof {
        crate::json::lemma_json_field_models_of(inner_obj->Object_0@);
        assert(inner_obj->Object_0@[1].1.model() == JsonModel::Array(values_m));
        assert(inner_obj_m == JsonModel::Object(
            seq![
                ("stream"@, stream_obj_m),
                ("values"@, JsonModel::Array(values_m)),
            ],
        )) by {
            assert(crate::json::json_field_models_of(inner_obj->Object_0@) =~= seq![
                ("stream"@, stream_obj_m),
                ("values"@, JsonModel::Array(values_m)),
            ]);
        }
    }
    let mut streams: Vec<JsonValue> = Vec::new();
    streams.push(inner_obj);
    let ghost streams_m = crate::json::json_models_of(streams@);
    proof {
        crate::json::lemma_json_models_of(streams@);
        assert(streams_m =~= seq![inner_obj_m]);
    }
    let mut body_fields: Vec<(String, JsonValue)> = Vec::new();
    body_fields.push((String::from_str("streams"), JsonValue::Array(streams)));
    let body = JsonValue::Object(body_fields);
    proof {
        crate::json::lemma_json_field_models_of(body->Object_0@);
        assert(body->Object_0@[0].1.model() == JsonModel::Array(streams_m));
        assert(crate::json::json_field_models_of(body->Object_0@) =~= seq![
            ("streams"@, JsonModel::Array(streams_m)),
        ]);
        assert(body.model() == loki_body_model(ems));
    }
    render_json_value(&body)
}

/// Builds the JSON value of one pushed entry: the
/// `[timestamp, log line, metadata]` triple.
fn loki_value_of_entry(entry: &LokiEntry) -> (r: JsonValue)
    ensures
        r.model() == loki_value_model(entry.model()),
{
    let mut meta_fields: Vec<(String, JsonValue)> = Vec::new();
    let mut k: usize = 0;
    while k < entry.metadata.len()
        invariant
            0 <= k <= entry.metadata@.len(),
            meta_fields@.len() == k,
            forall|t: int|
                0 <= t < k ==> (#[trigger] meta_fields@[t]).0@ == entry.metadata@[t].0@
                    && meta_fields@[t].1 == JsonValue::Text(entry.metadata@[t].1),
        decreases entry.metadata@.len() - k,
    {
        let key = entry.metadata[k].0.clone();
        let val = JsonValue::Text(entry.metadata[k].1.clone());
        meta_fields.push((key, val));
        k += 1;
    }
    let ghost meta_m = crate::json::json_field_models_of(meta_fields@);
    proof {
        crate::json::lemma_json_field_models_of(meta_fields@);
        assert(meta_m =~= entry.metadata.deep_view().map_values(
            |p: (Seq<char>, Seq<char>)| (p.0, JsonModel::Text(p.1)),
        ));
    }
    let mut triple_items: Vec<JsonValue> = Vec::new();
    triple_items.push(JsonValue::Text(entry.timestamp.clone()));
    triple_items.push(JsonValue::Text(entry.log_line.clone()));
    triple_items.push(JsonValue::Object(meta_fields));
    let triple = JsonValue::Array(triple_items);
    proof {
        crate::json::lemma_json_models_of(triple->Array_0@);
        assert(triple->Array_0@[2].model() == JsonModel::Object(meta_m));
        assert(crate::json::json_models_of(triple->Array_0@) =~= seq![
            JsonModel::Text(entry.timestamp@),
            JsonModel::Text(entry.log_line@),
            JsonModel::Object(meta_m),
        ]);
        assert(triple.model() == loki_value_model(entry.model()));
    }
    triple
}

/// The build information in a Loki `buildinfo` response, as
/// `(version, commit_date, commit_hash, build_target)` texts: `version`,
/// `buildDate` and `revision`, each the empty string when missing, and an
/// empty target.
pub open spec fn spec_loki_build_info(m: JsonModel) -> (Seq<char>, Seq<char>, Seq<char>, Seq<
    char,
>) {
    let v = match json_string_field(m, "version"@) {
        Some(x) => x,
        None => Seq::empty(),
    };
    let d = match json_string_field(m, "buildDate"@) {
        Some(x) => x,
        None => Seq::empty(),
    };
    let h = match json_string_field(m, "revision"@) {
        Some(x) => x,
        None => Seq::empty(),
    };
    (v, d, h, Seq::<char>::empty())
}

/// Reads a Loki `buildinfo` response body into build-information strings;
/// only a body that is not JSON fails.
pub fn loki_build_info_from_response(body: &[u8]) -> (r: Result<
    crate::sink::BuildInfo,
    crate::elasticsearch::ResponseError,
>)
    ensures
        match r {
            Ok(info) => json_of(body@) is Some && spec_loki_build_info(json_of(body@)->Some_0)
                == (info.version@, info.commit_date@, info.commit_hash@, info.build_target@),
            Err(_) => json_of(body@) is None,
        },
{
    let v = match parse_json(body) {
        Some(v) => v,
        None => {
            return Err(crate::elasticsearch::ResponseError::NotJson);
        },
    };
    let version = match crate::json::get_string_field(&v, "version") {
        Some(x) => x.clone(),
        None => String::new(),
    };
    let commit_date = match crate::json::get_string_field(&v, "buildDate") {
        Some(x) => x.clone(),
        None => String::new(),
    };
    let commit_hash = match crate::json::get_string_field(&v, "revision") {
        Some(x) => x.clone(),
        None => String::new(),
    };
    Ok(
        crate::sink::BuildInfo {
            version,
            commit_date,
            commit_hash,
            build_target: String::new(),
        },
    )
}

} // verus!

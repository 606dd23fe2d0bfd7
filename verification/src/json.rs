use vstd::prelude::*;

use crate::text::{digits_val, is_dec_digit};

verus! {

broadcast use vstd::seq_lib::group_seq_lib_default, vstd::seq::group_seq_axioms,
    vstd::std_specs::vec::group_vec_axioms;

/// The library's own JSON value. Scalars carry their canonical textual
/// rendering — a number is held as the digit string serde_json prints for
/// it — so the type holds no floating point.
pub enum JsonValue {
    Null,
    Bool(bool),
    Number(String),
    Text(String),
    Array(Vec<JsonValue>),
    Object(Vec<(String, JsonValue)>),
}

/// The mathematical shape of a `JsonValue`.
pub enum JsonModel {
    Null,
    Bool(bool),
    Number(Seq<char>),
    Text(Seq<char>),
    Array(Seq<JsonModel>),
    Object(Seq<(Seq<char>, JsonModel)>),
}

impl JsonValue {
    pub open spec fn model(self) -> JsonModel
        decreases self,
    {
        match self {
            JsonValue::Null => JsonModel::Null,
            JsonValue::Bool(b) => JsonModel::Bool(b),
            JsonValue::Number(s) => JsonModel::Number(s@),
            JsonValue::Text(s) => JsonModel::Text(s@),
            JsonValue::Array(items) => {
                proof {
                    assert(decreases_to!(self => items));
                    assert(decreases_to!(items => items@));
                }
                JsonModel::Array(json_models_of(items@))
            },
            JsonValue::Object(fields) => {
                proof {
                    assert(decreases_to!(self => fields));
                    assert(decreases_to!(fields => fields@));
                }
                JsonModel::Object(json_field_models_of(fields@))
            },
        }
    }
}

/// The models of a list of values, elementwise.
pub open spec fn json_models_of(items: Seq<JsonValue>) -> Seq<JsonModel>
    decreases items,
{
    if items.len() == 0 {
        Seq::empty()
    } else {
        proof {
            assert(items.drop_first() == items.subrange(1, items.len() as int));
            assert(decreases_to!(items => items.subrange(1, items.len() as int)));
        }
        seq![items[0].model()] + json_models_of(items.drop_first())
    }
}

/// The models of an object's field list, elementwise.
pub open spec fn json_field_models_of(fields: Seq<(String, JsonValue)>) -> Seq<
    (Seq<char>, JsonModel),
>
    decreases fields,
{
    if fields.len() == 0 {
        Seq::empty()
    } else {
        proof {
            assert(fields.drop_first() == fields.subrange(1, fields.len() as int));
            assert(decreases_to!(fields => fields.subrange(1, fields.len() as int)));
            assert(decreases_to!(fields => fields[0]));
        }
        seq![(fields[0].0@, fields[0].1.model())] + json_field_models_of(fields.drop_first())
    }
}

/// The model list indexes elementwise into the value list.
pub broadcast proof fn lemma_json_models_of(items: Seq<JsonValue>)
    ensures
        (#[trigger] json_models_of(items)).len() == items.len(),
        forall|i: int| 0 <= i < items.len() ==> json_models_of(items)[i] == items[i].model(),
    decreases items.len(),
{
    if items.len() > 0 {
        lemma_json_models_of(items.drop_first());
        assert forall|i: int| 0 <= i < items.len() implies json_models_of(items)[i]
            == items[i].model() by {
            if i > 0 {
                assert(items.drop_first()[i - 1] == items[i]);
                assert(json_models_of(items)[i] == json_models_of(items.drop_first())[i - 1]);
            }
        }
    }
}

pub broadcast proof fn lemma_json_field_models_of(fields: Seq<(String, JsonValue)>)
    ensures
        (#[trigger] json_field_models_of(fields)).len() == fields.len(),
        forall|i: int|
            0 <= i < fields.len() ==> json_field_models_of(fields)[i] == (
            fields[i].0@,
            fields[i].1.model(),
            ),
    decreases fields.len(),
{
    if fields.len() > 0 {
        lemma_json_field_models_of(fields.drop_first());
        assert forall|i: int|
            0 <= i < fields.len() implies json_field_models_of(fields)[i] == (
        fields[i].0@,
        fields[i].1.model(),
        ) by {
            if i > 0 {
                assert(fields.drop_first()[i - 1] == fields[i]);
                assert(json_field_models_of(fields)[i] == json_field_models_of(
                    fields.drop_first(),
                )[i - 1]);
            }
        }
    }
}

/// Declares serde_json's value type so the conversion below can take it;
/// the library never looks inside such a value.
#[verifier::external_type_specification]
#[verifier::external_body]
pub struct ExSerdeValue(serde_json::Value);

/// What serde_json's parse of the given bytes as one JSON document
/// yields, carried over into the library's JSON model; the parse is a
/// function of the bytes alone.
pub uninterp spec fn json_of(bytes: Seq<u8>) -> Option<JsonModel>;

/// Relies on serde_json::Value: one arm per variant, each payload moved
/// into the library's form; a number is carried as its canonical
/// serde_json rendering, an object in serde_json's (sorted) key order.
#[verifier::external_body]
fn json_value_of(v: serde_json::Value) -> JsonValue {
    match v {
        serde_json::Value::Null => JsonValue::Null,
        serde_json::Value::Bool(b) => JsonValue::Bool(b),
        serde_json::Value::Number(n) => JsonValue::Number(n.to_string()),
        serde_json::Value::String(s) => JsonValue::Text(s),
        serde_json::Value::Array(a) => JsonValue::Array(
            a.into_iter().map(json_value_of).collect(),
        ),
        serde_json::Value::Object(o) => JsonValue::Object(
            o.into_iter().map(|(k, x)| (k, json_value_of(x))).collect(),
        ),
    }
}

/// Relies on serde_json::from_slice: parses one JSON document from bytes,
/// `None` when the bytes are not valid JSON. The parse depends on the
/// bytes alone and is named `json_of`.
#[verifier::external_body]
pub(crate) fn parse_json(bytes: &[u8]) -> (r: Option<JsonValue>)
    ensures
        r is Some <==> json_of(bytes@) is Some,
        r is Some ==> r->Some_0.model() == json_of(bytes@)->Some_0,
{
    match serde_json::from_slice::<serde_json::Value>(bytes) {
        Ok(v) => Some(json_value_of(v)),
        Err(_) => None,
    }
}

/// The lowercase hexadecimal digit of a value below 16.
pub open spec fn hex_digit_char(d: nat) -> char {
    if d == 0 {
        '0'
    } else if d == 1 {
        '1'
    } else if d == 2 {
        '2'
    } else if d == 3 {
        '3'
    } else if d == 4 {
        '4'
    } else if d == 5 {
        '5'
    } else if d == 6 {
        '6'
    } else if d == 7 {
        '7'
    } else if d == 8 {
        '8'
    } else if d == 9 {
        '9'
    } else if d == 10 {
        'a'
    } else if d == 11 {
        'b'
    } else if d == 12 {
        'c'
    } else if d == 13 {
        'd'
    } else if d == 14 {
        'e'
    } else {
        'f'
    }
}

/// How one character appears inside a JSON string literal: quote,
/// backslash and the named control characters take two-character escapes,
/// the other control characters take `\u00xx`, everything else stands as
/// itself.
pub open spec fn escape_char(c: char) -> Seq<char> {
    if c == '"' {
        seq!['\\', '"']
    } else if c == '\\' {
        seq!['\\', '\\']
    } else if c == '\u{8}' {
        seq!['\\', 'b']
    } else if c == '\t' {
        seq!['\\', 't']
    } else if c == '\n' {
        seq!['\\', 'n']
    } else if c == '\u{c}' {
        seq!['\\', 'f']
    } else if c == '\r' {
        seq!['\\', 'r']
    } else if (c as int) < 0x20 {
        seq!['\\', 'u', '0', '0', hex_digit_char((c as int / 16) as nat), hex_digit_char(
            (c as int % 16) as nat,
        )]
    } else {
        seq![c]
    }
}

/// The body of a JSON string literal for `s`.
pub open spec fn escaped_chars(s: Seq<char>) -> Seq<char>
    decreases s.len(),
{
    if s.len() == 0 {
        Seq::empty()
    } else {
        escape_char(s[0]) + escaped_chars(s.drop_first())
    }
}

/// The JSON string literal for `s`, quotes included.
pub open spec fn json_string_chars(s: Seq<char>) -> Seq<char> {
    seq!['"'] + escaped_chars(s) + seq!['"']
}

/// The compact JSON rendering of a value: no spaces, object fields in
/// held order, scalars as carried.
pub open spec fn render_json(v: JsonModel) -> Seq<char>
    decreases v,
{
    match v {
        JsonModel::Null => "null"@,
        JsonModel::Bool(b) => if b {
            "true"@
        } else {
            "false"@
        },
        JsonModel::Number(s) => s,
        JsonModel::Text(s) => json_string_chars(s),
        JsonModel::Array(items) => seq!['['] + render_items(items) + seq![']'],
        JsonModel::Object(fields) => seq!['{'] + render_fields(fields) + seq!['}'],
    }
}

/// Array elements, comma-separated.
pub open spec fn render_items(items: Seq<JsonModel>) -> Seq<char>
    decreases items,
{
    if items.len() == 0 {
        Seq::empty()
    } else if items.len() == 1 {
        render_json(items[0])
    } else {
        render_json(items[0]) + seq![','] + render_items(items.drop_first())
    }
}

/// Object fields, comma-separated, each `"key":value`.
pub open spec fn render_fields(fields: Seq<(Seq<char>, JsonModel)>) -> Seq<char>
    decreases fields,
{
    if fields.len() == 0 {
        Seq::empty()
    } else {
        let head = json_string_chars(fields[0].0) + seq![':'] + render_json(fields[0].1);
        if fields.len() == 1 {
            head
        } else {
            head + seq![','] + render_fields(fields.drop_first())
        }
    }
}

fn hex_digit(d: u32) -> (c: char)
    requires
        d < 16,
    ensures
        c == hex_digit_char(d as nat),
{
    if d == 0 {
        '0'
    } else if d == 1 {
        '1'
    } else if d == 2 {
        '2'
    } else if d == 3 {
        '3'
    } else if d == 4 {
        '4'
    } else if d == 5 {
        '5'
    } else if d == 6 {
        '6'
    } else if d == 7 {
        '7'
    } else if d == 8 {
        '8'
    } else if d == 9 {
        '9'
    } else if d == 10 {
        'a'
    } else if d == 11 {
        'b'
    } else if d == 12 {
        'c'
    } else if d == 13 {
        'd'
    } else if d == 14 {
        'e'
    } else {
        'f'
    }
}

/// Appends the escaped form of one character to `out`.
fn push_escaped_char(out: &mut String, c: char)
    ensures
        final(out)@ == old(out)@ + escape_char(c),
{
    if c == '"' {
        out.push('\\');
        out.push('"');
    } else if c == '\\' {
        out.push('\\');
        out.push('\\');
    } else if c == '\u{8}' {
        out.push('\\');
        out.push('b');
    } else if c == '\t' {
        out.push('\\');
        out.push('t');
    } else if c == '\n' {
        out.push('\\');
        out.push('n');
    } else if c == '\u{c}' {
        out.push('\\');
        out.push('f');
    } else if c == '\r' {
        out.push('\\');
        out.push('r');
    } else if (c as u32) < 0x20 {
        let cu = c as u32;
        out.push('\\');
        out.push('u');
        out.push('0');
        out.push('0');
        out.push(hex_digit(cu / 16));
        out.push(hex_digit(cu % 16));
    } else {
        out.push(c);
    }
    proof {
        assert(final(out)@ =~= old(out)@ + escape_char(c));
    }
}

/// Appends the JSON string literal for `s`, quotes included.
pub fn push_json_string(out: &mut String, s: &str)
    ensures
        final(out)@ == old(out)@ + json_string_chars(s@),
{
    let s_len = s.unicode_len();
    out.push('"');
    let ghost base = out@;
    let mut i: usize = 0;
    proof {
        assert(s@.take(0) =~= Seq::<char>::empty());
        assert(escaped_chars(Seq::<char>::empty()) =~= Seq::<char>::empty());
        assert(out@ =~= base + escaped_chars(s@.take(0)));
    }
    while i < s_len
        invariant
            s_len == s@.len(),
            0 <= i <= s_len,
            out@ == base + escaped_chars(s@.take(i as int)),
        decreases s_len - i,
    {
        let c = s.get_char(i);
        push_escaped_char(out, c);
        proof {
            lemma_escaped_take_step(s@, i as int);
        }
        i += 1;
    }
    out.push('"');
    proof {
        assert(s@.take(s_len as int) =~= s@);
        assert(out@ =~= old(out)@ + json_string_chars(s@));
    }
}

/// Escaping one more character appends that character's escape.
proof fn lemma_escaped_take_step(s: Seq<char>, i: int)
    requires
        0 <= i < s.len(),
    ensures
        escaped_chars(s.take(i + 1)) == escaped_chars(s.take(i)) + escape_char(s[i]),
    decreases i,
{
    if i == 0 {
        assert(s.take(1).drop_first() =~= Seq::<char>::empty());
        assert(s.take(1)[0] == s[0]);
        assert(escaped_chars(Seq::<char>::empty()) =~= Seq::<char>::empty());
        assert(escaped_chars(s.take(1)) =~= escape_char(s[0]));
        assert(s.take(0) =~= Seq::<char>::empty());
        assert(escaped_chars(s.take(0)) + escape_char(s[0]) =~= escape_char(s[0]));
    } else {
        lemma_escaped_take_step(s.drop_first(), i - 1);
        assert(s.take(i + 1)[0] == s[0]);
        assert(s.take(i + 1).drop_first() =~= s.drop_first().take(i));
        assert(s.take(i).drop_first() =~= s.drop_first().take(i - 1));
        assert(s.take(i)[0] == s[0]);
        assert(s.drop_first()[i - 1] == s[i]);
        assert(escaped_chars(s.take(i + 1)) =~= escaped_chars(s.take(i)) + escape_char(s[i]));
    }
}

/// Appends the compact JSON rendering of `v` to `out`.
pub fn push_json_value(out: &mut String, v: &JsonValue)
    ensures
        final(out)@ == old(out)@ + render_json(v.model()),
    decreases v,
{
    broadcast use lemma_json_models_of, lemma_json_field_models_of;

    match v {
        JsonValue::Null => {
            out.append("null");
        },
        JsonValue::Bool(b) => {
            if *b {
                out.append("true");
            } else {
                out.append("false");
            }
        },
        JsonValue::Number(s) => {
            out.append(s.as_str());
        },
        JsonValue::Text(s) => {
            push_json_string(out, s.as_str());
        },
        JsonValue::Array(items) => {
            out.push('[');
            let ghost m = v.model()->Array_0;
            proof {
                assert(*v == JsonValue::Array(*items));
                assert(v.model() == JsonModel::Array(json_models_of(items@)));
                lemma_json_models_of(items@);
                assert(m.len() == items@.len());
            }
            let mut j: usize = 0;
            let ghost base = out@;
            while j < items.len()
                invariant
                    m == v.model()->Array_0,
                    v == JsonValue::Array(*items),
                    m.len() == items@.len(),
                    0 <= j <= items@.len(),
                    out@ == base + render_items_prefix(m, j as int),
                decreases items@.len() - j,
            {
                if j > 0 {
                    out.push(',');
                }
                proof {
                    assert(decreases_to!(*v => items@[j as int]));
                }
                push_json_value(out, &items[j]);
                proof {
                    lemma_json_models_of(items@);
                    assert(items@[j as int].model() == m[j as int]);
                    lemma_render_items_prefix_step(m, j as int);
                }
                j += 1;
            }
            out.push(']');
            proof {
                lemma_render_items_prefix_full(m);
                assert(final(out)@ =~= old(out)@ + render_json(v.model()));
            }
        },
        JsonValue::Object(fields) => {
            out.push('{');
            let ghost m = v.model()->Object_0;
            proof {
                lemma_json_field_models_of(fields@);
                assert(m.len() == fields@.len());
            }
            let mut j: usize = 0;
            let ghost base = out@;
            while j < fields.len()
                invariant
                    m == v.model()->Object_0,
                    v == JsonValue::Object(*fields),
                    m.len() == fields@.len(),
                    0 <= j <= fields@.len(),
                    out@ == base + render_fields_prefix(m, j as int),
                decreases fields@.len() - j,
            {
                if j > 0 {
                    out.push(',');
                }
                push_json_string(out, fields[j].0.as_str());
                out.push(':');
                proof {
                    assert(decreases_to!(*v => fields@[j as int].1));
                }
                push_json_value(out, &fields[j].1);
                proof {
                    lemma_json_field_models_of(fields@);
                    assert(fields@[j as int].1.model() == m[j as int].1);
                    assert(fields@[j as int].0@ == m[j as int].0);
                    lemma_render_fields_prefix_step(m, j as int);
                }
                j += 1;
            }
            out.push('}');
            proof {
                lemma_render_fields_prefix_full(m);
                assert(final(out)@ =~= old(out)@ + render_json(v.model()));
            }
        },
    }
}

/// The rendering of the first `k` array elements, with the comma that a
/// following element would need already placed between them.
pub open spec fn render_items_prefix(items: Seq<JsonModel>, k: int) -> Seq<char>
    decreases k,
{
    if k <= 0 {
        Seq::empty()
    } else if k == 1 {
        render_json(items[0])
    } else {
        render_items_prefix(items, k - 1) + seq![','] + render_json(items[k - 1])
    }
}

pub open spec fn render_fields_prefix(fields: Seq<(Seq<char>, JsonModel)>, k: int) -> Seq<char>
    decreases k,
{
    if k <= 0 {
        Seq::empty()
    } else if k == 1 {
        json_string_chars(fields[0].0) + seq![':'] + render_json(fields[0].1)
    } else {
        render_fields_prefix(fields, k - 1) + seq![','] + json_string_chars(fields[k - 1].0)
            + seq![':'] + render_json(fields[k - 1].1)
    }
}

proof fn lemma_render_items_prefix_step(items: Seq<JsonModel>, j: int)
    requires
        0 <= j < items.len(),
    ensures
        render_items_prefix(items, j + 1) == if j == 0 {
            render_json(items[0])
        } else {
            render_items_prefix(items, j) + seq![','] + render_json(items[j])
        },
{
}

proof fn lemma_render_fields_prefix_step(fields: Seq<(Seq<char>, JsonModel)>, j: int)
    requires
        0 <= j < fields.len(),
    ensures
        render_fields_prefix(fields, j + 1) == if j == 0 {
            json_string_chars(fields[0].0) + seq![':'] + render_json(fields[0].1)
        } else {
            render_fields_prefix(fields, j) + seq![','] + json_string_chars(fields[j].0)
                + seq![':'] + render_json(fields[j].1)
        },
{
}

/// For a list of at least two elements, the prefix rendering unrolls
/// from the front.
proof fn lemma_render_items_drop(items: Seq<JsonModel>, k: int)
    requires
        2 <= items.len(),
        2 <= k <= items.len(),
    ensures
        render_items_prefix(items, k) == render_json(items[0]) + seq![','] + render_items_prefix(
            items.drop_first(),
            k - 1,
        ),
    decreases k,
{
    let d = items.drop_first();
    if k == 2 {
        assert(d[0] == items[1]);
        assert(render_items_prefix(items, 1) == render_json(items[0]));
        assert(render_items_prefix(d, 1) == render_json(items[1]));
        assert(render_items_prefix(items, 2) =~= render_json(items[0]) + seq![',']
            + render_items_prefix(d, 1));
    } else {
        lemma_render_items_drop(items, k - 1);
        assert(d[k - 2] == items[k - 1]);
        assert(render_items_prefix(items, k) =~= render_json(items[0]) + seq![',']
            + render_items_prefix(d, k - 1));
    }
}

/// The prefix rendering of all elements is the rendering of the array
/// body.
proof fn lemma_render_items_prefix_full(items: Seq<JsonModel>)
    ensures
        render_items_prefix(items, items.len() as int) == render_items(items),
    decreases items.len(),
{
    let d = items.drop_first();
    if items.len() == 0 {
    } else if items.len() == 1 {
    } else {
        lemma_render_items_drop(items, items.len() as int);
        lemma_render_items_prefix_full(d);
        assert(render_items(items) == render_json(items[0]) + seq![','] + render_items(d));
    }
}

proof fn lemma_render_fields_drop(fields: Seq<(Seq<char>, JsonModel)>, k: int)
    requires
        2 <= fields.len(),
        2 <= k <= fields.len(),
    ensures
        render_fields_prefix(fields, k) == (json_string_chars(fields[0].0) + seq![':']
            + render_json(fields[0].1)) + seq![','] + render_fields_prefix(
            fields.drop_first(),
            k - 1,
        ),
    decreases k,
{
    let d = fields.drop_first();
    if k == 2 {
        assert(d[0] == fields[1]);
        assert(render_fields_prefix(fields, 1) == json_string_chars(fields[0].0) + seq![':']
            + render_json(fields[0].1));
        assert(render_fields_prefix(d, 1) == json_string_chars(d[0].0) + seq![':'] + render_json(
            d[0].1,
        ));
        assert(render_fields_prefix(fields, 2) =~= (json_string_chars(fields[0].0) + seq![':']
            + render_json(fields[0].1)) + seq![','] + render_fields_prefix(d, 1));
    } else {
        lemma_render_fields_drop(fields, k - 1);
        assert(d[k - 2] == fields[k - 1]);
        assert(render_fields_prefix(fields, k) =~= (json_string_chars(fields[0].0) + seq![':']
            + render_json(fields[0].1)) + seq![','] + render_fields_prefix(d, k - 1));
    }
}

proof fn lemma_render_fields_prefix_full(fields: Seq<(Seq<char>, JsonModel)>)
    ensures
        render_fields_prefix(fields, fields.len() as int) == render_fields(fields),
    decreases fields.len(),
{
    let d = fields.drop_first();
    if fields.len() == 0 {
    } else if fields.len() == 1 {
    } else {
        lemma_render_fields_drop(fields, fields.len() as int);
        lemma_render_fields_prefix_full(d);
        assert(render_fields(fields) == (json_string_chars(fields[0].0) + seq![':'] + render_json(
            fields[0].1,
        )) + seq![','] + render_fields(d));
    }
}

/// The compact JSON rendering of a value as a fresh `String`.
pub fn render_json_value(v: &JsonValue) -> (r: String)
    ensures
        r@ == render_json(v.model()),
{
    let mut out = String::new();
    push_json_value(&mut out, v);
    proof {
        assert(out@ =~= render_json(v.model()));
    }
    out
}

/// The value of field `name`, first occurrence, of an object's field list.
pub open spec fn obj_field(fields: Seq<(Seq<char>, JsonModel)>, name: Seq<char>) -> Option<
    JsonModel,
>
    decreases fields.len(),
{
    if fields.len() == 0 {
        None
    } else if fields[0].0 == name {
        Some(fields[0].1)
    } else {
        obj_field(fields.drop_first(), name)
    }
}

/// The value of field `name` when `v` is an object that has it.
pub open spec fn json_field(v: JsonModel, name: Seq<char>) -> Option<JsonModel> {
    match v {
        JsonModel::Object(fields) => obj_field(fields, name),
        _ => None,
    }
}

/// Looks a field up in a JSON value, `None` when the value is not an
/// object or the field is missing.
pub fn get_field<'a>(v: &'a JsonValue, name: &str) -> (r: Option<&'a JsonValue>)
    ensures
        match r {
            Some(f) => json_field(v.model(), name@) == Some(f.model()),
            None => json_field(v.model(), name@) is None,
        },
{
    broadcast use lemma_json_field_models_of;

    match v {
        JsonValue::Object(fields) => {
            let ghost m = v.model()->Object_0;
            let name_string = String::from_str(name);
            let mut j: usize = 0;
            proof {
                lemma_json_field_models_of(fields@);
                assert(m.skip(0) =~= m);
            }
            while j < fields.len()
                invariant
                    m == v.model()->Object_0,
                    v == JsonValue::Object(*fields),
                    m.len() == fields@.len(),
                    name_string@ == name@,
                    0 <= j <= fields@.len(),
                    obj_field(m, name@) == obj_field(m.skip(j as int), name@),
                decreases fields@.len() - j,
            {
                proof {
                    lemma_json_field_models_of(fields@);
                    assert(m.skip(j as int).len() > 0);
                    assert(m.skip(j as int)[0] == m[j as int]);
                    assert(m.skip(j as int).drop_first() =~= m.skip(j + 1));
                    assert(m[j as int].0 == fields@[j as int].0@);
                    assert(m[j as int].1 == fields@[j as int].1.model());
                }
                if fields[j].0 == name_string {
                    return Some(&fields[j].1);
                }
                j += 1;
            }
            None
        },
        _ => None,
    }
}

/// The string payload of field `name`, when the value is an object whose
/// field `name` holds a string.
pub open spec fn json_string_field(v: JsonModel, name: Seq<char>) -> Option<Seq<char>> {
    match json_field(v, name) {
        Some(JsonModel::Text(s)) => Some(s),
        _ => None,
    }
}

pub fn get_string_field<'a>(v: &'a JsonValue, name: &str) -> (r: Option<&'a String>)
    ensures
        match r {
            Some(s) => json_string_field(v.model(), name@) == Some(s@),
            None => json_string_field(v.model(), name@) is None,
        },
{
    match get_field(v, name) {
        Some(JsonValue::Text(s)) => Some(s),
        _ => None,
    }
}

/// A JSON number reads as `u64` exactly when its rendering is a plain
/// digit string whose value fits; this matches serde_json, which renders
/// unsigned integers as plain digits and everything else with a sign,
/// point or exponent.
pub open spec fn number_as_u64(s: Seq<char>) -> Option<u64> {
    if s.len() >= 1 && (forall|i: int| 0 <= i < s.len() ==> is_dec_digit(#[trigger] s[i]))
        && digits_val(s) <= u64::MAX {
        Some(digits_val(s) as u64)
    } else {
        None
    }
}

/// The `u64` reading of `v`, when `v` is a number with such a reading.
pub open spec fn json_as_u64(v: JsonModel) -> Option<u64> {
    match v {
        JsonModel::Number(s) => number_as_u64(s),
        _ => None,
    }
}

/// The `u64` reading of field `name` of an object.
pub open spec fn json_u64_field(v: JsonModel, name: Seq<char>) -> Option<u64> {
    match json_field(v, name) {
        Some(f) => json_as_u64(f),
        _ => None,
    }
}

/// Reads a number as `u64`: digits only, within range.
pub fn get_as_u64(v: &JsonValue) -> (r: Option<u64>)
    ensures
        r == json_as_u64(v.model()),
{
    match v {
        JsonValue::Number(s) => {
            let ghost ds = s@;
            let len = s.as_str().unicode_len();
            if len == 0 {
                proof {
                    assert(v.model() == JsonModel::Number(ds));
                }
                return None;
            }
            let mut val: u64 = 0;
            let mut j: usize = 0;
            proof {
                assert(ds.take(0) =~= Seq::<char>::empty());
            }
            while j < len
                invariant
                    v == JsonValue::Number(*s),
                    ds == s@,
                    len == ds.len(),
                    1 <= len,
                    0 <= j <= len,
                    forall|t: int| 0 <= t < j ==> is_dec_digit(#[trigger] ds[t]),
                    val as nat == digits_val(ds.take(j as int)),
                decreases len - j,
            {
                let c = s.as_str().get_char(j);
                let cu = c as u32;
                if !(48 <= cu && cu <= 57) {
                    proof {
                        assert(v.model() == JsonModel::Number(ds));
                        assert(!is_dec_digit(ds[j as int]));
                        assert(number_as_u64(ds) is None);
                    }
                    return None;
                }
                let d: u64 = (cu - 48) as u64;
                proof {
                    assert(is_dec_digit(c));
                    assert(d as nat == crate::text::dec_digit_val(c));
                    assert(ds.take(j + 1).drop_last() =~= ds.take(j as int));
                    assert(ds.take(j + 1).last() == ds[j as int]);
                }
                if val > (u64::MAX - d) / 10 {
                    proof {
                        let q = (u64::MAX - d) as int / 10;
                        vstd::arithmetic::div_mod::lemma_fundamental_div_mod(
                            (u64::MAX - d) as int,
                            10,
                        );
                        assert(val * 10 >= (q + 1) * 10) by (nonlinear_arith)
                            requires
                                val as int >= q + 1,
                        ;
                        assert(val * 10 + d > u64::MAX);
                        assert(digits_val(ds.take(j + 1)) > u64::MAX);
                        crate::text::lemma_digits_prefix_le(ds, 0, j + 1, len as int);
                        assert(ds.subrange(0, j + 1) =~= ds.take(j + 1));
                        assert(ds.subrange(0, len as int) =~= ds);
                        assert(digits_val(ds) > u64::MAX);
                        assert(number_as_u64(ds) is None);
                        assert(v.model() == JsonModel::Number(ds));
                    }
                    return None;
                }
                proof {
                    let q = (u64::MAX - d) as int / 10;
                    vstd::arithmetic::div_mod::lemma_fundamental_div_mod((u64::MAX - d) as int, 10);
                    assert(val * 10 <= q * 10) by (nonlinear_arith)
                        requires
                            val as int <= q,
                    ;
                    assert(val * 10 + d <= u64::MAX);
                }
                val = val * 10 + d;
                j += 1;
            }
            proof {
                assert(ds.take(len as int) =~= ds);
                assert(v.model() == JsonModel::Number(ds));
            }
            Some(val)
        },
        _ => None,
    }
}

/// Reads field `name` of an object as `u64`.
pub fn get_u64_field(v: &JsonValue, name: &str) -> (r: Option<u64>)
    ensures
        r == json_u64_field(v.model(), name@),
{
    match get_field(v, name) {
        Some(f) => get_as_u64(f),
        None => None,
    }
}

} // verus!

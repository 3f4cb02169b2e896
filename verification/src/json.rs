//! JSON values, their text, and their relation to structured values.
use vstd::prelude::*;
use vstd::string::*;
use crate::assoc::{entries_view, keys_differ, lemma_lookup_stands, lookup, stored, TextMap};
use crate::cbor::{Cbor, CborValue};
use crate::text::same;

verus! {

/// A JSON value.
#[derive(Debug, PartialEq, Eq)]
pub enum JsonValue {
    /// No value.
    Null,
    /// A truth value.
    Bool(bool),
    /// An integer.
    Integer(i128),
    /// A floating-point number, held as its shortest decimal rendering.
    Float(String),
    /// A string.
    Text(String),
    /// A list of values.
    Array(Vec<JsonValue>),
    /// Keys with their values.
    Object(Vec<(String, JsonValue)>),
}

/// What a `JsonValue` holds.
pub enum Json {
    Null,
    Bool(bool),
    Integer(int),
    Float(Seq<char>),
    Text(Seq<char>),
    Array(Seq<Json>),
    Object(Seq<(Seq<char>, Json)>),
}

/// The value with its strings and lists as sequences.
pub open spec fn json_view(v: JsonValue) -> Json
    decreases v,
{
    match v {
        JsonValue::Null => Json::Null,
        JsonValue::Bool(b) => Json::Bool(b),
        JsonValue::Integer(n) => Json::Integer(n as int),
        JsonValue::Float(s) => Json::Float(s@),
        JsonValue::Text(s) => Json::Text(s@),
        JsonValue::Array(items) => Json::Array(
            Seq::new(
                items@.len(),
                |i: int|
                    if 0 <= i < items@.len() {
                        json_view(items@[i])
                    } else {
                        Json::Null
                    },
            ),
        ),
        JsonValue::Object(entries) => Json::Object(
            Seq::new(
                entries@.len(),
                |i: int|
                    if 0 <= i < entries@.len() {
                        (entries@[i].0@, json_view(entries@[i].1))
                    } else {
                        (Seq::empty(), Json::Null)
                    },
            ),
        ),
    }
}

impl View for JsonValue {
    type V = Json;

    open spec fn view(&self) -> Json {
        json_view(*self)
    }
}

pub proof fn lemma_array_view(v: JsonValue)
    requires
        v is Array,
    ensures
        v@ == Json::Array(v->Array_0@.map_values(|j: JsonValue| j@)),
{
    assert(v@->Array_0 =~= v->Array_0@.map_values(|j: JsonValue| j@));
}

pub proof fn lemma_object_view(v: JsonValue)
    requires
        v is Object,
    ensures
        v@ == Json::Object(entries_view(v->Object_0@)),
{
    assert(v@->Object_0 =~= entries_view(v->Object_0@));
}

/// An object with these entries.
pub fn object_value(entries: Vec<(String, JsonValue)>) -> (r: JsonValue)
    ensures
        r@ == Json::Object(entries_view(entries@)),
{
    let r = JsonValue::Object(entries);
    proof {
        lemma_object_view(r);
    }
    r
}

/// A list of values with their views.
pub open spec fn json_views(items: Seq<JsonValue>) -> Seq<Json> {
    Seq::new(items.len(), |i: int| items[i]@)
}

/// A list with these values.
pub fn list_value(items: Vec<JsonValue>) -> (r: JsonValue)
    ensures
        r@ == Json::Array(json_views(items@)),
{
    let ghost views = json_views(items@);
    let r = JsonValue::Array(items);
    assert(r@->Array_0 =~= views);
    r
}

/// Adds an entry to those of an object.
pub fn put(entries: &mut Vec<(String, JsonValue)>, key: &str, value: JsonValue)
    ensures
        entries_view(final(entries)@) == entries_view(old(entries)@).push((key@, value@)),
{
    let ghost before = entries_view(entries@);
    let ghost added = (key@, value@);
    entries.push((key.to_owned(), value));
    assert(entries_view(entries@) =~= before.push(added));
}

/// The string of an optional text; `null` for none.
pub open spec fn text_or_null(o: Option<Seq<char>>) -> Json {
    match o {
        Some(s) => Json::Text(s),
        None => Json::Null,
    }
}

/// The string of an optional text; `null` for none.
pub fn optional_text(o: Option<&str>) -> (r: JsonValue)
    ensures
        r@ == text_or_null(
            match o {
                Some(s) => Some(s@),
                None => None,
            },
        ),
{
    match o {
        Some(s) => JsonValue::Text(s.to_owned()),
        None => JsonValue::Null,
    }
}

/// An optional value; `null` for none.
pub open spec fn value_or_null(o: Option<Json>) -> Json {
    match o {
        Some(v) => v,
        None => Json::Null,
    }
}

/// An optional value; `null` for none.
pub fn optional_value(o: &Option<JsonValue>) -> (r: JsonValue)
    ensures
        r@ == value_or_null(option_json(*o)),
{
    match o {
        Some(v) => v.clone(),
        None => JsonValue::Null,
    }
}

/// An optional JSON value over its view.
pub open spec fn option_json(o: Option<JsonValue>) -> Option<Json> {
    match o {
        Some(v) => Some(v@),
        None => None,
    }
}

impl Clone for JsonValue {
    fn clone(&self) -> (r: JsonValue)
        ensures
            r@ == self@,
        decreases self,
    {
        match self {
            JsonValue::Null => JsonValue::Null,
            JsonValue::Bool(b) => JsonValue::Bool(*b),
            JsonValue::Integer(n) => JsonValue::Integer(*n),
            JsonValue::Float(s) => JsonValue::Float(s.clone()),
            JsonValue::Text(s) => JsonValue::Text(s.clone()),
            JsonValue::Array(items) => {
                let mut out: Vec<JsonValue> = Vec::new();
                let mut i: usize = 0;
                while i < items.len()
                    invariant
                        i <= items.len(),
                        out.len() == i,
                        forall|k: int| 0 <= k < i ==> (#[trigger] out@[k])@ == items@[k]@,
                        *self == JsonValue::Array(*items),
                    decreases items.len() - i,
                {
                    assert(decreases_to!(*self => (*self)->Array_0));
                    assert(decreases_to!(items@ => items@[i as int]));
                    let c = items[i].clone();
                    out.push(c);
                    i += 1;
                }
                let r = JsonValue::Array(out);
                assert(r@->Array_0 =~= self@->Array_0);
                r
            },
            JsonValue::Object(entries) => {
                let mut out: Vec<(String, JsonValue)> = Vec::new();
                let mut i: usize = 0;
                while i < entries.len()
                    invariant
                        i <= entries.len(),
                        out.len() == i,
                        forall|k: int|
                            0 <= k < i ==> (#[trigger] out@[k]).0@ == entries@[k].0@ && out@[k].1@
                                == entries@[k].1@,
                        *self == JsonValue::Object(*entries),
                    decreases entries.len() - i,
                {
                    assert(decreases_to!(*self => (*self)->Object_0));
                    assert(decreases_to!(entries@ => entries@[i as int]));
                    let value = entries[i].1.clone();
                    out.push((entries[i].0.clone(), value));
                    i += 1;
                }
                let r = JsonValue::Object(out);
                assert(r@->Object_0 =~= self@->Object_0);
                r
            },
        }
    }
}

// ---------------------------------------------------------------------------
// Reading
// ---------------------------------------------------------------------------

/// What an object holds under `key`.
pub open spec fn json_field(v: Json, key: Seq<char>) -> Option<Json> {
    match v {
        Json::Object(entries) => lookup(entries, key),
        _ => None,
    }
}

/// What an optional object holds under `key`.
pub open spec fn json_at(v: Option<Json>, key: Seq<char>) -> Option<Json> {
    match v {
        Some(inner) => json_field(inner, key),
        None => None,
    }
}

/// The string that an optional value is.
pub open spec fn json_string(v: Option<Json>) -> Option<Seq<char>> {
    match v {
        Some(Json::Text(s)) => Some(s),
        _ => None,
    }
}

/// The list that an optional value is.
pub open spec fn json_list(v: Option<Json>) -> Option<Seq<Json>> {
    match v {
        Some(Json::Array(items)) => Some(items),
        _ => None,
    }
}

/// The unsigned number that an optional value is.
pub open spec fn json_unsigned(v: Option<Json>) -> Option<u64> {
    match v {
        Some(Json::Integer(n)) => if 0 <= n <= u64::MAX {
            Some(n as u64)
        } else {
            None
        },
        _ => None,
    }
}

/// A reference to a value over its view.
pub open spec fn option_ref(o: Option<&JsonValue>) -> Option<Json> {
    match o {
        Some(v) => Some(v@),
        None => None,
    }
}

/// What the entries hold under `key`.
pub fn entry_of<'a>(entries: &'a Vec<(String, JsonValue)>, key: &str) -> (r: Option<&'a JsonValue>)
    ensures
        option_ref(r) == lookup(entries_view(entries@), key@),
{
    proof {
        reveal_with_fuel(lookup, 1);
    }
    let ghost all = entries_view(entries@);
    let mut i: usize = 0;
    assert(all.skip(0) =~= all);
    while i < entries.len()
        invariant
            i <= entries.len(),
            all == entries_view(entries@),
            lookup(all, key@) == lookup(all.skip(i as int), key@),
        decreases entries.len() - i,
    {
        proof {
            reveal_with_fuel(lookup, 1);
            assert(all.skip(i as int).drop_first() =~= all.skip(i + 1));
            assert(all.skip(i as int)[0] == (entries@[i as int].0@, entries@[i as int].1@));
        }
        if same(entries[i].0.as_str(), key) {
            return Some(&entries[i].1);
        }
        i += 1;
    }
    None
}

/// What the value, where it is an object, holds under `key`.
pub fn field<'a>(v: &'a JsonValue, key: &str) -> (r: Option<&'a JsonValue>)
    ensures
        option_ref(r) == json_field(v@, key@),
{
    match v {
        JsonValue::Object(entries) => {
            proof {
                lemma_object_view(*v);
            }
            entry_of(entries, key)
        },
        _ => None,
    }
}

/// What the value, where there is one and it is an object, holds under `key`.
pub fn at<'a>(v: Option<&'a JsonValue>, key: &str) -> (r: Option<&'a JsonValue>)
    ensures
        option_ref(r) == json_at(option_ref(v), key@),
{
    match v {
        Some(inner) => field(inner, key),
        None => None,
    }
}

/// The string that the value is.
pub fn as_str<'a>(v: Option<&'a JsonValue>) -> (r: Option<&'a str>)
    ensures
        match r {
            Some(s) => json_string(option_ref(v)) == Some(s@),
            None => json_string(option_ref(v)) is None,
        },
{
    match v {
        Some(JsonValue::Text(s)) => Some(s.as_str()),
        _ => None,
    }
}

/// The list that the value is.
pub fn as_array<'a>(v: Option<&'a JsonValue>) -> (r: Option<&'a Vec<JsonValue>>)
    ensures
        match r {
            Some(items) => json_list(option_ref(v)) == Some(items@.map_values(|j: JsonValue| j@)),
            None => json_list(option_ref(v)) is None,
        },
{
    match v {
        Some(inner) => {
            proof {
                if *inner is Array {
                    lemma_array_view(*inner);
                }
            }
            match inner {
                JsonValue::Array(items) => Some(items),
                _ => None,
            }
        },
        None => None,
    }
}

/// The unsigned number that the value is.
pub fn as_u64(v: Option<&JsonValue>) -> (r: Option<u64>)
    ensures
        r == json_unsigned(option_ref(v)),
{
    match v {
        Some(JsonValue::Integer(n)) => if 0 <= *n && *n <= u64::MAX as i128 {
            Some(*n as u64)
        } else {
            None
        },
        _ => None,
    }
}

// ---------------------------------------------------------------------------
// Text
// ---------------------------------------------------------------------------

#[verifier::external_type_specification]
#[verifier::external_body]
pub struct ExSerdeValue(serde_json::Value);

/// What `serde_json::from_str` reads out of a text; nothing where the text is not
/// JSON.
pub uninterp spec fn json_parsed(text: Seq<char>) -> Option<Json>;

/// What `serde_json::Value::to_string` writes for a value.
pub uninterp spec fn json_compact(v: Json) -> Seq<char>;

/// What `serde_json::to_string_pretty` writes for a value.
pub uninterp spec fn json_pretty(v: Json) -> Seq<char>;

/// What `json5::from_str` reads out of a text, or the message of its error.
pub uninterp spec fn json5_parsed(text: Seq<char>) -> Result<Json, Seq<char>>;

/// Whether a value holds no floating-point number, no integer beyond 64 bits and no
/// key twice, and is nested less than `depth` deep.
pub open spec fn plain(v: Json, depth: nat) -> bool
    decreases depth,
{
    &&& depth > 0
    &&& match v {
        Json::Float(_) => false,
        Json::Integer(n) => i64::MIN <= n <= u64::MAX,
        Json::Array(items) => forall|i: int|
            0 <= i < items.len() ==> plain(#[trigger] items[i], (depth - 1) as nat),
        Json::Object(entries) => keys_differ(entries) && forall|i: int|
            0 <= i < entries.len() ==> plain((#[trigger] entries[i]).1, (depth - 1) as nat),
        _ => true,
    }
}

/// Whether a text holds neither a line nor a paragraph separator.
pub open spec fn separator_free(s: Seq<char>) -> bool {
    !s.contains('\u{2028}') && !s.contains('\u{2029}')
}

/// Whether no text and no key of a value holds a separator, and its integers are not
/// beyond those that JSON5 reads.
pub open spec fn json5_readable(v: Json) -> bool
    decreases v,
{
    match v {
        Json::Integer(n) => n <= i64::MAX,
        Json::Text(s) => separator_free(s),
        Json::Array(items) => forall|i: int| 0 <= i < items.len() ==> json5_readable(#[trigger] items[i]),
        Json::Object(entries) => forall|i: int|
            0 <= i < entries.len() ==> separator_free((#[trigger] entries[i]).0) && json5_readable(entries[i].1),
        _ => true,
    }
}

/// Whether two values are the same up to the order of keys.
pub open spec fn reordered(a: Json, b: Json) -> bool
    decreases a,
{
    match a {
        Json::Array(x) => match b {
            Json::Array(y) => x.len() == y.len() && forall|i: int| 0 <= i < x.len() ==> reordered(#[trigger] x[i], y[i]),
            _ => false,
        },
        Json::Object(x) => match b {
            Json::Object(y) => {
                &&& keys_differ(y)
                &&& forall|i: int|
                    0 <= i < x.len() ==> exists|j: int|
                        0 <= j < y.len() && (#[trigger] y[j]).0 == (#[trigger] x[i]).0 && reordered(x[i].1, y[j].1)
                &&& forall|j: int|
                    0 <= j < y.len() ==> exists|i: int|
                        0 <= i < x.len() && (#[trigger] x[i]).0 == (#[trigger] y[j]).0
            },
            _ => false,
        },
        _ => a == b,
    }
}

/// Whether a plain value is read as JSON from a text.
pub open spec fn reads_back(text: Seq<char>, v: Json) -> bool {
    plain(v, 100) ==> (json_parsed(text) matches Some(again) && reordered(v, again))
}

/// Whether a plain value is read from a text, as JSON and as JSON5.
pub open spec fn comes_back(text: Seq<char>, v: Json) -> bool {
    &&& reads_back(text, v)
    &&& plain(v, 100) && json5_readable(v) ==> (json5_parsed(text) matches Ok(again) && reordered(v, again))
}

/// Whether `serde_json` has a value for this one: its integers fit 64 bits, signed or
/// unsigned, its floating-point numbers are numbers, and no key occurs twice.
pub open spec fn writable(v: Json) -> bool
    decreases v,
{
    match v {
        Json::Integer(n) => i64::MIN <= n <= u64::MAX,
        Json::Float(_) => json_compact(v) != "null"@,
        Json::Array(items) => forall|i: int| 0 <= i < items.len() ==> writable(#[trigger] items[i]),
        Json::Object(entries) => keys_differ(entries) && forall|i: int|
            0 <= i < entries.len() ==> writable((#[trigger] entries[i]).1),
        _ => true,
    }
}

/// Whether two values hold the same, in whatever order their keys stand. Two
/// renderings of a floating-point number that are written alike are one number.
pub open spec fn same_content(a: Json, b: Json) -> bool
    decreases a,
{
    match a {
        Json::Float(_) => b is Float && json_compact(a) == json_compact(b),
        Json::Array(x) => match b {
            Json::Array(y) => x.len() == y.len() && forall|i: int|
                0 <= i < x.len() ==> same_content(#[trigger] x[i], y[i]),
            _ => false,
        },
        Json::Object(x) => match b {
            Json::Object(y) => x.len() == y.len() && forall|i: int|
                0 <= i < x.len() ==> exists|j: int|
                    0 <= j < y.len() && (#[trigger] y[j]).0 == (#[trigger] x[i]).0 && same_content(x[i].1, y[j].1),
            _ => false,
        },
        _ => a == b,
    }
}

/// Whether a text is written for no value but those with the same content.
pub open spec fn tells_apart(text: Seq<char>, v: Json) -> bool {
    writable(v) ==> forall|w: Json| writable(w) && #[trigger] json_compact(w) == text ==> same_content(v, w)
}

/// Values with the same content hold the same under each key.
pub proof fn same_content_is_found(a: Json, b: Json, key: Seq<char>)
    requires
        same_content(a, b),
        a is Object,
        b matches Json::Object(y) && keys_differ(y),
        json_field(a, key) is Some,
    ensures
        json_field(b, key) matches Some(other) && same_content(json_field(a, key)->Some_0, other),
{
    let x = a->Object_0;
    let y = b->Object_0;
    lemma_lookup_stands(x, key);
    lemma_lookup_stands(y, key);
    let value = lookup(x, key)->Some_0;
    let i = choose|i: int| 0 <= i < x.len() && (#[trigger] x[i]).0 == key && x[i].1 == value;
    let j = choose|j: int| 0 <= j < y.len() && (#[trigger] y[j]).0 == x[i].0 && same_content(x[i].1, y[j].1);
    assert(y[j].0 == key);
    let other = lookup(y, key)->Some_0;
    let k = choose|k: int| 0 <= k < y.len() && (#[trigger] y[k]).0 == key && y[k].1 == other;
    assert(k == j);
}

/// What is found under a key does not depend on the order of keys.
pub proof fn reordered_values_are_found(a: Json, b: Json, key: Seq<char>)
    requires
        reordered(a, b),
        a matches Json::Object(x) && keys_differ(x),
    ensures
        match json_field(a, key) {
            Some(value) => json_field(b, key) matches Some(other) && reordered(value, other),
            None => json_field(b, key) is None,
        },
{
    let x = a->Object_0;
    let y = b->Object_0;
    lemma_lookup_stands(x, key);
    lemma_lookup_stands(y, key);
    if let Some(value) = lookup(x, key) {
        let i = choose|i: int| 0 <= i < x.len() && (#[trigger] x[i]).0 == key && x[i].1 == value;
        let j = choose|j: int|
            0 <= j < y.len() && (#[trigger] y[j]).0 == x[i].0 && reordered(x[i].1, y[j].1);
        assert(y[j].0 == key);
        assert(lookup(y, key) is Some);
        let other = lookup(y, key)->Some_0;
        let k = choose|k: int| 0 <= k < y.len() && (#[trigger] y[k]).0 == key && y[k].1 == other;
        assert(k == j);
    } else if lookup(y, key) is Some {
        let other = lookup(y, key)->Some_0;
        let k = choose|k: int| 0 <= k < y.len() && (#[trigger] y[k]).0 == key && y[k].1 == other;
        let i = choose|i: int| 0 <= i < x.len() && (#[trigger] x[i]).0 == y[k].0;
        assert(x[i].0 == key);
    }
}

/// Converts to the value type of `serde_json`, one for one.
#[verifier::external_body]
fn to_serde(v: &JsonValue) -> (r: serde_json::Value) {
    match v {
        JsonValue::Null => serde_json::Value::Null,
        JsonValue::Bool(b) => serde_json::Value::Bool(*b),
        JsonValue::Integer(n) => serde_json::Value::from(serde_json::Number::from_i128(*n)),
        JsonValue::Float(s) => serde_json::Value::from(s.parse().ok().and_then(serde_json::Number::from_f64)),
        JsonValue::Text(s) => serde_json::Value::String(s.clone()),
        JsonValue::Array(items) => serde_json::Value::Array(items.iter().map(to_serde).collect()),
        JsonValue::Object(entries) => serde_json::Value::Object(entries.iter().map(|e| (e.0.clone(), to_serde(&e.1))).collect()),
    }
}

/// Converts from the value type of `serde_json`, one for one.
#[verifier::external_body]
fn from_serde(v: &serde_json::Value) -> (r: JsonValue) {
    match v {
        serde_json::Value::Null => JsonValue::Null,
        serde_json::Value::Bool(b) => JsonValue::Bool(*b),
        serde_json::Value::Number(n) => match n.as_i128() {
            Some(i) => JsonValue::Integer(i),
            None => n.as_f64().map_or(JsonValue::Null, |f| JsonValue::Float(f.to_string())),
        },
        serde_json::Value::String(s) => JsonValue::Text(s.clone()),
        serde_json::Value::Array(items) => JsonValue::Array(items.iter().map(from_serde).collect()),
        serde_json::Value::Object(map) => JsonValue::Object(map.iter().map(|e| (e.0.clone(), from_serde(e.1))).collect()),
    }
}

/// Reads JSON with `serde_json::from_str`. What a text reads as is left to that
/// function: the result is its name applied to the text.
#[verifier::external_body]
pub(crate) fn parse_json(text: &str) -> (r: Option<JsonValue>)
    ensures
        option_json(r) == json_parsed(text@),
{
    serde_json::from_str::<serde_json::Value>(text).ok().map(|v| from_serde(&v))
}

/// Writes a value compactly with `serde_json::Value::to_string`. The layout is
/// left to that function: the result is its name applied to the value. Values that
/// `serde_json` has are written differently, unless they have the same content:
/// texts are quoted and escaped, lists and objects bracketed, and a floating-point
/// number is written with a point or an exponent.
#[verifier::external_body]
pub(crate) fn compact_text(v: &JsonValue) -> (r: String)
    ensures
        r@ == json_compact(v@),
        tells_apart(r@, v@),
{
    to_serde(v).to_string()
}

/// Writes a value over several lines with `serde_json::to_string_pretty`. The
/// layout is left to that function: the result is its name applied to the value.
/// `serde_json::from_str` reads a plain value back from it, and so does
/// `json5::from_str` unless a text in it holds a separator or an integer is beyond
/// `i64`; keys may come back in another order.
#[verifier::external_body]
pub(crate) fn pretty_text(v: &JsonValue) -> (r: String)
    ensures
        r@ == json_pretty(v@),
        comes_back(r@, v@),
{
    serde_json::to_string_pretty(&to_serde(v)).unwrap_or_default()
}

/// A parse result over its views.
pub open spec fn parse_view(r: Result<JsonValue, String>) -> Result<Json, Seq<char>> {
    match r {
        Ok(v) => Ok(v@),
        Err(e) => Err(e@),
    }
}

/// Reads JSON5 with `json5::from_str`. What a text reads as, and what an error
/// says, is left to that function: the result is its name applied to the text.
#[verifier::external_body]
pub(crate) fn parse_json5(text: &str) -> (r: Result<JsonValue, String>)
    ensures
        parse_view(r) == json5_parsed(text@),
{
    match json5::from_str::<serde_json::Value>(text) {
        Ok(v) => Ok(from_serde(&v)),
        Err(e) => Err(e.to_string()),
    }
}

// ---------------------------------------------------------------------------
// Structured values
// ---------------------------------------------------------------------------

/// Whether every integer inside fits a JSON number.
pub open spec fn json_sized(v: Cbor) -> bool
    decreases v,
{
    match v {
        Cbor::Integer(n) => i64::MIN <= n <= u64::MAX,
        Cbor::Array(items) => forall|i: int| 0 <= i < items.len() ==> json_sized(#[trigger] items[i]),
        Cbor::Dict(entries) => forall|i: int|
            0 <= i < entries.len() ==> json_sized((#[trigger] entries[i]).0) && json_sized(entries[i].1),
        Cbor::Tag(_, inner) => json_sized(*inner),
        _ => true,
    }
}

/// Whether a rendered floating-point number is finite.
pub open spec fn finite_text(s: Seq<char>) -> bool {
    s != "NaN"@ && s != "inf"@ && s != "-inf"@
}

/// The JSON form of a structured value.
pub open spec fn json_of(v: Cbor) -> Json
    decreases v, 0nat,
{
    match v {
        Cbor::Null => Json::Null,
        Cbor::Bool(b) => Json::Bool(b),
        Cbor::Integer(n) => Json::Integer(n),
        Cbor::Float(s) => if finite_text(s) {
            Json::Float(s)
        } else {
            Json::Null
        },
        Cbor::Text(s) => Json::Text(s),
        Cbor::Bytes(b) => Json::Array(b.map_values(|x: u8| Json::Integer(x as int))),
        Cbor::Array(items) => Json::Array(
            Seq::new(
                items.len(),
                |i: int|
                    if 0 <= i < items.len() {
                        json_of(items[i])
                    } else {
                        Json::Null
                    },
            ),
        ),
        Cbor::Dict(entries) => Json::Object(object_of(entries, entries.len())),
        Cbor::Tag(_, inner) => json_of(*inner),
    }
}

/// The key under which an entry is filed: a string as it is, anything else as
/// compact JSON.
pub open spec fn key_of(key: Cbor) -> Seq<char>
    decreases key, 1nat,
{
    match key {
        Cbor::Text(s) => s,
        _ => json_compact(json_of(key)),
    }
}

/// The object of the first `n` entries; a later entry replaces an earlier one
/// with the same key.
pub open spec fn object_of(entries: Seq<(Cbor, Cbor)>, n: nat) -> Seq<(Seq<char>, Json)>
    decreases entries, n,
{
    if n == 0 || n > entries.len() {
        Seq::empty()
    } else {
        stored(
            object_of(entries, (n - 1) as nat),
            key_of(entries[n - 1].0),
            json_of(entries[n - 1].1),
        )
    }
}

/// Converts a structured value to JSON.
pub fn cbor_to_json(v: &CborValue) -> (r: JsonValue)
    requires
        json_sized(v@),
    ensures
        r@ == json_of(v@),
    decreases v,
{
    match v {
        CborValue::Null => JsonValue::Null,
        CborValue::Bool(b) => JsonValue::Bool(*b),
        CborValue::Integer(n) => JsonValue::Integer(*n),
        CborValue::Float(s) => {
            if same(s.as_str(), "NaN") || same(s.as_str(), "inf") || same(s.as_str(), "-inf") {
                JsonValue::Null
            } else {
                JsonValue::Float(s.clone())
            }
        },
        CborValue::Text(s) => JsonValue::Text(s.clone()),
        CborValue::Bytes(bytes) => {
            let mut items: Vec<JsonValue> = Vec::new();
            let mut i: usize = 0;
            while i < bytes.len()
                invariant
                    i <= bytes.len(),
                    items.len() == i,
                    forall|k: int| 0 <= k < i ==> (#[trigger] items@[k])@ == Json::Integer(bytes@[k] as int),
                decreases bytes.len() - i,
            {
                items.push(JsonValue::Integer(bytes[i] as i128));
                i += 1;
            }
            let r = JsonValue::Array(items);
            assert(r@->Array_0 =~= bytes@.map_values(|x: u8| Json::Integer(x as int)));
            r
        },
        CborValue::Array(items) => {
            let mut out: Vec<JsonValue> = Vec::new();
            let mut i: usize = 0;
            while i < items.len()
                invariant
                    json_sized(v@),
                    i <= items.len(),
                    out.len() == i,
                    forall|k: int| 0 <= k < i ==> (#[trigger] out@[k])@ == json_of(items@[k]@),
                    *v == CborValue::Array(*items),
                decreases items.len() - i,
            {
                assert(decreases_to!(*v => (*v)->Array_0));
                assert(decreases_to!(items@ => items@[i as int]));
                assert(json_sized(v@->Array_0[i as int]));
                let c = cbor_to_json(&items[i]);
                out.push(c);
                i += 1;
            }
            let r = JsonValue::Array(out);
            assert(r@->Array_0 =~= json_of(v@)->Array_0);
            r
        },
        CborValue::Dict(entries) => {
            let mut map: TextMap<JsonValue> = TextMap::new();
            let mut i: usize = 0;
            while i < entries.len()
                invariant
                    json_sized(v@),
                    i <= entries.len(),
                    map@ == object_of(v@->Dict_0, i as nat),
                    *v == CborValue::Dict(*entries),
                decreases entries.len() - i,
            {
                assert(decreases_to!(*v => (*v)->Dict_0));
                assert(decreases_to!(entries@ => entries@[i as int]));
                assert(json_sized(v@->Dict_0[i as int].0));
                assert(v@->Dict_0[i as int].0 == entries@[i as int].0@);
                let key = match &entries[i].0 {
                    CborValue::Text(s) => s.clone(),
                    _ => {
                        let k = cbor_to_json(&entries[i].0);
                        assert(!(entries@[i as int].0 is Text));
                        compact_text(&k)
                    },
                };
                assert(key@ == key_of(v@->Dict_0[i as int].0));
                let value = cbor_to_json(&entries[i].1);
                map.insert(key, value);
                i += 1;
            }
            let r = JsonValue::Object(map.entries);
            proof {
                lemma_object_view(r);
            }
            r
        },
        CborValue::Tag(_, inner) => cbor_to_json(inner),
    }
}

/// The structured form of a JSON value.
pub open spec fn cbor_of(v: Json) -> Cbor
    decreases v,
{
    match v {
        Json::Null => Cbor::Null,
        Json::Bool(b) => Cbor::Bool(b),
        Json::Integer(n) => Cbor::Integer(n),
        Json::Float(s) => Cbor::Float(s),
        Json::Text(s) => Cbor::Text(s),
        Json::Array(items) => Cbor::Array(
            Seq::new(
                items.len(),
                |i: int|
                    if 0 <= i < items.len() {
                        cbor_of(items[i])
                    } else {
                        Cbor::Null
                    },
            ),
        ),
        Json::Object(entries) => Cbor::Dict(
            Seq::new(
                entries.len(),
                |i: int|
                    if 0 <= i < entries.len() {
                        (Cbor::Text(entries[i].0), cbor_of(entries[i].1))
                    } else {
                        (Cbor::Null, Cbor::Null)
                    },
            ),
        ),
    }
}

/// Converts JSON to a structured value.
pub fn json_to_cbor(v: &JsonValue) -> (r: CborValue)
    ensures
        r@ == cbor_of(v@),
    decreases v,
{
    match v {
        JsonValue::Null => CborValue::Null,
        JsonValue::Bool(b) => CborValue::Bool(*b),
        JsonValue::Integer(n) => CborValue::Integer(*n),
        JsonValue::Float(s) => CborValue::Float(s.clone()),
        JsonValue::Text(s) => CborValue::Text(s.clone()),
        JsonValue::Array(items) => {
            let mut out: Vec<CborValue> = Vec::new();
            let mut i: usize = 0;
            while i < items.len()
                invariant
                    i <= items.len(),
                    out.len() == i,
                    forall|k: int| 0 <= k < i ==> (#[trigger] out@[k])@ == cbor_of(items@[k]@),
                    *v == JsonValue::Array(*items),
                decreases items.len() - i,
            {
                assert(decreases_to!(*v => (*v)->Array_0));
                assert(decreases_to!(items@ => items@[i as int]));
                let c = json_to_cbor(&items[i]);
                out.push(c);
                i += 1;
            }
            let r = CborValue::Array(out);
            assert(r@->Array_0 =~= cbor_of(v@)->Array_0);
            r
        },
        JsonValue::Object(entries) => {
            let mut out: Vec<(CborValue, CborValue)> = Vec::new();
            let mut i: usize = 0;
            while i < entries.len()
                invariant
                    i <= entries.len(),
                    out.len() == i,
                    forall|k: int|
                        0 <= k < i ==> (#[trigger] out@[k]).0@ == Cbor::Text(entries@[k].0@) && out@[k].1@
                            == cbor_of(entries@[k].1@),
                    *v == JsonValue::Object(*entries),
                decreases entries.len() - i,
            {
                assert(decreases_to!(*v => (*v)->Object_0));
                assert(decreases_to!(entries@ => entries@[i as int]));
                let value = json_to_cbor(&entries[i].1);
                out.push((CborValue::Text(entries[i].0.clone()), value));
                i += 1;
            }
            let r = CborValue::Dict(out);
            assert(r@->Dict_0 =~= cbor_of(v@)->Dict_0);
            r
        },
    }
}

} // verus!

//! Structured values carried by tool calls and their results.
//!
//! `CborValue` is the executable value; its view `Cbor` replaces strings and
//! lists by sequences.
use vstd::prelude::*;
use vstd::string::*;
use crate::text::{decimal, decimal_text, has_char, join, joined, same, signed_decimal, signed_text, texts};

verus! {

/// A structured value.
#[derive(Debug, PartialEq, Eq)]
pub enum CborValue {
    /// No value.
    Null,
    /// A truth value.
    Bool(bool),
    /// An integer.
    Integer(i128),
    /// A floating-point number, held as its shortest decimal rendering.
    Float(String),
    /// A string.
    Text(String),
    /// Raw bytes.
    Bytes(Vec<u8>),
    /// A list of values.
    Array(Vec<CborValue>),
    /// A list of keys with their values, in order.
    Dict(Vec<(CborValue, CborValue)>),
    /// A value under a numeric tag.
    Tag(u64, Box<CborValue>),
}

/// What a `CborValue` holds.
pub enum Cbor {
    Null,
    Bool(bool),
    Integer(int),
    Float(Seq<char>),
    Text(Seq<char>),
    Bytes(Seq<u8>),
    Array(Seq<Cbor>),
    Dict(Seq<(Cbor, Cbor)>),
    Tag(u64, Box<Cbor>),
}

impl CborValue {
    /// The value with its strings and lists as sequences.
    pub open spec fn view(&self) -> Cbor
        decreases self,
    {
        match self {
            CborValue::Null => Cbor::Null,
            CborValue::Bool(b) => Cbor::Bool(*b),
            CborValue::Integer(i) => Cbor::Integer(*i as int),
            CborValue::Float(s) => Cbor::Float(s@),
            CborValue::Text(s) => Cbor::Text(s@),
            CborValue::Bytes(b) => Cbor::Bytes(b@),
            CborValue::Array(items) => Cbor::Array(
                Seq::new(items@.len(), |i: int| if 0 <= i < items@.len() { items@[i].view() } else { Cbor::Null }),
            ),
            CborValue::Dict(entries) => Cbor::Dict(
                Seq::new(entries@.len(), |i: int| if 0 <= i < entries@.len() { (entries@[i].0.view(), entries@[i].1.view()) } else { (Cbor::Null, Cbor::Null) }),
            ),
            CborValue::Tag(t, inner) => Cbor::Tag(*t, Box::new((**inner).view())),
        }
    }
}

impl Clone for CborValue {
    fn clone(&self) -> (r: CborValue)
        ensures
            r@ == self@,
        decreases self,
    {
        match self {
            CborValue::Null => CborValue::Null,
            CborValue::Bool(b) => CborValue::Bool(*b),
            CborValue::Integer(i) => CborValue::Integer(*i),
            CborValue::Float(s) => CborValue::Float(s.clone()),
            CborValue::Text(s) => CborValue::Text(s.clone()),
            CborValue::Bytes(b) => {
                let c = b.clone();
                assert(c@ =~= b@);
                CborValue::Bytes(c)
            },
            CborValue::Array(items) => {
                let mut out: Vec<CborValue> = Vec::new();
                let mut i: usize = 0;
                while i < items.len()
                    invariant
                        i <= items.len(),
                        out.len() == i,
                        forall|k: int| 0 <= k < i ==> (#[trigger] out@[k])@ == items@[k]@,
                        *self == CborValue::Array(*items),
                    decreases items.len() - i,
                {
                    assert(decreases_to!(*self => (*self)->Array_0));
                    assert(decreases_to!(items@ => items@[i as int]));
                    let c = items[i].clone();
                    out.push(c);
                    i += 1;
                }
                let r = CborValue::Array(out);
                assert(r@->Array_0 =~= self@->Array_0);
                r
            },
            CborValue::Dict(entries) => {
                let mut out: Vec<(CborValue, CborValue)> = Vec::new();
                let mut i: usize = 0;
                while i < entries.len()
                    invariant
                        i <= entries.len(),
                        out.len() == i,
                        forall|k: int| 0 <= k < i ==> (#[trigger] out@[k]).0@ == entries@[k].0@ && out@[k].1@ == entries@[k].1@,
                        *self == CborValue::Dict(*entries),
                    decreases entries.len() - i,
                {
                    assert(decreases_to!(*self => (*self)->Dict_0));
                    assert(decreases_to!(entries@ => entries@[i as int]));
                    let k = entries[i].0.clone();
                    let v = entries[i].1.clone();
                    out.push((k, v));
                    i += 1;
                }
                let r = CborValue::Dict(out);
                assert(r@->Dict_0 =~= self@->Dict_0);
                r
            },
            CborValue::Tag(t, inner) => CborValue::Tag(*t, Box::new((**inner).clone())),
        }
    }
}

/// One line of a rendered dictionary: a value of several lines starts on a line
/// of its own.
pub open spec fn dict_line(key: Seq<char>, value: Seq<char>) -> Seq<char> {
    if value.contains('\n') {
        key + ":\n"@ + value
    } else {
        key + ": "@ + value
    }
}

/// The human-readable text of a value.
pub open spec fn cbor_text(v: Cbor) -> Seq<char>
    decreases v,
{
    match v {
        Cbor::Null => Seq::empty(),
        Cbor::Bool(b) => if b {
            "true"@
        } else {
            "false"@
        },
        Cbor::Integer(n) => signed_decimal(n),
        Cbor::Float(s) => s,
        Cbor::Text(s) => s,
        Cbor::Bytes(b) => "<"@ + decimal(b.len()) + " bytes>"@,
        Cbor::Array(items) => joined(item_texts(items), "\n"@),
        Cbor::Dict(entries) => joined(entry_texts(entries), "\n"@),
        Cbor::Tag(_, inner) => cbor_text(*inner),
    }
}

/// The texts of a list's items.
pub open spec fn item_texts(items: Seq<Cbor>) -> Seq<Seq<char>>
    decreases items,
{
    Seq::new(
        items.len(),
        |i: int|
            if 0 <= i < items.len() {
                cbor_text(items[i])
            } else {
                Seq::empty()
            },
    )
}

/// The lines of a dictionary's entries.
pub open spec fn entry_texts(entries: Seq<(Cbor, Cbor)>) -> Seq<Seq<char>>
    decreases entries,
{
    Seq::new(
        entries.len(),
        |i: int|
            if 0 <= i < entries.len() {
                dict_line(cbor_text(entries[i].0), cbor_text(entries[i].1))
            } else {
                Seq::empty()
            },
    )
}

/// Renders a value as human-readable text.
pub fn cbor_to_text(v: &CborValue) -> (s: String)
    ensures
        s@ == cbor_text(v@),
    decreases v,
{
    match v {
        CborValue::Null => String::new(),
        CborValue::Bool(b) => if *b {
            "true".to_owned()
        } else {
            "false".to_owned()
        },
        CborValue::Integer(n) => signed_text(*n),
        CborValue::Float(s) => s.clone(),
        CborValue::Text(s) => s.clone(),
        CborValue::Bytes(b) => {
            let mut s = "<".to_owned();
            s.append(decimal_text(b.len() as u128).as_str());
            s.append(" bytes>");
            s
        },
        CborValue::Array(items) => {
            let mut parts: Vec<String> = Vec::new();
            let mut i: usize = 0;
            while i < items.len()
                invariant
                    i <= items.len(),
                    parts.len() == i,
                    forall|k: int| 0 <= k < i ==> (#[trigger] parts@[k])@ == cbor_text(items@[k]@),
                    *v == CborValue::Array(*items),
                decreases items.len() - i,
            {
                assert(decreases_to!(*v => (*v)->Array_0));
                assert(decreases_to!(items@ => items@[i as int]));
                let part = cbor_to_text(&items[i]);
                parts.push(part);
                i += 1;
            }
            assert(texts(parts@) =~= item_texts(v@->Array_0));
            join(&parts, "\n")
        },
        CborValue::Dict(entries) => {
            let mut parts: Vec<String> = Vec::new();
            let mut i: usize = 0;
            while i < entries.len()
                invariant
                    i <= entries.len(),
                    parts.len() == i,
                    forall|k: int|
                        0 <= k < i ==> (#[trigger] parts@[k])@ == dict_line(
                            cbor_text(entries@[k].0@),
                            cbor_text(entries@[k].1@),
                        ),
                    *v == CborValue::Dict(*entries),
                decreases entries.len() - i,
            {
                assert(decreases_to!(*v => (*v)->Dict_0));
                assert(decreases_to!(entries@ => entries@[i as int]));
                let mut part = cbor_to_text(&entries[i].0);
                let value = cbor_to_text(&entries[i].1);
                if has_char(value.as_str(), '\n') {
                    part.append(":\n");
                } else {
                    part.append(": ");
                }
                part.append(value.as_str());
                parts.push(part);
                i += 1;
            }
            assert(texts(parts@) =~= entry_texts(v@->Dict_0));
            join(&parts, "\n")
        },
        CborValue::Tag(_, inner) => cbor_to_text(inner),
    }
}

/// The first string filed under the string `key` in a list of entries.
pub open spec fn text_entry(entries: Seq<(Cbor, Cbor)>, key: Seq<char>) -> Option<Seq<char>>
    decreases entries.len(),
{
    if entries.len() == 0 {
        None
    } else {
        match entries[0] {
            (Cbor::Text(k), Cbor::Text(v)) if k == key => Some(v),
            _ => text_entry(entries.drop_first(), key),
        }
    }
}

/// The string that a dictionary holds under `key`.
pub open spec fn dict_text(v: Cbor, key: Seq<char>) -> Option<Seq<char>> {
    match v {
        Cbor::Dict(entries) => text_entry(entries, key),
        _ => None,
    }
}

/// The string that a dictionary holds under `key`.
pub fn cbor_map_text<'a>(v: &'a CborValue, key: &str) -> (r: Option<&'a str>)
    ensures
        match r {
            Some(s) => dict_text(v@, key@) == Some(s@),
            None => dict_text(v@, key@) is None,
        },
{
    match v {
        CborValue::Dict(entries) => {
            let ghost all = v@->Dict_0;
            let mut i: usize = 0;
            assert(all.skip(0) =~= all);
            while i < entries.len()
                invariant
                    i <= entries.len(),
                    *v == CborValue::Dict(*entries),
                    all == v@->Dict_0,
                    text_entry(all, key@) == text_entry(all.skip(i as int), key@),
                decreases entries.len() - i,
            {
                proof {
                    assert(all.skip(i as int).drop_first() =~= all.skip(i + 1));
                    assert(all.skip(i as int)[0] == (entries@[i as int].0@, entries@[i as int].1@));
                }
                match (&entries[i].0, &entries[i].1) {
                    (CborValue::Text(k), CborValue::Text(value)) => {
                        if same(k.as_str(), key) {
                            return Some(value.as_str());
                        }
                    },
                    _ => {},
                }
                i += 1;
            }
            None
        },
        _ => None,
    }
}

/// The first value filed under the string `key` in a list of entries.
pub open spec fn any_entry(entries: Seq<(Cbor, Cbor)>, key: Seq<char>) -> Option<Cbor>
    decreases entries.len(),
{
    if entries.len() == 0 {
        None
    } else {
        match entries[0].0 {
            Cbor::Text(k) if k == key => Some(entries[0].1),
            _ => any_entry(entries.drop_first(), key),
        }
    }
}

/// The value that a dictionary holds under `key`.
pub open spec fn dict_entry(v: Cbor, key: Seq<char>) -> Option<Cbor> {
    match v {
        Cbor::Dict(entries) => any_entry(entries, key),
        _ => None,
    }
}

/// The value that a dictionary holds under `key`.
pub fn cbor_map_value<'a>(v: &'a CborValue, key: &str) -> (r: Option<&'a CborValue>)
    ensures
        match r {
            Some(value) => dict_entry(v@, key@) == Some(value@),
            None => dict_entry(v@, key@) is None,
        },
{
    match v {
        CborValue::Dict(entries) => {
            let ghost all = v@->Dict_0;
            let mut i: usize = 0;
            assert(all.skip(0) =~= all);
            while i < entries.len()
                invariant
                    i <= entries.len(),
                    *v == CborValue::Dict(*entries),
                    all == v@->Dict_0,
                    any_entry(all, key@) == any_entry(all.skip(i as int), key@),
                decreases entries.len() - i,
            {
                proof {
                    assert(all.skip(i as int).drop_first() =~= all.skip(i + 1));
                    assert(all.skip(i as int)[0] == (entries@[i as int].0@, entries@[i as int].1@));
                }
                match &entries[i].0 {
                    CborValue::Text(k) => {
                        if same(k.as_str(), key) {
                            return Some(&entries[i].1);
                        }
                    },
                    _ => {},
                }
                i += 1;
            }
            None
        },
        _ => None,
    }
}

/// The first truth value filed under the string `key` in a list of entries.
pub open spec fn bool_entry(entries: Seq<(Cbor, Cbor)>, key: Seq<char>) -> Option<bool>
    decreases entries.len(),
{
    if entries.len() == 0 {
        None
    } else {
        match entries[0] {
            (Cbor::Text(k), Cbor::Bool(v)) if k == key => Some(v),
            _ => bool_entry(entries.drop_first(), key),
        }
    }
}

/// The truth value that a dictionary holds under `key`.
pub open spec fn dict_bool(v: Cbor, key: Seq<char>) -> Option<bool> {
    match v {
        Cbor::Dict(entries) => bool_entry(entries, key),
        _ => None,
    }
}

/// The truth value that a dictionary holds under `key`.
pub fn cbor_map_bool(v: &CborValue, key: &str) -> (r: Option<bool>)
    ensures
        r == dict_bool(v@, key@),
{
    match v {
        CborValue::Dict(entries) => {
            let ghost all = v@->Dict_0;
            let mut i: usize = 0;
            assert(all.skip(0) =~= all);
            while i < entries.len()
                invariant
                    i <= entries.len(),
                    *v == CborValue::Dict(*entries),
                    all == v@->Dict_0,
                    bool_entry(all, key@) == bool_entry(all.skip(i as int), key@),
                decreases entries.len() - i,
            {
                proof {
                    assert(all.skip(i as int).drop_first() =~= all.skip(i + 1));
                    assert(all.skip(i as int)[0] == (entries@[i as int].0@, entries@[i as int].1@));
                }
                match (&entries[i].0, &entries[i].1) {
                    (CborValue::Text(k), CborValue::Bool(value)) => {
                        if same(k.as_str(), key) {
                            return Some(*value);
                        }
                    },
                    _ => {},
                }
                i += 1;
            }
            None
        },
        _ => None,
    }
}

/// A list of values with their views.
pub open spec fn values_view(items: Seq<CborValue>) -> Seq<Cbor> {
    Seq::new(items.len(), |i: int| items[i]@)
}

/// A list of entries with their views.
pub open spec fn entry_views(entries: Seq<(CborValue, CborValue)>) -> Seq<(Cbor, Cbor)> {
    Seq::new(entries.len(), |i: int| (entries[i].0@, entries[i].1@))
}

/// A list as a value.
pub fn array_value(items: Vec<CborValue>) -> (r: CborValue)
    ensures
        r@ == Cbor::Array(values_view(items@)),
{
    let ghost views = values_view(items@);
    let r = CborValue::Array(items);
    assert(r@->Array_0 =~= views);
    r
}

/// A list of entries as a value.
pub fn dict_value(entries: Vec<(CborValue, CborValue)>) -> (r: CborValue)
    ensures
        r@ == Cbor::Dict(entry_views(entries@)),
{
    let ghost views = entry_views(entries@);
    let r = CborValue::Dict(entries);
    assert(r@->Dict_0 =~= views);
    r
}

/// An entry under a string.
pub fn text_keyed(key: &str, value: CborValue) -> (r: (CborValue, CborValue))
    ensures
        r.0@ == Cbor::Text(key@),
        r.1 == value,
{
    (CborValue::Text(key.to_owned()), value)
}

} // verus!

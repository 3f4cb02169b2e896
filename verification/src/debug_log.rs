//! The lines of the log in which every arrival and every published event is
//! written down for later inspection.
use vstd::prelude::*;
use vstd::string::*;
use crate::assoc::entries_view;
use crate::json::{
    compact_text, json_compact, list_value, object_value, optional_text, put, text_or_null, Json, JsonValue,
};
use crate::paths::{join_path, path_join};
use crate::text::{
    byte_count, byte_len, cut_bytes, cut_to_bytes, decimal, decimal_text, last_bytes, take_last_bytes,
};

verus! {

/// The longest string that is written down whole, in bytes.
pub const WHOLE_STRING_BYTES: usize = 100;

/// How much is kept of each end of a longer string, in bytes.
pub const KEPT_STRING_BYTES: usize = 20;

/// The name of the log in its directory.
pub const DEBUG_LOG_FILE: &'static str = "events.jsonl";

/// Where the log of a directory lies.
pub fn debug_log_path(dir: &str) -> (r: String)
    ensures
        r@ == path_join(dir@, DEBUG_LOG_FILE@),
{
    join_path(dir, DEBUG_LOG_FILE)
}

/// A string as it is written down: a long one with its ends and its size.
pub open spec fn compact_string(s: Seq<char>) -> Seq<char> {
    if byte_len(s) <= WHOLE_STRING_BYTES {
        s
    } else {
        cut_bytes(s, KEPT_STRING_BYTES as nat) + "┄total "@ + decimal(byte_len(s)) + "┄"@ + last_bytes(
            s,
            KEPT_STRING_BYTES as nat,
        )
    }
}

/// Shortens a long string to its ends and its size.
pub fn compact_debug_string(s: &str) -> (r: String)
    ensures
        r@ == compact_string(s@),
{
    let bytes: usize = byte_count(s);
    if bytes <= WHOLE_STRING_BYTES {
        return s.to_owned();
    }
    let mut r = cut_to_bytes(s, KEPT_STRING_BYTES);
    r.append("┄total ");
    let size = decimal_text(bytes as u128);
    r.append(size.as_str());
    r.append("┄");
    let end = take_last_bytes(s, KEPT_STRING_BYTES);
    r.append(end.as_str());
    r
}

/// A value with its strings shortened; the keys of objects stay.
pub open spec fn compact_json(v: Json) -> Json
    decreases v,
{
    match v {
        Json::Text(s) => Json::Text(compact_string(s)),
        Json::Array(items) => Json::Array(
            Seq::new(
                items.len(),
                |i: int|
                    if 0 <= i < items.len() {
                        compact_json(items[i])
                    } else {
                        Json::Null
                    },
            ),
        ),
        Json::Object(entries) => Json::Object(
            Seq::new(
                entries.len(),
                |i: int|
                    if 0 <= i < entries.len() {
                        (entries[i].0, compact_json(entries[i].1))
                    } else {
                        (Seq::empty(), Json::Null)
                    },
            ),
        ),
        other => other,
    }
}

/// Shortens the strings of a value.
pub fn compact_value(v: &JsonValue) -> (r: JsonValue)
    ensures
        r@ == compact_json(v@),
    decreases *v,
{
    match v {
        JsonValue::Null => JsonValue::Null,
        JsonValue::Bool(b) => JsonValue::Bool(*b),
        JsonValue::Integer(n) => JsonValue::Integer(*n),
        JsonValue::Float(s) => JsonValue::Float(s.clone()),
        JsonValue::Text(s) => JsonValue::Text(compact_debug_string(s.as_str())),
        JsonValue::Array(items) => {
            let mut out: Vec<JsonValue> = Vec::new();
            let mut i: usize = 0;
            while i < items.len()
                invariant
                    i <= items.len(),
                    *v == JsonValue::Array(*items),
                    out.len() == i,
                    forall|k: int| 0 <= k < i ==> (#[trigger] out@[k])@ == compact_json(items@[k]@),
                decreases items.len() - i,
            {
                proof {
                    assert(decreases_to!(*v => (*v)->Array_0));
                    assert(decreases_to!(items@ => items@[i as int]));
                }
                out.push(compact_value(&items[i]));
                i += 1;
            }
            let r = list_value(out);
            assert(r@->Array_0 =~= compact_json(v@)->Array_0);
            r
        },
        JsonValue::Object(entries) => {
            let mut out: Vec<(String, JsonValue)> = Vec::new();
            let mut i: usize = 0;
            while i < entries.len()
                invariant
                    i <= entries.len(),
                    *v == JsonValue::Object(*entries),
                    out.len() == i,
                    forall|k: int|
                        0 <= k < i ==> (#[trigger] out@[k]).0@ == entries@[k].0@ && out@[k].1@ == compact_json(
                            entries@[k].1@,
                        ),
                decreases entries.len() - i,
            {
                proof {
                    assert(decreases_to!(*v => (*v)->Object_0));
                    assert(decreases_to!(entries@ => entries@[i as int]));
                }
                out.push((entries[i].0.clone(), compact_value(&entries[i].1)));
                i += 1;
            }
            let r = object_value(out);
            assert(r@->Object_0 =~= compact_json(v@)->Object_0);
            r
        },
    }
}

/// What arrived at the harness.
#[derive(Debug, PartialEq, Eq)]
pub enum LoggedArrival {
    /// A message of a connection: what it is called, what it holds, and whether
    /// it is an event that is not kept.
    FromConnection { connection_id: String, name: String, message: JsonValue, transient: bool },
    /// A connection is gone.
    Disconnected { connection_id: String },
    /// A client has connected.
    NewClient,
}

/// The entry on an arrival. An event that is not kept is left to the entry on its
/// publication.
pub open spec fn arrival_entry(arrival: LoggedArrival, recorded_at: u64) -> Option<Json> {
    match arrival {
        LoggedArrival::FromConnection { connection_id, name, message, transient } => if transient {
            None
        } else {
            Some(
                Json::Object(
                    seq![
                        ("type"@, Json::Text("from_connection"@)),
                        ("recorded_at_micros"@, Json::Integer(recorded_at as int)),
                        ("source"@, Json::Text(connection_id@)),
                        ("event_name"@, Json::Text(name@)),
                        ("event"@, compact_json(message@)),
                    ],
                ),
            )
        },
        LoggedArrival::Disconnected { connection_id } => Some(
            Json::Object(
                seq![
                    ("type"@, Json::Text("disconnected"@)),
                    ("recorded_at_micros"@, Json::Integer(recorded_at as int)),
                    ("source"@, Json::Text(connection_id@)),
                ],
            ),
        ),
        LoggedArrival::NewClient => Some(
            Json::Object(
                seq![
                    ("type"@, Json::Text("new_client"@)),
                    ("recorded_at_micros"@, Json::Integer(recorded_at as int)),
                ],
            ),
        ),
    }
}

/// The entry on a published event.
pub open spec fn published_entry(
    source: Option<Seq<char>>,
    name: Seq<char>,
    event: Json,
    recorded_at: u64,
) -> Json {
    Json::Object(
        seq![
            ("type"@, Json::Text("published"@)),
            ("recorded_at_micros"@, Json::Integer(recorded_at as int)),
            ("source"@, text_or_null(source)),
            ("event_name"@, Json::Text(name)),
            ("event"@, compact_json(event)),
        ],
    )
}

/// An entry as a line.
pub open spec fn entry_line(entry: Json) -> Seq<char> {
    json_compact(entry).push('\n')
}

fn begin_entry(kind: &str, recorded_at: u64) -> (r: Vec<(String, JsonValue)>)
    ensures
        entries_view(r@) == seq![
            ("type"@, Json::Text(kind@)),
            ("recorded_at_micros"@, Json::Integer(recorded_at as int)),
        ],
{
    let mut entries: Vec<(String, JsonValue)> = Vec::new();
    put(&mut entries, "type", JsonValue::Text(kind.to_owned()));
    put(&mut entries, "recorded_at_micros", JsonValue::Integer(recorded_at as i128));
    assert(entries_view(entries@) =~= seq![
        ("type"@, Json::Text(kind@)),
        ("recorded_at_micros"@, Json::Integer(recorded_at as int)),
    ]);
    entries
}

/// Writes an entry as a line.
pub fn log_line(entry: &JsonValue) -> (r: String)
    ensures
        r@ == entry_line(entry@),
{
    let mut line = compact_text(entry);
    line.push('\n');
    line
}

/// Makes the entry on an arrival.
pub fn harness_event_entry(arrival: &LoggedArrival, recorded_at: u64) -> (r: Option<JsonValue>)
    ensures
        crate::json::option_json(r) == arrival_entry(*arrival, recorded_at),
{
    match arrival {
        LoggedArrival::FromConnection { connection_id, name, message, transient } => {
            if *transient {
                return None;
            }
            let mut entries = begin_entry("from_connection", recorded_at);
            put(&mut entries, "source", JsonValue::Text(connection_id.clone()));
            put(&mut entries, "event_name", JsonValue::Text(name.clone()));
            put(&mut entries, "event", compact_value(message));
            let entry = object_value(entries);
            assert(entry@->Object_0 =~= arrival_entry(*arrival, recorded_at)->Some_0->Object_0);
            Some(entry)
        },
        LoggedArrival::Disconnected { connection_id } => {
            let mut entries = begin_entry("disconnected", recorded_at);
            put(&mut entries, "source", JsonValue::Text(connection_id.clone()));
            let entry = object_value(entries);
            assert(entry@->Object_0 =~= arrival_entry(*arrival, recorded_at)->Some_0->Object_0);
            Some(entry)
        },
        LoggedArrival::NewClient => {
            let entries = begin_entry("new_client", recorded_at);
            Some(object_value(entries))
        },
    }
}

/// Makes the entry on a published event.
pub fn published_event_entry(source: Option<&str>, name: &str, event: &JsonValue, recorded_at: u64) -> (r: JsonValue)
    ensures
        r@ == published_entry(
            match source {
                Some(s) => Some(s@),
                None => None,
            },
            name@,
            event@,
            recorded_at,
        ),
{
    let ghost from = match source {
        Some(s) => Some(s@),
        None => None,
    };
    let mut entries = begin_entry("published", recorded_at);
    put(&mut entries, "source", optional_text(source));
    put(&mut entries, "event_name", JsonValue::Text(name.to_owned()));
    put(&mut entries, "event", compact_value(event));
    let entry = object_value(entries);
    assert(entry@->Object_0 =~= published_entry(from, name@, event@, recorded_at)->Object_0);
    entry
}

// ---------------------------------------------------------------------------
// The logs of extensions
// ---------------------------------------------------------------------------

/// The line with which the log of an extension's errors begins.
pub fn stderr_attached_line(name: &str, pid: u32, date: &str) -> (r: String)
    ensures
        r@ == "--- "@ + name@ + " (pid="@ + decimal(pid as nat) + ") attached at "@ + date@ + " ---\n"@,
{
    let mut r = "--- ".to_owned();
    r.append(name);
    r.append(" (pid=");
    r.append(decimal_text(pid as u128).as_str());
    r.append(") attached at ");
    r.append(date);
    r.append(" ---\n");
    r
}

/// The line with which the log of an extension's errors ends.
pub fn stderr_closed_line(name: &str, date: &str) -> (r: String)
    ensures
        r@ == "--- "@ + name@ + " stderr closed at "@ + date@ + " ---\n"@,
{
    let mut r = "--- ".to_owned();
    r.append(name);
    r.append(" stderr closed at ");
    r.append(date);
    r.append(" ---\n");
    r
}

/// What is said of where the events of a session are logged.
pub fn event_log_notice(state_dir: &str, session_id: &str) -> (r: String)
    ensures
        r@ == "event log: "@ + path_join(path_join(state_dir@, session_id@), DEBUG_LOG_FILE@),
{
    let mut r = "event log: ".to_owned();
    let dir = join_path(state_dir, session_id);
    r.append(debug_log_path(dir.as_str()).as_str());
    r
}

} // verus!

//! What holds of what is shown of tools, of the debug log and of numbered logs.
use vstd::prelude::*;
use crate::agent::{params_json, summary_name, tool_json, tools_json};
use crate::assoc::lemma_found;
use crate::context::{ModelParams, ToolType};
use crate::debug_log::{
    arrival_entry, compact_json, compact_string, published_entry, LoggedArrival, KEPT_STRING_BYTES, WHOLE_STRING_BYTES,
};
use crate::display::{
    command_args, delegate_shown, error_chip, error_shown, first_filled, stats_of, success_shown, ToolDisplayStatus,
};
use crate::event_log::{first_recorded, LogEntry};
use crate::json::{json_field, Json};
use crate::messages::stamp_of;
use crate::models::effort_name;
use crate::text::{begins, byte_len, cut_bytes, decimal, ends_in, last_bytes, line_count, parts_of, trimmed};
use crate::text_laws::{cut_texts_are_beginnings, last_bytes_are_endings, parts_are_found};

verus! {

/// The size of a text that is shown is the number of its lines and bytes.
pub proof fn sizes_of_texts_are_shown(text: Seq<char>)
    requires
        byte_len(text) <= u64::MAX,
        line_count(text) <= u64::MAX,
    ensures
        text.len() > 0 ==> stats_of(text).lines == Some(line_count(text) as u64) && stats_of(text).bytes == Some(
            byte_len(text) as u64,
        ),
        text.len() == 0 ==> stats_of(text).lines is None && stats_of(text).bytes is None,
        stats_of(text).matches is None,
{
}

/// The first line of an error that says anything is the one that is shown.
pub proof fn the_first_line_of_an_error_is_shown(lines: Seq<Seq<char>>, line: Seq<char>)
    ensures
        trimmed(line).len() > 0 ==> first_filled(seq![line] + lines) == trimmed(line),
        trimmed(line).len() == 0 ==> first_filled(seq![line] + lines) == first_filled(lines),
        first_filled(Seq::empty()).len() == 0,
{
    assert((seq![line] + lines)[0] == line);
    assert((seq![line] + lines).drop_first() =~= lines);
}

/// What is shown of an error names it in at most sixty-four characters behind the mark,
/// and is marked as an error; a success is marked as one. Both keep their arguments.
pub proof fn errors_are_shown_in_short(args: Seq<char>, message: Seq<char>)
    ensures
        begins(error_chip(message), "err"@),
        error_chip(message).len() <= 69,
        ({
            let first = first_filled(parts_of(message, '\n'));
            0 < first.len() <= 64 ==> error_chip(message) == "err: "@ + first
        }),
        error_shown(args, message).args == args,
        error_shown(args, message).status == ToolDisplayStatus::Error,
        error_shown(args, message).status_text == error_chip(message),
        success_shown(args).args == args,
        success_shown(args).status == ToolDisplayStatus::Success,
        success_shown(args).status_text == "ok"@,
{
    reveal_strlit("err");
    reveal_strlit("err: ");
    assert("err: "@.len() == 5);
    let chip = error_chip(message);
    assert(chip.take(3) =~= "err"@);
}

/// A command is shown by its first line; a long one by its beginning and its end.
pub proof fn commands_are_shown_by_their_first_line(command: Seq<char>)
    ensures
        ({
            let line = parts_of(command, '\n')[0];
            &&& line.len() <= 40 ==> command_args(command) == line
            &&& line.len() > 40 ==> begins(command_args(command), line.take(20)) && ends_in(
                command_args(command),
                line.skip(line.len() - 20),
            )
        }),
{
    let line = parts_of(command, '\n')[0];
    if line.len() > 40 {
        let a = line.take(20);
        let b = line.skip(line.len() - 20);
        parts_are_found(a + "┄"@, b, Seq::empty());
        parts_are_found(Seq::empty(), a, "┄"@ + b);
        assert(a + ("┄"@ + b) =~= command_args(command));
    }
}

/// A delegated task is shown by its name.
pub proof fn tasks_are_shown_by_name(task_name: Seq<char>, stats: crate::display::ToolDisplayStats)
    ensures
        delegate_shown(task_name, stats).args == seq!['['] + task_name + seq![']'],
        delegate_shown(task_name, stats).stats == stats,
        delegate_shown(task_name, stats).status == ToolDisplayStatus::InProgress,
{
}

/// A short string is logged as it is; of a long one its beginning, its size and its end.
pub proof fn long_strings_are_logged_in_part(s: Seq<char>)
    ensures
        byte_len(s) <= WHOLE_STRING_BYTES ==> compact_string(s) == s,
        byte_len(s) > WHOLE_STRING_BYTES ==> exists|start: Seq<char>, end: Seq<char>|
            compact_string(s) == #[trigger] (start + "┄total "@ + decimal(byte_len(s)) + "┄"@ + end) && begins(s, start)
                && ends_in(s, end) && byte_len(start) <= KEPT_STRING_BYTES && byte_len(end) <= KEPT_STRING_BYTES,
{
    let start = cut_bytes(s, KEPT_STRING_BYTES as nat);
    let end = last_bytes(s, KEPT_STRING_BYTES as nat);
    cut_texts_are_beginnings(s, KEPT_STRING_BYTES as nat);
    last_bytes_are_endings(s, KEPT_STRING_BYTES as nat);
    if byte_len(s) > WHOLE_STRING_BYTES {
        assert(compact_string(s) == start + "┄total "@ + decimal(byte_len(s)) + "┄"@ + end);
    }
}

/// A value is logged with all its keys and items, and only its strings are shortened.
pub proof fn logged_values_keep_their_shape(
    items: Seq<Json>,
    entries: Seq<(Seq<char>, Json)>,
    s: Seq<char>,
    n: int,
    b: bool,
    i: int,
)
    ensures
        compact_json(Json::Text(s)) == Json::Text(compact_string(s)),
        compact_json(Json::Integer(n)) == Json::Integer(n),
        compact_json(Json::Bool(b)) == Json::Bool(b),
        compact_json(Json::Null) == Json::Null,
        compact_json(Json::Array(items)) matches Json::Array(made) && made.len() == items.len() && (0 <= i < items.len()
            ==> made[i] == compact_json(items[i])),
        compact_json(Json::Object(entries)) matches Json::Object(made) && made.len() == entries.len() && (0 <= i
            < entries.len() ==> made[i] == (entries[i].0, compact_json(entries[i].1))),
{
}

/// The entry on a published event tells when it was, where it came from, what it is
/// called and what it holds.
pub proof fn published_events_are_told(source: Seq<char>, name: Seq<char>, event: Json, at: u64)
    ensures
        ({
            let entry = published_entry(Some(source), name, event, at);
            &&& json_field(entry, "recorded_at_micros"@) == Some(Json::Integer(at as int))
            &&& json_field(entry, "source"@) == Some(Json::Text(source))
            &&& json_field(entry, "event_name"@) == Some(Json::Text(name))
            &&& json_field(entry, "event"@) == Some(compact_json(event))
            &&& json_field(entry, "type"@) == Some(Json::Text("published"@))
        }),
        json_field(published_entry(None, name, event, at), "source"@) == Some(Json::Null),
{
    lemma_entry_keys();
    let entry = published_entry(Some(source), name, event, at)->Object_0;
    let bare = published_entry(None, name, event, at)->Object_0;
    lemma_found(entry, "type"@, Json::Null, 0);
    lemma_found(entry, "recorded_at_micros"@, Json::Null, 1);
    lemma_found(entry, "source"@, Json::Null, 2);
    lemma_found(entry, "event_name"@, Json::Null, 3);
    lemma_found(entry, "event"@, Json::Null, 4);
    lemma_found(bare, "source"@, Json::Null, 2);
}

proof fn lemma_entry_keys()
    ensures
        "type"@.len() == 4,
        "recorded_at_micros"@.len() == 18,
        "source"@.len() == 6,
        "event_name"@.len() == 10,
        "event"@.len() == 5,
{
    reveal_strlit("type");
    reveal_strlit("recorded_at_micros");
    reveal_strlit("source");
    reveal_strlit("event_name");
    reveal_strlit("event");
}

/// The entry on an arrival tells when it was, where it came from and what it was. One that
/// is not kept has none.
pub proof fn arrivals_are_told(arrival: LoggedArrival, at: u64)
    ensures
        arrival matches LoggedArrival::FromConnection { connection_id, name, message, transient } ==> {
            &&& transient ==> arrival_entry(arrival, at) is None
            &&& !transient ==> (arrival_entry(arrival, at) matches Some(entry) && json_field(entry, "source"@) == Some(
                Json::Text(connection_id@),
            ) && json_field(entry, "event_name"@) == Some(Json::Text(name@)) && json_field(entry, "event"@) == Some(
                compact_json(message@),
            ) && json_field(entry, "recorded_at_micros"@) == Some(Json::Integer(at as int)))
        },
        arrival matches LoggedArrival::Disconnected { connection_id } ==> (arrival_entry(arrival, at) matches Some(entry)
            && json_field(entry, "source"@) == Some(Json::Text(connection_id@)) && json_field(entry, "type"@) == Some(
            Json::Text("disconnected"@),
        )),
        arrival is NewClient ==> (arrival_entry(arrival, at) matches Some(entry) && json_field(entry, "type"@) == Some(
            Json::Text("new_client"@),
        )),
{
    lemma_entry_keys();
    if let Some(entry) = arrival_entry(arrival, at) {
        let fields = entry->Object_0;
        lemma_found(fields, "type"@, Json::Null, 0);
        lemma_found(fields, "recorded_at_micros"@, Json::Null, 1);
        if !(arrival is NewClient) {
            lemma_found(fields, "source"@, Json::Null, 2);
        }
        if arrival is FromConnection {
            lemma_found(fields, "event_name"@, Json::Null, 3);
            lemma_found(fields, "event"@, Json::Null, 4);
        }
    }
}

/// The first recorded entry from a number on is the one that is found.
pub proof fn the_first_entry_from_a_number_is_found(entries: Seq<LogEntry>, from: u64)
    ensures
        match first_recorded(entries, from) {
            Some(i) => 0 <= i < entries.len() && entries[i].seq >= from && forall|j: int|
                0 <= j < i ==> (#[trigger] entries[j]).seq < from,
            None => forall|j: int| 0 <= j < entries.len() ==> (#[trigger] entries[j]).seq < from,
        },
    decreases entries.len(),
{
    if entries.len() > 0 {
        let short = entries.drop_last();
        the_first_entry_from_a_number_is_found(short, from);
        match first_recorded(short, from) {
            Some(i) => {
                assert(short[i] == entries[i]);
                assert forall|j: int| 0 <= j < i implies (#[trigger] entries[j]).seq < from by {
                    assert(short[j] == entries[j]);
                }
            },
            None => {
                assert forall|j: int| 0 <= j < entries.len() - 1 implies (#[trigger] entries[j]).seq < from by {
                    assert(short[j] == entries[j]);
                }
            },
        }
    }
}

/// A time stamp is the number of microseconds, as far as it can be told.
pub proof fn stamps_are_microseconds(n: u128)
    ensures
        n <= u64::MAX ==> stamp_of(Some(n)) == n,
        n > u64::MAX ==> stamp_of(Some(n)) == u64::MAX,
        stamp_of(None) == 0,
{
}

/// The tools of a request are told one by one, each with its names, its kind, what it is
/// for and what it takes.
pub proof fn tools_are_told_field_by_field(tools: Seq<crate::context::ToolDefinition>, i: int)
    requires
        0 <= i < tools.len(),
    ensures
        tools_json(tools) matches Json::Array(told) && told.len() == tools.len() && told[i] == tool_json(tools[i]),
        ({
            let told = tool_json(tools[i]);
            &&& json_field(told, "name"@) == Some(Json::Text(tools[i].name@))
            &&& tools[i].description matches Some(d) ==> json_field(told, "description"@) == Some(Json::Text(d@))
            &&& tools[i].description is None ==> json_field(told, "description"@) == Some(Json::Null)
            &&& tools[i].model_visible_name matches Some(m) ==> json_field(told, "model_visible_name"@) == Some(
                Json::Text(m@),
            )
            &&& tools[i].parameters matches Some(p) ==> json_field(told, "parameters"@) == Some(p@)
            &&& tools[i].format matches Some(f) ==> json_field(told, "format"@) == Some(f@)
            &&& tools[i].tool_type == ToolType::Function ==> json_field(told, "tool_type"@) == Some(
                Json::Text("function"@),
            )
            &&& tools[i].tool_type == ToolType::Custom ==> json_field(told, "tool_type"@) == Some(Json::Text("custom"@))
        }),
{
    reveal_strlit("name");
    reveal_strlit("model_visible_name");
    reveal_strlit("description");
    reveal_strlit("tool_type");
    reveal_strlit("parameters");
    reveal_strlit("format");
    assert("name"@.len() == 4 && "model_visible_name"@.len() == 18 && "description"@.len() == 11);
    assert("tool_type"@.len() == 9 && "parameters"@.len() == 10 && "format"@.len() == 6);
    let fields = tool_json(tools[i])->Object_0;
    lemma_found(fields, "name"@, Json::Null, 0);
    lemma_found(fields, "model_visible_name"@, Json::Null, 1);
    lemma_found(fields, "description"@, Json::Null, 2);
    lemma_found(fields, "tool_type"@, Json::Null, 3);
    lemma_found(fields, "parameters"@, Json::Null, 4);
    lemma_found(fields, "format"@, Json::Null, 5);
}

/// The parameters of a model tell its effort and whether its reasoning is summed up.
pub proof fn parameters_are_told(params: ModelParams)
    ensures
        json_field(params_json(params), "effort"@) == Some(Json::Text(effort_name(params.effort))),
        json_field(params_json(params), "thinking_summary"@) == Some(Json::Text(summary_name(params.thinking_summary))),
{
    reveal_strlit("effort");
    reveal_strlit("thinking_summary");
    assert("effort"@.len() == 6 && "thinking_summary"@.len() == 16);
    let fields = params_json(params)->Object_0;
    lemma_found(fields, "effort"@, Json::Null, 0);
    lemma_found(fields, "thinking_summary"@, Json::Null, 1);
}

} // verus!

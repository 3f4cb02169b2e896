//! What holds of requests to chat-completions providers and of their answers.
use vstd::prelude::*;
use vstd::string::*;
use crate::assoc::{lemma_found, lemma_missing, lookup};
use crate::cbor::Cbor;
use crate::chat_completions::{
    after_line, announces, answer_items, authorization, answer_usage, applied, call_numbered, calls_in_order,
    calls_stay_in_order, calls_with, call_items, first_choice, item_message, item_messages, prompt_messages,
    choice_field, effort_asked, field_if, length_field, reasoning_in, request_fields, result_text, run_together,
    says_nothing, text_under, tool_offer, tool_offers, without_slashes, CallParts, ChatCompletionsCompat,
    ChatCompletionsModel, ChatCompletionsProvider, ProviderModelInfo, ProviderStopReason, Stream, StreamStep,
};
use crate::context::{header_lines, items_view, may_pass, safe_text, AgentPromptCreated, ContextRole, Item, Response, ResultView, Status, ToolChoice, ToolDefinition, ToolType};
use crate::event::Effort;
use crate::json::{cbor_of, json_compact, json_field, json_of, json_parsed, Json};
use crate::session::option_text;
use crate::think_tags::{
    extends, fed, lemma_appended, lemma_extends_further, reading_adds, unmarked_text_is_read, with_more, Split,
};

verus! {

// ---------------------------------------------------------------------------
// Answers
// ---------------------------------------------------------------------------

/// Whether an event speaks of an answer by this piece.
pub open spec fn brings(event: Json, delta: Json) -> bool {
    json_field(event, "choices"@) matches Some(Json::Array(choices)) && choices.len() > 0 && json_field(
        choices[0],
        "delta"@,
    ) == Some(delta)
}

/// The text that a piece holds under a key, where it holds one.
pub open spec fn told(delta: Json, key: Seq<char>) -> Seq<char> {
    match json_field(delta, key) {
        Some(Json::Text(s)) => s,
        _ => Seq::empty(),
    }
}

/// All reasoning that a piece holds.
pub open spec fn reasoned(delta: Json) -> Seq<char> {
    told(delta, "reasoning_content"@) + told(delta, "reasoning"@) + told(delta, "thinking"@)
}

/// Text and reasoning only grow: whatever an event holds, the answer after it begins
/// with the answer before it.
pub proof fn answers_grow(s: Stream, event: Json)
    ensures
        extends(applied(s, event).0.split.text, s.split.text),
        extends(applied(s, event).0.split.thinking, s.split.thinking),
        !applied(s, event).1 ==> applied(s, event).0.split.text == s.split.text
            && applied(s, event).0.split.thinking == s.split.thinking,
{
    let before = s.split;
    lemma_appended(before.text, Seq::empty());
    lemma_appended(before.thinking, Seq::empty());
    assert(before.text + Seq::empty() =~= before.text);
    assert(before.thinking + Seq::empty() =~= before.thinking);
    match first_choice(event) {
        Some(choice) => {
            let delta = json_field(choice, "delta"@);
            let more = reasoning_in(delta);
            lemma_appended(before.thinking, more);
            let reasoned = Split { thinking: before.thinking + more, ..before };
            let read = with_more(reasoned, text_under(delta, "content"@));
            reading_adds(read);
            lemma_extends_further(before.thinking, reasoned.thinking, fed(read).0.thinking);
            if more.len() == 0 {
                assert(before.thinking + more =~= before.thinking);
            }
        },
        None => {},
    }
}

/// A piece that holds reasoning and no content adds its reasoning, word for word, to
/// the end of what was reasoned before, and leaves the text alone.
pub proof fn reasoning_is_added(s: Stream, event: Json, delta: Json)
    requires
        brings(event, delta),
        told(delta, "content"@).len() == 0,
    ensures
        applied(s, event).0.split == (Split { thinking: s.split.thinking + reasoned(delta), ..s.split }),
        applied(s, event).1 <==> reasoned(delta).len() > 0,
{
}

/// The answer after a series of events.
pub open spec fn after_events(s: Stream, events: Seq<Json>) -> Stream
    decreases events.len(),
{
    if events.len() == 0 {
        s
    } else {
        applied(after_events(s, events.drop_last()), events.last()).0
    }
}

/// All reasoning of a series of pieces.
pub open spec fn all_reasoned(deltas: Seq<Json>) -> Seq<char>
    decreases deltas.len(),
{
    if deltas.len() == 0 {
        Seq::empty()
    } else {
        all_reasoned(deltas.drop_last()) + reasoned(deltas.last())
    }
}

/// Reasoning that arrives in pieces adds up: after a series of events without content
/// the reasoning is what was there before and all the pieces in a row.
pub proof fn reasoning_adds_up(s: Stream, events: Seq<Json>, deltas: Seq<Json>)
    requires
        events.len() == deltas.len(),
        forall|i: int|
            0 <= i < events.len() ==> brings(#[trigger] events[i], deltas[i]) && told(deltas[i], "content"@).len() == 0,
    ensures
        after_events(s, events).split == (Split { thinking: s.split.thinking + all_reasoned(deltas), ..s.split }),
    decreases events.len(),
{
    if events.len() == 0 {
        assert(s.split.thinking + all_reasoned(deltas) =~= s.split.thinking);
    } else {
        let n = events.len() - 1;
        let init = events.drop_last();
        assert forall|i: int| 0 <= i < init.len() implies brings(#[trigger] init[i], deltas.drop_last()[i]) && told(
            deltas.drop_last()[i],
            "content"@,
        ).len() == 0 by {
            assert(brings(events[i], deltas[i]));
        }
        reasoning_adds_up(s, init, deltas.drop_last());
        assert(brings(events[n], deltas[n]));
        reasoning_is_added(after_events(s, init), events[n], deltas[n]);
        assert(s.split.thinking + all_reasoned(deltas) =~= s.split.thinking + all_reasoned(deltas.drop_last())
            + reasoned(deltas[n]));
    }
}

/// A piece of content is read behind the reasoning of its event, as if it followed
/// what is pending; text without a mark goes where what is being read goes.
pub proof fn content_is_read(s: Stream, event: Json, delta: Json)
    requires
        brings(event, delta),
        s.split.pending.len() == 0,
        told(delta, "content"@).len() > 0,
        !told(delta, "content"@).contains('<'),
    ensures
        applied(s, event).1,
        applied(s, event).0.split.pending.len() == 0,
        applied(s, event).0.split.inside == s.split.inside,
        s.split.inside ==> applied(s, event).0.split.text == s.split.text && applied(s, event).0.split.thinking
            == s.split.thinking + reasoned(delta) + told(delta, "content"@),
        !s.split.inside ==> applied(s, event).0.split.text == s.split.text + told(delta, "content"@) && applied(
            s,
            event,
        ).0.split.thinking == s.split.thinking + reasoned(delta),
{
    let content = told(delta, "content"@);
    let ready = Split { thinking: s.split.thinking + reasoned(delta), ..s.split };
    assert(with_more(ready, content).pending =~= content);
    unmarked_text_is_read(with_more(ready, content));
}

/// An event without a choice speaks of the size of the answer alone.
pub proof fn events_without_choices_add_nothing(s: Stream, event: Json)
    requires
        !(json_field(event, "choices"@) matches Some(Json::Array(choices)) && choices.len() > 0),
    ensures
        applied(s, event).0.split == s.split,
        applied(s, event).0.calls == s.calls,
        applied(s, event).0.stop == s.stop,
        !applied(s, event).1,
{
}

/// Whether a value is this number.
pub open spec fn is_number(v: Option<Json>, n: u64) -> bool {
    v == Some(Json::Integer(n as int))
}

/// The sizes that an event tells are taken over as they are, each from its own place,
/// and an event that tells none leaves them.
pub proof fn sizes_are_taken_over(s: Stream, event: Json, usage: Json, details: Json, sent: u64, cached: u64, said: u64)
    requires
        json_field(event, "usage"@) == Some(usage),
        is_number(json_field(usage, "prompt_tokens"@), sent),
        is_number(json_field(usage, "completion_tokens"@), said),
        json_field(usage, "prompt_tokens_details"@) == Some(details),
        is_number(json_field(details, "cached_tokens"@), cached),
    ensures
        applied(s, event).0.input_tokens == Some(sent),
        applied(s, event).0.cached_tokens == Some(cached),
        applied(s, event).0.output_tokens == Some(said),
{
}

/// An event that tells no sizes leaves them.
pub proof fn sizes_stay(s: Stream, event: Json)
    requires
        json_field(event, "usage"@) is None,
    ensures
        applied(s, event).0.input_tokens == s.input_tokens,
        applied(s, event).0.cached_tokens == s.cached_tokens,
        applied(s, event).0.output_tokens == s.output_tokens,
{
}

/// An answer ends for the reason that is told, and none is made up: a reason that is
/// not known leaves the one before.
pub proof fn reasons_are_taken_over(s: Stream, event: Json, choices: Seq<Json>, reason: Seq<char>)
    requires
        json_field(event, "choices"@) == Some(Json::Array(choices)),
        choices.len() > 0,
        json_field(choices[0], "finish_reason"@) == Some(Json::Text(reason)),
    ensures
        reason == "tool_calls"@ ==> applied(s, event).0.stop == ProviderStopReason::ToolCalls,
        reason == "stop"@ ==> applied(s, event).0.stop == ProviderStopReason::EndTurn,
        reason == "length"@ ==> applied(s, event).0.stop == ProviderStopReason::Length,
        reason != "tool_calls"@ && reason != "stop"@ && reason != "length"@ ==> applied(s, event).0.stop == s.stop,
{
    reveal_strlit("tool_calls");
    reveal_strlit("stop");
    reveal_strlit("length");
    assert("tool_calls"@.len() == 10);
    assert("stop"@.len() == 4);
    assert("length"@.len() == 6);
}

/// In a list in order, a number finds the call that has it.
pub proof fn numbers_find_their_calls(calls: Seq<(u64, CallParts)>, i: int)
    requires
        calls_in_order(calls),
        0 <= i < calls.len(),
    ensures
        call_numbered(calls, calls[i].0) == calls[i].1,
    decreases calls.len(),
{
    if i < calls.len() - 1 {
        let init = calls.drop_last();
        assert(init[i] == calls[i]);
        assert(calls[i].0 < calls[calls.len() - 1].0);
        numbers_find_their_calls(init, i);
    }
}

/// A number that no call has finds an empty one.
pub proof fn unknown_numbers_find_nothing(calls: Seq<(u64, CallParts)>, index: u64)
    requires
        forall|i: int| 0 <= i < calls.len() ==> (#[trigger] calls[i]).0 != index,
    ensures
        call_numbered(calls, index).id.len() == 0,
        call_numbered(calls, index).name.len() == 0,
        call_numbered(calls, index).arguments.len() == 0,
    decreases calls.len(),
{
    if calls.len() > 0 {
        assert(calls[calls.len() - 1].0 != index);
        unknown_numbers_find_nothing(calls.drop_last(), index);
    }
}

/// What a piece tells of a call belongs to the call with its number: arguments are
/// added to those before, an id or a name is taken over where the piece tells one, and
/// no other call changes.
pub proof fn pieces_add_to_their_call(
    s: Stream,
    event: Json,
    delta: Json,
    piece: Json,
    function: Json,
    index: u64,
    other: u64,
)
    requires
        calls_in_order(s.calls),
        brings(event, delta),
        json_field(delta, "tool_calls"@) == Some(Json::Array(seq![piece])),
        is_number(json_field(piece, "index"@), index),
        json_field(piece, "function"@) == Some(function),
        other != index,
    ensures
        ({
            let before = call_numbered(s.calls, index);
            let after = call_numbered(applied(s, event).0.calls, index);
            &&& after.arguments == before.arguments + told(function, "arguments"@)
            &&& told(piece, "id"@).len() > 0 ==> after.id == told(piece, "id"@)
            &&& told(piece, "id"@).len() == 0 ==> after.id == before.id
            &&& told(function, "name"@).len() > 0 ==> after.name == told(function, "name"@)
            &&& told(function, "name"@).len() == 0 ==> after.name == before.name
        }),
        call_numbered(applied(s, event).0.calls, other) == call_numbered(s.calls, other),
        calls_in_order(applied(s, event).0.calls),
{
    let pieces = seq![piece];
    assert(calls_with(s.calls, pieces, 0) == s.calls);
    let made = crate::chat_completions::call_with(call_numbered(s.calls, index), piece);
    calls_stay_in_order(s.calls, index, made);
    reveal_with_fuel(calls_with, 2);
    assert(calls_with(s.calls, pieces, pieces.len()) == crate::chat_completions::with_call(s.calls, index, made));
}

/// Pieces are taken over one after the other: several in one event do what they do in
/// events of their own.
pub proof fn pieces_are_taken_over_in_order(calls: Seq<(u64, CallParts)>, first: Seq<Json>, rest: Seq<Json>)
    ensures
        calls_with(calls, first + rest, (first + rest).len()) == calls_with(
            calls_with(calls, first, first.len()),
            rest,
            rest.len(),
        ),
    decreases rest.len(),
{
    let all = first + rest;
    if rest.len() == 0 {
        assert(all =~= first);
    } else {
        let init = rest.drop_last();
        pieces_are_taken_over_in_order(calls, first, init);
        assert(all.drop_last() =~= first + init);
        assert(all.take(all.len() - 1) =~= (first + init).take(all.len() - 1));
        lemma_first_pieces(calls, all, first + init, (all.len() - 1) as nat);
        assert(rest.take(rest.len() - 1) =~= init.take(rest.len() - 1));
        lemma_first_pieces(calls_with(calls, first, first.len()), rest, init, (rest.len() - 1) as nat);
    }
}

proof fn lemma_first_pieces(calls: Seq<(u64, CallParts)>, a: Seq<Json>, b: Seq<Json>, n: nat)
    requires
        n <= a.len(),
        n <= b.len(),
        a.take(n as int) == b.take(n as int),
    ensures
        calls_with(calls, a, n) == calls_with(calls, b, n),
    decreases n,
{
    if n > 0 {
        assert(a.take(n - 1) =~= a.take(n as int).take(n - 1));
        assert(b.take(n - 1) =~= b.take(n as int).take(n - 1));
        lemma_first_pieces(calls, a, b, (n - 1) as nat);
        assert(a[n - 1] == a.take(n as int)[n - 1]);
        assert(b[n - 1] == b.take(n as int)[n - 1]);
    }
}

/// The data of a line reaches the answer as the event that it reads as; the mark at
/// the end ends it, and any other line is passed over.
pub proof fn lines_bring_events(s: Stream, data: Seq<char>)
    ensures
        data != "[DONE]"@ ==> match json_parsed(data) {
            Some(event) => after_line(s, "data: "@ + data) == (
                applied(s, event).0,
                StreamStep::More { changed: applied(s, event).1 },
            ),
            None => after_line(s, "data: "@ + data) == (s, StreamStep::More { changed: false }),
        },
        data == "[DONE]"@ ==> after_line(s, "data: "@ + data) == (s, StreamStep::Done),
{
    let line = "data: "@ + data;
    assert(line.take("data: "@.len() as int) =~= "data: "@);
    assert(line.skip("data: "@.len() as int) =~= data);
}

/// A line that does not begin as one with data changes nothing.
pub proof fn other_lines_are_passed_over(s: Stream, line: Seq<char>)
    requires
        !(line.len() >= "data: "@.len() && line.take("data: "@.len() as int) == "data: "@),
    ensures
        after_line(s, line) == (s, StreamStep::More { changed: false }),
{
}

/// Whether an item is this call, with its id and its name, and with its arguments as
/// they read; nothing where they do not read.
pub open spec fn is_call(item: Item, call: CallParts) -> bool {
    item matches Item::ToolCall { call_id, name, tool_type, arguments } && call_id == call.id && name == call.name
        && tool_type == ToolType::Function && match json_parsed(call.arguments) {
        Some(v) => arguments == cbor_of(v),
        None => arguments == Cbor::Null,
    }
}

proof fn lemma_first_calls(calls: Seq<(u64, CallParts)>, more: (u64, CallParts), n: nat)
    requires
        n <= calls.len(),
    ensures
        call_items(calls.push(more), n) == call_items(calls, n),
    decreases n,
{
    if n > 0 {
        lemma_first_calls(calls, more, (n - 1) as nat);
    }
}

/// One more call at the end of an answer is one more item at its end, unless it has no
/// name: then there is none.
pub proof fn calls_become_items(s: Stream, index: u64, call: CallParts)
    ensures
        ({
            let more = Stream { calls: s.calls.push((index, call)), ..s };
            &&& call.name.len() == 0 ==> answer_items(more) == answer_items(s)
            &&& call.name.len() > 0 ==> answer_items(more).len() == answer_items(s).len() + 1 && answer_items(
                more,
            ).drop_last() == answer_items(s) && is_call(answer_items(more).last(), call)
        }),
{
    let more = s.calls.push((index, call));
    lemma_first_calls(s.calls, (index, call), s.calls.len());
    let after = answer_items(Stream { calls: more, ..s });
    if call.name.len() > 0 {
        assert(after.drop_last() =~= answer_items(s));
    } else {
        assert(after =~= answer_items(s));
    }
}

/// What the model said is the first item of its answer, word for word; where it said
/// nothing there is no such item.
pub proof fn texts_become_items(s: Stream)
    requires
        s.calls.len() == 0,
    ensures
        s.split.text.len() == 0 ==> answer_items(s).len() == 0,
        s.split.text.len() > 0 ==> answer_items(s).len() == 1 && (answer_items(s)[0] matches Item::Message {
            role,
            content,
            phase,
        } && role == ContextRole::Assistant && content == seq![s.split.text] && phase is None),
{
    assert(call_items(s.calls, 0).len() == 0);
}

/// The size of an answer is what was told of it, each number in its place.
pub proof fn sizes_are_reported(s: Stream)
    ensures
        match answer_usage(s) {
            Some(u) => {
                &&& u.prompt_sent_tokens == (if s.input_tokens is Some { s.input_tokens->0 } else { 0 })
                &&& u.prompt_cached_tokens == (if s.cached_tokens is Some { s.cached_tokens->0 } else { 0 })
                &&& u.response_received_tokens == (if s.output_tokens is Some { s.output_tokens->0 } else { 0 })
                &&& u.prompt_sent_tokens > 0 || u.prompt_cached_tokens > 0 || u.response_received_tokens > 0
            },
            None => {
                &&& s.input_tokens is Some ==> s.input_tokens->0 == 0
                &&& s.cached_tokens is Some ==> s.cached_tokens->0 == 0
                &&& s.output_tokens is Some ==> s.output_tokens->0 == 0
            },
        },
{
}

/// An answer is refused as empty only where it ends a turn, and then only where it has
/// neither text nor a call with a name.
pub proof fn only_empty_ends_are_refused(s: Stream)
    ensures
        says_nothing(s) ==> s.stop == ProviderStopReason::EndTurn && s.split.text.len() == 0 && forall|i: int|
            0 <= i < s.calls.len() ==> (#[trigger] s.calls[i]).1.name.len() == 0,
        s.stop == ProviderStopReason::EndTurn && s.split.text.len() == 0 && (forall|i: int|
            0 <= i < s.calls.len() ==> (#[trigger] s.calls[i]).1.name.len() == 0) ==> says_nothing(s),
{
    lemma_named_calls(s.calls, s.calls.len());
}

proof fn lemma_named_calls(calls: Seq<(u64, CallParts)>, n: nat)
    requires
        n <= calls.len(),
    ensures
        call_items(calls, n).len() == 0 <==> forall|i: int| 0 <= i < n ==> (#[trigger] calls[i]).1.name.len() == 0,
    decreases n,
{
    if n > 0 {
        lemma_named_calls(calls, (n - 1) as nat);
        if call_items(calls, n).len() == 0 {
            assert forall|i: int| 0 <= i < n implies (#[trigger] calls[i]).1.name.len() == 0 by {
                if i == n - 1 {
                    assert(calls[n - 1].1.name.len() == 0);
                }
            }
        }
    }
}

// ---------------------------------------------------------------------------
// Requests
// ---------------------------------------------------------------------------

proof fn lemma_field(entries: Seq<(Seq<char>, Json)>, i: int)
    requires
        0 <= i < entries.len(),
        forall|k: int| 0 <= k < i ==> (#[trigger] entries[k]).0 != entries[i].0,
    ensures
        json_field(Json::Object(entries), entries[i].0) == Some(entries[i].1),
{
    lemma_found(entries, entries[i].0, entries[i].1, i);
}

proof fn lemma_keys_of_messages()
    ensures
        "role"@ != "content"@,
        "role"@ != "tool_calls"@,
        "role"@ != "tool_call_id"@,
        "content"@ != "tool_calls"@,
        "tool_call_id"@ != "content"@,
        "id"@ != "type"@,
        "id"@ != "function"@,
        "type"@ != "function"@,
        "name"@ != "arguments"@,
        "name"@ != "description"@,
        "name"@ != "parameters"@,
        "description"@ != "parameters"@,
{
    reveal_strlit("role");
    reveal_strlit("content");
    reveal_strlit("tool_calls");
    reveal_strlit("tool_call_id");
    reveal_strlit("id");
    reveal_strlit("type");
    reveal_strlit("function");
    reveal_strlit("name");
    reveal_strlit("arguments");
    reveal_strlit("description");
    reveal_strlit("parameters");
    assert("role"@.len() == 4);
    assert("content"@.len() == 7);
    assert("tool_calls"@.len() == 10);
    assert("tool_call_id"@.len() == 12);
    assert("id"@.len() == 2);
    assert("type"@.len() == 4);
    assert("function"@.len() == 8);
    assert("name"@.len() == 4);
    assert("arguments"@.len() == 9);
    assert("description"@.len() == 11);
    assert("parameters"@.len() == 10);
}

/// A call is sent back as a message of the assistant with one call, which has the
/// call's own id, its name and its arguments as compact JSON.
pub proof fn calls_are_sent_with_their_ids(call_id: Seq<char>, name: Seq<char>, tool_type: ToolType, arguments: Cbor)
    ensures
        ({
            let sent = item_message(Item::ToolCall { call_id, name, tool_type, arguments });
            &&& sent matches Some(message) && json_field(message, "role"@) == Some(Json::Text("assistant"@)) && (
            json_field(message, "tool_calls"@) matches Some(Json::Array(calls)) && calls.len() == 1 && json_field(
                calls[0],
                "id"@,
            ) == Some(Json::Text(call_id)) && json_field(calls[0], "type"@) == Some(Json::Text("function"@)) && (
            json_field(calls[0], "function"@) matches Some(function) && json_field(function, "name"@) == Some(
                Json::Text(name),
            ) && json_field(function, "arguments"@) == Some(Json::Text(json_compact(json_of(arguments))))))
        }),
{
    lemma_keys_of_messages();
    let message = item_message(Item::ToolCall { call_id, name, tool_type, arguments })->Some_0->Object_0;
    lemma_field(message, 0);
    lemma_field(message, 2);
    let call = message[2].1->Array_0[0]->Object_0;
    lemma_field(call, 0);
    lemma_field(call, 1);
    lemma_field(call, 2);
    let function = call[2].1->Object_0;
    lemma_field(function, 0);
    lemma_field(function, 1);
}

/// The result of a call is sent as a message of the tool that names the call by its id
/// and holds what the tool returned.
pub proof fn results_are_sent_with_their_ids(result: ResultView)
    ensures
        item_message(Item::ToolResult(result)) matches Some(message) && json_field(message, "role"@) == Some(
            Json::Text("tool"@),
        ) && json_field(message, "tool_call_id"@) == Some(Json::Text(result.call_id)) && json_field(
            message,
            "content"@,
        ) == Some(Json::Text(result_text(result.status, result.output))),
{
    lemma_keys_of_messages();
    let message = item_message(Item::ToolResult(result))->Some_0->Object_0;
    lemma_field(message, 0);
    lemma_field(message, 1);
    lemma_field(message, 2);
}

/// A result answers its call: the id under which the call is sent is the one that the
/// message of its result names.
pub proof fn results_answer_their_calls(
    call_id: Seq<char>,
    name: Seq<char>,
    tool_type: ToolType,
    arguments: Cbor,
    result: ResultView,
)
    requires
        result.call_id == call_id,
    ensures
        ({
            let asked = item_message(Item::ToolCall { call_id, name, tool_type, arguments })->Some_0;
            let answered = item_message(Item::ToolResult(result))->Some_0;
            &&& json_field(asked, "tool_calls"@) matches Some(Json::Array(calls)) && calls.len() == 1 && json_field(
                calls[0],
                "id"@,
            ) == json_field(answered, "tool_call_id"@)
            &&& json_field(answered, "tool_call_id"@) == Some(Json::Text(call_id))
        }),
{
    calls_are_sent_with_their_ids(call_id, name, tool_type, arguments);
    results_are_sent_with_their_ids(result);
}

/// A message is sent under its role with all its parts in a row, unless it says
/// nothing: an empty one is left out, and so is one of the user with white space
/// alone.
pub proof fn messages_are_sent_with_their_texts(
    role: ContextRole,
    content: Seq<Seq<char>>,
    phase: Option<crate::context::MessagePhase>,
)
    ensures
        ({
            let text = run_together(content);
            match item_message(Item::Message { role, content, phase }) {
                Some(message) => {
                    &&& text.len() > 0
                    &&& role == ContextRole::User ==> crate::text::trimmed(text).len() > 0
                    &&& json_field(message, "content"@) == Some(Json::Text(text))
                    &&& role == ContextRole::User ==> json_field(message, "role"@) == Some(Json::Text("user"@))
                    &&& role == ContextRole::Assistant ==> json_field(message, "role"@) == Some(Json::Text("assistant"@))
                    &&& role == ContextRole::System || role == ContextRole::Developer ==> json_field(message, "role"@)
                        == Some(Json::Text("system"@))
                },
                None => text.len() == 0 || role == ContextRole::User && crate::text::trimmed(text).len() == 0,
            }
        }),
{
    lemma_keys_of_messages();
    match item_message(Item::Message { role, content, phase }) {
        Some(message) => {
            lemma_field(message->Object_0, 0);
            lemma_field(message->Object_0, 1);
        },
        None => {},
    }
}

/// Parts of a message stand in their order, with nothing between them.
pub proof fn parts_stand_in_a_row(parts: Seq<Seq<char>>, more: Seq<Seq<char>>, part: Seq<char>)
    ensures
        run_together(seq![part]) == part,
        run_together(parts + more) == run_together(parts) + run_together(more),
    decreases more.len(),
{
    assert(seq![part].drop_last() =~= Seq::empty());
    reveal_with_fuel(run_together, 2);
    assert(run_together(seq![part]) =~= part);
    if more.len() == 0 {
        assert(parts + more =~= parts);
        assert(run_together(parts) + run_together(more) =~= run_together(parts));
    } else {
        assert((parts + more).drop_last() =~= parts + more.drop_last());
        parts_stand_in_a_row(parts, more.drop_last(), part);
        assert(run_together(parts + more) =~= run_together(parts) + run_together(more));
    }
}

proof fn lemma_first_items(a: Seq<Item>, b: Seq<Item>, n: nat)
    requires
        n <= a.len(),
        n <= b.len(),
        a.take(n as int) == b.take(n as int),
    ensures
        item_messages(a, n) == item_messages(b, n),
    decreases n,
{
    if n > 0 {
        assert(a.take(n - 1) =~= a.take(n as int).take(n - 1));
        assert(b.take(n - 1) =~= b.take(n as int).take(n - 1));
        lemma_first_items(a, b, (n - 1) as nat);
        assert(a[n - 1] == a.take(n as int)[n - 1]);
        assert(b[n - 1] == b.take(n as int)[n - 1]);
    }
}

/// The timeline is sent in its order: an item at the end of it is sent as the last
/// message, or not at all, and changes nothing before it.
pub proof fn items_are_sent_in_order(system_prompt: Seq<char>, items: Seq<Item>, item: Item)
    ensures
        prompt_messages(system_prompt, items.push(item)) == match item_message(item) {
            Some(message) => prompt_messages(system_prompt, items).push(message),
            None => prompt_messages(system_prompt, items),
        },
{
    let all = items.push(item);
    assert(all.take(items.len() as int) =~= items.take(items.len() as int));
    lemma_first_items(all, items, items.len());
    match item_message(item) {
        Some(message) => {
            assert(prompt_messages(system_prompt, all) =~= prompt_messages(system_prompt, items).push(message));
        },
        None => {
            assert(prompt_messages(system_prompt, all) =~= prompt_messages(system_prompt, items));
        },
    }
}

/// The system prompt is the first message, as it is; a blank one is not sent.
pub proof fn system_prompts_come_first(system_prompt: Seq<char>)
    ensures
        crate::text::trimmed(system_prompt).len() == 0 ==> prompt_messages(system_prompt, Seq::empty()).len() == 0,
        crate::text::trimmed(system_prompt).len() > 0 ==> prompt_messages(system_prompt, Seq::empty()).len() == 1
            && json_field(prompt_messages(system_prompt, Seq::empty())[0], "role"@) == Some(Json::Text("system"@))
            && json_field(prompt_messages(system_prompt, Seq::empty())[0], "content"@) == Some(
            Json::Text(system_prompt),
        ),
{
    lemma_keys_of_messages();
    assert(item_messages(Seq::empty(), 0).len() == 0);
    if crate::text::trimmed(system_prompt).len() > 0 {
        let message = prompt_messages(system_prompt, Seq::empty())[0]->Object_0;
        lemma_field(message, 0);
        lemma_field(message, 1);
    }
}

/// A tool with a schema is offered under the name that the model sees, with its
/// description and its parameters; any other tool is not offered.
pub proof fn tools_are_offered_as_they_are(tool: ToolDefinition)
    ensures
        tool.tool_type == ToolType::Custom ==> tool_offer(tool) is None,
        tool.tool_type == ToolType::Function ==> (tool_offer(tool) matches Some(offer) && json_field(offer, "type"@)
            == Some(Json::Text("function"@)) && (json_field(offer, "function"@) matches Some(function) && {
            &&& json_field(function, "name"@) == Some(
                Json::Text(if tool.model_visible_name is Some { tool.model_visible_name->0@ } else { tool.name@ }),
            )
            &&& tool.description matches Some(text) ==> json_field(function, "description"@) == Some(Json::Text(text@))
            &&& tool.description is None ==> json_field(function, "description"@) == Some(Json::Null)
            &&& tool.parameters matches Some(schema) ==> json_field(function, "parameters"@) == Some(schema@)
            &&& tool.parameters is None ==> json_field(function, "parameters"@) == Some(Json::Null)
        })),
{
    if tool.tool_type == ToolType::Function {
        lemma_keys_of_messages();
        let offer = tool_offer(tool)->Some_0->Object_0;
        lemma_field(offer, 0);
        lemma_field(offer, 1);
        let function = offer[1].1->Object_0;
        lemma_field(function, 0);
        lemma_field(function, 1);
        lemma_field(function, 2);
    }
}

proof fn lemma_first_tools(a: Seq<ToolDefinition>, b: Seq<ToolDefinition>, n: nat)
    requires
        n <= a.len(),
        n <= b.len(),
        a.take(n as int) == b.take(n as int),
    ensures
        tool_offers(a, n) == tool_offers(b, n),
    decreases n,
{
    if n > 0 {
        assert(a.take(n - 1) =~= a.take(n as int).take(n - 1));
        assert(b.take(n - 1) =~= b.take(n as int).take(n - 1));
        lemma_first_tools(a, b, (n - 1) as nat);
        assert(a[n - 1] == a.take(n as int)[n - 1]);
        assert(b[n - 1] == b.take(n as int)[n - 1]);
    }
}

/// Tools are offered in their order, each one once.
pub proof fn tools_are_offered_in_order(tools: Seq<ToolDefinition>, tool: ToolDefinition)
    ensures
        tool_offers(Seq::<ToolDefinition>::empty(), 0).len() == 0,
        tool_offers(tools.push(tool), tools.len() + 1) == match tool_offer(tool) {
            Some(offer) => tool_offers(tools, tools.len()).push(offer),
            None => tool_offers(tools, tools.len()),
        },
{
    let all = tools.push(tool);
    assert(all.take(tools.len() as int) =~= tools.take(tools.len() as int));
    lemma_first_tools(all, tools, tools.len());
}

proof fn lemma_lookup_in_two(a: Seq<(Seq<char>, Json)>, b: Seq<(Seq<char>, Json)>, key: Seq<char>)
    ensures
        lookup(a + b, key) == (if lookup(a, key) is Some { lookup(a, key) } else { lookup(b, key) }),
    decreases a.len(),
{
    reveal_with_fuel(lookup, 2);
    if a.len() == 0 {
        assert(a + b =~= b);
    } else if a[0].0 != key {
        assert((a + b).drop_first() =~= a.drop_first() + b);
        lemma_lookup_in_two(a.drop_first(), b, key);
    }
}

proof fn lemma_lookup_if(sent: bool, key: Seq<char>, value: Json, other: Seq<char>)
    ensures
        lookup(field_if(sent, key, value), other) == (if sent && key == other { Some(value) } else { None }),
{
    reveal_with_fuel(lookup, 3);
    let fields = field_if(sent, key, value);
    if sent {
        assert(fields.drop_first() =~= Seq::empty());
    }
}

proof fn lemma_keys_of_requests()
    ensures
        "model"@.len() == 5 && "model"@[0] == 'm',
        "messages"@.len() == 8,
        "stream"@.len() == 6,
        "stream_options"@.len() == 14,
        "tools"@.len() == 5 && "tools"@[0] == 't',
        "tool_choice"@.len() == 11,
        "parallel_tool_calls"@.len() == 19,
        "prompt_cache_key"@.len() == 16 && "prompt_cache_key"@[0] == 'p',
        "reasoning_effort"@.len() == 16 && "reasoning_effort"@[0] == 'r',
        "max_tokens"@.len() == 10,
        "max_completion_tokens"@.len() == 21,
{
    reveal_strlit("model");
    reveal_strlit("messages");
    reveal_strlit("stream");
    reveal_strlit("stream_options");
    reveal_strlit("tools");
    reveal_strlit("tool_choice");
    reveal_strlit("parallel_tool_calls");
    reveal_strlit("prompt_cache_key");
    reveal_strlit("reasoning_effort");
    reveal_strlit("max_tokens");
    reveal_strlit("max_completion_tokens");
}

/// What a request holds under a key, where the provider's own fields hold nothing
/// under it.
pub open spec fn requested(
    provider: ChatCompletionsProvider,
    model: Seq<char>,
    prompt: AgentPromptCreated,
    key: Seq<char>,
) -> Option<Json> {
    json_field(Json::Object(request_fields(provider, model, prompt)), key)
}

proof fn lemma_requested(
    provider: ChatCompletionsProvider,
    model: Seq<char>,
    prompt: AgentPromptCreated,
    key: Seq<char>,
)
    requires
        lookup(provider.extra_body@, key) is None,
    ensures
        ({
            let offers = tool_offers(prompt.tools@, prompt.tools@.len());
            let found = requested(provider, model, prompt, key);
            &&& key == "model"@ ==> found == Some(Json::Text(model))
            &&& key == "messages"@ ==> found == Some(
                Json::Array(prompt_messages(prompt.system_prompt@, items_view(prompt.context_items@))),
            )
            &&& key == "stream"@ ==> found == Some(Json::Bool(true))
            &&& key == "stream_options"@ ==> found is Some == provider.compat.stream_options
            &&& key == "tools"@ ==> found == (if offers.len() > 0 { Some(Json::Array(offers)) } else { None })
            &&& key == "tool_choice"@ ==> found == (match prompt.tool_choice {
                ToolChoice::Never => Some(Json::Text("none"@)),
                ToolChoice::Auto => if offers.len() > 0 { Some(Json::Text("auto"@)) } else { None },
            })
            &&& key == "parallel_tool_calls"@ ==> found == (if provider.compat.parallel_tool_calls && offers.len() > 0 {
                Some(Json::Bool(true))
            } else {
                None
            })
            &&& key == "prompt_cache_key"@ ==> found == (if provider.compat.prompt_cache_key {
                Some(Json::Text("tau:"@ + prompt.session_id@))
            } else {
                None
            })
            &&& key == "reasoning_effort"@ ==> found == (if provider.compat.reasoning_effort {
                Some(Json::Text(effort_asked(prompt.model_params.effort)))
            } else {
                None
            })
        }),
{
    lemma_keys_of_requests();
    let offers = tool_offers(prompt.tools@, prompt.tools@.len());
    let base = seq![
        ("model"@, Json::Text(model)),
        ("messages"@, Json::Array(prompt_messages(prompt.system_prompt@, items_view(prompt.context_items@)))),
        ("stream"@, Json::Bool(true)),
    ];
    let options = Json::Object(seq![("include_usage"@, Json::Bool(true))]);
    let f1 = field_if(provider.compat.stream_options, "stream_options"@, options);
    let f2 = field_if(offers.len() > 0, "tools"@, Json::Array(offers));
    let f3 = choice_field(prompt.tool_choice, offers);
    let f4 = field_if(
        provider.compat.parallel_tool_calls && offers.len() > 0,
        "parallel_tool_calls"@,
        Json::Bool(true),
    );
    let f5 = field_if(provider.compat.prompt_cache_key, "prompt_cache_key"@, Json::Text("tau:"@ + prompt.session_id@));
    let f6 = field_if(
        provider.compat.reasoning_effort,
        "reasoning_effort"@,
        Json::Text(effort_asked(prompt.model_params.effort)),
    );
    let f7 = length_field(provider.max_output_tokens, provider.compat, provider.extra_body@);
    let extra = provider.extra_body@;
    lemma_lookup_in_two(base + f1 + f2 + f3 + f4 + f5 + f6 + f7, extra, key);
    lemma_lookup_in_two(base + f1 + f2 + f3 + f4 + f5 + f6, f7, key);
    lemma_lookup_in_two(base + f1 + f2 + f3 + f4 + f5, f6, key);
    lemma_lookup_in_two(base + f1 + f2 + f3 + f4, f5, key);
    lemma_lookup_in_two(base + f1 + f2 + f3, f4, key);
    lemma_lookup_in_two(base + f1 + f2, f3, key);
    lemma_lookup_in_two(base + f1, f2, key);
    lemma_lookup_in_two(base, f1, key);
    lemma_lookup_if(provider.compat.stream_options, "stream_options"@, options, key);
    lemma_lookup_if(offers.len() > 0, "tools"@, Json::Array(offers), key);
    lemma_lookup_if(true, "tool_choice"@, Json::Text("none"@), key);
    assert(field_if(true, "tool_choice"@, Json::Text("none"@)) =~= seq![("tool_choice"@, Json::Text("none"@))]);
    lemma_lookup_if(offers.len() > 0, "tool_choice"@, Json::Text("auto"@), key);
    lemma_lookup_if(
        provider.compat.parallel_tool_calls && offers.len() > 0,
        "parallel_tool_calls"@,
        Json::Bool(true),
        key,
    );
    lemma_lookup_if(
        provider.compat.prompt_cache_key,
        "prompt_cache_key"@,
        Json::Text("tau:"@ + prompt.session_id@),
        key,
    );
    lemma_lookup_if(
        provider.compat.reasoning_effort,
        "reasoning_effort"@,
        Json::Text(effort_asked(prompt.model_params.effort)),
        key,
    );
    let longest = Json::Integer(provider.max_output_tokens as int);
    let free = lookup(extra, "max_tokens"@) is None && lookup(extra, "max_completion_tokens"@) is None;
    lemma_lookup_if(free, "max_completion_tokens"@, longest, key);
    lemma_lookup_if(free, "max_tokens"@, longest, key);
    reveal_with_fuel(lookup, 4);
    assert(base.drop_first().drop_first().drop_first() =~= Seq::empty());
}

/// A request asks the model that it is for, with the messages of the prompt and the
/// tools on offer, and asks for a stream.
pub proof fn requests_hold_the_prompt(
    provider: ChatCompletionsProvider,
    model: Seq<char>,
    prompt: AgentPromptCreated,
)
    requires
        lookup(provider.extra_body@, "model"@) is None,
        lookup(provider.extra_body@, "messages"@) is None,
        lookup(provider.extra_body@, "stream"@) is None,
        lookup(provider.extra_body@, "tools"@) is None,
    ensures
        requested(provider, model, prompt, "model"@) == Some(Json::Text(model)),
        requested(provider, model, prompt, "messages"@) == Some(
            Json::Array(prompt_messages(prompt.system_prompt@, items_view(prompt.context_items@))),
        ),
        requested(provider, model, prompt, "stream"@) == Some(Json::Bool(true)),
        ({
            let offers = tool_offers(prompt.tools@, prompt.tools@.len());
            requested(provider, model, prompt, "tools"@) == (if offers.len() > 0 {
                Some(Json::Array(offers))
            } else {
                None
            })
        }),
{
    lemma_requested(provider, model, prompt, "model"@);
    lemma_requested(provider, model, prompt, "messages"@);
    lemma_requested(provider, model, prompt, "stream"@);
    lemma_requested(provider, model, prompt, "tools"@);
}

/// Calls are ruled out where the prompt rules them out, whether or not tools are on
/// offer, and left to the model where they are; nothing is said of them where there is
/// none to call.
pub proof fn requests_keep_to_the_choice_of_tools(
    provider: ChatCompletionsProvider,
    model: Seq<char>,
    prompt: AgentPromptCreated,
)
    requires
        lookup(provider.extra_body@, "tool_choice"@) is None,
        lookup(provider.extra_body@, "parallel_tool_calls"@) is None,
    ensures
        prompt.tool_choice == ToolChoice::Never ==> requested(provider, model, prompt, "tool_choice"@) == Some(
            Json::Text("none"@),
        ),
        prompt.tool_choice == ToolChoice::Auto && tool_offers(prompt.tools@, prompt.tools@.len()).len() > 0
            ==> requested(provider, model, prompt, "tool_choice"@) == Some(Json::Text("auto"@)),
        prompt.tool_choice == ToolChoice::Auto && tool_offers(prompt.tools@, prompt.tools@.len()).len() == 0
            ==> requested(provider, model, prompt, "tool_choice"@) is None,
        requested(provider, model, prompt, "parallel_tool_calls"@) is Some ==> tool_offers(
            prompt.tools@,
            prompt.tools@.len(),
        ).len() > 0,
{
    lemma_requested(provider, model, prompt, "tool_choice"@);
    lemma_requested(provider, model, prompt, "parallel_tool_calls"@);
}

/// A field that not every provider understands is sent exactly where the provider is
/// said to understand it. Prompts of one session share a key for the cache, and no
/// others do.
pub proof fn requests_keep_to_what_is_understood(
    provider: ChatCompletionsProvider,
    model: Seq<char>,
    a: AgentPromptCreated,
    b: AgentPromptCreated,
)
    requires
        lookup(provider.extra_body@, "stream_options"@) is None,
        lookup(provider.extra_body@, "prompt_cache_key"@) is None,
        lookup(provider.extra_body@, "reasoning_effort"@) is None,
    ensures
        requested(provider, model, a, "stream_options"@) is Some == provider.compat.stream_options,
        requested(provider, model, a, "prompt_cache_key"@) is Some == provider.compat.prompt_cache_key,
        requested(provider, model, a, "reasoning_effort"@) is Some == provider.compat.reasoning_effort,
        provider.compat.prompt_cache_key ==> (requested(provider, model, a, "prompt_cache_key"@) == requested(
            provider,
            model,
            b,
            "prompt_cache_key"@,
        ) <==> a.session_id@ == b.session_id@),
{
    lemma_requested(provider, model, a, "stream_options"@);
    lemma_requested(provider, model, a, "prompt_cache_key"@);
    lemma_requested(provider, model, b, "prompt_cache_key"@);
    lemma_requested(provider, model, a, "reasoning_effort"@);
    let mark = "tau:"@;
    if mark + a.session_id@ == mark + b.session_id@ {
        assert((mark + a.session_id@).skip(mark.len() as int) =~= a.session_id@);
        assert((mark + b.session_id@).skip(mark.len() as int) =~= b.session_id@);
    }
}

proof fn lemma_limit(
    provider: ChatCompletionsProvider,
    model: Seq<char>,
    prompt: AgentPromptCreated,
    key: Seq<char>,
)
    requires
        key == "max_tokens"@ || key == "max_completion_tokens"@,
        lookup(provider.extra_body@, "max_tokens"@) is None,
        lookup(provider.extra_body@, "max_completion_tokens"@) is None,
    ensures
        requested(provider, model, prompt, key) == lookup(
            length_field(provider.max_output_tokens, provider.compat, provider.extra_body@),
            key,
        ),
        requested(provider, model, prompt, key) == (if provider.compat.max_completion_tokens == (key
            == "max_completion_tokens"@) {
            Some(Json::Integer(provider.max_output_tokens as int))
        } else {
            None
        }),
{
    lemma_keys_of_requests();
    let fields = request_fields(provider, model, prompt);
    let extra = provider.extra_body@;
    let limit = length_field(provider.max_output_tokens, provider.compat, extra);
    let rest = fields.take(fields.len() - extra.len() - limit.len());
    assert(fields =~= rest + limit + extra);
    lemma_lookup_in_two(rest + limit, extra, key);
    lemma_lookup_in_two(rest, limit, key);
    assert forall|k: int| 0 <= k < rest.len() implies (#[trigger] rest[k]).0 != key by {
        assert(rest[k].0.len() != 10 && rest[k].0.len() != 21);
    }
    lemma_missing(rest, key, Json::Null);
    let longest = Json::Integer(provider.max_output_tokens as int);
    lemma_lookup_if(true, "max_completion_tokens"@, longest, key);
    lemma_lookup_if(true, "max_tokens"@, longest, key);
}

/// The answer is limited to the provider's number of tokens under the one name that the
/// provider understands, unless its own fields limit it.
pub proof fn requests_limit_the_answer(
    provider: ChatCompletionsProvider,
    model: Seq<char>,
    prompt: AgentPromptCreated,
)
    requires
        lookup(provider.extra_body@, "max_tokens"@) is None,
        lookup(provider.extra_body@, "max_completion_tokens"@) is None,
    ensures
        ({
            let longest = Some(Json::Integer(provider.max_output_tokens as int));
            &&& provider.compat.max_completion_tokens ==> requested(provider, model, prompt, "max_completion_tokens"@)
                == longest && requested(provider, model, prompt, "max_tokens"@) is None
            &&& !provider.compat.max_completion_tokens ==> requested(provider, model, prompt, "max_tokens"@) == longest
                && requested(provider, model, prompt, "max_completion_tokens"@) is None
        }),
{
    lemma_keys_of_requests();
    lemma_limit(provider, model, prompt, "max_tokens"@);
    lemma_limit(provider, model, prompt, "max_completion_tokens"@);
}

/// The provider's own fields end the request, as they are.
pub proof fn requests_end_with_the_fields_of_the_provider(
    provider: ChatCompletionsProvider,
    model: Seq<char>,
    prompt: AgentPromptCreated,
)
    ensures
        ({
            let fields = request_fields(provider, model, prompt);
            let extra = provider.extra_body@;
            fields.len() >= extra.len() && fields.skip(fields.len() - extra.len()) == extra
        }),
{
    let fields = request_fields(provider, model, prompt);
    let extra = provider.extra_body@;
    assert(fields.skip(fields.len() - extra.len()) =~= extra);
}

/// Slashes at the end of a base address make no difference, and nothing else is taken
/// off.
pub proof fn slashes_at_the_end_make_no_difference(base: Seq<char>)
    ensures
        without_slashes(base.push('/')) == without_slashes(base),
        base.len() > 0 && base.last() != '/' ==> without_slashes(base) == base,
        without_slashes(base).len() > 0 ==> without_slashes(base).last() != '/',
    decreases base.len(),
{
    assert(base.push('/').drop_last() =~= base);
    if base.len() > 0 && base.last() == '/' {
        slashes_at_the_end_make_no_difference(base.drop_last());
    }
}

/// A key is sent as it is, behind the name of the scheme; a blank one is not sent.
pub proof fn keys_are_sent_as_they_are(api_key: Seq<char>)
    ensures
        match authorization(api_key) {
            Some(header) => crate::text::trimmed(api_key).len() > 0 && header.len() == 7 + api_key.len()
                && header.take(7) == "Bearer "@ && header.skip(7) == api_key,
            None => crate::text::trimmed(api_key).len() == 0,
        },
{
    reveal_strlit("Bearer ");
    assert("Bearer "@.len() == 7);
    if crate::text::trimmed(api_key).len() > 0 {
        let header = "Bearer "@ + api_key;
        assert(header.take(7) =~= "Bearer "@);
        assert(header.skip(7) =~= api_key);
    }
}

/// An announcement tells the model under its provider's name, with its own context
/// window, and offers efforts exactly where the provider understands them.
pub proof fn announcements_tell_the_model(
    info: ProviderModelInfo,
    provider_name: Seq<char>,
    model: ChatCompletionsModel,
    compat: ChatCompletionsCompat,
)
    requires
        announces(info, provider_name, model, compat),
    ensures
        info.id@.len() == provider_name.len() + 1 + model.id@.len(),
        info.id@.take(provider_name.len() as int) == provider_name,
        info.id@[provider_name.len() as int] == '/',
        info.id@.skip(provider_name.len() as int + 1) == model.id@,
        info.context_window == model.context_window,
        option_text(info.display_name) == option_text(model.display_name),
        info.efforts@.len() > 0 && info.efforts@[0] == Effort::Off,
        compat.reasoning_effort ==> forall|effort: Effort| info.efforts@.contains(effort),
        !compat.reasoning_effort ==> info.efforts@.len() == 1,
{
    reveal_strlit("/");
    assert(info.id@.take(provider_name.len() as int) =~= provider_name);
    assert(info.id@.skip(provider_name.len() as int + 1) =~= model.id@);
    if compat.reasoning_effort {
        assert forall|effort: Effort| info.efforts@.contains(effort) by {
            let all = info.efforts@;
            assert(all[0] == Effort::Off);
            assert(all[1] == Effort::Minimal);
            assert(all[2] == Effort::Low);
            assert(all[3] == Effort::Medium);
            assert(all[4] == Effort::High);
            assert(all[5] == Effort::XHigh);
        }
    }
}

/// Whether a text reaches a provider as it is.
pub open spec fn is_safe(s: Seq<char>, keep_lines: bool) -> bool {
    forall|i: int| 0 <= i < s.len() ==> may_pass(#[trigger] s[i], keep_lines)
}

/// Text that is safe stays as it is.
pub proof fn safe_texts_stay(s: Seq<char>, keep_lines: bool)
    requires
        is_safe(s, keep_lines),
    ensures
        safe_text(s, keep_lines) == s,
    decreases s.len(),
{
    if s.len() > 0 {
        assert(may_pass(s[s.len() - 1], keep_lines));
        assert forall|i: int| 0 <= i < s.drop_last().len() implies may_pass(#[trigger] s.drop_last()[i], keep_lines) by {
            assert(s.drop_last()[i] == s[i]);
        }
        safe_texts_stay(s.drop_last(), keep_lines);
        assert(safe_text(s, keep_lines) =~= s);
    }
}

/// What a tool returned reaches the model: the body as it is where there are no headers,
/// and behind a line for each header and an empty one where there are.
pub proof fn results_are_told_as_they_are(output: Response, key: Seq<char>, value: Seq<char>)
    requires
        is_safe(output.body, true),
        is_safe(key, false),
        is_safe(value, false),
    ensures
        output.headers.len() == 0 ==> result_text(Status::Success, output) == output.body,
        output.headers == seq![(key, value)] ==> result_text(Status::Success, output) == key + ": "@ + value
            + seq!['\n', '\n'] + output.body,
{
    safe_texts_stay(output.body, true);
    safe_texts_stay(key, false);
    safe_texts_stay(value, false);
    reveal_with_fuel(header_lines, 3);
    if output.headers.len() == 0 {
        assert(result_text(Status::Success, output) =~= output.body);
    }
    if output.headers == seq![(key, value)] {
        assert(output.headers.drop_last() =~= Seq::empty());
        assert(result_text(Status::Success, output) =~= key + ": "@ + value + seq!['\n', '\n'] + output.body);
    }
}

/// A failure is told first, in a line of its own, and what the tool returned beside it
/// still follows.
pub proof fn failures_are_told_first(output: Response, message: Seq<char>)
    requires
        is_safe(message, false),
    ensures
        output.headers.len() > 0 ==> result_text(Status::Error(message), output) == "error: "@ + message + seq!['\n']
            + result_text(Status::Success, output),
        output.headers.len() == 0 ==> result_text(Status::Error(message), output) == "error: "@ + message
            + seq!['\n', '\n'] + result_text(Status::Success, output),
{
    reveal_strlit("error");
    reveal_strlit("error: ");
    reveal_strlit(": ");
    safe_texts_stay("error"@, false);
    safe_texts_stay(message, false);
    lemma_first_header("error"@, message, output.headers);
    assert("error"@ + ": "@ =~= "error: "@);
    let line = "error: "@ + message + seq!['\n'];
    assert("error"@ + ": "@ + message + seq!['\n'] =~= line);
    let body = safe_text(output.body, true);
    if output.headers.len() > 0 {
        assert(result_text(Status::Error(message), output) =~= line + (header_lines(output.headers) + seq!['\n'] + body));
        assert(result_text(Status::Success, output) =~= header_lines(output.headers) + seq!['\n'] + body);
    } else {
        assert(header_lines(output.headers) =~= Seq::empty());
        assert(result_text(Status::Error(message), output) =~= line + seq!['\n'] + body);
        assert(result_text(Status::Success, output) =~= body);
        assert(line + seq!['\n'] =~= "error: "@ + message + seq!['\n', '\n']);
    }
}

/// A call that was cancelled tells why, and nothing of what the tool returned.
pub proof fn cancelled_calls_tell_why(output: Response, reason: Seq<char>)
    requires
        is_safe(reason, false),
    ensures
        result_text(Status::Cancelled(reason), output) == "cancelled: "@ + reason + seq!['\n', '\n'],
{
    reveal_strlit("cancelled");
    reveal_strlit("cancelled: ");
    reveal_strlit(": ");
    safe_texts_stay("cancelled"@, false);
    safe_texts_stay(reason, false);
    reveal_with_fuel(header_lines, 3);
    let headers = seq![("cancelled"@, reason)];
    assert(headers.drop_last() =~= Seq::empty());
    assert("cancelled"@ + ": "@ =~= "cancelled: "@);
    assert(safe_text(Seq::empty(), true) =~= Seq::empty());
    assert(result_text(Status::Cancelled(reason), output) =~= "cancelled: "@ + reason + seq!['\n', '\n']);
}

proof fn lemma_first_header(key: Seq<char>, value: Seq<char>, headers: Seq<(Seq<char>, Seq<char>)>)
    ensures
        header_lines(seq![(key, value)] + headers) == safe_text(key, false) + ": "@ + safe_text(value, false)
            + seq!['\n'] + header_lines(headers),
    decreases headers.len(),
{
    let all = seq![(key, value)] + headers;
    if headers.len() == 0 {
        assert(all.drop_last() =~= Seq::empty());
        reveal_with_fuel(header_lines, 3);
        assert(header_lines(all) =~= safe_text(key, false) + ": "@ + safe_text(value, false) + seq!['\n']
            + header_lines(headers));
    } else {
        assert(all.drop_last() =~= seq![(key, value)] + headers.drop_last());
        lemma_first_header(key, value, headers.drop_last());
        assert(header_lines(all) =~= safe_text(key, false) + ": "@ + safe_text(value, false) + seq!['\n']
            + header_lines(headers));
    }
}

} // verus!

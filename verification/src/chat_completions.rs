//! Talking to providers with an OpenAI-compatible Chat Completions interface:
//! what is asked, and what the streamed answer amounts to.
use vstd::prelude::*;
use vstd::string::*;
use crate::assoc::{entries_view, lookup, TextMap};
use crate::cbor::{Cbor, CborValue};
use crate::context::{
    headers_view, items_view, part_texts, rendered, AgentPromptCreated, ContentPart, ContextItem, ContextRole, Item,
    MessageItem, PromptOriginator, ProviderBackend, ProviderBackendKind, ProviderBackendTransport,
    ProviderTokenUsage, Response, Status, ToolCallItem, ToolChoice, ToolDefinition, ToolResponse, ToolResponseHeader,
    ToolResultStatus, ToolType,
};
use crate::event::{Effort, ThinkingSummary};
use crate::json::{
    as_array, as_str, as_u64, at, cbor_of, cbor_to_json, compact_text, field, json_at, json_compact, json_field,
    json_list, json_of, json_parsed, json_sized, json_string, json_to_cbor, json_unsigned, json_views, list_value,
    object_value, option_json, option_ref, optional_value, parse_json, put, text_or_null, value_or_null, Json,
    JsonValue,
};
use crate::session::option_text;
use crate::text::{
    begins, chars_of, decimal, decimal_text, same, starts_with, text_between, texts, trim, trimmed,
};
use crate::think_tags::{fed, feed_content, flush_content, flushed, nothing_split, with_more, Split};

verus! {

// ---------------------------------------------------------------------------
// Providers and their models
// ---------------------------------------------------------------------------

/// The context window of a model where none is configured.
pub const DEFAULT_CONTEXT_WINDOW: u64 = 128_000;

/// The longest answer that is asked for where none is configured, in tokens.
pub const DEFAULT_MAX_OUTPUT_TOKENS: u64 = 32_768;

/// What a provider's interface understands.
#[derive(Clone, Copy, Debug, PartialEq, Eq, Structural)]
pub struct ChatCompletionsCompat {
    /// `stream_options` is sent.
    pub stream_options: bool,
    /// `parallel_tool_calls` is sent beside tools.
    pub parallel_tool_calls: bool,
    /// `prompt_cache_key` is sent.
    pub prompt_cache_key: bool,
    /// `reasoning_effort` is sent.
    pub reasoning_effort: bool,
    /// The longest answer is sent as `max_completion_tokens`.
    pub max_completion_tokens: bool,
}

impl Default for ChatCompletionsCompat {
    /// Nothing beyond the common interface.
    fn default() -> (r: ChatCompletionsCompat)
        ensures
            r == (ChatCompletionsCompat {
                stream_options: false,
                parallel_tool_calls: false,
                prompt_cache_key: false,
                reasoning_effort: false,
                max_completion_tokens: false,
            }),
    {
        ChatCompletionsCompat {
            stream_options: false,
            parallel_tool_calls: false,
            prompt_cache_key: false,
            reasoning_effort: false,
            max_completion_tokens: false,
        }
    }
}

impl ChatCompletionsCompat {
    /// What OpenAI's public interface understands.
    #[must_use]
    pub fn openai_defaults() -> (r: ChatCompletionsCompat)
        ensures
            r == (ChatCompletionsCompat {
                stream_options: true,
                parallel_tool_calls: true,
                prompt_cache_key: true,
                reasoning_effort: true,
                max_completion_tokens: true,
            }),
    {
        ChatCompletionsCompat {
            stream_options: true,
            parallel_tool_calls: true,
            prompt_cache_key: true,
            reasoning_effort: true,
            max_completion_tokens: true,
        }
    }
}

/// A model of a provider.
#[derive(Debug, PartialEq, Eq)]
pub struct ChatCompletionsModel {
    /// The name of the model in requests.
    pub id: String,
    pub display_name: Option<String>,
    pub context_window: u64,
}

/// A provider.
#[derive(Debug, PartialEq, Eq)]
pub struct ChatCompletionsProvider {
    /// Where the interface lies, without `/chat/completions`.
    pub base_url: String,
    /// The key sent with each request; empty where none is needed.
    pub api_key: String,
    pub models: Vec<ChatCompletionsModel>,
    pub max_output_tokens: u64,
    /// Further fields of each request.
    pub extra_body: TextMap<JsonValue>,
    pub compat: ChatCompletionsCompat,
}

/// How much a model says.
#[derive(Clone, Copy, Debug, PartialEq, Eq, Structural)]
pub enum Verbosity {
    Low,
    Medium,
    High,
}

/// A model as it is announced.
#[derive(Debug, PartialEq, Eq)]
pub struct ProviderModelInfo {
    /// The provider and the model, with a slash between them.
    pub id: String,
    pub display_name: Option<String>,
    pub default_affinity: i32,
    pub context_window: u64,
    pub efforts: Vec<Effort>,
    pub verbosities: Vec<Verbosity>,
    pub thinking_summaries: Vec<ThinkingSummary>,
    pub supports_compaction: bool,
}

/// The efforts that can be asked of a provider's models.
pub open spec fn offered_efforts(compat: ChatCompletionsCompat) -> Seq<Effort> {
    if compat.reasoning_effort {
        seq![Effort::Off, Effort::Minimal, Effort::Low, Effort::Medium, Effort::High, Effort::XHigh]
    } else {
        seq![Effort::Off]
    }
}

/// The efforts that can be asked of a provider's models.
pub fn model_efforts(compat: ChatCompletionsCompat) -> (r: Vec<Effort>)
    ensures
        r@ == offered_efforts(compat),
{
    let mut r: Vec<Effort> = Vec::new();
    r.push(Effort::Off);
    if compat.reasoning_effort {
        r.push(Effort::Minimal);
        r.push(Effort::Low);
        r.push(Effort::Medium);
        r.push(Effort::High);
        r.push(Effort::XHigh);
    }
    assert(r@ =~= offered_efforts(compat));
    r
}

/// Whether a model is announced as it is configured.
pub open spec fn announces(
    info: ProviderModelInfo,
    provider_name: Seq<char>,
    model: ChatCompletionsModel,
    compat: ChatCompletionsCompat,
) -> bool {
    &&& info.id@ == provider_name + "/"@ + model.id@
    &&& option_text(info.display_name) == option_text(model.display_name)
    &&& info.default_affinity == 0
    &&& info.context_window == model.context_window
    &&& info.efforts@ == offered_efforts(compat)
    &&& info.verbosities@ == seq![Verbosity::Medium]
    &&& info.thinking_summaries@ == seq![ThinkingSummary::Off]
    &&& !info.supports_compaction
}

/// Announces the models of a provider.
pub fn models_for_provider(provider_name: &str, provider: &ChatCompletionsProvider) -> (r: Vec<ProviderModelInfo>)
    ensures
        r.len() == provider.models.len(),
        forall|i: int|
            0 <= i < r.len() ==> announces(
                #[trigger] r@[i],
                provider_name@,
                provider.models@[i],
                provider.compat,
            ),
{
    let mut r: Vec<ProviderModelInfo> = Vec::new();
    let mut i: usize = 0;
    while i < provider.models.len()
        invariant
            i <= provider.models.len(),
            r.len() == i,
            forall|k: int|
                0 <= k < i ==> announces(#[trigger] r@[k], provider_name@, provider.models@[k], provider.compat),
        decreases provider.models.len() - i,
    {
        let mut id = provider_name.to_owned();
        id.append("/");
        id.append(provider.models[i].id.as_str());
        let display_name = match &provider.models[i].display_name {
            Some(name) => Some(name.clone()),
            None => None,
        };
        let mut verbosities: Vec<Verbosity> = Vec::new();
        verbosities.push(Verbosity::Medium);
        let mut thinking_summaries: Vec<ThinkingSummary> = Vec::new();
        thinking_summaries.push(ThinkingSummary::Off);
        let info = ProviderModelInfo {
            id,
            display_name,
            default_affinity: 0,
            context_window: provider.models[i].context_window,
            efforts: model_efforts(provider.compat),
            verbosities,
            thinking_summaries,
            supports_compaction: false,
        };
        assert(info.verbosities@ =~= seq![Verbosity::Medium]);
        assert(info.thinking_summaries@ =~= seq![ThinkingSummary::Off]);
        r.push(info);
        i += 1;
    }
    r
}

// ---------------------------------------------------------------------------
// Requests
// ---------------------------------------------------------------------------

/// A text without the slashes at its end.
pub open spec fn without_slashes(s: Seq<char>) -> Seq<char>
    decreases s.len(),
{
    if s.len() > 0 && s.last() == '/' {
        without_slashes(s.drop_last())
    } else {
        s
    }
}

/// Where requests are sent.
pub fn request_url(base_url: &str) -> (r: String)
    ensures
        r@ == without_slashes(base_url@) + "/chat/completions"@,
{
    let v = chars_of(base_url);
    let mut n: usize = v.len();
    assert(v@.take(v@.len() as int) =~= v@);
    while n > 0 && v[n - 1] == '/'
        invariant
            n <= v.len(),
            without_slashes(v@) == without_slashes(v@.take(n as int)),
        decreases n,
    {
        assert(v@.take(n as int).drop_last() =~= v@.take(n - 1));
        n -= 1;
    }
    let mut r = text_between(&v, 0, n);
    assert(v@.subrange(0, n as int) =~= v@.take(n as int));
    r.append("/chat/completions");
    r
}

/// The header by which a request is allowed, where a key is configured.
pub open spec fn authorization(api_key: Seq<char>) -> Option<Seq<char>> {
    if trimmed(api_key).len() == 0 {
        None
    } else {
        Some("Bearer "@ + api_key)
    }
}

/// The header by which a request is allowed, where a key is configured.
pub fn authorization_header(api_key: &str) -> (r: Option<String>)
    ensures
        option_text(r) == authorization(api_key@),
{
    let plain = trim(api_key);
    if plain.as_str().is_empty() {
        None
    } else {
        let mut r = "Bearer ".to_owned();
        r.append(api_key);
        Some(r)
    }
}

/// An effort as it is asked for.
pub open spec fn effort_asked(effort: Effort) -> Seq<char> {
    match effort {
        Effort::Off => "none"@,
        Effort::Minimal => "minimal"@,
        Effort::Low => "low"@,
        Effort::Medium => "medium"@,
        Effort::High => "high"@,
        Effort::XHigh => "high"@,
    }
}

/// An effort as it is asked for.
pub fn effort_wire(effort: Effort) -> (r: &'static str)
    ensures
        r@ == effort_asked(effort),
{
    match effort {
        Effort::Off => "none",
        Effort::Minimal => "minimal",
        Effort::Low => "low",
        Effort::Medium => "medium",
        Effort::High => "high",
        Effort::XHigh => "high",
    }
}

/// A role as it is sent.
pub open spec fn role_sent(role: ContextRole) -> Seq<char> {
    match role {
        ContextRole::System => "system"@,
        ContextRole::Developer => "system"@,
        ContextRole::User => "user"@,
        ContextRole::Assistant => "assistant"@,
    }
}

/// A role as it is sent.
pub fn role_wire(role: ContextRole) -> (r: &'static str)
    ensures
        r@ == role_sent(role),
{
    match role {
        ContextRole::System => "system",
        ContextRole::Developer => "system",
        ContextRole::User => "user",
        ContextRole::Assistant => "assistant",
    }
}

/// Texts in a row.
pub open spec fn run_together(parts: Seq<Seq<char>>) -> Seq<char>
    decreases parts.len(),
{
    if parts.len() == 0 {
        Seq::empty()
    } else {
        run_together(parts.drop_last()) + parts.last()
    }
}

/// The text of a message.
pub fn message_text(message: &MessageItem) -> (r: String)
    ensures
        r@ == run_together(part_texts(message.content@)),
{
    let ghost parts = part_texts(message.content@);
    let mut text = String::new();
    let mut i: usize = 0;
    assert(parts.take(0) =~= Seq::empty());
    while i < message.content.len()
        invariant
            i <= message.content.len(),
            parts == part_texts(message.content@),
            text@ == run_together(parts.take(i as int)),
        decreases message.content.len() - i,
    {
        proof {
            assert(parts.take(i + 1).drop_last() =~= parts.take(i as int));
            assert(parts.take(i + 1).last() == message.content@[i as int]->text@);
        }
        match &message.content[i] {
            ContentPart::Text { text: part } => text.append(part.as_str()),
        }
        i += 1;
    }
    assert(parts.take(parts.len() as int) =~= parts);
    text
}

/// What a provider reads of a tool's result.
pub open spec fn result_text(status: Status, output: Response) -> Seq<char> {
    match status {
        Status::Success => rendered(output.headers, output.body),
        Status::Error(message) => rendered(seq![("error"@, message)] + output.headers, output.body),
        Status::Cancelled(reason) => rendered(seq![("cancelled"@, reason)], Seq::empty()),
    }
}

/// What a provider reads of a tool's result.
pub fn tool_result_text(status: &ToolResultStatus, output: &ToolResponse) -> (r: String)
    ensures
        r@ == result_text(status@, output@),
{
    match status {
        ToolResultStatus::Success => output.render(),
        ToolResultStatus::Error { message } => {
            let mut response = output.clone();
            let ghost before = response@.headers;
            response.headers.insert(0, ToolResponseHeader { key: "error".to_owned(), value: message.clone() });
            assert(headers_view(response.headers@) =~= seq![("error"@, message@)] + before);
            response.render()
        },
        ToolResultStatus::Cancelled { reason } => {
            let mut headers: Vec<ToolResponseHeader> = Vec::new();
            headers.push(ToolResponseHeader { key: "cancelled".to_owned(), value: reason.clone() });
            let response = ToolResponse { raw: CborValue::Null, headers, body: String::new() };
            assert(headers_view(response.headers@) =~= seq![("cancelled"@, reason@)]);
            response.render()
        },
    }
}

/// A call as it is sent back to the provider.
pub open spec fn call_message(call_id: Seq<char>, name: Seq<char>, arguments: Cbor) -> Json {
    Json::Object(
        seq![
            ("role"@, Json::Text("assistant"@)),
            ("content"@, Json::Null),
            (
                "tool_calls"@,
                Json::Array(
                    seq![
                        Json::Object(
                            seq![
                                ("id"@, Json::Text(call_id)),
                                ("type"@, Json::Text("function"@)),
                                (
                                    "function"@,
                                    Json::Object(
                                        seq![
                                            ("name"@, Json::Text(name)),
                                            ("arguments"@, Json::Text(json_compact(json_of(arguments)))),
                                        ],
                                    ),
                                ),
                            ],
                        ),
                    ],
                ),
            ),
        ],
    )
}

/// The message that an item of the timeline is sent as; some are not sent.
pub open spec fn item_message(item: Item) -> Option<Json> {
    match item {
        Item::Message { role, content, phase: _ } => {
            let text = run_together(content);
            if text.len() == 0 || (role == ContextRole::User && trimmed(text).len() == 0) {
                None
            } else {
                Some(Json::Object(seq![("role"@, Json::Text(role_sent(role))), ("content"@, Json::Text(text))]))
            }
        },
        Item::ToolCall { call_id, name, tool_type: _, arguments } => Some(call_message(call_id, name, arguments)),
        Item::ToolResult(result) => Some(
            Json::Object(
                seq![
                    ("role"@, Json::Text("tool"@)),
                    ("tool_call_id"@, Json::Text(result.call_id)),
                    ("content"@, Json::Text(result_text(result.status, result.output))),
                ],
            ),
        ),
        _ => None,
    }
}

/// Whether the arguments of an item can be written as JSON.
pub open spec fn item_fits(item: Item) -> bool {
    match item {
        Item::ToolCall { call_id: _, name: _, tool_type: _, arguments } => json_sized(arguments),
        _ => true,
    }
}

fn message_of_call(call: &ToolCallItem) -> (r: JsonValue)
    requires
        json_sized(call.arguments@),
    ensures
        r@ == call_message(call.call_id@, call.name@, call.arguments@),
{
    let arguments = cbor_to_json(&call.arguments);
    let mut function: Vec<(String, JsonValue)> = Vec::new();
    put(&mut function, "name", JsonValue::Text(call.name.clone()));
    put(&mut function, "arguments", JsonValue::Text(compact_text(&arguments)));
    assert(entries_view(function@) =~= seq![
        ("name"@, Json::Text(call.name@)),
        ("arguments"@, Json::Text(json_compact(json_of(call.arguments@)))),
    ]);
    let function_value = object_value(function);
    let mut entry: Vec<(String, JsonValue)> = Vec::new();
    put(&mut entry, "id", JsonValue::Text(call.call_id.clone()));
    put(&mut entry, "type", JsonValue::Text("function".to_owned()));
    put(&mut entry, "function", function_value);
    assert(entries_view(entry@) =~= seq![
        ("id"@, Json::Text(call.call_id@)),
        ("type"@, Json::Text("function"@)),
        ("function"@, function_value@),
    ]);
    let mut calls: Vec<JsonValue> = Vec::new();
    let entry_value = object_value(entry);
    let ghost one = entry_value@;
    calls.push(entry_value);
    assert(json_views(calls@) =~= seq![one]);
    let mut message: Vec<(String, JsonValue)> = Vec::new();
    put(&mut message, "role", JsonValue::Text("assistant".to_owned()));
    put(&mut message, "content", JsonValue::Null);
    put(&mut message, "tool_calls", list_value(calls));
    assert(entries_view(message@) =~= call_message(call.call_id@, call.name@, call.arguments@)->Object_0);
    object_value(message)
}

/// Makes the message that an item of the timeline is sent as.
pub fn context_message(item: &ContextItem) -> (r: Option<JsonValue>)
    requires
        item_fits(item@),
    ensures
        option_json(r) == item_message(item@),
{
    match item {
        ContextItem::Message(message) => {
            let text = message_text(message);
            if text.as_str().is_empty() {
                return None;
            }
            let plain = trim(text.as_str());
            let blank = plain.as_str().is_empty();
            match message.role {
                ContextRole::User => {
                    if blank {
                        return None;
                    }
                },
                _ => {},
            }
            let mut entries: Vec<(String, JsonValue)> = Vec::new();
            put(&mut entries, "role", JsonValue::Text(role_wire(message.role).to_owned()));
            put(&mut entries, "content", JsonValue::Text(text));
            assert(entries_view(entries@) =~= item_message(item@)->Some_0->Object_0);
            Some(object_value(entries))
        },
        ContextItem::ToolCall(call) => Some(message_of_call(call)),
        ContextItem::ToolResult(result) => {
            let mut entries: Vec<(String, JsonValue)> = Vec::new();
            put(&mut entries, "role", JsonValue::Text("tool".to_owned()));
            put(&mut entries, "tool_call_id", JsonValue::Text(result.call_id.clone()));
            put(&mut entries, "content", JsonValue::Text(tool_result_text(&result.status, &result.output)));
            assert(entries_view(entries@) =~= item_message(item@)->Some_0->Object_0);
            Some(object_value(entries))
        },
        _ => None,
    }
}

/// The messages that the first `n` items are sent as.
pub open spec fn item_messages(items: Seq<Item>, n: nat) -> Seq<Json>
    decreases n,
{
    if n == 0 || n > items.len() {
        Seq::empty()
    } else {
        let before = item_messages(items, (n - 1) as nat);
        match item_message(items[n - 1]) {
            Some(message) => before.push(message),
            None => before,
        }
    }
}

/// The messages of a prompt.
pub open spec fn prompt_messages(system_prompt: Seq<char>, items: Seq<Item>) -> Seq<Json> {
    (if trimmed(system_prompt).len() == 0 {
        Seq::empty()
    } else {
        seq![Json::Object(seq![("role"@, Json::Text("system"@)), ("content"@, Json::Text(system_prompt))])]
    }) + item_messages(items, items.len())
}

fn messages_of(prompt: &AgentPromptCreated) -> (r: Vec<JsonValue>)
    requires
        forall|i: int| 0 <= i < prompt.context_items@.len() ==> item_fits(#[trigger] prompt.context_items@[i]@),
    ensures
        json_views(r@) == prompt_messages(prompt.system_prompt@, items_view(prompt.context_items@)),
{
    let ghost items = items_view(prompt.context_items@);
    let mut messages: Vec<JsonValue> = Vec::new();
    assert(json_views(messages@) =~= Seq::empty());
    let plain = trim(prompt.system_prompt.as_str());
    if !plain.as_str().is_empty() {
        let mut entries: Vec<(String, JsonValue)> = Vec::new();
        put(&mut entries, "role", JsonValue::Text("system".to_owned()));
        put(&mut entries, "content", JsonValue::Text(prompt.system_prompt.clone()));
        assert(entries_view(entries@) =~= seq![
            ("role"@, Json::Text("system"@)),
            ("content"@, Json::Text(prompt.system_prompt@)),
        ]);
        let value = object_value(entries);
        let ghost one = value@;
        messages.push(value);
        assert(json_views(messages@) =~= seq![one]);
    }
    let ghost head = json_views(messages@);
    let mut i: usize = 0;
    assert(head + item_messages(items, 0) =~= head);
    while i < prompt.context_items.len()
        invariant
            i <= prompt.context_items.len(),
            items == items_view(prompt.context_items@),
            forall|k: int| 0 <= k < prompt.context_items@.len() ==> item_fits(#[trigger] prompt.context_items@[k]@),
            json_views(messages@) == head + item_messages(items, i as nat),
        decreases prompt.context_items.len() - i,
    {
        let ghost before = json_views(messages@);
        assert(items[i as int] == prompt.context_items@[i as int]@);
        match context_message(&prompt.context_items[i]) {
            Some(message) => {
                let ghost added = message@;
                messages.push(message);
                assert(json_views(messages@) =~= before.push(added));
                assert(json_views(messages@) =~= head + item_messages(items, (i + 1) as nat));
            },
            None => {},
        }
        i += 1;
    }
    messages
}

/// A tool as it is offered; only tools with a schema are.
pub open spec fn tool_offer(tool: ToolDefinition) -> Option<Json> {
    match tool.tool_type {
        ToolType::Custom => None,
        ToolType::Function => Some(
            Json::Object(
                seq![
                    ("type"@, Json::Text("function"@)),
                    (
                        "function"@,
                        Json::Object(
                            seq![
                                (
                                    "name"@,
                                    Json::Text(
                                        match tool.model_visible_name {
                                            Some(name) => name@,
                                            None => tool.name@,
                                        },
                                    ),
                                ),
                                ("description"@, text_or_null(option_text(tool.description))),
                                ("parameters"@, value_or_null(option_json(tool.parameters))),
                            ],
                        ),
                    ),
                ],
            ),
        ),
    }
}

/// Offers a tool.
pub fn convert_tool_definition(tool: &ToolDefinition) -> (r: Option<JsonValue>)
    ensures
        option_json(r) == tool_offer(*tool),
{
    match tool.tool_type {
        ToolType::Custom => None,
        ToolType::Function => {
            let name = match &tool.model_visible_name {
                Some(name) => name.clone(),
                None => tool.name.clone(),
            };
            let description = match &tool.description {
                Some(text) => JsonValue::Text(text.clone()),
                None => JsonValue::Null,
            };
            let mut function: Vec<(String, JsonValue)> = Vec::new();
            put(&mut function, "name", JsonValue::Text(name));
            put(&mut function, "description", description);
            put(&mut function, "parameters", optional_value(&tool.parameters));
            let mut entries: Vec<(String, JsonValue)> = Vec::new();
            put(&mut entries, "type", JsonValue::Text("function".to_owned()));
            assert(entries_view(function@) =~= tool_offer(*tool)->Some_0->Object_0[1].1->Object_0);
            put(&mut entries, "function", object_value(function));
            assert(entries_view(entries@) =~= tool_offer(*tool)->Some_0->Object_0);
            Some(object_value(entries))
        },
    }
}

/// The first `n` tools as they are offered.
pub open spec fn tool_offers(tools: Seq<ToolDefinition>, n: nat) -> Seq<Json>
    decreases n,
{
    if n == 0 || n > tools.len() {
        Seq::empty()
    } else {
        let before = tool_offers(tools, (n - 1) as nat);
        match tool_offer(tools[n - 1]) {
            Some(offer) => before.push(offer),
            None => before,
        }
    }
}

fn offers_of(tools: &Vec<ToolDefinition>) -> (r: Vec<JsonValue>)
    ensures
        json_views(r@) == tool_offers(tools@, tools@.len()),
{
    let mut r: Vec<JsonValue> = Vec::new();
    let mut i: usize = 0;
    assert(json_views(r@) =~= Seq::empty());
    while i < tools.len()
        invariant
            i <= tools.len(),
            json_views(r@) == tool_offers(tools@, i as nat),
        decreases tools.len() - i,
    {
        let ghost before = json_views(r@);
        match convert_tool_definition(&tools[i]) {
            Some(offer) => {
                let ghost added = offer@;
                r.push(offer);
                assert(json_views(r@) =~= before.push(added));
            },
            None => {},
        }
        i += 1;
    }
    r
}

/// A field that is sent where a condition holds.
pub open spec fn field_if(sent: bool, key: Seq<char>, value: Json) -> Seq<(Seq<char>, Json)> {
    if sent {
        seq![(key, value)]
    } else {
        Seq::empty()
    }
}

/// The field that says whether tools may be called.
pub open spec fn choice_field(choice: ToolChoice, offers: Seq<Json>) -> Seq<(Seq<char>, Json)> {
    match choice {
        ToolChoice::Never => seq![("tool_choice"@, Json::Text("none"@))],
        ToolChoice::Auto => field_if(offers.len() > 0, "tool_choice"@, Json::Text("auto"@)),
    }
}

/// The field that says how long the answer may be, unless the provider's own
/// fields do.
pub open spec fn length_field(
    max_output_tokens: u64,
    compat: ChatCompletionsCompat,
    extra: Seq<(Seq<char>, Json)>,
) -> Seq<(Seq<char>, Json)> {
    field_if(
        lookup(extra, "max_tokens"@) is None && lookup(extra, "max_completion_tokens"@) is None,
        if compat.max_completion_tokens {
            "max_completion_tokens"@
        } else {
            "max_tokens"@
        },
        Json::Integer(max_output_tokens as int),
    )
}

/// The fields of a request.
pub open spec fn request_fields(
    provider: ChatCompletionsProvider,
    model: Seq<char>,
    prompt: AgentPromptCreated,
) -> Seq<(Seq<char>, Json)> {
    let offers = tool_offers(prompt.tools@, prompt.tools@.len());
    seq![
        ("model"@, Json::Text(model)),
        ("messages"@, Json::Array(prompt_messages(prompt.system_prompt@, items_view(prompt.context_items@)))),
        ("stream"@, Json::Bool(true)),
    ] + field_if(
        provider.compat.stream_options,
        "stream_options"@,
        Json::Object(seq![("include_usage"@, Json::Bool(true))]),
    ) + field_if(offers.len() > 0, "tools"@, Json::Array(offers)) + choice_field(prompt.tool_choice, offers)
        + field_if(
        provider.compat.parallel_tool_calls && offers.len() > 0,
        "parallel_tool_calls"@,
        Json::Bool(true),
    ) + field_if(provider.compat.prompt_cache_key, "prompt_cache_key"@, Json::Text("tau:"@ + prompt.session_id@))
        + field_if(
        provider.compat.reasoning_effort,
        "reasoning_effort"@,
        Json::Text(effort_asked(prompt.model_params.effort)),
    ) + length_field(provider.max_output_tokens, provider.compat, provider.extra_body@) + provider.extra_body@
}

fn put_if(entries: &mut Vec<(String, JsonValue)>, sent: bool, key: &str, value: JsonValue)
    ensures
        entries_view(final(entries)@) == entries_view(old(entries)@) + field_if(sent, key@, value@),
{
    let ghost before = entries_view(entries@);
    if sent {
        put(entries, key, value);
        assert(before.push((key@, value@)) =~= before + field_if(sent, key@, value@));
    } else {
        assert(before + field_if(sent, key@, value@) =~= before);
    }
}

/// The body of the request for a prompt.
pub fn request_body(
    provider: &ChatCompletionsProvider,
    model: &ChatCompletionsModel,
    prompt: &AgentPromptCreated,
) -> (r: String)
    requires
        forall|i: int| 0 <= i < prompt.context_items@.len() ==> item_fits(#[trigger] prompt.context_items@[i]@),
    ensures
        r@ == json_compact(Json::Object(request_fields(*provider, model.id@, *prompt))),
{
    compact_text(&build_request(provider, model, prompt))
}

/// Makes the request for a prompt.
pub fn build_request(
    provider: &ChatCompletionsProvider,
    model: &ChatCompletionsModel,
    prompt: &AgentPromptCreated,
) -> (r: JsonValue)
    requires
        forall|i: int| 0 <= i < prompt.context_items@.len() ==> item_fits(#[trigger] prompt.context_items@[i]@),
    ensures
        r@ == Json::Object(request_fields(*provider, model.id@, *prompt)),
{
    let ghost offers = tool_offers(prompt.tools@, prompt.tools@.len());
    let messages = messages_of(prompt);
    let tools = offers_of(&prompt.tools);
    let offered = tools.len() > 0;
    assert(offered == (offers.len() > 0));
    let mut entries: Vec<(String, JsonValue)> = Vec::new();
    put(&mut entries, "model", JsonValue::Text(model.id.clone()));
    put(&mut entries, "messages", list_value(messages));
    put(&mut entries, "stream", JsonValue::Bool(true));
    assert(entries_view(entries@) =~= seq![
        ("model"@, Json::Text(model.id@)),
        ("messages"@, Json::Array(prompt_messages(prompt.system_prompt@, items_view(prompt.context_items@)))),
        ("stream"@, Json::Bool(true)),
    ]);
    let mut options: Vec<(String, JsonValue)> = Vec::new();
    put(&mut options, "include_usage", JsonValue::Bool(true));
    assert(entries_view(options@) =~= seq![("include_usage"@, Json::Bool(true))]);
    put_if(&mut entries, provider.compat.stream_options, "stream_options", object_value(options));
    put_if(&mut entries, offered, "tools", list_value(tools));
    match prompt.tool_choice {
        ToolChoice::Never => put_if(&mut entries, true, "tool_choice", JsonValue::Text("none".to_owned())),
        ToolChoice::Auto => put_if(&mut entries, offered, "tool_choice", JsonValue::Text("auto".to_owned())),
    }
    put_if(
        &mut entries,
        provider.compat.parallel_tool_calls && offered,
        "parallel_tool_calls",
        JsonValue::Bool(true),
    );
    let mut cache_key = "tau:".to_owned();
    cache_key.append(prompt.session_id.as_str());
    put_if(&mut entries, provider.compat.prompt_cache_key, "prompt_cache_key", JsonValue::Text(cache_key));
    put_if(
        &mut entries,
        provider.compat.reasoning_effort,
        "reasoning_effort",
        JsonValue::Text(effort_wire(prompt.model_params.effort).to_owned()),
    );
    let own_cap = provider.extra_body.contains_key("max_tokens") || provider.extra_body.contains_key(
        "max_completion_tokens",
    );
    let cap = JsonValue::Integer(provider.max_output_tokens as i128);
    if provider.compat.max_completion_tokens {
        put_if(&mut entries, !own_cap, "max_completion_tokens", cap);
    } else {
        put_if(&mut entries, !own_cap, "max_tokens", cap);
    }
    let ghost head = entries_view(entries@);
    let ghost extra = provider.extra_body@;
    let mut i: usize = 0;
    assert(extra.take(0) =~= Seq::empty());
    assert(head + extra.take(0) =~= head);
    while i < provider.extra_body.entries.len()
        invariant
            i <= provider.extra_body.entries.len(),
            extra == provider.extra_body@,
            entries_view(entries@) == head + extra.take(i as int),
        decreases provider.extra_body.entries.len() - i,
    {
        let ghost before = entries_view(entries@);
        let entry = &provider.extra_body.entries[i];
        put(&mut entries, entry.0.as_str(), entry.1.clone());
        proof {
            assert(extra[i as int] == (entry.0@, entry.1@));
            assert(extra.take(i + 1) =~= extra.take(i as int).push(extra[i as int]));
            assert(entries_view(entries@) =~= head + extra.take(i + 1));
        }
        i += 1;
    }
    assert(extra.take(extra.len() as int) =~= extra);
    object_value(entries)
}

// ---------------------------------------------------------------------------
// Answers
// ---------------------------------------------------------------------------

/// Why an answer ended.
#[derive(Clone, Copy, Debug, PartialEq, Eq, Structural)]
pub enum ProviderStopReason {
    /// The model said all it had to say.
    EndTurn,
    /// The model calls tools.
    ToolCalls,
    /// The answer became too long.
    Length,
    /// The request failed.
    Error,
}

/// A tool call while it arrives.
#[derive(Debug, PartialEq, Eq)]
pub struct ToolCallAccumulator {
    pub id: String,
    pub name: String,
    pub arguments: String,
}

/// What a `ToolCallAccumulator` holds.
pub struct CallParts {
    pub id: Seq<char>,
    pub name: Seq<char>,
    pub arguments: Seq<char>,
}

impl ToolCallAccumulator {
    pub open spec fn view(&self) -> CallParts {
        CallParts { id: self.id@, name: self.name@, arguments: self.arguments@ }
    }
}

/// Calls by their numbers.
pub open spec fn calls_view(calls: Seq<(u64, ToolCallAccumulator)>) -> Seq<(u64, CallParts)> {
    Seq::new(calls.len(), |i: int| (calls[i].0, calls[i].1@))
}

/// An answer while it arrives.
#[derive(Debug, PartialEq, Eq)]
pub struct StreamState {
    pub text: String,
    pub thinking: String,
    /// Text that may turn out to be a mark.
    pub pending_content: String,
    pub in_think_tag: bool,
    /// The tool calls, by their numbers and in the order of these.
    pub tool_calls: Vec<(u64, ToolCallAccumulator)>,
    pub input_tokens: Option<u64>,
    pub cached_tokens: Option<u64>,
    pub output_tokens: Option<u64>,
    pub stop_reason: ProviderStopReason,
}

/// What a `StreamState` holds.
pub struct Stream {
    pub split: Split,
    pub calls: Seq<(u64, CallParts)>,
    pub input_tokens: Option<u64>,
    pub cached_tokens: Option<u64>,
    pub output_tokens: Option<u64>,
    pub stop: ProviderStopReason,
}

impl StreamState {
    pub open spec fn view(&self) -> Stream {
        Stream {
            split: Split {
                text: self.text@,
                thinking: self.thinking@,
                pending: self.pending_content@,
                inside: self.in_think_tag,
            },
            calls: calls_view(self.tool_calls@),
            input_tokens: self.input_tokens,
            cached_tokens: self.cached_tokens,
            output_tokens: self.output_tokens,
            stop: self.stop_reason,
        }
    }
}

/// An answer of which nothing has arrived.
pub open spec fn nothing_streamed() -> Stream {
    Stream {
        split: nothing_split(),
        calls: Seq::empty(),
        input_tokens: None,
        cached_tokens: None,
        output_tokens: None,
        stop: ProviderStopReason::EndTurn,
    }
}

/// The call with the given number; an empty one where there is none.
pub open spec fn call_numbered(calls: Seq<(u64, CallParts)>, index: u64) -> CallParts
    decreases calls.len(),
{
    if calls.len() == 0 {
        CallParts { id: Seq::empty(), name: Seq::empty(), arguments: Seq::empty() }
    } else if calls.last().0 == index {
        calls.last().1
    } else {
        call_numbered(calls.drop_last(), index)
    }
}

/// The calls with the one of the given number replaced, or added in its place.
pub open spec fn with_call(calls: Seq<(u64, CallParts)>, index: u64, call: CallParts) -> Seq<(u64, CallParts)>
    decreases calls.len(),
{
    if calls.len() == 0 || calls.last().0 < index {
        calls.push((index, call))
    } else if calls.last().0 == index {
        calls.drop_last().push((index, call))
    } else {
        with_call(calls.drop_last(), index, call).push(calls.last())
    }
}

/// Whether calls stand in the order of their numbers.
pub open spec fn calls_in_order(calls: Seq<(u64, CallParts)>) -> bool {
    forall|i: int, j: int| 0 <= i < j < calls.len() ==> (#[trigger] calls[i]).0 < (#[trigger] calls[j]).0
}

/// The text under a key; empty where there is none.
pub open spec fn text_under(v: Option<Json>, key: Seq<char>) -> Seq<char> {
    match json_string(json_at(v, key)) {
        Some(s) => s,
        None => Seq::empty(),
    }
}

/// The newer of two texts, where there is one.
pub open spec fn newer(before: Seq<char>, after: Seq<char>) -> Seq<char> {
    if after.len() > 0 {
        after
    } else {
        before
    }
}

/// A call with what a piece of the answer says of it.
pub open spec fn call_with(call: CallParts, piece: Json) -> CallParts {
    let function = json_field(piece, "function"@);
    CallParts {
        id: newer(call.id, text_under(Some(piece), "id"@)),
        name: newer(call.name, text_under(function, "name"@)),
        arguments: call.arguments + text_under(function, "arguments"@),
    }
}

/// The number of the call that a piece of the answer speaks of.
pub open spec fn call_number(piece: Json) -> u64 {
    match json_unsigned(json_field(piece, "index"@)) {
        Some(n) => n,
        None => 0,
    }
}

/// The calls after the first `n` pieces.
pub open spec fn calls_with(calls: Seq<(u64, CallParts)>, pieces: Seq<Json>, n: nat) -> Seq<(u64, CallParts)>
    decreases n,
{
    if n == 0 || n > pieces.len() {
        calls
    } else {
        let before = calls_with(calls, pieces, (n - 1) as nat);
        let piece = pieces[n - 1];
        let index = call_number(piece);
        with_call(before, index, call_with(call_numbered(before, index), piece))
    }
}

/// The answer with what is said of its size.
pub open spec fn with_usage(s: Stream, event: Json) -> Stream {
    match json_field(event, "usage"@) {
        None => s,
        Some(usage) => Stream {
            input_tokens: json_unsigned(json_field(usage, "prompt_tokens"@)),
            output_tokens: json_unsigned(json_field(usage, "completion_tokens"@)),
            cached_tokens: json_unsigned(json_at(json_field(usage, "prompt_tokens_details"@), "cached_tokens"@)),
            ..s
        },
    }
}

/// The choice that an event speaks of.
pub open spec fn first_choice(event: Json) -> Option<Json> {
    match json_list(json_field(event, "choices"@)) {
        Some(choices) => if choices.len() > 0 {
            Some(choices[0])
        } else {
            None
        },
        None => None,
    }
}

/// Reasoning that an event holds, under each of the keys in use.
pub open spec fn reasoning_in(delta: Option<Json>) -> Seq<char> {
    text_under(delta, "reasoning_content"@) + text_under(delta, "reasoning"@) + text_under(delta, "thinking"@)
}

/// What is parted after an event, and whether anything was.
pub open spec fn split_after(s: Split, delta: Option<Json>) -> (Split, bool) {
    let reasoned = Split { thinking: s.thinking + reasoning_in(delta), ..s };
    let content = text_under(delta, "content"@);
    if content.len() == 0 {
        (reasoned, reasoning_in(delta).len() > 0)
    } else {
        let read = fed(with_more(reasoned, content));
        (read.0, reasoning_in(delta).len() > 0 || read.1)
    }
}

/// The calls after an event.
pub open spec fn calls_after(calls: Seq<(u64, CallParts)>, delta: Option<Json>) -> Seq<(u64, CallParts)> {
    match json_list(json_at(delta, "tool_calls"@)) {
        Some(pieces) => calls_with(calls, pieces, pieces.len()),
        None => calls,
    }
}

/// Why the answer ends, after an event.
pub open spec fn stop_after(stop: ProviderStopReason, choice: Json) -> ProviderStopReason {
    match json_string(json_field(choice, "finish_reason"@)) {
        Some(reason) => if reason == "tool_calls"@ {
            ProviderStopReason::ToolCalls
        } else if reason == "stop"@ {
            ProviderStopReason::EndTurn
        } else if reason == "length"@ {
            ProviderStopReason::Length
        } else {
            stop
        },
        None => stop,
    }
}

/// The answer after an event, and whether its text or its reasoning changed.
pub open spec fn applied(s: Stream, event: Json) -> (Stream, bool) {
    let counted = with_usage(s, event);
    match first_choice(event) {
        None => (counted, false),
        Some(choice) => {
            let delta = json_field(choice, "delta"@);
            let read = split_after(counted.split, delta);
            (
                Stream {
                    split: read.0,
                    calls: calls_after(counted.calls, delta),
                    stop: stop_after(counted.stop, choice),
                    ..counted
                },
                read.1,
            )
        },
    }
}

/// The text under a key; empty where there is none.
fn str_under<'a>(v: Option<&'a JsonValue>, key: &str) -> (r: String)
    ensures
        r@ == text_under(option_ref(v), key@),
{
    match as_str(at(v, key)) {
        Some(s) => s.to_owned(),
        None => String::new(),
    }
}

/// Takes over what is said of the size of the answer.
fn capture_usage(state: &mut StreamState, event: &JsonValue)
    ensures
        final(state)@ == with_usage(old(state)@, event@),
{
    match field(event, "usage") {
        Some(usage) => {
            state.input_tokens = as_u64(field(usage, "prompt_tokens"));
            state.output_tokens = as_u64(field(usage, "completion_tokens"));
            state.cached_tokens = as_u64(at(field(usage, "prompt_tokens_details"), "cached_tokens"));
        },
        None => {},
    }
}

/// Where a call stands, or would stand.
fn place_of(calls: &Vec<(u64, ToolCallAccumulator)>, index: u64) -> (r: (usize, bool))
    requires
        calls_in_order(calls_view(calls@)),
    ensures
        r.0 <= calls.len(),
        r.1 ==> r.0 < calls.len() && calls@[r.0 as int].0 == index,
        forall|k: int| 0 <= k < r.0 ==> (#[trigger] calls@[k]).0 < index,
        !r.1 ==> forall|k: int| r.0 <= k < calls.len() ==> (#[trigger] calls@[k]).0 > index,
{
    let ghost views = calls_view(calls@);
    let mut i: usize = 0;
    while i < calls.len()
        invariant
            i <= calls.len(),
            views == calls_view(calls@),
            calls_in_order(views),
            forall|k: int| 0 <= k < i ==> (#[trigger] calls@[k]).0 < index,
        decreases calls.len() - i,
    {
        if calls[i].0 == index {
            return (i, true);
        }
        if calls[i].0 > index {
            assert forall|k: int| i <= k < calls.len() implies (#[trigger] calls@[k]).0 > index by {
                assert(views[i as int].0 == calls@[i as int].0);
                assert(views[k].0 == calls@[k].0);
            }
            return (i, false);
        }
        i += 1;
    }
    (i, false)
}

proof fn lemma_call_found(calls: Seq<(u64, CallParts)>, index: u64, i: int, call: CallParts)
    requires
        calls_in_order(calls),
        0 <= i < calls.len(),
        calls[i].0 == index,
    ensures
        call_numbered(calls, index) == calls[i].1,
        with_call(calls, index, call) == calls.update(i, (index, call)),
    decreases calls.len(),
{
    let init = calls.drop_last();
    if i < init.len() {
        assert(calls[calls.len() - 1].0 > index);
        lemma_call_found(init, index, i, call);
        assert(init.update(i, (index, call)).push(calls.last()) =~= calls.update(i, (index, call)));
    } else {
        assert(init.push((index, call)) =~= calls.update(i, (index, call)));
    }
}

proof fn lemma_call_missing(calls: Seq<(u64, CallParts)>, index: u64, i: int, call: CallParts)
    requires
        0 <= i <= calls.len(),
        forall|k: int| 0 <= k < i ==> (#[trigger] calls[k]).0 < index,
        forall|k: int| i <= k < calls.len() ==> (#[trigger] calls[k]).0 > index,
    ensures
        call_numbered(calls, index) == (CallParts {
            id: Seq::empty(),
            name: Seq::empty(),
            arguments: Seq::empty(),
        }),
        with_call(calls, index, call) == calls.insert(i, (index, call)),
    decreases calls.len(),
{
    if calls.len() > 0 {
        let init = calls.drop_last();
        if i < calls.len() {
            assert(calls[calls.len() - 1].0 > index);
            lemma_call_missing(init, index, i, call);
            assert(init.insert(i, (index, call)).push(calls.last()) =~= calls.insert(i, (index, call)));
        } else {
            assert(calls[calls.len() - 1].0 < index);
            lemma_call_missing(init, index, init.len() as int, call);
            assert(calls.push((index, call)) =~= calls.insert(i, (index, call)));
        }
    } else {
        assert(calls.push((index, call)) =~= calls.insert(i, (index, call)));
    }
}

/// Calls keep the order of their numbers.
pub proof fn calls_stay_in_order(calls: Seq<(u64, CallParts)>, index: u64, call: CallParts)
    requires
        calls_in_order(calls),
    ensures
        calls_in_order(with_call(calls, index, call)),
        call_numbered(with_call(calls, index, call), index) == call,
        forall|other: u64|
            other != index ==> #[trigger] call_numbered(with_call(calls, index, call), other) == call_numbered(
                calls,
                other,
            ),
    decreases calls.len(),
{
    let r = with_call(calls, index, call);
    if calls.len() == 0 || calls.last().0 < index {
        assert(r.drop_last() =~= calls);
    } else if calls.last().0 == index {
        assert(r.drop_last() =~= calls.drop_last());
    } else {
        let init = calls.drop_last();
        calls_stay_in_order(init, index, call);
        assert(r.drop_last() =~= with_call(init, index, call));
        lemma_numbers_below(init, index, call, calls.last().0);
    }
    assert forall|other: u64| other != index implies #[trigger] call_numbered(r, other) == call_numbered(
        calls,
        other,
    ) by {
        assert(r.len() > 0);
        if calls.len() > 0 && calls.last().0 > index && calls.last().0 != other {
            assert(call_numbered(r, other) == call_numbered(r.drop_last(), other));
        }
    }
}

proof fn lemma_numbers_below(calls: Seq<(u64, CallParts)>, index: u64, call: CallParts, bound: u64)
    requires
        index < bound,
        forall|k: int| 0 <= k < calls.len() ==> (#[trigger] calls[k]).0 < bound,
    ensures
        forall|k: int| 0 <= k < with_call(calls, index, call).len() ==> (#[trigger] with_call(calls, index, call)[k]).0 < bound,
    decreases calls.len(),
{
    let r = with_call(calls, index, call);
    let init = calls.drop_last();
    if calls.len() > 0 && calls.last().0 > index {
        lemma_numbers_below(init, index, call, bound);
    }
    assert forall|k: int| 0 <= k < r.len() implies (#[trigger] r[k]).0 < bound by {
        if calls.len() > 0 && calls.last().0 > index {
            if k < r.len() - 1 {
                assert(r[k] == with_call(init, index, call)[k]);
            } else {
                assert(r[k] == calls[calls.len() - 1]);
            }
        } else if k < r.len() - 1 {
            assert(r[k] == calls[k]);
        }
    }
}

/// Takes over what a piece says of a call.
fn apply_call(calls: &mut Vec<(u64, ToolCallAccumulator)>, piece: &JsonValue)
    requires
        calls_in_order(calls_view(old(calls)@)),
    ensures
        calls_view(final(calls)@) == with_call(
            calls_view(old(calls)@),
            call_number(piece@),
            call_with(call_numbered(calls_view(old(calls)@), call_number(piece@)), piece@),
        ),
        calls_in_order(calls_view(final(calls)@)),
{
    let ghost before = calls_view(calls@);
    let index: u64 = match as_u64(field(piece, "index")) {
        Some(n) => n,
        None => 0,
    };
    let (i, known) = place_of(calls, index);
    if !known {
        let fresh = ToolCallAccumulator { id: String::new(), name: String::new(), arguments: String::new() };
        assert(fresh.id@ =~= Seq::empty());
        calls.insert(i, (index, fresh));
    }
    let ghost now = calls_view(calls@);
    assert(now[i as int].0 == index);
    let id = str_under(Some(piece), "id");
    if !id.as_str().is_empty() {
        calls[i].1.id = id;
    }
    let function = field(piece, "function");
    let name = str_under(function, "name");
    if !name.as_str().is_empty() {
        calls[i].1.name = name;
    }
    let arguments = str_under(function, "arguments");
    let mut joined = calls[i].1.arguments.clone();
    joined.append(arguments.as_str());
    calls[i].1.arguments = joined;
    proof {
        let made = calls_view(calls@)[i as int].1;
        calls_stay_in_order(before, index, made);
        if known {
            lemma_call_found(before, index, i as int, made);
            assert(calls_view(calls@) =~= before.update(i as int, (index, made)));
        } else {
            assert forall|k: int| 0 <= k < i implies (#[trigger] before[k]).0 < index by {
                assert(now[k] == before[k]);
            }
            assert forall|k: int| i <= k < before.len() implies (#[trigger] before[k]).0 > index by {
                assert(now[k + 1] == before[k]);
            }
            lemma_call_missing(before, index, i as int, made);
            assert(calls_view(calls@) =~= before.insert(i as int, (index, made)));
        }
    }
}

fn apply_calls(calls: &mut Vec<(u64, ToolCallAccumulator)>, delta: Option<&JsonValue>)
    requires
        calls_in_order(calls_view(old(calls)@)),
    ensures
        calls_view(final(calls)@) == calls_after(calls_view(old(calls)@), option_ref(delta)),
        calls_in_order(calls_view(final(calls)@)),
{
    let ghost before = calls_view(calls@);
    let pieces = match as_array(at(delta, "tool_calls")) {
        Some(pieces) => pieces,
        None => {
            return;
        },
    };
    let ghost views = json_list(json_at(option_ref(delta), "tool_calls"@))->Some_0;
    let mut i: usize = 0;
    while i < pieces.len()
        invariant
            i <= pieces.len(),
            views.len() == pieces.len(),
            forall|k: int| 0 <= k < pieces.len() ==> views[k] == (#[trigger] pieces@[k])@,
            calls_in_order(calls_view(calls@)),
            calls_view(calls@) == calls_with(before, views, i as nat),
        decreases pieces.len() - i,
    {
        apply_call(calls, &pieces[i]);
        i += 1;
    }
}

impl StreamState {
    /// An answer of which nothing has arrived.
    pub fn new() -> (r: StreamState)
        ensures
            r@ == nothing_streamed(),
            calls_in_order(r@.calls),
    {
        let r = StreamState {
            text: String::new(),
            thinking: String::new(),
            pending_content: String::new(),
            in_think_tag: false,
            tool_calls: Vec::new(),
            input_tokens: None,
            cached_tokens: None,
            output_tokens: None,
            stop_reason: ProviderStopReason::EndTurn,
        };
        assert(r@.calls =~= Seq::empty());
        assert(r@.split =~= nothing_split());
        r
    }
}

/// Reads one more piece of content.
pub fn append_content_delta(state: &mut StreamState, content: &str) -> (changed: bool)
    ensures
        final(state)@.split == fed(with_more(old(state)@.split, content@)).0,
        changed == fed(with_more(old(state)@.split, content@)).1,
        final(state)@ == (Stream { split: final(state)@.split, ..old(state)@ }),
{
    let changed = feed_content(
        &mut state.text,
        &mut state.thinking,
        &mut state.pending_content,
        &mut state.in_think_tag,
        content,
    );
    changed
}

/// Takes an event of the answer over. Whether the text or the reasoning changed.
pub fn apply_event(state: &mut StreamState, event: &JsonValue) -> (changed: bool)
    requires
        calls_in_order(old(state)@.calls),
    ensures
        (final(state)@, changed) == applied(old(state)@, event@),
        calls_in_order(final(state)@.calls),
{
    capture_usage(state, event);
    let ghost counted = state@;
    let choice = match as_array(field(event, "choices")) {
        Some(choices) => {
            if choices.len() == 0 {
                return false;
            }
            &choices[0]
        },
        None => {
            return false;
        },
    };
    assert(first_choice(event@) == Some(choice@));
    let delta = field(choice, "delta");
    let ghost d = option_ref(delta);
    let mut changed = false;
    let first = str_under(delta, "reasoning_content");
    let second = str_under(delta, "reasoning");
    let third = str_under(delta, "thinking");
    if !first.as_str().is_empty() || !second.as_str().is_empty() || !third.as_str().is_empty() {
        changed = true;
    }
    state.thinking.append(first.as_str());
    state.thinking.append(second.as_str());
    state.thinking.append(third.as_str());
    proof {
        assert(reasoning_in(d) =~= first@ + second@ + third@);
        assert(state@.split.thinking =~= counted.split.thinking + reasoning_in(d));
        assert(changed == (reasoning_in(d).len() > 0));
    }
    let content = str_under(delta, "content");
    if !content.as_str().is_empty() {
        let more = append_content_delta(state, content.as_str());
        changed = changed || more;
    }
    assert(state@.split == split_after(counted.split, d).0);
    assert(changed == split_after(counted.split, d).1);
    apply_calls(&mut state.tool_calls, delta);
    match as_str(field(choice, "finish_reason")) {
        Some(reason) => {
            if same(reason, "tool_calls") {
                state.stop_reason = ProviderStopReason::ToolCalls;
            } else if same(reason, "stop") {
                state.stop_reason = ProviderStopReason::EndTurn;
            } else if same(reason, "length") {
                state.stop_reason = ProviderStopReason::Length;
            }
        },
        None => {},
    }
    changed
}

/// Ends the answer. Whether anything was pending.
pub fn flush_pending_content(state: &mut StreamState) -> (changed: bool)
    ensures
        changed == (old(state)@.split.pending.len() > 0),
        final(state)@ == (Stream { split: flushed(old(state)@.split), ..old(state)@ }),
{
    let inside = state.in_think_tag;
    flush_content(&mut state.text, &mut state.thinking, &mut state.pending_content, inside)
}

/// The reasoning as it is shown; none where there is none.
pub fn thinking_for_update(state: &StreamState) -> (r: Option<&str>)
    ensures
        match r {
            Some(s) => state@.split.thinking.len() > 0 && s@ == state@.split.thinking,
            None => state@.split.thinking.len() == 0,
        },
{
    if state.thinking.as_str().is_empty() {
        None
    } else {
        Some(state.thinking.as_str())
    }
}

/// What a line of the stream amounts to.
#[derive(Clone, Copy, Debug, PartialEq, Eq, Structural)]
pub enum StreamStep {
    /// The answer goes on; whether its text or its reasoning changed.
    More { changed: bool },
    /// The answer is over.
    Done,
}

/// The data of a line; none where the line holds none.
pub open spec fn line_data(line: Seq<char>) -> Option<Seq<char>> {
    if begins(line, "data: "@) {
        Some(line.skip("data: "@.len() as int))
    } else {
        None
    }
}

/// The answer after a line of the stream, and what the line amounts to. A line
/// that holds no data, or none that reads as JSON, is passed over.
pub open spec fn after_line(s: Stream, line: Seq<char>) -> (Stream, StreamStep) {
    match line_data(line) {
        None => (s, StreamStep::More { changed: false }),
        Some(data) => if data == "[DONE]"@ {
            (s, StreamStep::Done)
        } else {
            match json_parsed(data) {
                None => (s, StreamStep::More { changed: false }),
                Some(event) => (applied(s, event).0, StreamStep::More { changed: applied(s, event).1 }),
            }
        },
    }
}

/// Takes a line of the stream over.
pub fn apply_line(state: &mut StreamState, line: &str) -> (r: StreamStep)
    requires
        calls_in_order(old(state)@.calls),
    ensures
        (final(state)@, r) == after_line(old(state)@, line@),
        calls_in_order(final(state)@.calls),
{
    if !starts_with(line, "data: ") {
        return StreamStep::More { changed: false };
    }
    let v = chars_of(line);
    let mark = chars_of("data: ");
    let data = text_between(&v, mark.len(), v.len());
    assert(v@.subrange(mark@.len() as int, v@.len() as int) =~= v@.skip(mark@.len() as int));
    if same(data.as_str(), "[DONE]") {
        return StreamStep::Done;
    }
    match parse_json(data.as_str()) {
        Some(event) => {
            let changed = apply_event(state, &event);
            StreamStep::More { changed }
        },
        None => StreamStep::More { changed: false },
    }
}

/// A message of the assistant.
pub open spec fn assistant_item(text: Seq<char>) -> Item {
    Item::Message { role: ContextRole::Assistant, content: seq![text], phase: None }
}

fn assistant_text_item(text: String) -> (r: ContextItem)
    ensures
        r@ == assistant_item(text@),
{
    let mut content: Vec<ContentPart> = Vec::new();
    let ghost said = text@;
    content.push(ContentPart::Text { text });
    let r = ContextItem::Message(MessageItem { role: ContextRole::Assistant, content, phase: None });
    assert(r@->content =~= seq![said]);
    r
}

/// A call as an item, with its arguments as they were read.
pub open spec fn call_item(call: CallParts, arguments: Option<Json>) -> Item {
    Item::ToolCall {
        call_id: call.id,
        name: call.name,
        tool_type: ToolType::Function,
        arguments: match arguments {
            Some(v) => cbor_of(v),
            None => Cbor::Null,
        },
    }
}

/// Makes an item of a call whose arguments were read.
pub fn item_of_call(call: &ToolCallAccumulator, arguments: Option<JsonValue>) -> (r: ContextItem)
    ensures
        r@ == call_item(call@, option_json(arguments)),
{
    let arguments = match arguments {
        Some(v) => json_to_cbor(&v),
        None => CborValue::Null,
    };
    ContextItem::ToolCall(
        ToolCallItem {
            call_id: call.id.clone(),
            name: call.name.clone(),
            tool_type: ToolType::Function,
            arguments,
        },
    )
}

/// The first `n` calls as items; a call without a name is left out.
pub open spec fn call_items(calls: Seq<(u64, CallParts)>, n: nat) -> Seq<Item>
    decreases n,
{
    if n == 0 || n > calls.len() {
        Seq::empty()
    } else {
        let before = call_items(calls, (n - 1) as nat);
        let call = calls[n - 1].1;
        if call.name.len() == 0 {
            before
        } else {
            before.push(call_item(call, json_parsed(call.arguments)))
        }
    }
}

/// The answer as items.
pub open spec fn answer_items(s: Stream) -> Seq<Item> {
    (if s.split.text.len() == 0 {
        Seq::empty()
    } else {
        seq![assistant_item(s.split.text)]
    }) + call_items(s.calls, s.calls.len())
}

/// The size of the answer, where anything is known of it.
pub open spec fn answer_usage(s: Stream) -> Option<ProviderTokenUsage> {
    let input = match s.input_tokens {
        Some(n) => n,
        None => 0,
    };
    let cached = match s.cached_tokens {
        Some(n) => n,
        None => 0,
    };
    let output = match s.output_tokens {
        Some(n) => n,
        None => 0,
    };
    if input == 0 && cached == 0 && output == 0 {
        None
    } else {
        Some(
            ProviderTokenUsage {
                prompt_sent_tokens: input,
                prompt_cached_tokens: cached,
                response_received_tokens: output,
            },
        )
    }
}

impl StreamState {
    /// The answer as items.
    pub fn output_items(&self) -> (r: Vec<ContextItem>)
        ensures
            items_view(r@) == answer_items(self@),
    {
        let ghost calls = self@.calls;
        let mut items: Vec<ContextItem> = Vec::new();
        assert(items_view(items@) =~= Seq::empty());
        if !self.text.as_str().is_empty() {
            let item = assistant_text_item(self.text.clone());
            let ghost said = item@;
            items.push(item);
            assert(items_view(items@) =~= seq![said]);
        }
        let ghost head = items_view(items@);
        let mut i: usize = 0;
        assert(head + call_items(calls, 0) =~= head);
        while i < self.tool_calls.len()
            invariant
                i <= self.tool_calls.len(),
                calls == self@.calls,
                items_view(items@) == head + call_items(calls, i as nat),
            decreases self.tool_calls.len() - i,
        {
            let ghost before = items_view(items@);
            let call = &self.tool_calls[i].1;
            assert(calls[i as int].1 == call@);
            if !call.name.as_str().is_empty() {
                let arguments = parse_json(call.arguments.as_str());
                let item = item_of_call(call, arguments);
                let ghost made = item@;
                items.push(item);
                assert(items_view(items@) =~= before.push(made));
                assert(items_view(items@) =~= head + call_items(calls, (i + 1) as nat));
            }
            i += 1;
        }
        items
    }

    /// The size of the answer, where anything is known of it.
    pub fn usage(&self) -> (r: Option<ProviderTokenUsage>)
        ensures
            r == answer_usage(self@),
    {
        let input: u64 = match self.input_tokens {
            Some(n) => n,
            None => 0,
        };
        let cached: u64 = match self.cached_tokens {
            Some(n) => n,
            None => 0,
        };
        let output: u64 = match self.output_tokens {
            Some(n) => n,
            None => 0,
        };
        if input == 0 && cached == 0 && output == 0 {
            None
        } else {
            Some(
                ProviderTokenUsage {
                    prompt_sent_tokens: input,
                    prompt_cached_tokens: cached,
                    response_received_tokens: output,
                },
            )
        }
    }
}

/// Why a request failed.
#[derive(Debug, PartialEq, Eq)]
pub enum LlmError {
    /// The request was not answered.
    Http(String),
    /// The answer was an error.
    HttpStatus(u16, String),
    /// The answer could not be read.
    Io(String),
    /// The request could not be written.
    Json(String),
    /// The answer holds nothing.
    EmptyResponse,
}

/// What is said of a failed request.
pub open spec fn llm_error_text(e: LlmError) -> Seq<char> {
    match e {
        LlmError::Http(error) => "HTTP error: "@ + error@,
        LlmError::HttpStatus(code, body) => "HTTP "@ + decimal(code as nat) + ": "@ + body@,
        LlmError::Io(error) => "I/O error: "@ + error@,
        LlmError::Json(error) => "JSON error: "@ + error@,
        LlmError::EmptyResponse => "empty response"@,
    }
}

impl LlmError {
    /// What is said of the failed request.
    pub fn text(&self) -> (r: String)
        ensures
            r@ == llm_error_text(*self),
    {
        match self {
            LlmError::Http(error) => {
                let mut r = "HTTP error: ".to_owned();
                r.append(error.as_str());
                r
            },
            LlmError::HttpStatus(code, body) => {
                let mut r = "HTTP ".to_owned();
                let number = decimal_text(*code as u128);
                r.append(number.as_str());
                r.append(": ");
                r.append(body.as_str());
                r
            },
            LlmError::Io(error) => {
                let mut r = "I/O error: ".to_owned();
                r.append(error.as_str());
                r
            },
            LlmError::Json(error) => {
                let mut r = "JSON error: ".to_owned();
                r.append(error.as_str());
                r
            },
            LlmError::EmptyResponse => "empty response".to_owned(),
        }
    }
}

/// Whether an answer holds nothing although the model says that it is done.
pub open spec fn says_nothing(s: Stream) -> bool {
    s.stop == ProviderStopReason::EndTurn && answer_items(s).len() == 0
}

/// Refuses an answer that holds nothing although the model says that it is done.
pub fn ensure_non_empty_end_turn(state: StreamState) -> (r: Result<StreamState, LlmError>)
    ensures
        match r {
            Ok(same) => same == state && !says_nothing(state@),
            Err(e) => e == LlmError::EmptyResponse && says_nothing(state@),
        },
{
    let items = state.output_items();
    assert(items_view(items@).len() == items@.len());
    match state.stop_reason {
        ProviderStopReason::EndTurn => {
            if items.len() == 0 {
                return Err(LlmError::EmptyResponse);
            }
        },
        _ => {},
    }
    Ok(state)
}

/// A finished answer.
#[derive(Debug, PartialEq, Eq)]
pub struct ProviderResponseFinished {
    pub agent_prompt_id: String,
    pub output_items: Vec<ContextItem>,
    pub stop_reason: ProviderStopReason,
    pub originator: PromptOriginator,
    pub usage: Option<ProviderTokenUsage>,
    pub backend: Option<ProviderBackend>,
    pub provider_response_id: Option<String>,
}

/// Whether an answer names the provider that gave it.
pub open spec fn names_backend(backend: Option<ProviderBackend>, base_url: Seq<char>) -> bool {
    backend matches Some(b) && b.kind == ProviderBackendKind::ChatCompletions && b.base_url@ == base_url
        && b.transport == ProviderBackendTransport::HttpSse && !b.stale_chain_fallback
}

fn backend_descriptor(base_url: &str) -> (r: ProviderBackend)
    ensures
        names_backend(Some(r), base_url@),
{
    ProviderBackend {
        kind: ProviderBackendKind::ChatCompletions,
        base_url: base_url.to_owned(),
        transport: ProviderBackendTransport::HttpSse,
        stale_chain_fallback: false,
    }
}

/// Finishes a prompt that was answered.
pub fn finish_success(
    agent_prompt_id: &str,
    originator: PromptOriginator,
    base_url: &str,
    state: &StreamState,
) -> (r: ProviderResponseFinished)
    ensures
        r.agent_prompt_id@ == agent_prompt_id@,
        items_view(r.output_items@) == answer_items(state@),
        r.stop_reason == state@.stop,
        r.originator == originator,
        r.usage == answer_usage(state@),
        names_backend(r.backend, base_url@),
        r.provider_response_id is None,
{
    ProviderResponseFinished {
        agent_prompt_id: agent_prompt_id.to_owned(),
        output_items: state.output_items(),
        stop_reason: state.stop_reason,
        originator,
        usage: state.usage(),
        backend: Some(backend_descriptor(base_url)),
        provider_response_id: None,
    }
}

/// Finishes a prompt whose request failed.
pub fn finish_error(
    agent_prompt_id: &str,
    originator: PromptOriginator,
    base_url: &str,
    error: &LlmError,
) -> (r: ProviderResponseFinished)
    ensures
        r.agent_prompt_id@ == agent_prompt_id@,
        items_view(r.output_items@) == seq![assistant_item("LLM error: "@ + llm_error_text(*error))],
        r.stop_reason == ProviderStopReason::Error,
        r.originator == originator,
        r.usage is None,
        names_backend(r.backend, base_url@),
        r.provider_response_id is None,
{
    let mut text = "LLM error: ".to_owned();
    let why = error.text();
    text.append(why.as_str());
    let mut output_items: Vec<ContextItem> = Vec::new();
    let item = assistant_text_item(text);
    let ghost said = item@;
    output_items.push(item);
    assert(items_view(output_items@) =~= seq![said]);
    ProviderResponseFinished {
        agent_prompt_id: agent_prompt_id.to_owned(),
        output_items,
        stop_reason: ProviderStopReason::Error,
        originator,
        usage: None,
        backend: Some(backend_descriptor(base_url)),
        provider_response_id: None,
    }
}

} // verus!

//! What is remembered of an agent while it is loaded, and the fingerprint of the
//! parts of a request that must not change along a chain of responses.
use vstd::prelude::*;
use vstd::string::*;
use crate::assoc::{entries_view, keys_differ, lookup, TextMap};
use crate::context::{ModelParams, PromptOriginator, ProviderBackend, ToolChoice, ToolDefinition, ToolType};
use crate::display::{no_stats, ToolDisplayStats};
use crate::event::ThinkingSummary;
use crate::json::{
    compact_text, json_compact, json_field, list_value, object_value, option_json, optional_text, optional_value, put,
    same_content, same_content_is_found, tells_apart, text_or_null, value_or_null, writable, Json, JsonValue,
};
use crate::models::{effort_name, effort_names_read_back};
use crate::session::option_text;
use crate::tool_turn::ToolExecutionMode;

verus! {

// ---------------------------------------------------------------------------
// Fingerprints
// ---------------------------------------------------------------------------

/// The hash that `blake3::hash` computes.
pub uninterp spec fn blake3_hashed(bytes: Seq<u8>) -> Seq<u8>;

/// Hashes bytes with `blake3::hash`. Which hash that is is left to the function:
/// the result is its name applied to the bytes.
#[verifier::external_body]
pub(crate) fn hash_bytes(bytes: &[u8]) -> (r: [u8; 32])
    ensures
        r@ == blake3_hashed(bytes@),
{
    *blake3::hash(bytes).as_bytes()
}

/// The hash of a text in UTF-8.
pub open spec fn text_hash(text: Seq<char>) -> Seq<u8> {
    blake3_hashed(vstd::utf8::encode_utf8(text))
}

fn hash_text(text: &str) -> (r: [u8; 32])
    ensures
        r@ == text_hash(text@),
{
    let bytes = text.as_bytes_vec();
    hash_bytes(bytes.as_slice())
}

/// The hashes of the parts of a request.
#[derive(Clone, Copy, Debug, PartialEq, Eq)]
pub struct ChainFingerprintParts {
    pub system_prompt: [u8; 32],
    pub tools: [u8; 32],
    pub model_params: [u8; 32],
    pub tool_choice: [u8; 32],
}

/// The hash of a request and the hashes of its parts.
#[derive(Clone, Copy, Debug, PartialEq, Eq)]
pub struct ChainFingerprintDetail {
    pub digest: [u8; 32],
    pub parts: ChainFingerprintParts,
}

/// What is hashed for a request. A NUL byte stands before the name of each part.
pub open spec fn fingerprint_text(
    system_prompt: Seq<char>,
    tools: Seq<char>,
    model_params: Seq<char>,
    tool_choice: Seq<char>,
) -> Seq<char> {
    system_prompt + "\0tools:"@ + tools + "\0params:"@ + model_params + "\0tool_choice:"@ + tool_choice
}

/// Whether a detail is that of the given parts.
pub open spec fn fingerprint_of(
    detail: ChainFingerprintDetail,
    system_prompt: Seq<char>,
    tools: Seq<char>,
    model_params: Seq<char>,
    tool_choice: Seq<char>,
) -> bool {
    &&& detail.digest@ == text_hash(fingerprint_text(system_prompt, tools, model_params, tool_choice))
    &&& detail.parts.system_prompt@ == text_hash(system_prompt)
    &&& detail.parts.tools@ == text_hash(tools)
    &&& detail.parts.model_params@ == text_hash(model_params)
    &&& detail.parts.tool_choice@ == text_hash(tool_choice)
}

/// Hashes a request whose parts are written down.
pub fn fingerprint_parts(system_prompt: &str, tools: &str, model_params: &str, tool_choice: &str) -> (r:
    ChainFingerprintDetail)
    ensures
        fingerprint_of(r, system_prompt@, tools@, model_params@, tool_choice@),
{
    let mut text = system_prompt.to_owned();
    text.append("\0tools:");
    text.append(tools);
    text.append("\0params:");
    text.append(model_params);
    text.append("\0tool_choice:");
    text.append(tool_choice);
    ChainFingerprintDetail {
        digest: hash_text(text.as_str()),
        parts: ChainFingerprintParts {
            system_prompt: hash_text(system_prompt),
            tools: hash_text(tools),
            model_params: hash_text(model_params),
            tool_choice: hash_text(tool_choice),
        },
    }
}

/// Where no part but the prompt holds a NUL byte, requests that are written down
/// alike have the same parts: the prompts end where the same number of NUL bytes
/// is left.
pub proof fn fingerprint_text_separates(a: (Seq<char>, Seq<char>, Seq<char>, Seq<char>), b: (Seq<char>, Seq<char>, Seq<char>, Seq<char>))
    requires
        fingerprint_text(a.0, a.1, a.2, a.3) == fingerprint_text(b.0, b.1, b.2, b.3),
        !a.1.contains('\0') && !a.2.contains('\0') && !a.3.contains('\0'),
        !b.1.contains('\0') && !b.2.contains('\0') && !b.3.contains('\0'),
    ensures
        a == b,
{
    reveal_strlit("\0tools:");
    reveal_strlit("\0params:");
    reveal_strlit("\0tool_choice:");
    let whole = fingerprint_text(a.0, a.1, a.2, a.3);
    let head_a = a.0 + "\0tools:"@ + a.1 + "\0params:"@ + a.2;
    let head_b = b.0 + "\0tools:"@ + b.1 + "\0params:"@ + b.2;
    lemma_last_part(head_a, head_b, "\0tool_choice:"@, a.3, b.3);
    let first_a = a.0 + "\0tools:"@ + a.1;
    let first_b = b.0 + "\0tools:"@ + b.1;
    lemma_last_part(first_a, first_b, "\0params:"@, a.2, b.2);
    lemma_last_part(a.0, b.0, "\0tools:"@, a.1, b.1);
}

/// Requests that differ in one part alone are written down differently, whatever
/// the parts hold.
pub proof fn one_changed_part_shows(
    a: (Seq<char>, Seq<char>, Seq<char>, Seq<char>),
    b: (Seq<char>, Seq<char>, Seq<char>, Seq<char>),
)
    requires
        ({
            ||| a.0 != b.0 && a.1 == b.1 && a.2 == b.2 && a.3 == b.3
            ||| a.0 == b.0 && a.1 != b.1 && a.2 == b.2 && a.3 == b.3
            ||| a.0 == b.0 && a.1 == b.1 && a.2 != b.2 && a.3 == b.3
            ||| a.0 == b.0 && a.1 == b.1 && a.2 == b.2 && a.3 != b.3
        }),
    ensures
        fingerprint_text(a.0, a.1, a.2, a.3) != fingerprint_text(b.0, b.1, b.2, b.3),
{
    let tail = "\0tool_choice:"@;
    if a.0 != b.0 {
        let rest = "\0tools:"@ + a.1 + "\0params:"@ + a.2 + tail + a.3;
        assert(fingerprint_text(a.0, a.1, a.2, a.3) =~= Seq::empty() + a.0 + rest);
        assert(fingerprint_text(b.0, b.1, b.2, b.3) =~= Seq::empty() + b.0 + rest);
        lemma_middle_differs(Seq::empty(), a.0, b.0, rest);
    } else if a.1 != b.1 {
        let rest = "\0params:"@ + a.2 + tail + a.3;
        assert(fingerprint_text(a.0, a.1, a.2, a.3) =~= a.0 + "\0tools:"@ + a.1 + rest);
        assert(fingerprint_text(b.0, b.1, b.2, b.3) =~= a.0 + "\0tools:"@ + b.1 + rest);
        lemma_middle_differs(a.0 + "\0tools:"@, a.1, b.1, rest);
    } else if a.2 != b.2 {
        let head = a.0 + "\0tools:"@ + a.1 + "\0params:"@;
        assert(fingerprint_text(a.0, a.1, a.2, a.3) =~= head + a.2 + (tail + a.3));
        assert(fingerprint_text(b.0, b.1, b.2, b.3) =~= head + b.2 + (tail + a.3));
        lemma_middle_differs(head, a.2, b.2, tail + a.3);
    } else {
        let head = a.0 + "\0tools:"@ + a.1 + "\0params:"@ + a.2 + tail;
        assert(fingerprint_text(a.0, a.1, a.2, a.3) =~= head + a.3 + Seq::empty());
        assert(fingerprint_text(b.0, b.1, b.2, b.3) =~= head + b.3 + Seq::empty());
        lemma_middle_differs(head, a.3, b.3, Seq::empty());
    }
}

/// The inputs of a fingerprint: the system prompt, the tools, the parameters of the
/// model and the choice of tools.
pub struct Inputs {
    pub system_prompt: Seq<char>,
    pub tools: Seq<ToolDefinition>,
    pub model_params: ModelParams,
    pub tool_choice: ToolChoice,
}

/// What is hashed for the inputs.
pub open spec fn request_text(i: Inputs) -> Seq<char> {
    fingerprint_text(
        i.system_prompt,
        json_compact(tools_json(i.tools)),
        json_compact(params_json(i.model_params)),
        json_compact(choice_json(i.tool_choice)),
    )
}

/// Whether what is written down for the inputs is written for no others.
pub open spec fn inputs_told_apart(i: Inputs) -> bool {
    &&& tells_apart(json_compact(tools_json(i.tools)), tools_json(i.tools))
    &&& tells_apart(json_compact(params_json(i.model_params)), params_json(i.model_params))
    &&& tells_apart(json_compact(choice_json(i.tool_choice)), choice_json(i.tool_choice))
}

/// Whether the inputs differ in one place alone. Tools that differ by the order of
/// keys inside them count as the same.
pub open spec fn one_input_differs(a: Inputs, b: Inputs) -> bool {
    ||| a.system_prompt != b.system_prompt && b == (Inputs { system_prompt: b.system_prompt, ..a })
    ||| !same_content(tools_json(a.tools), tools_json(b.tools)) && b == (Inputs { tools: b.tools, ..a })
    ||| a.model_params != b.model_params && b == (Inputs { model_params: b.model_params, ..a })
    ||| a.tool_choice != b.tool_choice && b == (Inputs { tool_choice: b.tool_choice, ..a })
}

proof fn lemma_params(params: ModelParams)
    ensures
        writable(params_json(params)),
        keys_differ(params_json(params)->Object_0),
        json_field(params_json(params), "effort"@) == Some(Json::Text(effort_name(params.effort))),
        json_field(params_json(params), "thinking_summary"@) == Some(Json::Text(summary_name(params.thinking_summary))),
{
    reveal_strlit("effort");
    reveal_strlit("thinking_summary");
    let entries = params_json(params)->Object_0;
    assert("effort"@.len() == 6);
    assert("thinking_summary"@.len() == 16);
    assert(writable(entries[0].1));
    assert(writable(entries[1].1));
    let first = entries.drop_last();
    assert(first.drop_last() =~= Seq::empty());
    reveal_with_fuel(lookup, 3);
}

proof fn lemma_params_separate(a: ModelParams, b: ModelParams)
    requires
        json_compact(params_json(a)) == json_compact(params_json(b)),
        tells_apart(json_compact(params_json(a)), params_json(a)),
    ensures
        a == b,
{
    lemma_params(a);
    lemma_params(b);
    assert(same_content(params_json(a), params_json(b)));
    same_content_is_found(params_json(a), params_json(b), "effort"@);
    same_content_is_found(params_json(a), params_json(b), "thinking_summary"@);
    effort_names_read_back(a.effort);
    effort_names_read_back(b.effort);
    reveal_strlit("off");
    reveal_strlit("auto");
    assert("off"@.len() == 3);
    assert("auto"@.len() == 4);
}

proof fn lemma_choices_separate(a: ToolChoice, b: ToolChoice)
    requires
        json_compact(choice_json(a)) == json_compact(choice_json(b)),
        tells_apart(json_compact(choice_json(a)), choice_json(a)),
    ensures
        a == b,
{
    reveal_strlit("auto");
    reveal_strlit("none");
    assert("auto"@[0] == 'a');
    assert("none"@[0] == 'n');
    assert(writable(choice_json(a)));
    assert(writable(choice_json(b)));
}

/// A fingerprint follows each of its inputs: what is hashed differs where the inputs
/// differ in one place alone, given that what is written down for them is written for
/// no others, as every computed fingerprint promises, and that `serde_json` has a value
/// for their tools. So the fingerprints differ unless the hash function maps two texts
/// to one hash.
pub proof fn fingerprints_follow_their_inputs(a: Inputs, b: Inputs)
    requires
        inputs_told_apart(a),
        writable(tools_json(a.tools)),
        writable(tools_json(b.tools)),
        one_input_differs(a, b),
    ensures
        request_text(a) != request_text(b),
{
    let parts_a = (
        a.system_prompt,
        json_compact(tools_json(a.tools)),
        json_compact(params_json(a.model_params)),
        json_compact(choice_json(a.tool_choice)),
    );
    let parts_b = (
        b.system_prompt,
        json_compact(tools_json(b.tools)),
        json_compact(params_json(b.model_params)),
        json_compact(choice_json(b.tool_choice)),
    );
    if parts_a.2 == parts_b.2 {
        lemma_params_separate(a.model_params, b.model_params);
    }
    if parts_a.3 == parts_b.3 {
        lemma_choices_separate(a.tool_choice, b.tool_choice);
    }
    one_changed_part_shows(parts_a, parts_b);
}

/// Inputs that are alike have one fingerprint.
pub proof fn alike_inputs_have_one_fingerprint(a: Inputs, b: Inputs)
    requires
        a.system_prompt == b.system_prompt,
        tools_json(a.tools) == tools_json(b.tools),
        a.model_params == b.model_params,
        a.tool_choice == b.tool_choice,
    ensures
        request_text(a) == request_text(b),
        text_hash(request_text(a)) == text_hash(request_text(b)),
{
}

proof fn lemma_middle_differs(head: Seq<char>, x: Seq<char>, y: Seq<char>, rest: Seq<char>)
    requires
        x != y,
    ensures
        head + x + rest != head + y + rest,
{
    let a = head + x + rest;
    let b = head + y + rest;
    if a == b {
        assert(a.len() == head.len() + x.len() + rest.len());
        assert(b.len() == head.len() + y.len() + rest.len());
        assert(x =~= a.subrange(head.len() as int, (head.len() + x.len()) as int));
        assert(y =~= b.subrange(head.len() as int, (head.len() + y.len()) as int));
    }
}

/// A text ends in one way only in a mark that begins with NUL and a part without
/// NUL.
proof fn lemma_last_part(x: Seq<char>, y: Seq<char>, mark: Seq<char>, p: Seq<char>, q: Seq<char>)
    requires
        x + mark + p == y + mark + q,
        mark.len() > 0,
        mark[0] == '\0',
        forall|i: int| 1 <= i < mark.len() ==> mark[i] != '\0',
        !p.contains('\0'),
        !q.contains('\0'),
    ensures
        x == y,
        p == q,
{
    let whole = x + mark + p;
    let other = y + mark + q;
    assert(whole[x.len() as int] == mark[0]);
    assert(other[y.len() as int] == mark[0]);
    assert(whole.len() == x.len() + mark.len() + p.len());
    assert(other.len() == y.len() + mark.len() + q.len());
    if x.len() < y.len() {
        let k = y.len() as int;
        assert(whole[k] == '\0');
        if k < x.len() + mark.len() {
            assert(whole[k] == mark[k - x.len()]);
        } else {
            let m = k - (x.len() + mark.len());
            assert(0 <= m < p.len());
            assert(whole[k] == p[m]);
        }
    }
    if y.len() < x.len() {
        let k = x.len() as int;
        assert(other[k] == '\0');
        if k < y.len() + mark.len() {
            assert(other[k] == mark[k - y.len()]);
        } else {
            let m = k - (y.len() + mark.len());
            assert(0 <= m < q.len());
            assert(other[k] == q[m]);
        }
    }
    assert(x =~= whole.take(x.len() as int));
    assert(y =~= other.take(y.len() as int));
    assert(p =~= whole.skip((x.len() + mark.len()) as int));
    assert(q =~= other.skip((y.len() + mark.len()) as int));
}

/// The name of a kind of tool.
pub open spec fn tool_type_name(t: ToolType) -> Seq<char> {
    match t {
        ToolType::Function => "function"@,
        ToolType::Custom => "custom"@,
    }
}

/// A tool as it is written down.
pub open spec fn tool_json(tool: ToolDefinition) -> Json {
    Json::Object(
        seq![
            ("name"@, Json::Text(tool.name@)),
            ("model_visible_name"@, text_or_null(option_text(tool.model_visible_name))),
            ("description"@, text_or_null(option_text(tool.description))),
            ("tool_type"@, Json::Text(tool_type_name(tool.tool_type))),
            ("parameters"@, value_or_null(option_json(tool.parameters))),
            ("format"@, value_or_null(option_json(tool.format))),
        ],
    )
}

/// A list of tools as it is written down.
pub open spec fn tools_json(tools: Seq<ToolDefinition>) -> Json {
    Json::Array(Seq::new(tools.len(), |i: int| tool_json(tools[i])))
}

/// The name of a way to sum up reasoning.
pub open spec fn summary_name(summary: ThinkingSummary) -> Seq<char> {
    match summary {
        ThinkingSummary::Off => "off"@,
        ThinkingSummary::Auto => "auto"@,
    }
}

/// The parameters of a model as they are written down.
pub open spec fn params_json(params: ModelParams) -> Json {
    Json::Object(
        seq![
            ("effort"@, Json::Text(effort_name(params.effort))),
            (
                "thinking_summary"@,
                Json::Text(summary_name(params.thinking_summary)),
            ),
        ],
    )
}

/// The choice of tools as it is written down.
pub open spec fn choice_json(choice: ToolChoice) -> Json {
    Json::Text(
        match choice {
            ToolChoice::Auto => "auto"@,
            ToolChoice::Never => "none"@,
        },
    )
}

fn optional_string(o: &Option<String>) -> (r: JsonValue)
    ensures
        r@ == text_or_null(option_text(*o)),
{
    match o {
        Some(s) => JsonValue::Text(s.clone()),
        None => JsonValue::Null,
    }
}

fn value_of_tool(tool: &ToolDefinition) -> (r: JsonValue)
    ensures
        r@ == tool_json(*tool),
{
    let mut entries: Vec<(String, JsonValue)> = Vec::new();
    put(&mut entries, "name", JsonValue::Text(tool.name.clone()));
    put(&mut entries, "model_visible_name", optional_string(&tool.model_visible_name));
    put(&mut entries, "description", optional_string(&tool.description));
    let kind = match tool.tool_type {
        ToolType::Function => "function",
        ToolType::Custom => "custom",
    };
    put(&mut entries, "tool_type", JsonValue::Text(kind.to_owned()));
    put(&mut entries, "parameters", optional_value(&tool.parameters));
    put(&mut entries, "format", optional_value(&tool.format));
    assert(entries_view(entries@) =~= tool_json(*tool)->Object_0);
    object_value(entries)
}

fn value_of_tools(tools: &Vec<ToolDefinition>) -> (r: JsonValue)
    ensures
        r@ == tools_json(tools@),
{
    let mut items: Vec<JsonValue> = Vec::new();
    let mut i: usize = 0;
    while i < tools.len()
        invariant
            i <= tools.len(),
            items.len() == i,
            forall|k: int| 0 <= k < i ==> (#[trigger] items@[k])@ == tool_json(tools@[k]),
        decreases tools.len() - i,
    {
        items.push(value_of_tool(&tools[i]));
        i += 1;
    }
    let r = list_value(items);
    assert(r@->Array_0 =~= tools_json(tools@)->Array_0);
    r
}

fn value_of_params(params: &ModelParams) -> (r: JsonValue)
    ensures
        r@ == params_json(*params),
{
    let mut entries: Vec<(String, JsonValue)> = Vec::new();
    put(&mut entries, "effort", JsonValue::Text(params.effort.as_str().to_owned()));
    let summary = match params.thinking_summary {
        ThinkingSummary::Off => "off",
        ThinkingSummary::Auto => "auto",
    };
    put(&mut entries, "thinking_summary", JsonValue::Text(summary.to_owned()));
    assert(entries_view(entries@) =~= params_json(*params)->Object_0);
    object_value(entries)
}

/// The fingerprint of a request, with those of its parts. A chain of responses
/// holds as long as it stays the same.
pub fn compute_chain_fingerprint_detail(
    system_prompt: &str,
    tools: &Vec<ToolDefinition>,
    model_params: &ModelParams,
    tool_choice: ToolChoice,
) -> (r: ChainFingerprintDetail)
    ensures
        fingerprint_of(
            r,
            system_prompt@,
            json_compact(tools_json(tools@)),
            json_compact(params_json(*model_params)),
            json_compact(choice_json(tool_choice)),
        ),
        inputs_told_apart(
            Inputs { system_prompt: system_prompt@, tools: tools@, model_params: *model_params, tool_choice },
        ),
{
    let tools_value = value_of_tools(tools);
    let params_value = value_of_params(model_params);
    let choice = match tool_choice {
        ToolChoice::Auto => "auto",
        ToolChoice::Never => "none",
    };
    let choice_value = optional_text(Some(choice));
    let tools_text = compact_text(&tools_value);
    let params_text = compact_text(&params_value);
    let choice_text = compact_text(&choice_value);
    fingerprint_parts(system_prompt, tools_text.as_str(), params_text.as_str(), choice_text.as_str())
}

/// The fingerprint of a request.
pub fn compute_chain_fingerprint(
    system_prompt: &str,
    tools: &Vec<ToolDefinition>,
    model_params: &ModelParams,
    tool_choice: ToolChoice,
) -> (r: [u8; 32])
    ensures
        r@ == text_hash(
            request_text(
                Inputs { system_prompt: system_prompt@, tools: tools@, model_params: *model_params, tool_choice },
            ),
        ),
        inputs_told_apart(
            Inputs { system_prompt: system_prompt@, tools: tools@, model_params: *model_params, tool_choice },
        ),
{
    let detail = compute_chain_fingerprint_detail(system_prompt, tools, model_params, tool_choice);
    detail.digest
}

// ---------------------------------------------------------------------------
// Queued prompts
// ---------------------------------------------------------------------------

/// Whether a prompt is the user's or hidden.
#[derive(Clone, Copy, Debug, PartialEq, Eq, Structural)]
pub enum PromptMessageClass {
    User,
    Internal,
}

impl PromptMessageClass {
    /// Whether the prompt is hidden.
    #[must_use]
    pub fn is_internal(self) -> (r: bool)
        ensures
            r == (self == PromptMessageClass::Internal),
    {
        match self {
            PromptMessageClass::User => false,
            PromptMessageClass::Internal => true,
        }
    }
}

/// Where a queued prompt came from.
#[derive(Clone, Copy, Debug, PartialEq, Eq, Structural)]
pub enum PendingPromptSource {
    /// The user or the harness.
    General,
    /// A message of another agent.
    AgentMessageReceived,
}

/// A queued prompt.
#[derive(Debug, PartialEq, Eq)]
pub struct PendingPrompt {
    pub text: String,
    pub message_class: PromptMessageClass,
    pub source: PendingPromptSource,
}

impl PendingPrompt {
    /// A prompt of the user.
    pub fn user(text: String) -> (r: PendingPrompt)
        ensures
            r == (PendingPrompt {
                text,
                message_class: PromptMessageClass::User,
                source: PendingPromptSource::General,
            }),
    {
        PendingPrompt { text, message_class: PromptMessageClass::User, source: PendingPromptSource::General }
    }

    /// A hidden prompt.
    pub fn internal(text: String) -> (r: PendingPrompt)
        ensures
            r == (PendingPrompt {
                text,
                message_class: PromptMessageClass::Internal,
                source: PendingPromptSource::General,
            }),
    {
        PendingPrompt { text, message_class: PromptMessageClass::Internal, source: PendingPromptSource::General }
    }

    /// A hidden prompt made of a message of another agent.
    pub fn agent_message_received(text: String) -> (r: PendingPrompt)
        ensures
            r == (PendingPrompt {
                text,
                message_class: PromptMessageClass::Internal,
                source: PendingPromptSource::AgentMessageReceived,
            }),
    {
        PendingPrompt {
            text,
            message_class: PromptMessageClass::Internal,
            source: PendingPromptSource::AgentMessageReceived,
        }
    }

    /// Whether the prompt is hidden from the user.
    #[must_use]
    pub fn is_internal(&self) -> (r: bool)
        ensures
            r == (self.message_class == PromptMessageClass::Internal),
    {
        self.message_class.is_internal()
    }

    /// Whether the prompt came from another agent.
    #[must_use]
    pub fn is_agent_message_received(&self) -> (r: bool)
        ensures
            r == (self.source == PendingPromptSource::AgentMessageReceived),
    {
        match self.source {
            PendingPromptSource::General => false,
            PendingPromptSource::AgentMessageReceived => true,
        }
    }

    /// Whether the prompt reads as given.
    #[must_use]
    pub fn reads(&self, text: &str) -> (r: bool)
        ensures
            r == (self.text@ == text@),
    {
        crate::text::same(self.text.as_str(), text)
    }
}

// ---------------------------------------------------------------------------
// Agents
// ---------------------------------------------------------------------------

/// What an agent is doing.
#[derive(Debug, PartialEq, Eq)]
pub enum AgentTurnState {
    Idle,
    Compacting,
    AgentThinking { agent_prompt_id: String },
    ToolsRunning { remaining_calls: Vec<String> },
}

/// A request to stop an agent.
#[derive(Debug, PartialEq, Eq)]
pub struct PendingCancel {
    pub reason: String,
}

/// The response that the next request can be chained to.
#[derive(Debug, PartialEq, Eq)]
pub struct ChainAnchor {
    pub response_id: String,
    /// Where the transcript ended.
    pub head: Option<usize>,
    pub model: String,
    /// How many messages the response has seen.
    pub message_count: usize,
    pub backend: ProviderBackend,
    pub request_fingerprint: [u8; 32],
    pub request_fingerprint_parts: ChainFingerprintParts,
}

/// A loaded agent.
#[derive(Debug, PartialEq, Eq)]
pub struct Agent {
    pub id: String,
    pub session_id: String,
    pub originator: PromptOriginator,
    /// Where the transcript goes on.
    pub head: Option<usize>,
    /// The connection that asked for the agent.
    pub source_connection: Option<String>,
    pub in_flight_prompt: Option<String>,
    pub pending_prompts: Vec<PendingPrompt>,
    pub pending_cancel: Option<PendingCancel>,
    pub last_prompt_id: Option<String>,
    pub next_ctx_id: Option<String>,
    pub turn_state: AgentTurnState,
    pub parent_tool_call_id: Option<String>,
    pub parent_agent_id: Option<String>,
    pub task_name: Option<String>,
    pub delegate_input_stats: ToolDisplayStats,
    pub role: Option<String>,
    pub agent_id: Option<String>,
    pub delegate_execution_mode: Option<ToolExecutionMode>,
    pub tools_in_flight: u32,
    pub tools_total: u32,
    pub context_input_tokens: Option<u64>,
    pub context_percent_used: Option<u8>,
    pub chain_anchor: Option<ChainAnchor>,
    /// The calls that first returned a result, by the hash of the result.
    pub result_dedup: TextMap<String>,
}

impl Agent {
    /// An agent that has done nothing yet.
    pub fn new(
        id: String,
        session_id: String,
        originator: PromptOriginator,
        head: Option<usize>,
        source_connection: Option<String>,
    ) -> (r: Agent)
        ensures
            r.id == id,
            r.session_id == session_id,
            r.originator == originator,
            r.head == head,
            r.source_connection == source_connection,
            r.in_flight_prompt is None,
            r.pending_prompts@.len() == 0,
            r.pending_cancel is None,
            r.last_prompt_id is None,
            r.next_ctx_id is None,
            r.turn_state is Idle,
            r.parent_tool_call_id is None,
            r.parent_agent_id is None,
            r.task_name is None,
            r.delegate_input_stats == no_stats(),
            r.role is None,
            r.agent_id is None,
            r.delegate_execution_mode is None,
            r.tools_in_flight == 0,
            r.tools_total == 0,
            r.context_input_tokens is None,
            r.context_percent_used is None,
            r.chain_anchor is None,
            r.result_dedup@.len() == 0,
    {
        Agent {
            id,
            session_id,
            originator,
            head,
            source_connection,
            in_flight_prompt: None,
            pending_prompts: Vec::new(),
            pending_cancel: None,
            last_prompt_id: None,
            next_ctx_id: None,
            turn_state: AgentTurnState::Idle,
            parent_tool_call_id: None,
            parent_agent_id: None,
            task_name: None,
            delegate_input_stats: ToolDisplayStats { matches: None, lines: None, bytes: None },
            role: None,
            agent_id: None,
            delegate_execution_mode: None,
            tools_in_flight: 0,
            tools_total: 0,
            context_input_tokens: None,
            context_percent_used: None,
            chain_anchor: None,
            result_dedup: TextMap::new(),
        }
    }
}

} // verus!

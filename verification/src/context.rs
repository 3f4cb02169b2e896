//! The timeline of a prompt: messages, tool calls and their results.
use vstd::prelude::*;
use vstd::string::*;
use crate::cbor::{Cbor, CborValue};
use crate::event::{Effort, ThinkingSummary};
use crate::json::JsonValue;
use crate::text::{
    chars_of, decimal, decimal_text, has_char, hex_text, join, joined, numeral, same, signed_decimal, signed_text,
    text_between, texts,
};

verus! {

// ---------------------------------------------------------------------------
// Types
// ---------------------------------------------------------------------------

/// Who wrote a message.
#[derive(Clone, Copy, Debug, PartialEq, Eq, Structural)]
pub enum ContextRole {
    System,
    Developer,
    User,
    Assistant,
}

/// One part of a message.
#[derive(Debug, PartialEq, Eq)]
pub enum ContentPart {
    Text { text: String },
}

/// A payload that belongs to a provider and is kept as it is.
#[derive(Debug, PartialEq, Eq)]
pub struct OpaqueProviderItem(pub CborValue);

/// How far along an assistant message is.
#[derive(Clone, Copy, Debug, PartialEq, Eq, Structural)]
pub enum MessagePhase {
    /// Notes on the way.
    Commentary,
    /// The completed answer.
    FinalAnswer,
}

impl MessagePhase {
    /// The name of the phase in requests.
    #[must_use]
    pub fn as_openai_wire(self) -> (r: &'static str)
        ensures
            r@ == (match self {
                MessagePhase::Commentary => "commentary"@,
                MessagePhase::FinalAnswer => "final_answer"@,
            }),
    {
        match self {
            MessagePhase::Commentary => "commentary",
            MessagePhase::FinalAnswer => "final_answer",
        }
    }
}

/// What kind of tool is called.
#[derive(Clone, Copy, Debug, PartialEq, Eq, Structural)]
pub enum ToolType {
    /// A tool with a schema for its arguments.
    Function,
    /// A tool that takes free text.
    Custom,
}

/// One message.
#[derive(Debug, PartialEq, Eq)]
pub struct MessageItem {
    pub role: ContextRole,
    pub content: Vec<ContentPart>,
    pub phase: Option<MessagePhase>,
}

/// One tool call.
#[derive(Debug, PartialEq, Eq)]
pub struct ToolCallItem {
    pub call_id: String,
    pub name: String,
    pub tool_type: ToolType,
    pub arguments: CborValue,
}

/// How a tool call ended.
#[derive(Debug, PartialEq, Eq)]
pub enum ToolResultStatus {
    Success,
    Error { message: String },
    Cancelled { reason: String },
}

/// One header line of a tool response.
#[derive(Debug, PartialEq, Eq)]
pub struct ToolResponseHeader {
    pub key: String,
    pub value: String,
}

/// A tool response as the provider sees it.
#[derive(Debug, PartialEq, Eq)]
pub struct ToolResponse {
    /// The payload that the tool returned.
    pub raw: CborValue,
    pub headers: Vec<ToolResponseHeader>,
    pub body: String,
}

/// One tool result.
#[derive(Debug, PartialEq, Eq)]
pub struct ToolResultItem {
    pub call_id: String,
    pub tool_type: ToolType,
    pub status: ToolResultStatus,
    pub output: ToolResponse,
}

/// Whether reasoning text is a summary or the whole.
#[derive(Clone, Copy, Debug, PartialEq, Eq, Structural)]
pub enum ReasoningTextKind {
    Summary,
    Full,
}

/// Reasoning text that can be shown.
#[derive(Debug, PartialEq, Eq)]
pub struct ReasoningTextItem {
    pub kind: ReasoningTextKind,
    pub text: String,
}

/// The state of a compaction that is under way.
#[derive(Clone, Copy, Debug, PartialEq, Eq, Structural)]
pub enum InProgressCompactionStatus {
    Started,
}

/// An item of a response that may still change.
#[derive(Debug, PartialEq, Eq)]
pub enum InProgressOutputItem {
    Message { text: String, phase: Option<MessagePhase> },
    ReasoningText { kind: ReasoningTextKind, text: String },
    ToolCall { call_id: Option<String>, name: Option<String>, tool_type: ToolType, arguments: String },
    Compaction { status: InProgressCompactionStatus },
}

/// An item of a response while it arrives.
#[derive(Debug, PartialEq, Eq)]
pub enum ProviderResponseItem {
    Completed(ContextItem),
    InProgress(InProgressOutputItem),
}

/// One item of the timeline.
#[derive(Debug, PartialEq, Eq)]
pub enum ContextItem {
    Message(MessageItem),
    ToolCall(ToolCallItem),
    ToolResult(ToolResultItem),
    ReasoningText(ReasoningTextItem),
    Reasoning(OpaqueProviderItem),
    CompactionTrigger,
    Compaction(OpaqueProviderItem),
    UnknownProviderItem(OpaqueProviderItem),
}

/// A prompt's history in blocks.
#[derive(Debug, PartialEq, Eq)]
pub struct PromptContext {
    pub blocks: Vec<ContextBlock>,
}

/// One block of a prompt's history.
#[derive(Debug, PartialEq, Eq)]
pub enum ContextBlock {
    UserInput(UserInputBlock),
    AssistantResponse(AssistantResponseBlock),
    ToolResults(ToolResultsBlock),
}

/// Input of the user.
#[derive(Debug, PartialEq, Eq)]
pub struct UserInputBlock {
    pub items: Vec<ContextItem>,
}

/// One response of the assistant.
#[derive(Debug, PartialEq, Eq)]
pub struct AssistantResponseBlock {
    pub provider_response_id: Option<String>,
    pub backend: Option<ProviderBackend>,
    pub output_items: Vec<ContextItem>,
    pub usage: Option<ProviderTokenUsage>,
}

/// The results of one round of tool calls.
#[derive(Debug, PartialEq, Eq)]
pub struct ToolResultsBlock {
    pub items: Vec<ToolResultItem>,
}

/// Which interface of a provider answered.
#[derive(Clone, Copy, Debug, PartialEq, Eq, Structural)]
pub enum ProviderBackendKind {
    ChatCompletions,
    Responses,
}

/// How the answer travelled.
#[derive(Clone, Copy, Debug, PartialEq, Eq, Structural)]
pub enum ProviderBackendTransport {
    HttpSse,
    WebSocket,
}

/// The backend that answered.
#[derive(Debug, PartialEq, Eq)]
pub struct ProviderBackend {
    pub kind: ProviderBackendKind,
    pub base_url: String,
    pub transport: ProviderBackendTransport,
    pub stale_chain_fallback: bool,
}

/// How many tokens a response took.
#[derive(Clone, Copy, Debug, PartialEq, Eq, Structural)]
pub struct ProviderTokenUsage {
    pub prompt_sent_tokens: u64,
    pub prompt_cached_tokens: u64,
    pub response_received_tokens: u64,
}

/// A tool as a provider sees it.
#[derive(Debug, PartialEq, Eq)]
pub struct ToolDefinition {
    pub name: String,
    /// The name shown to the model, where it differs.
    pub model_visible_name: Option<String>,
    pub description: Option<String>,
    pub tool_type: ToolType,
    /// The schema of the arguments.
    pub parameters: Option<JsonValue>,
    /// The format of free-text input.
    pub format: Option<JsonValue>,
}

/// Whether the model may call tools.
#[derive(Clone, Copy, Debug, PartialEq, Eq, Structural)]
pub enum ToolChoice {
    Auto,
    Never,
}

/// Who asked for a prompt.
#[derive(Debug, PartialEq, Eq)]
pub enum PromptOriginator {
    User,
    Extension { name: String, query_id: String },
}

/// How the model is to run.
#[derive(Clone, Copy, Debug, PartialEq, Eq, Structural)]
pub struct ModelParams {
    pub effort: Effort,
    pub thinking_summary: ThinkingSummary,
}

/// A prompt on its way to a provider.
#[derive(Debug, PartialEq, Eq)]
pub struct AgentPromptCreated {
    pub agent_prompt_id: String,
    pub agent_id: String,
    pub session_id: String,
    pub system_prompt: String,
    pub context_items: Vec<ContextItem>,
    pub tools: Vec<ToolDefinition>,
    pub model: Option<String>,
    pub model_params: ModelParams,
    pub tool_choice: ToolChoice,
    pub originator: PromptOriginator,
    pub share_user_cache_key: bool,
    pub previous_response_candidate: Option<String>,
}

// ---------------------------------------------------------------------------
// Safe text
// ---------------------------------------------------------------------------

/// Whether a character is a control character.
pub open spec fn is_control(c: char) -> bool {
    c <= '\u{1f}' || ('\u{7f}' <= c && c <= '\u{9f}')
}

/// What stands for one character in text for a provider. Line feeds stay where
/// `keep_lines` is set.
pub open spec fn safe_form(c: char, keep_lines: bool) -> Seq<char> {
    if c == '\n' && keep_lines {
        seq!['\n']
    } else if c == '\n' {
        seq!['\\', 'n']
    } else if c == '\r' {
        seq!['\\', 'r']
    } else if c == '\t' {
        seq!['\\', 't']
    } else if c == '\0' {
        seq!['\\', '0']
    } else if c == '\u{1b}' {
        seq!['\\', 'x', '1', 'b']
    } else if c == '\u{2028}' {
        seq!['\\', 'u', '{', '2', '0', '2', '8', '}']
    } else if c == '\u{2029}' {
        seq!['\\', 'u', '{', '2', '0', '2', '9', '}']
    } else if is_control(c) {
        seq!['\\', 'u', '{'] + numeral(c as nat, 16) + seq!['}']
    } else {
        seq![c]
    }
}

/// Text made safe for a provider.
pub open spec fn safe_text(s: Seq<char>, keep_lines: bool) -> Seq<char>
    decreases s.len(),
{
    if s.len() == 0 {
        Seq::empty()
    } else {
        safe_text(s.drop_last(), keep_lines) + safe_form(s.last(), keep_lines)
    }
}

fn code_of(c: char) -> (n: u32)
    ensures
        n as nat == c as nat,
{
    c as u32
}

/// Makes text safe for a provider.
pub fn sanitize_provider_text(input: &str, keep_lines: bool) -> (r: String)
    ensures
        r@ == safe_text(input@, keep_lines),
{
    let v = chars_of(input);
    let mut out = String::new();
    let mut i: usize = 0;
    while i < v.len()
        invariant
            i <= v.len(),
            out@ == safe_text(v@.take(i as int), keep_lines),
        decreases v.len() - i,
    {
        let c: char = v[i];
        let ghost before = out@;
        assert(v@.take(i + 1).drop_last() =~= v@.take(i as int));
        if c == '\n' && keep_lines {
            out.push('\n');
            assert(out@ =~= before + seq!['\n']);
        } else if c == '\n' {
            out.push('\\');
            out.push('n');
            assert(out@ =~= before + seq!['\\', 'n']);
        } else if c == '\r' {
            out.push('\\');
            out.push('r');
            assert(out@ =~= before + seq!['\\', 'r']);
        } else if c == '\t' {
            out.push('\\');
            out.push('t');
            assert(out@ =~= before + seq!['\\', 't']);
        } else if c == '\0' {
            out.push('\\');
            out.push('0');
            assert(out@ =~= before + seq!['\\', '0']);
        } else if c == '\u{1b}' {
            out.push('\\');
            out.push('x');
            out.push('1');
            out.push('b');
            assert(out@ =~= before + seq!['\\', 'x', '1', 'b']);
        } else if c == '\u{2028}' {
            push_unicode_escape(&mut out, 0x2028);
            assert(numeral(0x2028, 16) =~= seq!['2', '0', '2', '8']) by {
                reveal_with_fuel(numeral, 5);
            }
            assert(out@ =~= before + seq!['\\', 'u', '{', '2', '0', '2', '8', '}']);
        } else if c == '\u{2029}' {
            push_unicode_escape(&mut out, 0x2029);
            assert(numeral(0x2029, 16) =~= seq!['2', '0', '2', '9']) by {
                reveal_with_fuel(numeral, 5);
            }
            assert(out@ =~= before + seq!['\\', 'u', '{', '2', '0', '2', '9', '}']);
        } else if c <= '\u{1f}' || ('\u{7f}' <= c && c <= '\u{9f}') {
            push_unicode_escape(&mut out, code_of(c));
        } else {
            out.push(c);
            assert(out@ =~= before + seq![c]);
        }
        i += 1;
    }
    assert(v@.take(v.len() as int) =~= v@);
    out
}

fn push_unicode_escape(out: &mut String, code: u32)
    ensures
        final(out)@ == old(out)@ + (seq!['\\', 'u', '{'] + numeral(code as nat, 16) + seq!['}']),
{
    let ghost before = out@;
    out.push('\\');
    out.push('u');
    out.push('{');
    let digits = hex_text(code as u128);
    out.append(digits.as_str());
    out.push('}');
    assert(out@ =~= before + (seq!['\\', 'u', '{'] + numeral(code as nat, 16) + seq!['}']));
}

/// Whether a character may reach a provider as it is.
pub open spec fn may_pass(c: char, keep_lines: bool) -> bool {
    if c == '\n' {
        keep_lines
    } else {
        !is_control(c) && c != '\u{2028}' && c != '\u{2029}'
    }
}

proof fn lemma_numeral_passes(n: nat, keep_lines: bool)
    ensures
        forall|i: int| 0 <= i < numeral(n, 16).len() ==> may_pass(#[trigger] numeral(n, 16)[i], keep_lines),
    decreases n,
{
    if n >= 16 {
        assert(n / 16 < n);
        lemma_numeral_passes(n / 16, keep_lines);
        let init = numeral(n / 16, 16);
        assert forall|i: int| 0 <= i < numeral(n, 16).len() implies may_pass(
            #[trigger] numeral(n, 16)[i],
            keep_lines,
        ) by {
            if i < init.len() {
                assert(numeral(n, 16)[i] == init[i]);
            }
        }
    }
}

/// Safe text holds no control character and no line separator; the line feed
/// alone stays, and only where lines are kept.
pub proof fn safe_text_is_safe(s: Seq<char>, keep_lines: bool)
    ensures
        forall|i: int|
            0 <= i < safe_text(s, keep_lines).len() ==> may_pass(
                #[trigger] safe_text(s, keep_lines)[i],
                keep_lines,
            ),
    decreases s.len(),
{
    if s.len() > 0 {
        let init = safe_text(s.drop_last(), keep_lines);
        let form = safe_form(s.last(), keep_lines);
        safe_text_is_safe(s.drop_last(), keep_lines);
        lemma_numeral_passes(s.last() as nat, keep_lines);
        assert forall|i: int| 0 <= i < form.len() implies may_pass(#[trigger] form[i], keep_lines) by {
            let digits = numeral(s.last() as nat, 16);
            if 3 <= i < 3 + digits.len() && form == seq!['\\', 'u', '{'] + digits + seq!['}'] {
                assert(form[i] == digits[i - 3]);
            }
        }
        let whole = safe_text(s, keep_lines);
        assert forall|i: int| 0 <= i < whole.len() implies may_pass(#[trigger] whole[i], keep_lines) by {
            if i < init.len() {
                assert(whole[i] == init[i]);
            } else {
                assert(whole[i] == form[i - init.len()]);
            }
        }
    }
}

// ---------------------------------------------------------------------------
// Tool responses
// ---------------------------------------------------------------------------

/// What a `ToolResponse` holds.
#[verifier::ext_equal]
pub struct Response {
    pub raw: Cbor,
    pub headers: Seq<(Seq<char>, Seq<char>)>,
    pub body: Seq<char>,
}

/// The headers of a response over their views.
pub open spec fn headers_view(headers: Seq<ToolResponseHeader>) -> Seq<(Seq<char>, Seq<char>)> {
    headers.map_values(|h: ToolResponseHeader| (h.key@, h.value@))
}

impl ToolResponse {
    pub open spec fn view(&self) -> Response {
        Response { raw: self.raw@, headers: headers_view(self.headers@), body: self.body@ }
    }
}

/// The lines of the headers.
pub open spec fn header_lines(headers: Seq<(Seq<char>, Seq<char>)>) -> Seq<char>
    decreases headers.len(),
{
    if headers.len() == 0 {
        Seq::empty()
    } else {
        header_lines(headers.drop_last()) + safe_text(headers.last().0, false) + ": "@ + safe_text(
            headers.last().1,
            false,
        ) + seq!['\n']
    }
}

/// The text of a response: its header lines, an empty line where there are any,
/// and its body.
pub open spec fn rendered(headers: Seq<(Seq<char>, Seq<char>)>, body: Seq<char>) -> Seq<char> {
    header_lines(headers) + (if headers.len() > 0 {
        seq!['\n']
    } else {
        Seq::empty()
    }) + safe_text(body, true)
}

/// The key under which a tool files its main output.
pub open spec fn is_output_key(key: Seq<char>) -> bool {
    key == "output"@ || key == "line-numbered content"@
}

/// Whether a tool's result files its main output under a key.
pub open spec fn has_output(entries: Seq<(Cbor, Cbor)>) -> bool {
    exists|i: int| 0 <= i < entries.len() && (#[trigger] entries[i]).0 is Text && is_output_key(entries[i].0->Text_0)
}

/// What one entry of a tool's result becomes.
pub enum Part {
    /// Nothing.
    Skipped,
    /// A piece of the body.
    Body(Seq<char>),
    /// A header.
    Header(Seq<char>, Seq<char>),
}

/// What an entry with this key and value becomes: the main output is body, a
/// value of several lines is body under its key, everything else is a header.
/// Structured data is left out beside a main output.
pub open spec fn part_of(key: Seq<char>, value: Seq<char>, beside_output: bool) -> Part {
    if beside_output && key == "data"@ {
        Part::Skipped
    } else if is_output_key(key) {
        Part::Body(value)
    } else if value.contains('\n') {
        Part::Body(safe_text(key, false) + ":\n"@ + value)
    } else {
        Part::Header(key, value)
    }
}

/// The headers among the parts.
pub open spec fn headers_in(parts: Seq<Part>) -> Seq<(Seq<char>, Seq<char>)>
    decreases parts.len(),
{
    if parts.len() == 0 {
        Seq::empty()
    } else {
        match parts.last() {
            Part::Header(key, value) => headers_in(parts.drop_last()).push((key, value)),
            _ => headers_in(parts.drop_last()),
        }
    }
}

/// The pieces of the body among the parts.
pub open spec fn bodies_in(parts: Seq<Part>) -> Seq<Seq<char>>
    decreases parts.len(),
{
    if parts.len() == 0 {
        Seq::empty()
    } else {
        match parts.last() {
            Part::Body(text) => bodies_in(parts.drop_last()).push(text),
            _ => bodies_in(parts.drop_last()),
        }
    }
}

/// Text without the line feeds at its end.
pub open spec fn without_last_lines(s: Seq<char>) -> Seq<char>
    decreases s.len(),
{
    if s.len() > 0 && s.last() == '\n' {
        without_last_lines(s.drop_last())
    } else {
        s
    }
}

/// The text of a tool's result for a provider.
pub open spec fn reply_text(v: Cbor) -> Seq<char>
    decreases v,
{
    match v {
        Cbor::Null => Seq::empty(),
        Cbor::Bool(b) => if b {
            "true"@
        } else {
            "false"@
        },
        Cbor::Integer(n) => signed_decimal(n),
        Cbor::Float(s) => s,
        Cbor::Text(s) => s,
        Cbor::Bytes(b) => "<"@ + decimal(b.len()) + " bytes>"@,
        Cbor::Array(items) => joined(
            reply_items(items),
            if exists|i: int| 0 <= i < items.len() && #[trigger] items[i] is Dict {
                "\n\n"@
            } else {
                "\n"@
            },
        ),
        Cbor::Dict(entries) => rendered(
            headers_in(reply_parts(entries)),
            joined(bodies_in(reply_parts(entries)), "\n"@),
        ),
        Cbor::Tag(_, inner) => reply_text(*inner),
    }
}

/// The texts of a list's items; a dictionary loses the line feeds at its end.
pub open spec fn reply_items(items: Seq<Cbor>) -> Seq<Seq<char>>
    decreases items,
{
    Seq::new(
        items.len(),
        |i: int|
            if 0 <= i < items.len() {
                if items[i] is Dict {
                    without_last_lines(reply_text(items[i]))
                } else {
                    reply_text(items[i])
                }
            } else {
                Seq::empty()
            },
    )
}

/// What the entries of a tool's result become.
pub open spec fn reply_parts(entries: Seq<(Cbor, Cbor)>) -> Seq<Part>
    decreases entries,
{
    Seq::new(
        entries.len(),
        |i: int|
            if 0 <= i < entries.len() {
                part_of(reply_text(entries[i].0), reply_text(entries[i].1), has_output(entries))
            } else {
                Part::Skipped
            },
    )
}

/// The response that a tool's result amounts to.
pub open spec fn response_of(v: Cbor) -> Response {
    match v {
        Cbor::Dict(entries) => Response {
            raw: v,
            headers: headers_in(reply_parts(entries)),
            body: joined(bodies_in(reply_parts(entries)), "\n"@),
        },
        _ => Response { raw: v, headers: Seq::empty(), body: reply_text(v) },
    }
}

fn output_key(key: &str) -> (r: bool)
    ensures
        r == is_output_key(key@),
{
    same(key, "output") || same(key, "line-numbered content")
}

fn files_output(entries: &Vec<(CborValue, CborValue)>, Ghost(all): Ghost<Seq<(Cbor, Cbor)>>) -> (r: bool)
    requires
        all.len() == entries@.len(),
        forall|i: int| 0 <= i < all.len() ==> (#[trigger] all[i]).0 == entries@[i].0@,
    ensures
        r == has_output(all),
{
    let mut i: usize = 0;
    while i < entries.len()
        invariant
            i <= entries.len(),
            all.len() == entries@.len(),
            forall|i: int| 0 <= i < all.len() ==> (#[trigger] all[i]).0 == entries@[i].0@,
            forall|k: int|
                0 <= k < i ==> !((#[trigger] all[k]).0 is Text && is_output_key(all[k].0->Text_0)),
        decreases entries.len() - i,
    {
        assert(all[i as int].0 == entries@[i as int].0@);
        match &entries[i].0 {
            CborValue::Text(key) => {
                if output_key(key.as_str()) {
                    return true;
                }
            },
            _ => {},
        }
        i += 1;
    }
    false
}

/// Removes the line feeds at the end of a text.
fn trim_last_lines(s: &str) -> (r: String)
    ensures
        r@ == without_last_lines(s@),
{
    let v = chars_of(s);
    let mut n: usize = v.len();
    assert(v@.take(n as int) =~= v@);
    while n > 0 && v[n - 1] == '\n'
        invariant
            n <= v.len(),
            v@ == s@,
            without_last_lines(s@) == without_last_lines(v@.take(n as int)),
        decreases n,
    {
        assert(v@.take(n as int).drop_last() =~= v@.take(n - 1));
        n -= 1;
    }
    assert(v@.subrange(0, n as int) =~= v@.take(n as int));
    text_between(&v, 0, n)
}

/// The text of a response with these headers and this body.
fn render_parts(headers: &Vec<ToolResponseHeader>, body: &str) -> (r: String)
    ensures
        r@ == rendered(headers_view(headers@), body@),
{
    let ghost all = headers_view(headers@);
    let mut out = String::new();
    let mut i: usize = 0;
    assert(all.take(0) =~= Seq::empty());
    while i < headers.len()
        invariant
            i <= headers.len(),
            all == headers_view(headers@),
            out@ == header_lines(all.take(i as int)),
        decreases headers.len() - i,
    {
        assert(all.take(i + 1).drop_last() =~= all.take(i as int));
        assert(all.take(i + 1).last() == (headers@[i as int].key@, headers@[i as int].value@));
        let ghost before = out@;
        let key = sanitize_provider_text(headers[i].key.as_str(), false);
        out.append(key.as_str());
        out.append(": ");
        let value = sanitize_provider_text(headers[i].value.as_str(), false);
        out.append(value.as_str());
        out.push('\n');
        assert(out@ =~= before + key@ + ": "@ + value@ + seq!['\n']);
        i += 1;
    }
    assert(all.take(all.len() as int) =~= all);
    let ghost lines = out@;
    if headers.len() > 0 {
        out.push('\n');
        assert(out@ =~= lines + seq!['\n']);
    } else {
        assert(out@ =~= lines + Seq::<char>::empty());
    }
    let safe = sanitize_provider_text(body, true);
    out.append(safe.as_str());
    out
}

/// The headers and the body of a tool's result.
fn headers_and_body(entries: &Vec<(CborValue, CborValue)>, Ghost(all): Ghost<Seq<(Cbor, Cbor)>>) -> (r: (
    Vec<ToolResponseHeader>,
    String,
))
    requires
        all.len() == entries@.len(),
        forall|i: int| 0 <= i < all.len() ==> #[trigger] all[i] == (entries@[i].0@, entries@[i].1@),
    ensures
        headers_view(r.0@) == headers_in(reply_parts(all)),
        r.1@ == joined(bodies_in(reply_parts(all)), "\n"@),
    decreases entries,
{
    let beside_output = files_output(entries, Ghost(all));
    let ghost parts = reply_parts(all);
    let mut headers: Vec<ToolResponseHeader> = Vec::new();
    let mut bodies: Vec<String> = Vec::new();
    let mut i: usize = 0;
    assert(headers_view(headers@) =~= headers_in(parts.take(0)));
    assert(texts(bodies@) =~= bodies_in(parts.take(0)));
    while i < entries.len()
        invariant
            i <= entries.len(),
            all.len() == entries@.len(),
            forall|i: int| 0 <= i < all.len() ==> #[trigger] all[i] == (entries@[i].0@, entries@[i].1@),
            beside_output == has_output(all),
            parts == reply_parts(all),
            headers_view(headers@) == headers_in(parts.take(i as int)),
            texts(bodies@) == bodies_in(parts.take(i as int)),
        decreases entries.len() - i,
    {
        assert(decreases_to!(entries@ => entries@[i as int]));
        let ghost headers_before = headers_view(headers@);
        let ghost bodies_before = texts(bodies@);
        assert(all[i as int] == (entries@[i as int].0@, entries@[i as int].1@));
        assert(parts.take(i + 1).drop_last() =~= parts.take(i as int));
        let key = cbor_tool_response_text(&entries[i].0);
        let value = cbor_tool_response_text(&entries[i].1);
        assert(parts.take(i + 1).last() == part_of(key@, value@, beside_output));
        if beside_output && same(key.as_str(), "data") {
        } else if output_key(key.as_str()) {
            bodies.push(value);
            assert(texts(bodies@) =~= bodies_before.push(value@));
        } else if has_char(value.as_str(), '\n') {
            let mut text = sanitize_provider_text(key.as_str(), false);
            text.append(":\n");
            text.append(value.as_str());
            bodies.push(text);
            assert(texts(bodies@) =~= bodies_before.push(text@));
        } else {
            headers.push(ToolResponseHeader { key, value });
            assert(headers_view(headers@) =~= headers_before.push((key@, value@)));
        }
        i += 1;
    }
    assert(parts.take(entries.len() as int) =~= parts);
    (headers, join(&bodies, "\n"))
}

/// Renders a tool's result for a provider.
pub fn cbor_tool_response_text(v: &CborValue) -> (s: String)
    ensures
        s@ == reply_text(v@),
    decreases v,
{
    match v {
        CborValue::Null => String::new(),
        CborValue::Bool(b) => if *b {
            "true".to_owned()
        } else {
            "false".to_owned()
        },
        CborValue::Integer(n) => signed_text(*n),
        CborValue::Float(s) => s.clone(),
        CborValue::Text(s) => s.clone(),
        CborValue::Bytes(b) => {
            let mut s = "<".to_owned();
            s.append(decimal_text(b.len() as u128).as_str());
            s.append(" bytes>");
            s
        },
        CborValue::Array(items) => {
            let ghost all = v@->Array_0;
            let mut parts: Vec<String> = Vec::new();
            let mut any_dict = false;
            let mut i: usize = 0;
            while i < items.len()
                invariant
                    i <= items.len(),
                    parts.len() == i,
                    *v == CborValue::Array(*items),
                    all == v@->Array_0,
                    any_dict == exists|k: int| 0 <= k < i && #[trigger] all[k] is Dict,
                    forall|k: int| 0 <= k < i ==> (#[trigger] parts@[k])@ == reply_items(all)[k],
                decreases items.len() - i,
            {
                assert(decreases_to!(*v => (*v)->Array_0));
                assert(decreases_to!(items@ => items@[i as int]));
                assert(all[i as int] == items@[i as int]@);
                let text = cbor_tool_response_text(&items[i]);
                match &items[i] {
                    CborValue::Dict(_) => {
                        assert(all[i as int] is Dict);
                        any_dict = true;
                        parts.push(trim_last_lines(text.as_str()));
                    },
                    _ => {
                        assert(!(items@[i as int] is Dict));
                        assert(!(all[i as int] is Dict));
                        parts.push(text);
                    },
                }
                i += 1;
            }
            assert(texts(parts@) =~= reply_items(all));
            if any_dict {
                join(&parts, "\n\n")
            } else {
                join(&parts, "\n")
            }
        },
        CborValue::Dict(entries) => {
            assert(decreases_to!(*v => (*v)->Dict_0));
            let (headers, body) = headers_and_body(entries, Ghost(v@->Dict_0));
            render_parts(&headers, body.as_str())
        },
        CborValue::Tag(_, inner) => cbor_tool_response_text(inner),
    }
}

impl ToolResponse {
    /// The response that a tool's result amounts to.
    #[must_use]
    pub fn from_cbor(value: &CborValue) -> (r: ToolResponse)
        ensures
            r@ == response_of(value@),
    {
        match value {
            CborValue::Dict(entries) => {
                let (headers, body) = headers_and_body(entries, Ghost(value@->Dict_0));
                let r = ToolResponse { raw: value.clone(), headers, body };
                assert(r@ =~= response_of(value@));
                r
            },
            _ => {
                let r = ToolResponse {
                    raw: value.clone(),
                    headers: Vec::new(),
                    body: cbor_tool_response_text(value),
                };
                assert(headers_view(r.headers@) =~= Seq::empty());
                assert(r@ =~= response_of(value@));
                r
            },
        }
    }

    /// Renders the response: header lines, an empty line, and the body.
    #[must_use]
    pub fn render(&self) -> (r: String)
        ensures
            r@ == rendered(self@.headers, self@.body),
    {
        render_parts(&self.headers, self.body.as_str())
    }
}

proof fn lemma_header_lines_safe(headers: Seq<(Seq<char>, Seq<char>)>)
    ensures
        forall|i: int| 0 <= i < header_lines(headers).len() ==> may_pass(#[trigger] header_lines(headers)[i], true),
    decreases headers.len(),
{
    if headers.len() > 0 {
        let init = header_lines(headers.drop_last());
        lemma_header_lines_safe(headers.drop_last());
        let key = safe_text(headers.last().0, false);
        let value = safe_text(headers.last().1, false);
        safe_text_is_safe(headers.last().0, false);
        safe_text_is_safe(headers.last().1, false);
        reveal_strlit(": ");
        let whole = header_lines(headers);
        let colon = ": "@;
        assert(colon =~= seq![':', ' ']);
        assert forall|i: int| 0 <= i < whole.len() implies may_pass(#[trigger] whole[i], true) by {
            if i < init.len() {
                assert(whole[i] == init[i]);
            } else if i < init.len() + key.len() {
                assert(whole[i] == key[i - init.len()]);
            } else if i < init.len() + key.len() + 2 {
                assert(whole[i] == colon[i - init.len() - key.len()]);
            } else if i < init.len() + key.len() + 2 + value.len() {
                assert(whole[i] == value[i - init.len() - key.len() - 2]);
            } else {
                assert(whole[i] == '\n');
            }
        }
    }
}

/// A rendered response holds no control character but the line feed, and no line
/// or paragraph separator.
pub proof fn rendered_is_safe(headers: Seq<(Seq<char>, Seq<char>)>, body: Seq<char>)
    ensures
        forall|i: int| 0 <= i < rendered(headers, body).len() ==> may_pass(#[trigger] rendered(headers, body)[i], true),
{
    lemma_header_lines_safe(headers);
    safe_text_is_safe(body, true);
    let lines = header_lines(headers);
    let gap: Seq<char> = if headers.len() > 0 {
        seq!['\n']
    } else {
        Seq::empty()
    };
    let tail = safe_text(body, true);
    let whole = rendered(headers, body);
    assert forall|i: int| 0 <= i < whole.len() implies may_pass(#[trigger] whole[i], true) by {
        if i < lines.len() {
            assert(whole[i] == lines[i]);
        } else if i < lines.len() + gap.len() {
            assert(whole[i] == '\n');
        } else {
            assert(whole[i] == tail[i - lines.len() - gap.len()]);
        }
    }
}

// ---------------------------------------------------------------------------
// Timelines
// ---------------------------------------------------------------------------

/// What a `ToolResultStatus` holds.
pub enum Status {
    Success,
    Error(Seq<char>),
    Cancelled(Seq<char>),
}

/// What a `ToolResultItem` holds.
pub struct ResultView {
    pub call_id: Seq<char>,
    pub tool_type: ToolType,
    pub status: Status,
    pub output: Response,
}

/// What a `ContextItem` holds.
pub enum Item {
    Message { role: ContextRole, content: Seq<Seq<char>>, phase: Option<MessagePhase> },
    ToolCall { call_id: Seq<char>, name: Seq<char>, tool_type: ToolType, arguments: Cbor },
    ToolResult(ResultView),
    ReasoningText { kind: ReasoningTextKind, text: Seq<char> },
    Reasoning(Cbor),
    CompactionTrigger,
    Compaction(Cbor),
    Unknown(Cbor),
}

/// The texts of a message's parts.
pub open spec fn part_texts(content: Seq<ContentPart>) -> Seq<Seq<char>> {
    content.map_values(|p: ContentPart| p->text@)
}

impl ToolResultStatus {
    pub open spec fn view(&self) -> Status {
        match self {
            ToolResultStatus::Success => Status::Success,
            ToolResultStatus::Error { message } => Status::Error(message@),
            ToolResultStatus::Cancelled { reason } => Status::Cancelled(reason@),
        }
    }
}

impl ToolResultItem {
    pub open spec fn view(&self) -> ResultView {
        ResultView {
            call_id: self.call_id@,
            tool_type: self.tool_type,
            status: self.status@,
            output: self.output@,
        }
    }
}

impl ContextItem {
    pub open spec fn view(&self) -> Item {
        match self {
            ContextItem::Message(m) => Item::Message {
                role: m.role,
                content: part_texts(m.content@),
                phase: m.phase,
            },
            ContextItem::ToolCall(c) => Item::ToolCall {
                call_id: c.call_id@,
                name: c.name@,
                tool_type: c.tool_type,
                arguments: c.arguments@,
            },
            ContextItem::ToolResult(r) => Item::ToolResult(r@),
            ContextItem::ReasoningText(t) => Item::ReasoningText { kind: t.kind, text: t.text@ },
            ContextItem::Reasoning(o) => Item::Reasoning(o.0@),
            ContextItem::CompactionTrigger => Item::CompactionTrigger,
            ContextItem::Compaction(o) => Item::Compaction(o.0@),
            ContextItem::UnknownProviderItem(o) => Item::Unknown(o.0@),
        }
    }
}

/// The views of a list of items.
pub open spec fn items_view(items: Seq<ContextItem>) -> Seq<Item> {
    items.map_values(|i: ContextItem| i@)
}

/// The views of a list of tool results, as items of a timeline.
pub open spec fn results_view(items: Seq<ToolResultItem>) -> Seq<Item> {
    items.map_values(|r: ToolResultItem| Item::ToolResult(r@))
}

impl Clone for ToolResponse {
    fn clone(&self) -> (r: ToolResponse)
        ensures
            r@ == self@,
    {
        let mut headers: Vec<ToolResponseHeader> = Vec::new();
        let mut i: usize = 0;
        while i < self.headers.len()
            invariant
                i <= self.headers.len(),
                headers.len() == i,
                forall|k: int|
                    0 <= k < i ==> (#[trigger] headers@[k]).key@ == self.headers@[k].key@ && headers@[k].value@
                        == self.headers@[k].value@,
            decreases self.headers.len() - i,
        {
            headers.push(
                ToolResponseHeader { key: self.headers[i].key.clone(), value: self.headers[i].value.clone() },
            );
            i += 1;
        }
        let r = ToolResponse { raw: self.raw.clone(), headers, body: self.body.clone() };
        assert(r@.headers =~= self@.headers);
        r
    }
}

impl Clone for ToolResultStatus {
    fn clone(&self) -> (r: ToolResultStatus)
        ensures
            r@ == self@,
    {
        match self {
            ToolResultStatus::Success => ToolResultStatus::Success,
            ToolResultStatus::Error { message } => ToolResultStatus::Error { message: message.clone() },
            ToolResultStatus::Cancelled { reason } => ToolResultStatus::Cancelled { reason: reason.clone() },
        }
    }
}

impl Clone for ToolResultItem {
    fn clone(&self) -> (r: ToolResultItem)
        ensures
            r@ == self@,
    {
        ToolResultItem {
            call_id: self.call_id.clone(),
            tool_type: self.tool_type,
            status: self.status.clone(),
            output: self.output.clone(),
        }
    }
}

impl Clone for ContextItem {
    fn clone(&self) -> (r: ContextItem)
        ensures
            r@ == self@,
    {
        match self {
            ContextItem::Message(m) => {
                let mut content: Vec<ContentPart> = Vec::new();
                let mut i: usize = 0;
                while i < m.content.len()
                    invariant
                        i <= m.content.len(),
                        content.len() == i,
                        forall|k: int| 0 <= k < i ==> (#[trigger] content@[k])->text@ == m.content@[k]->text@,
                    decreases m.content.len() - i,
                {
                    let ContentPart::Text { text } = &m.content[i];
                    content.push(ContentPart::Text { text: text.clone() });
                    i += 1;
                }
                assert(part_texts(content@) =~= part_texts(m.content@));
                ContextItem::Message(MessageItem { role: m.role, content, phase: m.phase })
            },
            ContextItem::ToolCall(c) => ContextItem::ToolCall(
                ToolCallItem {
                    call_id: c.call_id.clone(),
                    name: c.name.clone(),
                    tool_type: c.tool_type,
                    arguments: c.arguments.clone(),
                },
            ),
            ContextItem::ToolResult(r) => ContextItem::ToolResult(r.clone()),
            ContextItem::ReasoningText(t) => ContextItem::ReasoningText(
                ReasoningTextItem { kind: t.kind, text: t.text.clone() },
            ),
            ContextItem::Reasoning(o) => ContextItem::Reasoning(OpaqueProviderItem(o.0.clone())),
            ContextItem::CompactionTrigger => ContextItem::CompactionTrigger,
            ContextItem::Compaction(o) => ContextItem::Compaction(OpaqueProviderItem(o.0.clone())),
            ContextItem::UnknownProviderItem(o) => ContextItem::UnknownProviderItem(
                OpaqueProviderItem(o.0.clone()),
            ),
        }
    }
}

/// The items of one block.
pub open spec fn block_items(block: ContextBlock) -> Seq<Item> {
    match block {
        ContextBlock::UserInput(b) => items_view(b.items@),
        ContextBlock::AssistantResponse(b) => items_view(b.output_items@),
        ContextBlock::ToolResults(b) => results_view(b.items@),
    }
}

/// The items of all blocks, in order.
pub open spec fn timeline(blocks: Seq<ContextBlock>) -> Seq<Item>
    decreases blocks.len(),
{
    if blocks.len() == 0 {
        Seq::empty()
    } else {
        timeline(blocks.drop_last()) + block_items(blocks.last())
    }
}

fn push_items(out: &mut Vec<ContextItem>, items: &Vec<ContextItem>)
    ensures
        items_view(final(out)@) == items_view(old(out)@) + items_view(items@),
{
    let ghost before = items_view(out@);
    let ghost all = items_view(items@);
    let mut i: usize = 0;
    assert(before + all.take(0) =~= before);
    while i < items.len()
        invariant
            i <= items.len(),
            all == items_view(items@),
            items_view(out@) == before + all.take(i as int),
        decreases items.len() - i,
    {
        let ghost now = items_view(out@);
        out.push(items[i].clone());
        assert(items_view(out@) =~= now.push(all[i as int]));
        i += 1;
        assert(before + all.take(i as int) =~= now.push(all[i - 1]));
    }
    assert(all.take(all.len() as int) =~= all);
}

fn push_results(out: &mut Vec<ContextItem>, items: &Vec<ToolResultItem>)
    ensures
        items_view(final(out)@) == items_view(old(out)@) + results_view(items@),
{
    let ghost before = items_view(out@);
    let ghost all = results_view(items@);
    let mut i: usize = 0;
    assert(before + all.take(0) =~= before);
    while i < items.len()
        invariant
            i <= items.len(),
            all == results_view(items@),
            items_view(out@) == before + all.take(i as int),
        decreases items.len() - i,
    {
        let ghost now = items_view(out@);
        out.push(ContextItem::ToolResult(items[i].clone()));
        assert(items_view(out@) =~= now.push(all[i as int]));
        i += 1;
        assert(before + all.take(i as int) =~= now.push(all[i - 1]));
    }
    assert(all.take(all.len() as int) =~= all);
}

impl PromptContext {
    /// The items of all blocks, in order.
    #[must_use]
    pub fn flatten(&self) -> (r: Vec<ContextItem>)
        ensures
            items_view(r@) == timeline(self.blocks@),
    {
        let mut out: Vec<ContextItem> = Vec::new();
        let mut i: usize = 0;
        assert(items_view(out@) =~= timeline(self.blocks@.take(0)));
        while i < self.blocks.len()
            invariant
                i <= self.blocks.len(),
                items_view(out@) == timeline(self.blocks@.take(i as int)),
            decreases self.blocks.len() - i,
        {
            assert(self.blocks@.take(i + 1).drop_last() =~= self.blocks@.take(i as int));
            match &self.blocks[i] {
                ContextBlock::UserInput(block) => push_items(&mut out, &block.items),
                ContextBlock::AssistantResponse(block) => push_items(&mut out, &block.output_items),
                ContextBlock::ToolResults(block) => push_results(&mut out, &block.items),
            }
            i += 1;
        }
        assert(self.blocks@.take(self.blocks.len() as int) =~= self.blocks@);
        out
    }

    /// The items of all blocks, in order, for walking over.
    pub fn flatten_iter(&self) -> (r: Vec<ContextItem>)
        ensures
            items_view(r@) == timeline(self.blocks@),
    {
        self.flatten()
    }
}

impl Default for PromptContext {
    fn default() -> (r: PromptContext)
        ensures
            r.blocks@.len() == 0,
    {
        PromptContext { blocks: Vec::new() }
    }
}

} // verus!

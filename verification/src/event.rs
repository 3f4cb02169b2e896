//! The events that the harness, its extensions and its clients exchange.
use vstd::prelude::*;
use vstd::string::*;
use crate::cbor::{Cbor, CborValue};
use crate::json::{option_json, Json, JsonValue};
use crate::session::{messages_view, option_cbor, option_text, ConversationMessage, Message};
use crate::text::{begins, decimal, decimal_text, same, starts_with, texts};

verus! {

// ---------------------------------------------------------------------------
// Small types
// ---------------------------------------------------------------------------

/// How much effort the model spends on reasoning.
#[derive(Clone, Copy, Debug, PartialEq, Eq, Structural)]
pub enum Effort {
    Off,
    Minimal,
    Low,
    Medium,
    High,
    XHigh,
}

/// How a provider summarises its reasoning.
#[derive(Clone, Copy, Debug, PartialEq, Eq, Structural)]
pub enum ThinkingSummary {
    Off,
    Auto,
}

/// How loudly an informational message is shown.
#[derive(Clone, Copy, Debug, PartialEq, Eq, Structural)]
pub enum HarnessInfoLevel {
    Normal,
    Important,
}

/// Whether a tool changes anything.
#[derive(Clone, Copy, Debug, PartialEq, Eq, Structural)]
pub enum ToolSideEffects {
    Pure,
    Mutating,
}

impl View for ToolSideEffects {
    type V = ToolSideEffects;

    open spec fn view(&self) -> ToolSideEffects {
        *self
    }
}

/// What kind of peer a connection is.
#[derive(Clone, Copy, Debug, PartialEq, Eq, Structural)]
pub enum ClientKind {
    Ui,
    Agent,
    Tool,
}

/// How a connection came about.
#[derive(Clone, Copy, Debug, PartialEq, Eq, Structural)]
pub enum ConnectionOrigin {
    InMemory,
    Supervised,
    Socket,
}

/// Why a session started.
#[derive(Clone, Copy, Debug, PartialEq, Eq, Structural)]
pub enum SessionStartReason {
    Initial,
    New,
    Resume,
}

/// Chooses events by their names.
#[derive(Clone, Debug, PartialEq, Eq)]
pub enum EventSelector {
    /// The event with this name.
    Exact(String),
    /// Every event whose name begins with this.
    Prefix(String),
}

/// What an `EventSelector` holds.
pub enum Selector {
    Exact(Seq<char>),
    Prefix(Seq<char>),
}

impl View for EventSelector {
    type V = Selector;

    open spec fn view(&self) -> Selector {
        match self {
            EventSelector::Exact(name) => Selector::Exact(name@),
            EventSelector::Prefix(prefix) => Selector::Prefix(prefix@),
        }
    }
}

/// The views of a list of selectors.
pub open spec fn selectors_view(selectors: Seq<EventSelector>) -> Seq<Selector> {
    selectors.map_values(|s: EventSelector| s@)
}

/// A copy of a list of selectors.
pub fn copy_selectors(selectors: &Vec<EventSelector>) -> (r: Vec<EventSelector>)
    ensures
        selectors_view(r@) == selectors_view(selectors@),
{
    let mut r: Vec<EventSelector> = Vec::new();
    let mut i: usize = 0;
    while i < selectors.len()
        invariant
            i <= selectors.len(),
            r.len() == i,
            forall|k: int| 0 <= k < i ==> (#[trigger] r@[k])@ == selectors@[k]@,
        decreases selectors.len() - i,
    {
        let copy = match &selectors[i] {
            EventSelector::Exact(name) => EventSelector::Exact(name.clone()),
            EventSelector::Prefix(prefix) => EventSelector::Prefix(prefix.clone()),
        };
        r.push(copy);
        i += 1;
    }
    assert(selectors_view(r@) =~= selectors_view(selectors@));
    r
}

/// Whether a selector chooses the event named `name`.
pub open spec fn selects(selector: Selector, name: Seq<char>) -> bool {
    match selector {
        Selector::Exact(expected) => expected == name,
        Selector::Prefix(prefix) => begins(name, prefix),
    }
}

/// Whether one of the selectors chooses the event named `name`.
pub open spec fn any_selects(selectors: Seq<Selector>, name: Seq<char>) -> bool {
    exists|i: int| 0 <= i < selectors.len() && selects(#[trigger] selectors[i], name)
}

/// Whether one of the selectors chooses the event named `name`.
pub fn selector_matches_name(selectors: &Vec<EventSelector>, name: &str) -> (r: bool)
    ensures
        r == any_selects(selectors_view(selectors@), name@),
{
    let ghost all = selectors_view(selectors@);
    let mut i: usize = 0;
    while i < selectors.len()
        invariant
            i <= selectors.len(),
            all == selectors_view(selectors@),
            forall|k: int| 0 <= k < i ==> !selects(#[trigger] all[k], name@),
        decreases selectors.len() - i,
    {
        let chosen = match &selectors[i] {
            EventSelector::Exact(expected) => same(expected.as_str(), name),
            EventSelector::Prefix(prefix) => starts_with(name, prefix.as_str()),
        };
        assert(all[i as int] == selectors@[i as int]@);
        if chosen {
            return true;
        }
        i += 1;
    }
    false
}

/// A tool name as it came from the model: checked, or not acceptable.
#[derive(Clone, Debug, PartialEq, Eq)]
pub enum ToolNameMaybe {
    Valid(String),
    Invalid(String),
}

/// Whether a character may stand in a tool name.
pub open spec fn tool_name_char(c: char) -> bool {
    ('a' <= c && c <= 'z') || ('A' <= c && c <= 'Z') || ('0' <= c && c <= '9') || c == '_'
}

/// Whether a text is a tool name: not empty, and letters, digits and underscores
/// only.
pub open spec fn is_tool_name(s: Seq<char>) -> bool {
    s.len() > 0 && forall|i: int| 0 <= i < s.len() ==> tool_name_char(#[trigger] s[i])
}

impl ToolNameMaybe {
    /// The name as it came.
    pub open spec fn raw(self) -> Seq<char> {
        match self {
            ToolNameMaybe::Valid(s) => s@,
            ToolNameMaybe::Invalid(s) => s@,
        }
    }

    /// Sorts a raw name into the acceptable and the others.
    pub fn from_raw(raw: String) -> (r: ToolNameMaybe)
        ensures
            r.raw() == raw@,
            r is Valid <==> is_tool_name(raw@),
    {
        let v = crate::text::chars_of(raw.as_str());
        let mut i: usize = 0;
        let mut good = v.len() > 0;
        while i < v.len()
            invariant
                i <= v.len(),
                v@ == raw@,
                good <==> v.len() > 0 && forall|k: int| 0 <= k < i ==> tool_name_char(#[trigger] v@[k]),
            decreases v.len() - i,
        {
            let c: char = v[i];
            let ok = ('a' <= c && c <= 'z') || ('A' <= c && c <= 'Z') || ('0' <= c && c <= '9') || c == '_';
            assert(ok == tool_name_char(v@[i as int]));
            good = good && ok;
            i += 1;
        }
        if good {
            ToolNameMaybe::Valid(raw)
        } else {
            ToolNameMaybe::Invalid(raw)
        }
    }
}

// ---------------------------------------------------------------------------
// Payloads
// ---------------------------------------------------------------------------

/// A peer introduces itself.
#[derive(Clone, Debug, PartialEq, Eq)]
pub struct LifecycleHello {
    pub protocol_version: u32,
    pub client_name: String,
    pub client_kind: ClientKind,
}

/// A peer asks for the events that its selectors choose.
#[derive(Clone, Debug, PartialEq, Eq)]
pub struct LifecycleSubscribe {
    pub selectors: Vec<EventSelector>,
}

/// A tool as an extension declares it.
#[derive(Clone, Debug, PartialEq, Eq)]
pub struct ToolSpec {
    pub name: String,
    pub description: Option<String>,
    pub parameters: Option<JsonValue>,
    pub side_effects: ToolSideEffects,
}

/// A tool as the agent sees it.
#[derive(Clone, Debug, PartialEq, Eq)]
pub struct ToolDefinition {
    pub name: String,
    pub description: Option<String>,
    pub parameters: Option<JsonValue>,
}

/// What a `ToolDefinition` holds.
pub struct Tool {
    pub name: Seq<char>,
    pub description: Option<Seq<char>>,
    pub parameters: Option<Json>,
}

impl ToolDefinition {
    pub open spec fn view(&self) -> Tool {
        Tool {
            name: self.name@,
            description: option_text(self.description),
            parameters: option_json(self.parameters),
        }
    }
}

/// The views of a list of tools.
pub open spec fn tools_view(tools: Seq<ToolDefinition>) -> Seq<Tool> {
    tools.map_values(|t: ToolDefinition| t@)
}

/// A tool is to be run.
#[derive(Clone, Debug, PartialEq, Eq)]
pub struct ToolRequest {
    pub call_id: String,
    pub tool_name: String,
    pub arguments: CborValue,
}

/// A tool returned a value.
#[derive(Clone, Debug, PartialEq, Eq)]
pub struct ToolResult {
    pub call_id: String,
    pub tool_name: String,
    pub result: CborValue,
}

/// A tool failed.
#[derive(Clone, Debug, PartialEq, Eq)]
pub struct ToolError {
    pub call_id: String,
    pub tool_name: String,
    pub message: String,
    pub details: Option<CborValue>,
}

/// How far a tool has come.
#[derive(Clone, Debug, PartialEq, Eq)]
pub struct ProgressUpdate {
    pub current: Option<u64>,
    pub total: Option<u64>,
}

/// A tool reports on its way.
#[derive(Clone, Debug, PartialEq, Eq)]
pub struct ToolProgress {
    pub call_id: String,
    pub tool_name: String,
    pub message: Option<String>,
    pub progress: Option<ProgressUpdate>,
}

/// A command that the user ran has finished.
#[derive(Clone, Debug, PartialEq, Eq)]
pub struct ShellCommandFinished {
    pub session_id: String,
    pub command: String,
    pub output: String,
    pub exit_code: Option<i32>,
    pub cancelled: bool,
    pub include_in_context: bool,
}

/// An extension found a skill.
#[derive(Clone, Debug, PartialEq, Eq)]
pub struct ExtSkillAvailable {
    pub name: String,
    pub description: String,
    pub file_path: String,
    pub add_to_prompt: bool,
}

/// An extension found a file of instructions.
#[derive(Clone, Debug, PartialEq, Eq)]
pub struct ExtAgentsMdAvailable {
    pub file_path: String,
    pub content: String,
}

/// One tool call of the agent.
#[derive(Clone, Debug, PartialEq, Eq)]
pub struct AgentToolCall {
    pub id: String,
    pub name: ToolNameMaybe,
    pub arguments: CborValue,
}

/// The agent finished its answer.
#[derive(Clone, Debug, PartialEq, Eq)]
pub struct AgentResponseFinished {
    pub session_prompt_id: String,
    pub text: Option<String>,
    pub tool_calls: Vec<AgentToolCall>,
    pub input_tokens: Option<u64>,
    pub cached_tokens: Option<u64>,
    pub thinking: Option<String>,
}

/// A prompt for the agent.
#[derive(Clone, Debug, PartialEq, Eq)]
pub struct SessionPromptCreated {
    pub session_prompt_id: String,
    pub session_id: String,
    pub system_prompt: String,
    pub messages: Vec<ConversationMessage>,
    pub tools: Vec<ToolDefinition>,
    pub model: Option<String>,
    pub effort: Effort,
    pub thinking_summary: ThinkingSummary,
}

/// What a `SessionPromptCreated` holds.
#[verifier::ext_equal]
pub struct Prompt {
    pub session_prompt_id: Seq<char>,
    pub session_id: Seq<char>,
    pub system_prompt: Seq<char>,
    pub messages: Seq<Message>,
    pub tools: Seq<Tool>,
    pub model: Option<Seq<char>>,
    pub effort: Effort,
    pub thinking_summary: ThinkingSummary,
}

impl SessionPromptCreated {
    pub open spec fn view(&self) -> Prompt {
        Prompt {
            session_prompt_id: self.session_prompt_id@,
            session_id: self.session_id@,
            system_prompt: self.system_prompt@,
            messages: messages_view(self.messages@),
            tools: tools_view(self.tools@),
            model: option_text(self.model),
            effort: self.effort,
            thinking_summary: self.thinking_summary,
        }
    }
}

/// Which extension a lifecycle event is about.
#[derive(Clone, Debug, PartialEq, Eq)]
pub struct ExtensionNotice {
    pub instance_id: u64,
    pub extension_name: String,
    pub pid: Option<u32>,
}

// ---------------------------------------------------------------------------
// Events
// ---------------------------------------------------------------------------

/// An event.
#[allow(inconsistent_fields)]
#[derive(Debug, PartialEq, Eq)]
pub enum Event {
    /// Everything up to this log position has been processed.
    Ack { up_to: u64 },
    LifecycleHello(LifecycleHello),
    LifecycleSubscribe(LifecycleSubscribe),
    LifecycleReady { message: Option<String> },
    LifecycleConfigure { config: CborValue },
    LifecycleConfigError { message: String },
    LifecycleDisconnect { reason: Option<String> },
    /// An extension publishes an event of its own.
    EmitEvent { event: Box<Event>, transient: bool },
    /// An event with its log position.
    LogEvent { id: u64, event: Box<Event> },
    ToolRegister(ToolSpec),
    ToolRequest(ToolRequest),
    ToolResult(ToolResult),
    ToolError(ToolError),
    ToolProgress(ToolProgress),
    ShellCommandProgress { command_id: String, chunk: String },
    ShellCommandFinished(ShellCommandFinished),
    ExtSkillAvailable(ExtSkillAvailable),
    ExtAgentsMdAvailable(ExtAgentsMdAvailable),
    ExtensionContextReady { session_id: String },
    ExtensionStarting(ExtensionNotice),
    ExtensionReady(ExtensionNotice),
    ExtensionExited(ExtensionNotice),
    ExtensionRestarting { notice: ExtensionNotice, attempt: u32, reason: Option<String> },
    ExtensionEvent { session_id: Option<String>, name: String, payload: CborValue },
    /// An agent has been started.
    AgentStarted { parent_agent: Option<String>, agent_id: String, role: String, display_name: Option<String> },
    AgentPromptSubmitted { session_prompt_id: String },
    AgentResponseUpdated { session_prompt_id: String, text: String },
    AgentResponseFinished(AgentResponseFinished),
    SessionPromptQueued { session_id: String, text: String },
    SessionStarted { session_id: String, reason: SessionStartReason },
    SessionShutdown { session_id: String },
    /// An agent joins a session.
    SessionAgentLoaded { session_id: String, agent_id: String },
    /// An agent leaves a session.
    SessionAgentUnloaded { session_id: String, agent_id: String },
    SessionPromptCreated(SessionPromptCreated),
    UiPromptSubmitted { session_id: String, text: String },
    UiShellCommand { session_id: String, command: String },
    UiModelSelect { model: String },
    UiSetEffort { level: Effort },
    UiSwitchSession { new_session_id: String, reason: SessionStartReason },
    UiTreeRequest { session_id: String },
    UiNavigateTree { session_id: String, node_id: u64 },
    UiDetachRequest,
    HarnessInfo { message: String, level: HarnessInfoLevel },
    HarnessModelSelected { model: String, context_window: Option<u64> },
    HarnessModelsAvailable { models: Vec<String> },
    HarnessContextUsageChanged {
        input_tokens: Option<u64>,
        cached_tokens: Option<u64>,
        percent_used: Option<u8>,
    },
    HarnessEffortChanged { level: Effort },
    HarnessEffortsAvailable { levels: Vec<Effort> },
}

/// What an event holds, as far as the harness makes such events; every other
/// event stands for itself.
#[allow(inconsistent_fields)]
pub enum EventView {
    Passed(Event),
    Configure(Cbor),
    Disconnect(Option<Seq<char>>),
    Request { call_id: Seq<char>, tool_name: Seq<char>, arguments: Cbor },
    Result { call_id: Seq<char>, tool_name: Seq<char>, result: Cbor },
    Error { call_id: Seq<char>, tool_name: Seq<char>, message: Seq<char>, details: Option<Cbor> },
    Starting(Notice),
    Ready(Notice),
    Exited(Notice),
    Restarting { notice: Notice, attempt: u32, reason: Option<Seq<char>> },
    Queued { session_id: Seq<char>, text: Seq<char> },
    Started { session_id: Seq<char>, reason: SessionStartReason },
    Shutdown { session_id: Seq<char> },
    PromptCreated(Prompt),
    PromptSubmitted { session_id: Seq<char>, text: Seq<char> },
    Info { message: Seq<char>, level: HarnessInfoLevel },
    ModelSelected { model: Seq<char>, context_window: Option<u64> },
    ModelsAvailable(Seq<Seq<char>>),
    ContextUsage { input_tokens: Option<u64>, cached_tokens: Option<u64>, percent_used: Option<u8> },
    EffortChanged(Effort),
    EffortsAvailable(Seq<Effort>),
}

/// What an `ExtensionNotice` holds.
pub struct Notice {
    pub instance_id: u64,
    pub extension_name: Seq<char>,
    pub pid: Option<u32>,
}

impl ExtensionNotice {
    pub open spec fn view(&self) -> Notice {
        Notice {
            instance_id: self.instance_id,
            extension_name: self.extension_name@,
            pid: self.pid,
        }
    }
}

impl Event {
    pub open spec fn view(&self) -> EventView {
        match self {
            Event::LifecycleConfigure { config } => EventView::Configure(config@),
            Event::LifecycleDisconnect { reason } => EventView::Disconnect(option_text(*reason)),
            Event::ToolRequest(r) => EventView::Request {
                call_id: r.call_id@,
                tool_name: r.tool_name@,
                arguments: r.arguments@,
            },
            Event::ToolResult(r) => EventView::Result {
                call_id: r.call_id@,
                tool_name: r.tool_name@,
                result: r.result@,
            },
            Event::ToolError(e) => EventView::Error {
                call_id: e.call_id@,
                tool_name: e.tool_name@,
                message: e.message@,
                details: option_cbor(e.details),
            },
            Event::ExtensionStarting(n) => EventView::Starting(n@),
            Event::ExtensionReady(n) => EventView::Ready(n@),
            Event::ExtensionExited(n) => EventView::Exited(n@),
            Event::ExtensionRestarting { notice, attempt, reason } => EventView::Restarting {
                notice: notice@,
                attempt: *attempt,
                reason: option_text(*reason),
            },
            Event::SessionPromptQueued { session_id, text } => EventView::Queued {
                session_id: session_id@,
                text: text@,
            },
            Event::SessionStarted { session_id, reason } => EventView::Started {
                session_id: session_id@,
                reason: *reason,
            },
            Event::SessionShutdown { session_id } => EventView::Shutdown { session_id: session_id@ },
            Event::SessionPromptCreated(p) => EventView::PromptCreated(p@),
            Event::UiPromptSubmitted { session_id, text } => EventView::PromptSubmitted {
                session_id: session_id@,
                text: text@,
            },
            Event::HarnessInfo { message, level } => EventView::Info { message: message@, level: *level },
            Event::HarnessModelSelected { model, context_window } => EventView::ModelSelected {
                model: model@,
                context_window: *context_window,
            },
            Event::HarnessModelsAvailable { models } => EventView::ModelsAvailable(texts(models@)),
            Event::HarnessContextUsageChanged { input_tokens, cached_tokens, percent_used } => EventView::ContextUsage {
                input_tokens: *input_tokens,
                cached_tokens: *cached_tokens,
                percent_used: *percent_used,
            },
            Event::HarnessEffortChanged { level } => EventView::EffortChanged(*level),
            Event::HarnessEffortsAvailable { levels } => EventView::EffortsAvailable(levels@),
            other => EventView::Passed(*other),
        }
    }
}

/// The name of an event.
pub open spec fn event_name(event: EventView) -> Seq<char> {
    match event {
        EventView::Passed(e) => match e {
            Event::Ack { up_to: _ } => "lifecycle.ack"@,
            Event::LifecycleHello(_) => "lifecycle.hello"@,
            Event::LifecycleSubscribe(_) => "lifecycle.subscribe"@,
            Event::LifecycleReady { message: _ } => "lifecycle.ready"@,
            Event::LifecycleConfigError { message: _ } => "lifecycle.config_error"@,
            Event::EmitEvent { event: _, transient: _ } => "lifecycle.emit"@,
            Event::LogEvent { id: _, event: _ } => "lifecycle.log_event"@,
            Event::ToolRegister(_) => "tool.register"@,
            Event::ToolProgress(_) => "tool.progress"@,
            Event::ShellCommandProgress { command_id: _, chunk: _ } => "shell.command_progress"@,
            Event::ShellCommandFinished(_) => "shell.command_finished"@,
            Event::ExtSkillAvailable(_) => "extension.skill_available"@,
            Event::ExtAgentsMdAvailable(_) => "extension.agents_md_available"@,
            Event::ExtensionContextReady { session_id: _ } => "extension.context_ready"@,
            Event::ExtensionEvent { session_id: _, name, payload: _ } => "extension.event."@ + name@,
            Event::AgentStarted { parent_agent: _, agent_id: _, role: _, display_name: _ } => "agent.started"@,
            Event::AgentPromptSubmitted { session_prompt_id: _ } => "agent.prompt_submitted"@,
            Event::AgentResponseUpdated { session_prompt_id: _, text: _ } => "agent.response_updated"@,
            Event::AgentResponseFinished(_) => "agent.response_finished"@,
            Event::SessionAgentLoaded { session_id: _, agent_id: _ } => "session.agent_loaded"@,
            Event::SessionAgentUnloaded { session_id: _, agent_id: _ } => "session.agent_unloaded"@,
            Event::UiShellCommand { session_id: _, command: _ } => "ui.shell_command"@,
            Event::UiModelSelect { model: _ } => "ui.model_select"@,
            Event::UiSetEffort { level: _ } => "ui.set_effort"@,
            Event::UiSwitchSession { new_session_id: _, reason: _ } => "ui.switch_session"@,
            Event::UiTreeRequest { session_id: _ } => "ui.tree_request"@,
            Event::UiNavigateTree { session_id: _, node_id: _ } => "ui.navigate_tree"@,
            _ => "ui.detach_request"@,
        },
        EventView::Configure(_) => "lifecycle.configure"@,
        EventView::Disconnect(_) => "lifecycle.disconnect"@,
        EventView::Request { .. } => "tool.request"@,
        EventView::Result { .. } => "tool.result"@,
        EventView::Error { .. } => "tool.error"@,
        EventView::Starting(_) => "extension.starting"@,
        EventView::Ready(_) => "extension.ready"@,
        EventView::Exited(_) => "extension.exited"@,
        EventView::Restarting { .. } => "extension.restarting"@,
        EventView::Queued { .. } => "session.prompt_queued"@,
        EventView::Started { .. } => "session.started"@,
        EventView::Shutdown { .. } => "session.shutdown"@,
        EventView::PromptCreated(_) => "session.prompt_created"@,
        EventView::PromptSubmitted { .. } => "ui.prompt_submitted"@,
        EventView::Info { .. } => "harness.info"@,
        EventView::ModelSelected { .. } => "harness.model_selected"@,
        EventView::ModelsAvailable(_) => "harness.models_available"@,
        EventView::ContextUsage { .. } => "harness.context_usage_changed"@,
        EventView::EffortChanged(_) => "harness.effort_changed"@,
        EventView::EffortsAvailable(_) => "harness.efforts_available"@,
    }
}

/// The name by which selectors choose an event: that of the event inside a log
/// delivery.
pub open spec fn selection_name(event: EventView) -> Seq<char> {
    match event {
        EventView::Passed(Event::LogEvent { id: _, event }) => event_name(event.view()),
        other => event_name(other),
    }
}

impl Event {
    /// The name of the event.
    pub fn name(&self) -> (r: String)
        ensures
            r@ == event_name(self@),
    {
        match self {
            Event::Ack { up_to: _ } => "lifecycle.ack".to_owned(),
            Event::LifecycleHello(_) => "lifecycle.hello".to_owned(),
            Event::LifecycleSubscribe(_) => "lifecycle.subscribe".to_owned(),
            Event::LifecycleReady { message: _ } => "lifecycle.ready".to_owned(),
            Event::LifecycleConfigure { config: _ } => "lifecycle.configure".to_owned(),
            Event::LifecycleConfigError { message: _ } => "lifecycle.config_error".to_owned(),
            Event::LifecycleDisconnect { reason: _ } => "lifecycle.disconnect".to_owned(),
            Event::EmitEvent { event: _, transient: _ } => "lifecycle.emit".to_owned(),
            Event::LogEvent { id: _, event: _ } => "lifecycle.log_event".to_owned(),
            Event::ToolRegister(_) => "tool.register".to_owned(),
            Event::ToolRequest(_) => "tool.request".to_owned(),
            Event::ToolResult(_) => "tool.result".to_owned(),
            Event::ToolError(_) => "tool.error".to_owned(),
            Event::ToolProgress(_) => "tool.progress".to_owned(),
            Event::ShellCommandProgress { command_id: _, chunk: _ } => "shell.command_progress".to_owned(),
            Event::ShellCommandFinished(_) => "shell.command_finished".to_owned(),
            Event::ExtSkillAvailable(_) => "extension.skill_available".to_owned(),
            Event::ExtAgentsMdAvailable(_) => "extension.agents_md_available".to_owned(),
            Event::ExtensionContextReady { session_id: _ } => "extension.context_ready".to_owned(),
            Event::ExtensionStarting(_) => "extension.starting".to_owned(),
            Event::ExtensionReady(_) => "extension.ready".to_owned(),
            Event::ExtensionExited(_) => "extension.exited".to_owned(),
            Event::ExtensionRestarting { notice: _, attempt: _, reason: _ } => "extension.restarting".to_owned(),
            Event::ExtensionEvent { session_id: _, name, payload: _ } => {
                let mut r = "extension.event.".to_owned();
                r.append(name.as_str());
                r
            },
            Event::AgentStarted { parent_agent: _, agent_id: _, role: _, display_name: _ } => {
                "agent.started".to_owned()
            },
            Event::AgentPromptSubmitted { session_prompt_id: _ } => "agent.prompt_submitted".to_owned(),
            Event::AgentResponseUpdated { session_prompt_id: _, text: _ } => "agent.response_updated".to_owned(),
            Event::AgentResponseFinished(_) => "agent.response_finished".to_owned(),
            Event::SessionPromptQueued { session_id: _, text: _ } => "session.prompt_queued".to_owned(),
            Event::SessionStarted { session_id: _, reason: _ } => "session.started".to_owned(),
            Event::SessionShutdown { session_id: _ } => "session.shutdown".to_owned(),
            Event::SessionAgentLoaded { session_id: _, agent_id: _ } => "session.agent_loaded".to_owned(),
            Event::SessionAgentUnloaded { session_id: _, agent_id: _ } => "session.agent_unloaded".to_owned(),
            Event::SessionPromptCreated(_) => "session.prompt_created".to_owned(),
            Event::UiPromptSubmitted { session_id: _, text: _ } => "ui.prompt_submitted".to_owned(),
            Event::UiShellCommand { session_id: _, command: _ } => "ui.shell_command".to_owned(),
            Event::UiModelSelect { model: _ } => "ui.model_select".to_owned(),
            Event::UiSetEffort { level: _ } => "ui.set_effort".to_owned(),
            Event::UiSwitchSession { new_session_id: _, reason: _ } => "ui.switch_session".to_owned(),
            Event::UiTreeRequest { session_id: _ } => "ui.tree_request".to_owned(),
            Event::UiNavigateTree { session_id: _, node_id: _ } => "ui.navigate_tree".to_owned(),
            Event::UiDetachRequest => "ui.detach_request".to_owned(),
            Event::HarnessInfo { message: _, level: _ } => "harness.info".to_owned(),
            Event::HarnessModelSelected { model: _, context_window: _ } => "harness.model_selected".to_owned(),
            Event::HarnessModelsAvailable { models: _ } => "harness.models_available".to_owned(),
            Event::HarnessContextUsageChanged { input_tokens: _, cached_tokens: _, percent_used: _ } => {
                "harness.context_usage_changed".to_owned()
            },
            Event::HarnessEffortChanged { level: _ } => "harness.effort_changed".to_owned(),
            Event::HarnessEffortsAvailable { levels: _ } => "harness.efforts_available".to_owned(),
        }
    }
}

/// Whether one of the selectors chooses the event.
pub fn selector_matches_event(selectors: &Vec<EventSelector>, event: &Event) -> (r: bool)
    ensures
        r == any_selects(selectors_view(selectors@), selection_name(event@)),
{
    let name = match event {
        Event::LogEvent { id: _, event: inner } => inner.name(),
        _ => event.name(),
    };
    selector_matches_name(selectors, name.as_str())
}

/// Whether an event is shown while it happens and never kept.
pub open spec fn is_transient_event(event: EventView) -> bool {
    match event {
        EventView::Passed(e) => e is ToolProgress || e is ShellCommandProgress || e is AgentResponseUpdated,
        _ => false,
    }
}

impl Event {
    /// Whether the event is shown while it happens and never kept.
    pub fn is_transient(&self) -> (r: bool)
        ensures
            r == is_transient_event(self@),
    {
        match self {
            Event::ToolProgress(_) => true,
            Event::ShellCommandProgress { command_id: _, chunk: _ } => true,
            Event::AgentResponseUpdated { session_prompt_id: _, text: _ } => true,
            _ => false,
        }
    }
}

// ---------------------------------------------------------------------------
// Lines for people
// ---------------------------------------------------------------------------

/// The line that shows a tool's progress.
pub open spec fn progress_line(p: ToolProgress) -> Seq<char> {
    p.tool_name@ + (match p.message {
        Some(message) => ": "@ + message@,
        None => Seq::empty(),
    }) + (match p.progress {
        Some(ProgressUpdate { current: Some(current), total: Some(total) }) => " ("@ + decimal(
            current as nat,
        ) + "/"@ + decimal(total as nat) + ")"@,
        _ => Seq::empty(),
    })
}

/// Formats a tool's progress for display.
pub fn format_tool_progress(progress: &ToolProgress) -> (r: String)
    ensures
        r@ == progress_line(*progress),
{
    let mut text = progress.tool_name.clone();
    match &progress.message {
        Some(message) => {
            text.append(": ");
            text.append(message.as_str());
            assert(text@ =~= progress.tool_name@ + (": "@ + message@));
        },
        None => {
            assert(text@ =~= progress.tool_name@ + Seq::<char>::empty());
        },
    }
    let ghost so_far = text@;
    match &progress.progress {
        Some(ProgressUpdate { current: Some(current), total: Some(total) }) => {
            text.append(" (");
            text.append(decimal_text(*current as u128).as_str());
            text.append("/");
            text.append(decimal_text(*total as u128).as_str());
            text.append(")");
            assert(text@ =~= so_far + (" ("@ + decimal(*current as nat) + "/"@ + decimal(*total as nat) + ")"@));
        },
        _ => {
            assert(text@ =~= so_far + Seq::<char>::empty());
        },
    }
    text
}

/// The line that shows an extension's lifecycle event; of any other event, its
/// name.
pub open spec fn extension_line(event: EventView) -> Seq<char> {
    match event {
        EventView::Starting(n) => "extension "@ + n.extension_name + " starting"@,
        EventView::Ready(n) => "extension "@ + n.extension_name + " ready"@,
        EventView::Exited(n) => "extension "@ + n.extension_name + " exited"@,
        EventView::Restarting { notice, .. } => "extension "@ + notice.extension_name + " restarting"@,
        other => event_name(other),
    }
}

/// The text `extension <name> <what>`.
pub fn extension_text(name: &str, what: &str) -> (r: String)
    ensures
        r@ == "extension "@ + name@ + what@,
{
    let mut r = "extension ".to_owned();
    r.append(name);
    r.append(what);
    r
}

/// Formats an extension's lifecycle event for display.
pub fn format_extension_event(event: &Event) -> (r: String)
    ensures
        r@ == extension_line(event@),
{
    match event {
        Event::ExtensionStarting(n) => extension_text(n.extension_name.as_str(), " starting"),
        Event::ExtensionReady(n) => extension_text(n.extension_name.as_str(), " ready"),
        Event::ExtensionExited(n) => extension_text(n.extension_name.as_str(), " exited"),
        Event::ExtensionRestarting { notice, attempt: _, reason: _ } => extension_text(
            notice.extension_name.as_str(),
            " restarting",
        ),
        _ => event.name(),
    }
}

} // verus!

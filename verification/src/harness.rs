//! The harness: sessions, extensions, tool calls and prompts.
//!
//! Every method changes the harness as the functions of `state` say, and puts
//! what is left to do outside into its list of effects.
use vstd::prelude::*;
use vstd::string::*;
use crate::assoc::{entries_view, lookup, removed, stored, TextMap};
use crate::cbor::{cbor_map_text, Cbor, CborValue};
use crate::discovery::{files_view, AgentsFile, DiscoveredAgentsFile, DiscoveredSkill, DiscoveredSkillSource};
use crate::error::HarnessError;
use crate::event::{
    extension_text, selector_matches_name, selectors_view, tools_view, AgentResponseFinished, AgentToolCall,
    ClientKind, ConnectionOrigin, Effort, Event, EventSelector, ExtensionNotice, HarnessInfoLevel,
    SessionPromptCreated, SessionStartReason, ShellCommandFinished, ThinkingSummary, Tool, ToolDefinition, ToolError,
    ToolNameMaybe, ToolRequest, ToolResult, ToolSideEffects, ToolSpec,
};
use crate::event_log::{EventLog, LogEntry};
use crate::json::{json_to_cbor, lemma_object_view, option_json, JsonValue};
use crate::models::{context_percent_used, ModelRegistry};
use crate::order::{positions, sort_positions, sorted_positions};
use crate::paths::equal_paths;
use crate::prompt::{build_system_prompt, render_agents_context_message, system_prompt};
use crate::session::{
    assemble_conversation, conversation, messages_view, option_text, Entry, Outcome, ConversationMessage,
    SessionEntry, SessionStore, ToolActivityOutcome, ToolActivityRecord, Tree,
};
use crate::skills::strip_frontmatter;
use crate::state::{
    acked, advanced, all_ready, blocked, call_begun, call_crossed_off, call_finished, call_made, call_refused,
    call_session, configured, context_lost, context_ready, counted, crossing_off_counts, dispatched, done, drained,
    draining_counts, draining_reported, excluded, ext_at, ext_exited, ext_named, ext_ready, ext_starting, failed,
    files_without, first_of_name, front_dispatched, informed, kind_of, mutating_in_flight, noted, notice_of,
    outcome_kept, peer_at, prompt_for, prompted, published, published_as, registered, registered_names, registration,
    sent, session_of, session_started, set_up, settled, setup_asked, setup_finished, setup_peers, setup_reported,
    skill_called, skill_content, skill_failed, skill_handled, skill_loaded, skill_result, skills_without,
    store_trouble, subscribed, tool_at, tool_called, tool_list, unregistered, with_ext_state, with_file,
    with_kept_entry, with_lifecycle, without_context, without_contexts, write_tried, Call, EffectView, Ext,
    ExtensionState, Logged, Peer, Registered, State, SubmissionView, Tried, Turn,
};
use crate::text::{decimal_text, holds_text, quote, same, texts};

verus! {

broadcast use {
    crate::state::publishing_changes_the_log_alone,
    crate::state::beginning_a_call_leaves_the_queue,
};

// ---------------------------------------------------------------------------
// Types
// ---------------------------------------------------------------------------

/// The connection id under which the harness provides tools of its own.
pub const HARNESS_CONNECTION_ID: &'static str = "__harness__";

/// A connected peer.
#[derive(Clone, Debug, PartialEq, Eq)]
pub struct ConnectionEntry {
    pub id: String,
    pub name: String,
    pub kind: ClientKind,
    pub origin: ConnectionOrigin,
    /// What the peer subscribed to.
    pub selectors: Vec<EventSelector>,
}

impl ConnectionEntry {
    pub open spec fn view(&self) -> Peer {
        Peer {
            id: self.id@,
            name: self.name@,
            kind: self.kind,
            origin: self.origin,
            selectors: selectors_view(self.selectors@),
        }
    }
}

/// A tool with the connection that provides it.
#[derive(Clone, Debug, PartialEq, Eq)]
pub struct ToolProvider {
    pub connection_id: String,
    pub tool: ToolSpec,
}

impl ToolProvider {
    pub open spec fn view(&self) -> Registered {
        registration(self.connection_id@, self.tool)
    }
}

/// A configured extension.
#[derive(Clone, Debug, PartialEq, Eq)]
pub struct ExtensionEntry {
    pub name: String,
    pub instance_id: u64,
    pub connection_id: String,
    pub kind: ClientKind,
    pub pid: Option<u32>,
    /// The configuration of an extension that runs as a process of its own.
    pub supervised_config: Option<JsonValue>,
    pub restart_attempt: u32,
    pub state: ExtensionState,
    /// Everything up to this log position has been processed.
    pub last_acked: u64,
}

impl ExtensionEntry {
    pub open spec fn view(&self) -> Ext {
        Ext {
            name: self.name@,
            instance_id: self.instance_id,
            connection_id: self.connection_id@,
            kind: self.kind,
            pid: self.pid,
            supervised: option_json(self.supervised_config),
            restart_attempt: self.restart_attempt as int,
            state: self.state,
            last_acked: self.last_acked,
        }
    }
}

/// Whose turn it is.
#[derive(Clone, Debug, PartialEq, Eq)]
pub enum TurnState {
    /// The user's.
    Idle,
    /// Extensions set the session up.
    InitializingSession { session_id: String, waiting_on: Vec<String> },
    /// The agent's.
    AgentThinking { session_id: String },
    /// The tools'.
    ToolsRunning { session_id: String, remaining_calls: Vec<String> },
}

impl TurnState {
    pub open spec fn view(&self) -> Turn {
        match self {
            TurnState::Idle => Turn::Idle,
            TurnState::InitializingSession { session_id, waiting_on } => Turn::Initializing {
                session: session_id@,
                waiting_on: texts(waiting_on@),
            },
            TurnState::AgentThinking { session_id } => Turn::Thinking { session: session_id@ },
            TurnState::ToolsRunning { session_id, remaining_calls } => Turn::Running {
                session: session_id@,
                remaining: texts(remaining_calls@),
            },
        }
    }

    /// Whether it is the user's turn.
    pub fn is_idle(&self) -> (r: bool)
        ensures
            r == (self@ is Idle),
    {
        match self {
            TurnState::Idle => true,
            _ => false,
        }
    }
}

/// What became of a prompt of the user.
#[derive(Debug, PartialEq, Eq)]
pub enum PromptSubmission {
    /// It went to the agent.
    Dispatched,
    /// It waits.
    Queued,
    /// It was refused.
    Rejected { reason: String },
}

impl PromptSubmission {
    pub open spec fn view(&self) -> SubmissionView {
        match self {
            PromptSubmission::Dispatched => SubmissionView::Dispatched,
            PromptSubmission::Queued => SubmissionView::Queued,
            PromptSubmission::Rejected { reason } => SubmissionView::Rejected(reason@),
        }
    }
}

/// A tool call of the agent that waits.
#[derive(Clone, Debug, PartialEq, Eq)]
pub struct PendingInvocation {
    pub session_id: String,
    pub call: AgentToolCall,
    pub kind: ToolSideEffects,
}

impl PendingInvocation {
    pub open spec fn view(&self) -> Call {
        Call {
            session: self.session_id@,
            id: self.call.id@,
            name: self.call.name.raw(),
            arguments: self.call.arguments@,
            kind: self.kind,
        }
    }
}

/// An event that a session keeps.
#[derive(Clone, Debug, PartialEq, Eq)]
pub struct KeptEvent {
    pub session_id: String,
    pub name: String,
}

/// What is left to do outside.
#[allow(inconsistent_fields)]
#[derive(Debug, PartialEq, Eq)]
pub enum Effect {
    /// Hand entry `seq` of the log to its subscribers, and keep it with the
    /// session.
    Publish { seq: u64, session: Option<String> },
    /// Hand an event to one connection.
    Send { to: String, event: Event },
    /// Hand entry `seq` of the log to one connection.
    Replay { to: String, seq: u64 },
    /// Hand kept event `index` to one connection.
    ReplayKept { to: String, index: usize },
    /// Hand the request in entry `seq` of the log to the connection that provides
    /// the tool.
    Route { to: String, seq: u64 },
    /// Write down a node of a session, which is its newest.
    KeepEntry { session: String, node: usize },
    /// Write down the head of a session.
    KeepHead { session: String, node: usize },
    /// Start an extension again.
    Respawn { index: usize },
    /// Remember the model and the efforts: write this text down.
    Remember { text: String },
    /// Open the directory of a session.
    OpenSession { session: String },
}

impl Effect {
    pub open spec fn view(&self) -> EffectView {
        match self {
            Effect::Publish { seq, session } => EffectView::Publish {
                seq: *seq as int,
                session: option_text(*session),
            },
            Effect::Send { to, event } => EffectView::Send { to: to@, event: event@ },
            Effect::Replay { to, seq } => EffectView::Replay { to: to@, seq: *seq as int },
            Effect::ReplayKept { to, index } => EffectView::ReplayKept { to: to@, index: *index as int },
            Effect::Route { to, seq } => EffectView::Route { to: to@, seq: *seq as int },
            Effect::KeepEntry { session, node } => EffectView::KeepEntry { session: session@, node: *node as int },
            Effect::KeepHead { session, node } => EffectView::KeepHead { session: session@, node: *node as int },
            Effect::Respawn { index } => EffectView::Respawn { index: *index as int },
            Effect::Remember { text } => EffectView::Remember { text: text@ },
            Effect::OpenSession { session } => EffectView::OpenSession { session: session@ },
        }
    }
}

/// What reading the file of a skill gave.
#[derive(Clone, Debug, PartialEq, Eq)]
pub enum SkillRead {
    Text(String),
    Failed(String),
}

impl View for SkillRead {
    type V = Result<Seq<char>, Seq<char>>;

    open spec fn view(&self) -> Result<Seq<char>, Seq<char>> {
        match self {
            SkillRead::Text(text) => Ok(text@),
            SkillRead::Failed(error) => Err(error@),
        }
    }
}

/// The harness.
pub struct Harness {
    pub connections: Vec<ConnectionEntry>,
    pub registry: Vec<ToolProvider>,
    pub store: SessionStore,
    pub kept_events: Vec<KeptEvent>,
    pub current_session_id: String,
    pub pending_request_sessions: Vec<String>,
    pub pending_tool_sessions: TextMap<String>,
    pub pending_tool_names: TextMap<String>,
    pub pending_tool_providers: TextMap<String>,
    pub event_log: EventLog,
    pub client_writers: Vec<String>,
    pub lifecycle_messages: Vec<String>,
    pub extensions: Vec<ExtensionEntry>,
    pub agent_connection_id: String,
    pub next_session_prompt_id: u64,
    pub next_synthetic_call_id: u64,
    pub prompt_sessions: TextMap<String>,
    pub turn_state: TurnState,
    pub pending_prompts: Vec<(String, String)>,
    pub available_models: Vec<String>,
    pub selected_model: String,
    pub selected_effort: Effort,
    pub selected_thinking_summary: ThinkingSummary,
    pub context_input_tokens: Option<u64>,
    pub context_cached_tokens: Option<u64>,
    pub context_percent_used: Option<u8>,
    pub model_registry: ModelRegistry,
    pub default_efforts: TextMap<Effort>,
    pub last_efforts: TextMap<Effort>,
    pub discovered_skills: TextMap<DiscoveredSkill>,
    pub discovered_agents_files: Vec<DiscoveredAgentsFile>,
    pub initialized_sessions: Vec<String>,
    pub completed_prompts: Vec<String>,
    pub pending_tool_invocations: Vec<PendingInvocation>,
    pub in_flight_tool_kinds: TextMap<ToolSideEffects>,
    pub cwd: String,
    /// What reading the files of skills gave, by path.
    pub skill_texts: TextMap<SkillRead>,
    /// How the next attempts to write to the store end: the error of each that fails.
    pub write_outcomes: Vec<Option<String>>,
    pub effects: Vec<Effect>,
}

/// The outcomes of writes over their views.
pub open spec fn outcomes_view(v: Seq<Option<String>>) -> Seq<Option<Seq<char>>> {
    v.map_values(|o: Option<String>| option_text(o))
}

/// A harness after a step, with the error of the store that cut the step short.
pub open spec fn tried<T>(h: Harness, r: Result<T, String>) -> Tried {
    Tried {
        state: h@,
        error: match r {
            Ok(_) => None,
            Err(error) => Some(error@),
        },
    }
}

pub open spec fn peers_view(v: Seq<ConnectionEntry>) -> Seq<Peer> {
    v.map_values(|c: ConnectionEntry| c@)
}

pub open spec fn registry_view(v: Seq<ToolProvider>) -> Seq<Registered> {
    v.map_values(|t: ToolProvider| t@)
}

pub open spec fn kept_view(v: Seq<KeptEvent>) -> Seq<(Seq<char>, Seq<char>)> {
    v.map_values(|k: KeptEvent| (k.session_id@, k.name@))
}

pub open spec fn log_view(v: Seq<LogEntry>) -> Seq<Logged> {
    v.map_values(|e: LogEntry| Logged { source: option_text(e.source), event: e.event@ })
}

pub open spec fn extensions_view(v: Seq<ExtensionEntry>) -> Seq<Ext> {
    v.map_values(|e: ExtensionEntry| e@)
}

pub open spec fn prompts_view(v: Seq<(String, String)>) -> Seq<(Seq<char>, Seq<char>)> {
    v.map_values(|p: (String, String)| (p.0@, p.1@))
}

pub open spec fn calls_view(v: Seq<PendingInvocation>) -> Seq<Call> {
    v.map_values(|p: PendingInvocation| p@)
}

pub open spec fn effects_view(v: Seq<Effect>) -> Seq<EffectView> {
    v.map_values(|e: Effect| e@)
}

impl Harness {
    /// The state of the harness.
    pub open spec fn view(&self) -> State {
        State {
            connections: peers_view(self.connections@),
            registry: registry_view(self.registry@),
            sessions: self.store@,
            kept: kept_view(self.kept_events@),
            current: self.current_session_id@,
            request_sessions: texts(self.pending_request_sessions@),
            tool_sessions: self.pending_tool_sessions@,
            tool_names: self.pending_tool_names@,
            tool_providers: self.pending_tool_providers@,
            log: log_view(self.event_log.entries@),
            clients: texts(self.client_writers@),
            lifecycle: texts(self.lifecycle_messages@),
            extensions: extensions_view(self.extensions@),
            agent: self.agent_connection_id@,
            next_prompt: self.next_session_prompt_id as int,
            next_synthetic: self.next_synthetic_call_id as int,
            prompt_sessions: self.prompt_sessions@,
            turn: self.turn_state@,
            pending_prompts: prompts_view(self.pending_prompts@),
            models: texts(self.available_models@),
            model: self.selected_model@,
            effort: self.selected_effort,
            thinking_summary: self.selected_thinking_summary,
            input_tokens: self.context_input_tokens,
            cached_tokens: self.context_cached_tokens,
            percent_used: self.context_percent_used,
            providers: self.model_registry@,
            default_efforts: self.default_efforts@,
            last_efforts: self.last_efforts@,
            skills: self.discovered_skills@,
            files: files_view(self.discovered_agents_files@),
            initialized: texts(self.initialized_sessions@),
            completed: texts(self.completed_prompts@),
            pending_calls: calls_view(self.pending_tool_invocations@),
            in_flight: self.in_flight_tool_kinds@,
            cwd: self.cwd@,
            skill_texts: self.skill_texts@,
            writes: outcomes_view(self.write_outcomes@),
            effects: effects_view(self.effects@),
        }
    }

    /// The log numbers its entries.
    pub open spec fn wf(&self) -> bool {
        self.event_log.wf()
    }
}

// ---------------------------------------------------------------------------
// Publishing
// ---------------------------------------------------------------------------

pub(crate) fn copy_option(o: Option<&str>) -> (r: Option<String>)
    ensures
        option_text(r) == (match o {
            Some(s) => Some(s@),
            None => None,
        }),
{
    match o {
        Some(s) => Some(s.to_owned()),
        None => None,
    }
}

/// A reference to a text over its view.
pub open spec fn option_str(o: Option<&str>) -> Option<Seq<char>> {
    match o {
        Some(s) => Some(s@),
        None => None,
    }
}

pub(crate) fn copy_found(o: Option<&String>) -> (r: Option<String>)
    ensures
        r == (match o {
            Some(s) => Some(*s),
            None => None,
        }),
{
    match o {
        Some(s) => Some(s.clone()),
        None => None,
    }
}

impl Harness {
    pub(crate) fn push_effect(&mut self, effect: Effect)
        requires
            old(self).wf(),
        ensures
            final(self).wf(),
            final(self)@ == (State { effects: old(self)@.effects.push(effect@), ..old(self)@ }),
    {
        let ghost before = self@;
        self.effects.push(effect);
        assert(self@ =~= State { effects: before.effects.push(effect@), ..before });
    }

    /// The session that an event belongs to.
    pub fn session_id_for_event(&self, event: &Event) -> (r: Option<String>)
        ensures
            option_text(r) == session_of(self@, event@),
    {
        match event {
            Event::UiPromptSubmitted { session_id, text: _ } => Some(session_id.clone()),
            Event::UiShellCommand { session_id, command: _ } => Some(session_id.clone()),
            Event::UiSwitchSession { new_session_id, reason: _ } => Some(new_session_id.clone()),
            Event::UiTreeRequest { session_id } => Some(session_id.clone()),
            Event::UiNavigateTree { session_id, node_id: _ } => Some(session_id.clone()),
            Event::SessionPromptQueued { session_id, text: _ } => Some(session_id.clone()),
            Event::SessionStarted { session_id, reason: _ } => Some(session_id.clone()),
            Event::SessionShutdown { session_id } => Some(session_id.clone()),
            Event::SessionPromptCreated(created) => Some(created.session_id.clone()),
            Event::AgentPromptSubmitted { session_prompt_id } => copy_found(
                self.prompt_sessions.get(session_prompt_id.as_str()),
            ),
            Event::AgentResponseUpdated { session_prompt_id, text: _ } => copy_found(
                self.prompt_sessions.get(session_prompt_id.as_str()),
            ),
            Event::AgentResponseFinished(finished) => copy_found(
                self.prompt_sessions.get(finished.session_prompt_id.as_str()),
            ),
            Event::ToolRequest(request) => copy_found(self.pending_tool_sessions.get(request.call_id.as_str())),
            Event::ToolResult(result) => copy_found(self.pending_tool_sessions.get(result.call_id.as_str())),
            Event::ToolError(error) => copy_found(self.pending_tool_sessions.get(error.call_id.as_str())),
            Event::ToolProgress(progress) => copy_found(
                self.pending_tool_sessions.get(progress.call_id.as_str()),
            ),
            Event::ShellCommandFinished(finished) => Some(finished.session_id.clone()),
            Event::ExtAgentsMdAvailable(_) => Some(self.current_session_id.clone()),
            Event::ExtensionContextReady { session_id: _ } => Some(self.current_session_id.clone()),
            Event::ExtensionEvent { session_id, name: _, payload: _ } => match session_id {
                Some(id) => Some(id.clone()),
                None => None,
            },
            _ => None,
        }
    }

    /// Publishes an event and says whether it is kept.
    pub fn publish_event_with_transient(&mut self, source: Option<&str>, event: Event, transient: bool)
        requires
            old(self).wf(),
        ensures
            final(self).wf(),
            final(self)@ == published_as(old(self)@, option_str(source), event@, transient),
    {
        let ghost before = self@;
        let session = if transient || event.is_transient() {
            None
        } else {
            self.session_id_for_event(&event)
        };
        match &session {
            Some(id) => {
                let name = event.name();
                self.kept_events.push(KeptEvent { session_id: id.clone(), name });
            },
            None => {},
        }
        let ghost kept = kept_view(self.kept_events@);
        let ghost entries = self.event_log.entries@;
        let (seq, recorded_at) = self.event_log.append(copy_option(source), event);
        self.effects.push(Effect::Publish { seq, session });
        proof {
            reveal(published_as);
            let after = published_as(before, option_str(source), event@, transient);
            assert(kept =~= after.kept);
            assert(self@.log =~= after.log);
            assert(self@.effects =~= after.effects);
            assert(self@ =~= after);
        }
    }

    /// Publishes an event.
    pub fn publish_event(&mut self, source: Option<&str>, event: Event)
        requires
            old(self).wf(),
        ensures
            final(self).wf(),
            final(self)@ == published(old(self)@, option_str(source), event@),
    {
        let transient = event.is_transient();
        self.publish_event_with_transient(source, event, transient);
    }

    /// Publishes a message.
    pub fn emit_info_with_level(&mut self, message: String, level: HarnessInfoLevel)
        requires
            old(self).wf(),
        ensures
            final(self).wf(),
            final(self)@ == informed(old(self)@, message@, level),
    {
        self.publish_event(Some("harness"), Event::HarnessInfo { message, level });
    }

    /// Publishes an ordinary message.
    pub fn emit_info(&mut self, message: String)
        requires
            old(self).wf(),
        ensures
            final(self).wf(),
            final(self)@ == noted(old(self)@, message@),
    {
        self.emit_info_with_level(message, HarnessInfoLevel::Normal);
    }

    pub(crate) fn send_to(&mut self, to: &str, event: Event)
        requires
            old(self).wf(),
        ensures
            final(self).wf(),
            final(self)@ == sent(old(self)@, to@, event@),
    {
        self.push_effect(Effect::Send { to: to.to_owned(), event });
    }

    /// Hands in what reading the files of skills gave.
    pub fn take_skill_texts(&mut self, skill_texts: TextMap<SkillRead>)
        requires
            old(self).wf(),
        ensures
            final(self).wf(),
            final(self)@ == (State { skill_texts: skill_texts@, ..old(self)@ }),
    {
        let ghost before = self@;
        self.skill_texts = skill_texts;
        assert(self@ =~= State { skill_texts: skill_texts@, ..before });
    }

    /// Hands in how the next attempts to write to the store of sessions end.
    pub fn expect_writes(&mut self, outcomes: Vec<Option<String>>)
        requires
            old(self).wf(),
        ensures
            final(self).wf(),
            final(self)@ == (State { writes: outcomes_view(outcomes@), ..old(self)@ }),
    {
        let ghost before = self@;
        self.write_outcomes = outcomes;
        assert(self@ =~= State { writes: outcomes_view(outcomes@), ..before });
    }

    pub(crate) fn try_write(&mut self) -> (r: Result<(), String>)
        requires
            old(self).wf(),
        ensures
            final(self).wf(),
            tried(*final(self), r) == write_tried(old(self)@),
    {
        let ghost before = self@;
        if self.write_outcomes.len() == 0 {
            assert(before.writes.len() == 0);
            return Ok(());
        }
        let outcome = self.write_outcomes.remove(0);
        assert(before.writes[0] == option_text(outcome));
        assert(self@.writes =~= before.writes.drop_first());
        assert(self@ =~= State { writes: before.writes.drop_first(), ..before });
        match outcome {
            Some(error) => Err(error),
            None => Ok(()),
        }
    }

    pub(crate) fn keep_entry(&mut self, session: &str, entry: SessionEntry) -> (r: Result<(), String>)
        requires
            old(self).wf(),
        ensures
            final(self).wf(),
            tried(*final(self), r) == with_kept_entry(old(self)@, session@, entry@),
    {
        let ghost before = self@;
        match self.try_write() {
            Ok(_) => {},
            Err(error) => {
                return Err(error);
            },
        }
        let node: usize = match self.store.session(session) {
            Some(tree) => {
                assert(tree@.nodes.len() == tree.nodes@.len());
                tree.nodes.len()
            },
            None => 0,
        };
        self.store.append(session, entry);
        self.effects.push(Effect::KeepEntry { session: session.to_owned(), node });
        assert(self@ =~= with_kept_entry(before, session@, entry@).state);
        Ok(())
    }
}

// ---------------------------------------------------------------------------
// Lookups
// ---------------------------------------------------------------------------

proof fn lemma_ext_at_stays(v: Seq<Ext>, id: Seq<char>, n: int)
    requires
        0 <= n <= v.len(),
        ext_at(v.take(n), id) is Some,
    ensures
        ext_at(v, id) == ext_at(v.take(n), id),
    decreases v.len(),
{
    if n < v.len() {
        assert(v.drop_last().take(n) =~= v.take(n));
        lemma_ext_at_stays(v.drop_last(), id, n);
    } else {
        assert(v.take(n) =~= v);
    }
}

proof fn lemma_ext_named_stays(v: Seq<Ext>, name: Seq<char>, n: int)
    requires
        0 <= n <= v.len(),
        ext_named(v.take(n), name) is Some,
    ensures
        ext_named(v, name) == ext_named(v.take(n), name),
    decreases v.len(),
{
    if n < v.len() {
        assert(v.drop_last().take(n) =~= v.take(n));
        lemma_ext_named_stays(v.drop_last(), name, n);
    } else {
        assert(v.take(n) =~= v);
    }
}

proof fn lemma_peer_at_stays(v: Seq<Peer>, id: Seq<char>, n: int)
    requires
        0 <= n <= v.len(),
        peer_at(v.take(n), id) is Some,
    ensures
        peer_at(v, id) == peer_at(v.take(n), id),
    decreases v.len(),
{
    if n < v.len() {
        assert(v.drop_last().take(n) =~= v.take(n));
        lemma_peer_at_stays(v.drop_last(), id, n);
    } else {
        assert(v.take(n) =~= v);
    }
}

proof fn lemma_tool_at_stays(v: Seq<Registered>, name: Seq<char>, n: int)
    requires
        0 <= n <= v.len(),
        tool_at(v.take(n), name) is Some,
    ensures
        tool_at(v, name) == tool_at(v.take(n), name),
    decreases v.len(),
{
    if n < v.len() {
        assert(v.drop_last().take(n) =~= v.take(n));
        lemma_tool_at_stays(v.drop_last(), name, n);
    } else {
        assert(v.take(n) =~= v);
    }
}

/// The first registration of a tool.
pub(crate) fn find_tool(registry: &Vec<ToolProvider>, end: usize, name: &str) -> (r: Option<usize>)
    requires
        end <= registry.len(),
    ensures
        match r {
            Some(i) => tool_at(registry_view(registry@).take(end as int), name@) == Some(i as int) && i < end,
            None => tool_at(registry_view(registry@).take(end as int), name@) is None,
        },
{
    let ghost all = registry_view(registry@);
    let mut i: usize = 0;
    assert(all.take(0) =~= Seq::empty());
    while i < end
        invariant
            i <= end <= registry.len(),
            all == registry_view(registry@),
            tool_at(all.take(i as int), name@) is None,
        decreases end - i,
    {
        assert(all.take(i + 1).drop_last() =~= all.take(i as int));
        assert(all.take(i + 1).last() == registry@[i as int]@);
        if same(registry[i].tool.name.as_str(), name) {
            proof {
                assert(all.take(end as int).take(i + 1) =~= all.take(i + 1));
                lemma_tool_at_stays(all.take(end as int), name@, i + 1);
            }
            return Some(i);
        }
        i += 1;
    }
    None
}

impl Harness {
    pub(crate) fn extension_index(&self, connection_id: &str) -> (r: Option<usize>)
        ensures
            match r {
                Some(i) => ext_at(self@.extensions, connection_id@) == Some(i as int) && i < self.extensions.len(),
                None => ext_at(self@.extensions, connection_id@) is None,
            },
    {
        let ghost all = self@.extensions;
        let mut i: usize = 0;
        assert(all.take(0) =~= Seq::empty());
        while i < self.extensions.len()
            invariant
                i <= self.extensions.len(),
                all == extensions_view(self.extensions@),
                ext_at(all.take(i as int), connection_id@) is None,
            decreases self.extensions.len() - i,
        {
            assert(all.take(i + 1).drop_last() =~= all.take(i as int));
            assert(all.take(i + 1).last() == self.extensions@[i as int]@);
            if same(self.extensions[i].connection_id.as_str(), connection_id) {
                proof {
                    lemma_ext_at_stays(all, connection_id@, i + 1);
                }
                return Some(i);
            }
            i += 1;
        }
        assert(all.take(all.len() as int) =~= all);
        None
    }

    pub(crate) fn extension_named(&self, name: &str) -> (r: Option<usize>)
        ensures
            match r {
                Some(i) => ext_named(self@.extensions, name@) == Some(i as int) && i < self.extensions.len(),
                None => ext_named(self@.extensions, name@) is None,
            },
    {
        let ghost all = self@.extensions;
        let mut i: usize = 0;
        assert(all.take(0) =~= Seq::empty());
        while i < self.extensions.len()
            invariant
                i <= self.extensions.len(),
                all == extensions_view(self.extensions@),
                ext_named(all.take(i as int), name@) is None,
            decreases self.extensions.len() - i,
        {
            assert(all.take(i + 1).drop_last() =~= all.take(i as int));
            assert(all.take(i + 1).last() == self.extensions@[i as int]@);
            if same(self.extensions[i].name.as_str(), name) {
                proof {
                    lemma_ext_named_stays(all, name@, i + 1);
                }
                return Some(i);
            }
            i += 1;
        }
        assert(all.take(all.len() as int) =~= all);
        None
    }

    /// Where a connection stands in the list of connections.
    pub fn connection_index(&self, id: &str) -> (r: Option<usize>)
        ensures
            match r {
                Some(i) => peer_at(self@.connections, id@) == Some(i as int) && i < self.connections.len(),
                None => peer_at(self@.connections, id@) is None,
            },
    {
        let ghost all = self@.connections;
        let mut i: usize = 0;
        assert(all.take(0) =~= Seq::empty());
        while i < self.connections.len()
            invariant
                i <= self.connections.len(),
                all == peers_view(self.connections@),
                peer_at(all.take(i as int), id@) is None,
            decreases self.connections.len() - i,
        {
            assert(all.take(i + 1).drop_last() =~= all.take(i as int));
            assert(all.take(i + 1).last() == self.connections@[i as int]@);
            if same(self.connections[i].id.as_str(), id) {
                proof {
                    lemma_peer_at_stays(all, id@, i + 1);
                }
                return Some(i);
            }
            i += 1;
        }
        assert(all.take(all.len() as int) =~= all);
        None
    }

    pub(crate) fn provider_index(&self, name: &str) -> (r: Option<usize>)
        ensures
            match r {
                Some(i) => tool_at(self@.registry, name@) == Some(i as int) && i < self.registry.len(),
                None => tool_at(self@.registry, name@) is None,
            },
    {
        let r = find_tool(&self.registry, self.registry.len(), name);
        assert(self@.registry.take(self.registry.len() as int) =~= self@.registry);
        r
    }

    /// Whether no extension keeps prompts waiting.
    pub fn extensions_all_ready(&self) -> (r: bool)
        ensures
            r == all_ready(self@),
    {
        let mut i: usize = 0;
        while i < self.extensions.len()
            invariant
                i <= self.extensions.len(),
                forall|k: int| 0 <= k < i ==> settled(#[trigger] self@.extensions[k]),
            decreases self.extensions.len() - i,
        {
            let state = self.extensions[i].state;
            assert(self@.extensions[i as int].state == state);
            if !(state == ExtensionState::Ready || state == ExtensionState::Disconnected) {
                assert(!settled(self@.extensions[i as int]));
                return false;
            }
            i += 1;
        }
        true
    }

    /// Whether a fresh prompt cannot go to the agent now.
    pub fn dispatch_blocked(&self) -> (r: bool)
        ensures
            r == blocked(self@),
    {
        self.selected_model.as_str().is_empty() || !self.turn_state.is_idle() || !self.extensions_all_ready()
    }

    /// Whether a session has been set up.
    pub fn session_initialized(&self, session_id: &str) -> (r: bool)
        ensures
            r == self@.initialized.contains(session_id@),
    {
        holds_text(&self.initialized_sessions, session_id)
    }

    /// Whether a tool changes anything; an unknown one may.
    pub fn resolve_tool_kind(&self, name: &str) -> (r: ToolSideEffects)
        ensures
            r == kind_of(self@.registry, name@),
    {
        match self.provider_index(name) {
            Some(i) => self.registry[i].tool.side_effects,
            None => ToolSideEffects::Mutating,
        }
    }

    /// Whether a call that changes something is on its way.
    pub fn has_mutating_in_flight(&self) -> (r: bool)
        ensures
            r == mutating_in_flight(self@.in_flight),
    {
        let ghost all = self@.in_flight;
        let mut i: usize = 0;
        while i < self.in_flight_tool_kinds.entries.len()
            invariant
                i <= self.in_flight_tool_kinds.entries.len(),
                all == entries_view(self.in_flight_tool_kinds.entries@),
                forall|k: int| 0 <= k < i ==> (#[trigger] all[k]).1 != ToolSideEffects::Mutating,
            decreases self.in_flight_tool_kinds.entries.len() - i,
        {
            assert(all[i as int].1 == self.in_flight_tool_kinds.entries@[i as int].1);
            if self.in_flight_tool_kinds.entries[i].1 == ToolSideEffects::Mutating {
                return true;
            }
            i += 1;
        }
        false
    }
}

// ---------------------------------------------------------------------------
// Extensions
// ---------------------------------------------------------------------------

impl Harness {
    /// Notes how far the extension behind a connection has come.
    pub fn set_extension_state(&mut self, connection_id: &str, new_state: ExtensionState)
        requires
            old(self).wf(),
        ensures
            final(self).wf(),
            final(self)@ == with_ext_state(old(self)@, connection_id@, new_state),
    {
        let ghost before = self@;
        match self.extension_index(connection_id) {
            Some(i) => {
                self.extensions[i].state = new_state;
                proof {
                    let after = with_ext_state(before, connection_id@, new_state);
                    assert(self@.extensions =~= after.extensions);
                    assert(self@ =~= after);
                }
            },
            None => {},
        }
    }

    /// Moves the mark of what an extension has processed; never back.
    pub fn acknowledge(&mut self, connection_id: &str, up_to: u64)
        requires
            old(self).wf(),
        ensures
            final(self).wf(),
            final(self)@ == acked(old(self)@, connection_id@, up_to),
    {
        let ghost before = self@;
        match self.extension_index(connection_id) {
            Some(i) => {
                if up_to > self.extensions[i].last_acked {
                    self.extensions[i].last_acked = up_to;
                    proof {
                        let after = acked(before, connection_id@, up_to);
                        assert(self@.extensions =~= after.extensions);
                        assert(self@ =~= after);
                    }
                }
            },
            None => {},
        }
    }

    pub(crate) fn notice(&self, name: &str) -> (r: ExtensionNotice)
        ensures
            r@ == notice_of(self@, name@),
    {
        match self.extension_named(name) {
            Some(i) => ExtensionNotice {
                instance_id: self.extensions[i].instance_id,
                extension_name: name.to_owned(),
                pid: self.extensions[i].pid,
            },
            None => ExtensionNotice { instance_id: 0, extension_name: name.to_owned(), pid: None },
        }
    }

    pub(crate) fn add_lifecycle_message(&mut self, message: String)
        requires
            old(self).wf(),
        ensures
            final(self).wf(),
            final(self)@ == with_lifecycle(old(self)@, message@),
    {
        let ghost before = self@;
        self.lifecycle_messages.push(message);
        proof {
            let after = with_lifecycle(before, message@);
            assert(self@.lifecycle =~= after.lifecycle);
            assert(self@ =~= after);
        }
    }

    /// Announces that an extension starts.
    pub fn emit_extension_starting(&mut self, extension_name: &str)
        requires
            old(self).wf(),
        ensures
            final(self).wf(),
            final(self)@ == ext_starting(old(self)@, extension_name@),
    {
        let notice = self.notice(extension_name);
        self.add_lifecycle_message(extension_text(extension_name, " starting"));
        self.publish_event(Some("harness"), Event::ExtensionStarting(notice));
    }

    /// Announces that the extension behind a connection is ready.
    pub fn emit_extension_ready(&mut self, connection_id: &str)
        requires
            old(self).wf(),
        ensures
            final(self).wf(),
            final(self)@ == ext_ready(old(self)@, connection_id@),
    {
        match self.extension_index(connection_id) {
            Some(i) => {
                let name = self.extensions[i].name.clone();
                let notice = ExtensionNotice {
                    instance_id: self.extensions[i].instance_id,
                    extension_name: self.extensions[i].name.clone(),
                    pid: self.extensions[i].pid,
                };
                self.add_lifecycle_message(extension_text(name.as_str(), " ready"));
                self.publish_event(Some("harness"), Event::ExtensionReady(notice));
            },
            None => {},
        }
    }

    /// Announces that an extension is gone.
    pub fn emit_extension_exited(&mut self, extension_name: &str)
        requires
            old(self).wf(),
        ensures
            final(self).wf(),
            final(self)@ == ext_exited(old(self)@, extension_name@),
    {
        let notice = self.notice(extension_name);
        self.add_lifecycle_message(extension_text(extension_name, " exited"));
        self.publish_event(Some("harness"), Event::ExtensionExited(notice));
    }

    /// Hands an extension its configuration.
    pub fn send_lifecycle_configure(&mut self, source_id: &str)
        requires
            old(self).wf(),
        ensures
            final(self).wf(),
            final(self)@ == configured(old(self)@, source_id@),
    {
        let empty = JsonValue::Object(Vec::new());
        proof {
            lemma_object_view(empty);
            assert(empty@->Object_0 =~= Seq::empty());
        }
        let config = match self.extension_index(source_id) {
            Some(i) => match &self.extensions[i].supervised_config {
                Some(json) => json_to_cbor(json),
                None => json_to_cbor(&empty),
            },
            None => json_to_cbor(&empty),
        };
        self.send_to(source_id, Event::LifecycleConfigure { config });
    }

    pub(crate) fn set_subscriptions(&mut self, connection_id: &str, selectors: Vec<EventSelector>)
        requires
            old(self).wf(),
        ensures
            final(self).wf(),
            final(self)@ == subscribed(old(self)@, connection_id@, selectors_view(selectors@)),
    {
        let ghost before = self@;
        match self.connection_index(connection_id) {
            Some(i) => {
                self.connections[i].selectors = selectors;
                proof {
                    let after = subscribed(before, connection_id@, selectors_view(selectors@));
                    assert(self@.connections =~= after.connections);
                    assert(self@ =~= after);
                }
            },
            None => {},
        }
    }

    /// Registers a tool of a connection.
    pub fn register_tool(&mut self, connection_id: &str, tool: ToolSpec)
        requires
            old(self).wf(),
        ensures
            final(self).wf(),
            final(self)@ == (State {
                registry: registered(old(self)@.registry, registration(connection_id@, tool)),
                ..old(self)@
            }),
    {
        let ghost before = self@;
        let ghost all = self@.registry;
        let ghost new = registration(connection_id@, tool);
        let mut i: usize = 0;
        assert(all.skip(0) =~= all);
        assert(all.take(0) + registered(all, new) =~= registered(all, new));
        while i < self.registry.len() && !(same(self.registry[i].tool.name.as_str(), tool.name.as_str()) && same(
            self.registry[i].connection_id.as_str(),
            connection_id,
        ))
            invariant
                i <= self.registry.len(),
                *self == *old(self),
                all == registry_view(self.registry@),
                new == registration(connection_id@, tool),
                registered(all, new) == all.take(i as int) + registered(all.skip(i as int), new),
            decreases self.registry.len() - i,
        {
            assert(all.skip(i as int)[0] == self.registry@[i as int]@);
            assert(all.skip(i as int).drop_first() =~= all.skip(i + 1));
            assert(all.take(i + 1) =~= all.take(i as int) + seq![all[i as int]]);
            assert(all.take(i as int) + (seq![all[i as int]] + registered(all.skip(i + 1), new)) =~= all.take(i + 1)
                + registered(all.skip(i + 1), new));
            i += 1;
        }
        let entry = ToolProvider { connection_id: connection_id.to_owned(), tool };
        if i < self.registry.len() {
            assert(all.skip(i as int)[0] == self.registry@[i as int]@);
            assert(registered(all, new) =~= all.update(i as int, new));
            self.registry.set(i, entry);
            assert(self@.registry =~= all.update(i as int, new));
        } else {
            assert(all.skip(i as int) =~= Seq::empty());
            assert(registered(all, new) =~= all.push(new));
            self.registry.push(entry);
            assert(self@.registry =~= all.push(new));
        }
        assert(self@ =~= State { registry: registered(all, new), ..before });
    }

    pub(crate) fn unregister_connection(&mut self, connection_id: &str)
        requires
            old(self).wf(),
        ensures
            final(self).wf(),
            final(self)@ == (State {
                registry: unregistered(old(self)@.registry, connection_id@),
                ..old(self)@
            }),
    {
        let ghost before = self@;
        let ghost all = self@.registry;
        let mut rest: Vec<ToolProvider> = Vec::new();
        rest.append(&mut self.registry);
        let mut kept: Vec<ToolProvider> = Vec::new();
        let ghost mut done: int = 0;
        assert(registry_view(rest@) =~= all.skip(0));
        assert(registry_view(kept@) =~= unregistered(all.take(0), connection_id@));
        while rest.len() > 0
            invariant
                0 <= done,
                done + rest.len() == all.len(),
                registry_view(rest@) == all.skip(done),
                registry_view(kept@) == unregistered(all.take(done), connection_id@),
            decreases rest.len(),
        {
            let ghost rest_before = registry_view(rest@);
            let entry = rest.remove(0);
            let ghost kept_before = registry_view(kept@);
            proof {
                assert(rest_before[0] == entry@);
                assert(registry_view(rest@) =~= rest_before.drop_first());
                assert(all.skip(done).drop_first() =~= all.skip(done + 1));
                assert(all.take(done + 1).drop_last() =~= all.take(done));
                assert(all.take(done + 1).last() == entry@);
            }
            if !same(entry.connection_id.as_str(), connection_id) {
                kept.push(entry);
                assert(registry_view(kept@) =~= kept_before.push(entry@));
            }
            proof {
                done = done + 1;
            }
        }
        assert(all.take(done) =~= all);
        self.registry = kept;
        assert(self@ =~= State { registry: unregistered(all, connection_id@), ..before });
    }

    pub(crate) fn remove_skills_of(&mut self, source_id: &str)
        requires
            old(self).wf(),
        ensures
            final(self).wf(),
            final(self)@ == (State { skills: skills_without(old(self)@.skills, source_id@), ..old(self)@ }),
    {
        let ghost before = self@;
        let ghost all = self@.skills;
        let mut rest: Vec<(String, DiscoveredSkill)> = Vec::new();
        rest.append(&mut self.discovered_skills.entries);
        let mut kept: Vec<(String, DiscoveredSkill)> = Vec::new();
        let ghost mut done: int = 0;
        assert(entries_view(rest@) =~= all.skip(0));
        assert(entries_view(kept@) =~= skills_without(all.take(0), source_id@));
        while rest.len() > 0
            invariant
                0 <= done,
                done + rest.len() == all.len(),
                entries_view(rest@) == all.skip(done),
                entries_view(kept@) == skills_without(all.take(done), source_id@),
            decreases rest.len(),
        {
            let ghost rest_before = entries_view(rest@);
            let entry = rest.remove(0);
            let ghost kept_before = entries_view(kept@);
            proof {
                assert(rest_before[0] == (entry.0@, entry.1@));
                assert(entries_view(rest@) =~= rest_before.drop_first());
                assert(all.skip(done).drop_first() =~= all.skip(done + 1));
                assert(all.take(done + 1).drop_last() =~= all.take(done));
                assert(all.take(done + 1).last() == (entry.0@, entry.1@));
            }
            if !same(entry.1.source_id.as_str(), source_id) {
                kept.push(entry);
                assert(entries_view(kept@) =~= kept_before.push((entry.0@, entry.1@)));
            }
            proof {
                done = done + 1;
            }
        }
        assert(all.take(done) =~= all);
        self.discovered_skills.entries = kept;
        assert(self@ =~= State { skills: skills_without(all, source_id@), ..before });
    }

    pub(crate) fn remove_files_of(&mut self, source_id: &str)
        requires
            old(self).wf(),
        ensures
            final(self).wf(),
            final(self)@ == (State { files: files_without(old(self)@.files, source_id@), ..old(self)@ }),
    {
        let ghost before = self@;
        let ghost all = self@.files;
        let mut rest: Vec<DiscoveredAgentsFile> = Vec::new();
        rest.append(&mut self.discovered_agents_files);
        let mut kept: Vec<DiscoveredAgentsFile> = Vec::new();
        let ghost mut done: int = 0;
        assert(files_view(rest@) =~= all.skip(0));
        assert(files_view(kept@) =~= files_without(all.take(0), source_id@));
        while rest.len() > 0
            invariant
                0 <= done,
                done + rest.len() == all.len(),
                files_view(rest@) == all.skip(done),
                files_view(kept@) == files_without(all.take(done), source_id@),
            decreases rest.len(),
        {
            let ghost rest_before = files_view(rest@);
            let entry = rest.remove(0);
            let ghost kept_before = files_view(kept@);
            proof {
                assert(rest_before[0] == entry@);
                assert(files_view(rest@) =~= rest_before.drop_first());
                assert(all.skip(done).drop_first() =~= all.skip(done + 1));
                assert(all.take(done + 1).drop_last() =~= all.take(done));
                assert(all.take(done + 1).last() == entry@);
            }
            if !same(entry.source_id.as_str(), source_id) {
                kept.push(entry);
                assert(files_view(kept@) =~= kept_before.push(entry@));
            }
            proof {
                done = done + 1;
            }
        }
        assert(all.take(done) =~= all);
        self.discovered_agents_files = kept;
        assert(self@ =~= State { files: files_without(all, source_id@), ..before });
    }

    /// Forgets the skills and files that a connection announced.
    pub fn remove_discovered_context(&mut self, source_id: &str)
        requires
            old(self).wf(),
        ensures
            final(self).wf(),
            final(self)@ == without_context(old(self)@, source_id@),
    {
        let ghost before = self@;
        self.remove_skills_of(source_id);
        self.remove_files_of(source_id);
        assert(self@ =~= without_context(before, source_id@));
    }

    pub(crate) fn add_file(&mut self, file: DiscoveredAgentsFile)
        requires
            old(self).wf(),
        ensures
            final(self).wf(),
            final(self)@ == (State { files: with_file(old(self)@.files, file@), ..old(self)@ }),
    {
        let ghost before = self@;
        let ghost all = self@.files;
        let ghost new = file@;
        let mut i: usize = 0;
        assert(all.skip(0) =~= all);
        assert(all.take(0) + with_file(all, new) =~= with_file(all, new));
        while i < self.discovered_agents_files.len() && !(same(
            self.discovered_agents_files[i].source_id.as_str(),
            file.source_id.as_str(),
        ) && equal_paths(self.discovered_agents_files[i].file_path.as_str(), file.file_path.as_str()))
            invariant
                i <= self.discovered_agents_files.len(),
                *self == *old(self),
                all == files_view(self.discovered_agents_files@),
                new == file@,
                with_file(all, new) == all.take(i as int) + with_file(all.skip(i as int), new),
            decreases self.discovered_agents_files.len() - i,
        {
            assert(all.skip(i as int)[0] == self.discovered_agents_files@[i as int]@);
            assert(all.skip(i as int).drop_first() =~= all.skip(i + 1));
            assert(all.take(i + 1) =~= all.take(i as int) + seq![all[i as int]]);
            assert(all.take(i as int) + (seq![all[i as int]] + with_file(all.skip(i + 1), new)) =~= all.take(i + 1)
                + with_file(all.skip(i + 1), new));
            i += 1;
        }
        if i < self.discovered_agents_files.len() {
            assert(all.skip(i as int)[0] == self.discovered_agents_files@[i as int]@);
            let ghost changed = AgentsFile { content: new.content, ..all[i as int] };
            assert(with_file(all, new) =~= all.update(i as int, changed));
            let source_id = self.discovered_agents_files[i].source_id.as_str().to_owned();
            let file_path = self.discovered_agents_files[i].file_path.as_str().to_owned();
            self.discovered_agents_files.set(
                i,
                DiscoveredAgentsFile { source_id, file_path, content: file.content },
            );
            assert(self@.files =~= all.update(i as int, changed));
        } else {
            assert(all.skip(i as int) =~= Seq::empty());
            assert(with_file(all, new) =~= all.push(new));
            self.discovered_agents_files.push(file);
            assert(self@.files =~= all.push(new));
        }
        assert(self@ =~= State { files: with_file(all, new), ..before });
    }
}

// ---------------------------------------------------------------------------
// Prompts
// ---------------------------------------------------------------------------

/// A copy of an optional text.
pub(crate) fn copy_option_text(o: &Option<String>) -> (r: Option<String>)
    ensures
        r == *o,
{
    match o {
        Some(s) => Some(s.clone()),
        None => None,
    }
}

/// A copy of an optional JSON value.
pub(crate) fn copy_option_json(o: &Option<JsonValue>) -> (r: Option<JsonValue>)
    ensures
        option_json(r) == option_json(*o),
{
    match o {
        Some(v) => Some(v.clone()),
        None => None,
    }
}

/// Removes the texts equal to `text`.
pub(crate) fn remove_text(v: &Vec<String>, text: &str) -> (r: Vec<String>)
    ensures
        texts(r@) == excluded(texts(v@), text@),
{
    let ghost all = texts(v@);
    let mut r: Vec<String> = Vec::new();
    let mut i: usize = 0;
    assert(texts(r@) =~= excluded(all.take(0), text@));
    while i < v.len()
        invariant
            i <= v.len(),
            all == texts(v@),
            texts(r@) == excluded(all.take(i as int), text@),
        decreases v.len() - i,
    {
        let ghost before = texts(r@);
        assert(all.take(i + 1).drop_last() =~= all.take(i as int));
        assert(all.take(i + 1).last() == v@[i as int]@);
        if !same(v[i].as_str(), text) {
            r.push(v[i].clone());
            assert(texts(r@) =~= before.push(v@[i as int]@));
        }
        i += 1;
    }
    assert(all.take(all.len() as int) =~= all);
    r
}

impl Harness {
    /// The tools that the agent sees: one of each name, by ascending name.
    pub fn gather_tool_definitions(&self) -> (r: Vec<ToolDefinition>)
        ensures
            tools_view(r@) == tool_list(self@.registry),
    {
        let ghost all = self@.registry;
        let mut names: Vec<String> = Vec::new();
        let mut firsts: Vec<usize> = Vec::new();
        let mut i: usize = 0;
        while i < self.registry.len()
            invariant
                i <= self.registry.len(),
                all == registry_view(self.registry@),
                names.len() == firsts.len(),
                first_of_name(all, i as nat).len() == firsts.len(),
                forall|k: int|
                    0 <= k < firsts.len() ==> (#[trigger] firsts@[k]) < i && first_of_name(all, i as nat)[k]
                        == all[firsts@[k] as int],
                forall|k: int| 0 <= k < names.len() ==> (#[trigger] names@[k])@ == all[firsts@[k] as int].name,
            decreases self.registry.len() - i,
        {
            assert(all[i as int] == self.registry@[i as int]@);
            match find_tool(&self.registry, i, self.registry[i].tool.name.as_str()) {
                Some(_) => {},
                None => {
                    names.push(self.registry[i].tool.name.clone());
                    firsts.push(i);
                },
            }
            i += 1;
        }
        let ghost distinct = first_of_name(all, all.len());
        assert(texts(names@) =~= registered_names(distinct));
        let order = sort_positions(&names);
        let mut tools: Vec<ToolDefinition> = Vec::new();
        let mut n: usize = 0;
        while n < order.len()
            invariant
                n <= order.len(),
                all == registry_view(self.registry@),
                names.len() == firsts.len(),
                forall|k: int| 0 <= k < order.len() ==> (#[trigger] order@[k]) < names.len(),
                distinct.len() == firsts.len(),
                forall|k: int|
                    0 <= k < firsts.len() ==> (#[trigger] firsts@[k]) < self.registry.len() && distinct[k]
                        == all[firsts@[k] as int],
                tools.len() == n,
                forall|k: int|
                    0 <= k < n ==> (#[trigger] tools@[k])@ == (Tool {
                        name: distinct[order@[k] as int].name,
                        description: distinct[order@[k] as int].description,
                        parameters: distinct[order@[k] as int].parameters,
                    }),
            decreases order.len() - n,
        {
            let k = order[n];
            let at = firsts[k];
            assert(distinct[k as int] == all[at as int]);
            assert(all[at as int] == self.registry@[at as int]@);
            let spec_ref = &self.registry[at].tool;
            tools.push(
                ToolDefinition {
                    name: spec_ref.name.clone(),
                    description: copy_option_text(&spec_ref.description),
                    parameters: copy_option_json(&spec_ref.parameters),
                },
            );
            n += 1;
        }
        proof {
            let sorted = sorted_positions(registered_names(distinct));
            assert forall|k: int| 0 <= k < tools.len() implies tools_view(tools@)[k] == tool_list(all)[k] by {
                assert(positions(order@)[k] == sorted[k]);
            }
            assert(tools_view(tools@) =~= tool_list(all));
        }
        tools
    }

    /// Prompts the agent with the history of a session.
    pub fn send_prompt_to_agent(&mut self, session_id: &str) -> (r: String)
        requires
            old(self).wf(),
            old(self).next_session_prompt_id < u64::MAX,
        ensures
            final(self).wf(),
            final(self)@ == prompted(old(self)@, session_id@),
            r@ == prompt_for(old(self)@, session_id@).session_prompt_id,
    {
        proof {
            reveal(prompt_for);
        }
        let ghost before = self@;
        let messages = match self.store.session(session_id) {
            Some(tree) => assemble_conversation(tree),
            None => {
                let none: Vec<ConversationMessage> = Vec::new();
                assert(messages_view(none@) =~= conversation(Tree::empty().branch())) by {
                    assert(Tree::empty().branch() =~= Seq::empty());
                }
                none
            },
        };
        let tools = self.gather_tool_definitions();
        let mut session_prompt_id = "sp-".to_owned();
        session_prompt_id.append(decimal_text(self.next_session_prompt_id as u128).as_str());
        let prompt = build_system_prompt(&tools, &self.discovered_skills, self.cwd.as_str());
        let model = if self.selected_model.as_str().is_empty() {
            None
        } else {
            Some(self.selected_model.clone())
        };
        let created = SessionPromptCreated {
            session_prompt_id: session_prompt_id.clone(),
            session_id: session_id.to_owned(),
            system_prompt: prompt,
            messages,
            tools,
            model,
            effort: self.selected_effort,
            thinking_summary: self.selected_thinking_summary,
        };
        assert(created@ =~= prompt_for(before, session_id@));
        self.next_session_prompt_id = self.next_session_prompt_id + 1;
        self.prompt_sessions.insert(session_prompt_id.clone(), session_id.to_owned());
        assert(self@ =~= State {
            prompt_sessions: stored(before.prompt_sessions, session_prompt_id@, session_id@),
            next_prompt: before.next_prompt + 1,
            ..before
        });
        self.publish_event(None, Event::SessionPromptCreated(created));
        session_prompt_id
    }

    pub(crate) fn set_turn(&mut self, turn: TurnState)
        requires
            old(self).wf(),
        ensures
            final(self).wf(),
            final(self)@ == (State { turn: turn@, ..old(self)@ }),
    {
        let ghost before = self@;
        self.turn_state = turn;
        assert(self@ =~= State { turn: turn@, ..before });
    }

    /// Sends a prompt of the user to the agent.
    pub fn dispatch_user_prompt(&mut self, session_id: String, text: String) -> (r: Result<(), String>)
        requires
            old(self).wf(),
            counted(dispatched(old(self)@, session_id@, text@).state),
        ensures
            final(self).wf(),
            tried(*final(self), r) == dispatched(old(self)@, session_id@, text@),
    {
        self.publish_event(
            None,
            Event::UiPromptSubmitted { session_id: session_id.clone(), text: text.clone() },
        );
        match self.keep_entry(session_id.as_str(), SessionEntry::UserMessage { text }) {
            Ok(_) => {},
            Err(error) => {
                return Err(error);
            },
        }
        self.set_turn(TurnState::AgentThinking { session_id: session_id.clone() });
        let _ = self.send_prompt_to_agent(session_id.as_str());
        Ok(())
    }

    /// Says that a step failed because of the store.
    fn emit_store_error(&mut self, what: &str, error: String)
        requires
            old(self).wf(),
        ensures
            final(self).wf(),
            final(self)@ == noted(old(self)@, what@ + store_trouble(error@)),
    {
        let mut message = what.to_owned();
        let told = HarnessError::SessionStore(error).text();
        message.append(told.as_str());
        self.emit_info(message);
    }

    /// The connections that take part in setting a session up.
    pub fn session_init_provider_ids(&self) -> (r: Vec<String>)
        ensures
            texts(r@) == setup_peers(self@.connections),
    {
        let ghost all = self@.connections;
        let mut ids: Vec<String> = Vec::new();
        let mut i: usize = 0;
        assert(texts(ids@) =~= setup_peers(all.take(0)));
        while i < self.connections.len()
            invariant
                i <= self.connections.len(),
                all == peers_view(self.connections@),
                texts(ids@) == setup_peers(all.take(i as int)),
            decreases self.connections.len() - i,
        {
            let ghost before = texts(ids@);
            let peer = &self.connections[i];
            assert(all.take(i + 1).drop_last() =~= all.take(i as int));
            assert(all.take(i + 1).last() == peer@);
            if peer.kind == ClientKind::Tool && peer.origin != ConnectionOrigin::Socket && selector_matches_name(
                &peer.selectors,
                "session.started",
            ) {
                ids.push(peer.id.clone());
                assert(texts(ids@) =~= before.push(peer.id@));
            }
            i += 1;
        }
        assert(all.take(all.len() as int) =~= all);
        ids
    }

    /// Marks a session as set up, with the instruction files in its history.
    pub(crate) fn finish_set_up(&mut self, session_id: &str) -> (r: Result<(), String>)
        requires
            old(self).wf(),
        ensures
            final(self).wf(),
            tried(*final(self), r) == set_up(old(self)@, session_id@),
    {
        let ghost before = self@;
        if self.discovered_agents_files.len() > 0 {
            let text = render_agents_context_message(&self.discovered_agents_files);
            match self.keep_entry(session_id, SessionEntry::UserMessage { text }) {
                Ok(_) => {},
                Err(error) => {
                    return Err(error);
                },
            }
        }
        let ghost mid = self@;
        let known = holds_text(&self.initialized_sessions, session_id);
        if !known {
            self.initialized_sessions.push(session_id.to_owned());
            assert(self@.initialized =~= mid.initialized.push(session_id@));
        }
        self.turn_state = TurnState::Idle;
        assert(self@ =~= set_up(before, session_id@).state);
        Ok(())
    }

    /// Says that a session could not be set up; it is the user's turn.
    fn report_set_up(&mut self, error: String)
        requires
            old(self).wf(),
        ensures
            final(self).wf(),
            final(self)@ == setup_reported(Tried { state: old(self)@, error: Some(error@) }),
    {
        self.emit_store_error("failed to initialize session: ", error);
        self.set_turn(TurnState::Idle);
    }

    /// Asks extensions to set a session up.
    pub(crate) fn ask_set_up(&mut self, session_id: &str, reason: SessionStartReason, waiting_on: Vec<String>)
        requires
            old(self).wf(),
            texts(waiting_on@) == setup_peers(old(self)@.connections),
        ensures
            final(self).wf(),
            final(self)@ == setup_asked(old(self)@, session_id@, reason),
    {
        let ghost before = self@;
        let ghost all = texts(waiting_on@);
        let mut i: usize = 0;
        assert(all.take(0) =~= Seq::empty());
        while i < waiting_on.len()
            invariant
                i <= waiting_on.len(),
                all == texts(waiting_on@),
                self.wf(),
                self@ == without_contexts(before, all.take(i as int)),
            decreases waiting_on.len() - i,
        {
            assert(all.take(i + 1).drop_last() =~= all.take(i as int));
            assert(all.take(i + 1).last() == waiting_on@[i as int]@);
            self.remove_discovered_context(waiting_on[i].as_str());
            i += 1;
        }
        assert(all.take(all.len() as int) =~= all);
        self.set_turn(TurnState::InitializingSession { session_id: session_id.to_owned(), waiting_on });
        self.publish_event(None, Event::SessionStarted { session_id: session_id.to_owned(), reason });
    }

    /// Sends the first waiting prompt to the agent, where a model is selected.
    pub(crate) fn dispatch_front(&mut self)
        requires
            old(self).wf(),
            old(self).pending_prompts.len() > 0,
            counted(front_dispatched(old(self)@)),
        ensures
            final(self).wf(),
            final(self)@ == front_dispatched(old(self)@),
    {
        let ghost before = self@;
        if self.selected_model.as_str().is_empty() {
            return;
        }
        let (session_id, text) = self.pending_prompts.remove(0);
        assert(before.pending_prompts[0] == (session_id@, text@));
        assert(self@.pending_prompts =~= before.pending_prompts.drop_first());
        assert(self@ =~= State { pending_prompts: before.pending_prompts.drop_first(), ..before });
        match self.dispatch_user_prompt(session_id, text) {
            Ok(_) => {},
            Err(error) => {
                self.emit_store_error("failed to dispatch queued prompt: ", error);
                self.set_turn(TurnState::Idle);
            },
        }
    }

    /// Moves the queue of prompts on as far as it can.
    pub fn try_advance_queue(&mut self)
        requires
            old(self).wf(),
            counted(advanced(old(self)@)),
        ensures
            final(self).wf(),
            final(self)@ == advanced(old(self)@),
    {
        if !self.turn_state.is_idle() || !self.extensions_all_ready() || self.pending_prompts.len() == 0 {
            return;
        }
        let session_id = self.pending_prompts[0].0.clone();
        assert(self@.pending_prompts[0].0 == session_id@);
        if self.session_initialized(session_id.as_str()) {
            self.dispatch_front();
        } else {
            let waiting_on = self.session_init_provider_ids();
            assert(texts(waiting_on@).len() == waiting_on@.len());
            if waiting_on.len() == 0 {
                match self.finish_set_up(session_id.as_str()) {
                    Ok(_) => {
                        assert(self.pending_prompts@.len() == self@.pending_prompts.len());
                        self.dispatch_front();
                    },
                    Err(error) => self.report_set_up(error),
                }
            } else {
                self.ask_set_up(session_id.as_str(), SessionStartReason::Initial, waiting_on);
            }
        }
    }

    /// Finishes the set-up of a session.
    pub fn complete_session_init(&mut self, session_id: &str) -> (r: Result<(), String>)
        requires
            old(self).wf(),
            counted(setup_finished(old(self)@, session_id@).state),
        ensures
            final(self).wf(),
            tried(*final(self), r) == setup_finished(old(self)@, session_id@),
    {
        let ghost before = self@;
        match self.finish_set_up(session_id) {
            Ok(_) => {},
            Err(error) => {
                return Err(error);
            },
        }
        assert(self@.next_prompt == before.next_prompt);
        self.try_advance_queue();
        Ok(())
    }

    /// Starts a session: extensions that want to take part set it up first.
    pub fn start_session_init(&mut self, session_id: &str, reason: SessionStartReason)
        requires
            old(self).wf(),
            counted(session_started(old(self)@, session_id@, reason)),
        ensures
            final(self).wf(),
            final(self)@ == session_started(old(self)@, session_id@, reason),
    {
        let waiting_on = self.session_init_provider_ids();
        assert(texts(waiting_on@).len() == waiting_on@.len());
        if waiting_on.len() == 0 {
            match self.complete_session_init(session_id) {
                Ok(_) => {},
                Err(error) => self.report_set_up(error),
            }
        } else {
            self.ask_set_up(session_id, reason, waiting_on);
        }
    }

    /// Takes note that a connection has set a session up.
    pub fn handle_extension_context_ready(&mut self, source_id: &str, ready_session: &str) -> (r: Result<(), String>)
        requires
            old(self).wf(),
            counted(context_ready(old(self)@, source_id@, ready_session@).state),
        ensures
            final(self).wf(),
            tried(*final(self), r) == context_ready(old(self)@, source_id@, ready_session@),
    {
        proof {
            reveal(context_ready);
        }
        let ghost before = self@;
        let found = match &self.turn_state {
            TurnState::InitializingSession { session_id, waiting_on } => {
                if same(session_id.as_str(), ready_session) {
                    Some((session_id.clone(), remove_text(waiting_on, source_id)))
                } else {
                    None
                }
            },
            _ => None,
        };
        match found {
            Some((session_id, left)) => {
                assert(texts(left@).len() == left@.len());
                let finished = left.len() == 0;
                self.set_turn(TurnState::InitializingSession { session_id, waiting_on: left });
                if finished {
                    assert(self@.next_prompt == before.next_prompt);
                    return self.complete_session_init(ready_session);
                }
            },
            None => {},
        }
        Ok(())
    }

    /// Takes note that a connection can no longer set a session up.
    pub(crate) fn maybe_complete_session_init_for_disconnect(&mut self, connection_id: &str)
        requires
            old(self).wf(),
            counted(context_lost(old(self)@, connection_id@)),
        ensures
            final(self).wf(),
            final(self)@ == context_lost(old(self)@, connection_id@),
    {
        let ghost before = self@;
        let found = match &self.turn_state {
            TurnState::InitializingSession { session_id, waiting_on } => Some(
                (
                    session_id.clone(),
                    holds_text(waiting_on, connection_id),
                    remove_text(waiting_on, connection_id),
                ),
            ),
            _ => None,
        };
        match found {
            Some((session_id, waited, left)) => {
                assert(texts(left@).len() == left@.len());
                let finished = waited && left.len() == 0;
                let session = session_id.clone();
                self.set_turn(TurnState::InitializingSession { session_id, waiting_on: left });
                if finished {
                    assert(self@.next_prompt == before.next_prompt);
                    match self.complete_session_init(session.as_str()) {
                        Ok(_) => {},
                        Err(error) => self.report_set_up(error),
                    }
                }
            },
            None => {},
        }
    }
}

// ---------------------------------------------------------------------------
// Tool calls
// ---------------------------------------------------------------------------

impl Harness {
    /// Enters the outcome of a call into its session's history and forgets the
    /// call.
    pub(crate) fn keep_outcome(&mut self, call_id: &str, tool_name: String, outcome: ToolActivityOutcome) -> (r: Result<
        (),
        String,
    >)
        requires
            old(self).wf(),
        ensures
            final(self).wf(),
            tried(*final(self), r) == outcome_kept(old(self)@, call_id@, tool_name@, outcome@),
    {
        let ghost before = self@;
        let session = match self.pending_tool_sessions.remove(call_id) {
            Some(session) => session,
            None => "default".to_owned(),
        };
        let _ = self.pending_tool_names.remove(call_id);
        let _ = self.pending_tool_providers.remove(call_id);
        assert(self@ =~= State {
            tool_sessions: removed(before.tool_sessions, call_id@),
            tool_names: removed(before.tool_names, call_id@),
            tool_providers: removed(before.tool_providers, call_id@),
            ..before
        });
        assert(session@ == call_session(before, call_id@));
        self.keep_entry(
            session.as_str(),
            SessionEntry::ToolActivity(
                ToolActivityRecord { call_id: call_id.to_owned(), tool_name, outcome },
            ),
        )
    }

    /// Crosses a finished call off the turn.
    pub(crate) fn maybe_complete_agent_turn(&mut self, completed_call_id: &str)
        requires
            old(self).wf(),
            counted(call_crossed_off(old(self)@, completed_call_id@)),
        ensures
            final(self).wf(),
            final(self)@ == call_crossed_off(old(self)@, completed_call_id@),
    {
        let found = match &self.turn_state {
            TurnState::ToolsRunning { session_id, remaining_calls } => Some(
                (session_id.clone(), remove_text(remaining_calls, completed_call_id)),
            ),
            _ => None,
        };
        match found {
            Some((session_id, left)) => {
                assert(texts(left@).len() == left@.len());
                if left.len() == 0 {
                    let session = session_id.clone();
                    self.set_turn(TurnState::AgentThinking { session_id });
                    let _ = self.send_prompt_to_agent(session.as_str());
                } else {
                    self.set_turn(TurnState::ToolsRunning { session_id, remaining_calls: left });
                }
            },
            None => {},
        }
    }

    /// Sends waiting calls on their way, first come first, as long as the first
    /// may go.
    pub fn drain_pending_tool_invocations(&mut self) -> (r: Result<(), String>)
        requires
            old(self).wf(),
            counted(drained(old(self)@).state),
        ensures
            final(self).wf(),
            tried(*final(self), r) == drained(old(self)@),
        decreases old(self)@.pending_calls.len(), 0nat,
    {
        let ghost start = self@;
        let mut more = true;
        while more
            invariant
                self.wf(),
                start == old(self)@,
                counted(drained(start).state),
                self@.pending_calls.len() <= start.pending_calls.len(),
                drained(start) == drained(self@),
                !more ==> drained(self@) == done(self@),
            decreases self@.pending_calls.len(), (if more { 1int } else { 0int }),
        {
            proof {
                reveal_with_fuel(drained, 1);
            }
            if self.pending_tool_invocations.len() == 0 {
                more = false;
            } else {
                let kind = self.pending_tool_invocations[0].kind;
                assert(self@.pending_calls[0] == self.pending_tool_invocations@[0]@);
                let may = match kind {
                    ToolSideEffects::Pure => !self.has_mutating_in_flight(),
                    ToolSideEffects::Mutating => self.in_flight_tool_kinds.entries.len() == 0,
                };
                if !may {
                    more = false;
                } else {
                    let ghost before = self@;
                    let invocation = self.pending_tool_invocations.remove(0);
                    assert(self@.pending_calls =~= before.pending_calls.drop_first());
                    self.in_flight_tool_kinds.insert(invocation.call.id.clone(), invocation.kind);
                    let ghost popped = State {
                        pending_calls: before.pending_calls.drop_first(),
                        in_flight: stored(before.in_flight, invocation.call.id@, kind),
                        ..before
                    };
                    assert(self@ =~= popped);
                    assert(invocation@ == before.pending_calls[0]);
                    proof {
                        let (t, over) = call_begun(popped, invocation@);
                        let free = State { in_flight: removed(t.state.in_flight, invocation.call.id@), ..t.state };
                        let made = call_made(popped, invocation@).state;
                        draining_counts(free);
                        crossing_off_counts(draining_reported(drained(free)), invocation.call.id@);
                        draining_counts(made);
                        if t.error is None {
                            assert(made.pending_calls.len() < before.pending_calls.len());
                            assert(drained(before) == drained(made));
                        }
                    }
                    match self.execute_agent_tool_call(&invocation) {
                        Ok(_) => {},
                        Err(error) => {
                            let ghost begun = self@;
                            let _ = self.in_flight_tool_kinds.remove(invocation.call.id.as_str());
                            assert(self@ =~= State {
                                in_flight: removed(begun.in_flight, invocation.call.id@),
                                ..begun
                            });
                            return Err(error);
                        },
                    }
                }
            }
        }
        Ok(())
    }

    /// Takes note that a call has finished.
    pub fn on_tool_call_complete(&mut self, call_id: &str)
        requires
            old(self).wf(),
            counted(call_finished(old(self)@, call_id@)),
        ensures
            final(self).wf(),
            final(self)@ == call_finished(old(self)@, call_id@),
        decreases old(self)@.pending_calls.len(), 1nat,
    {
        let ghost before = self@;
        let _ = self.in_flight_tool_kinds.remove(call_id);
        assert(self@ =~= State { in_flight: removed(before.in_flight, call_id@), ..before });
        proof {
            crossing_off_counts(draining_reported(drained(self@)), call_id@);
        }
        match self.drain_pending_tool_invocations() {
            Ok(_) => {},
            Err(error) => self.emit_store_error("queued tool dispatch failed: ", error),
        }
        self.maybe_complete_agent_turn(call_id);
    }

    /// Makes a call of the agent.
    pub fn execute_agent_tool_call(&mut self, invocation: &PendingInvocation) -> (r: Result<(), String>)
        requires
            old(self).wf(),
            counted(call_made(old(self)@, invocation@).state),
        ensures
            final(self).wf(),
            tried(*final(self), r) == call_made(old(self)@, invocation@),
        decreases old(self)@.pending_calls.len(), 3nat,
    {
        proof {
            reveal(call_begun);
        }
        let raw = match &invocation.call.name {
            ToolNameMaybe::Valid(name) => name.clone(),
            ToolNameMaybe::Invalid(name) => name.clone(),
        };
        assert(raw@ == invocation@.name);
        let over = match ToolNameMaybe::from_raw(raw) {
            ToolNameMaybe::Valid(name) => {
                if same(name.as_str(), "skill") {
                    return self.handle_skill_tool_call(invocation);
                }
                let (begun, over) = self.begin_tool_call(invocation, name);
                match begun {
                    Ok(_) => {},
                    Err(error) => {
                        return Err(error);
                    },
                }
                over
            },
            ToolNameMaybe::Invalid(name) => {
                let mut message = "invalid tool name ".to_owned();
                message.append(quote(name.as_str()).as_str());
                message.append(": must be non-empty and match [a-zA-Z0-9_]+");
                match self.reject_invalid_tool_call(invocation, message) {
                    Ok(_) => {},
                    Err(error) => {
                        return Err(error);
                    },
                }
                true
            },
        };
        if over {
            self.on_tool_call_complete(invocation.call.id.as_str());
        }
        Ok(())
    }

    /// Answers a call of the skill tool, which has then finished.
    pub fn handle_skill_tool_call(&mut self, invocation: &PendingInvocation) -> (r: Result<(), String>)
        requires
            old(self).wf(),
            counted(skill_handled(old(self)@, invocation@).state),
        ensures
            final(self).wf(),
            tried(*final(self), r) == skill_handled(old(self)@, invocation@),
        decreases old(self)@.pending_calls.len(), 2nat,
    {
        match self.answer_skill_call(invocation) {
            Ok(_) => {},
            Err(error) => {
                return Err(error);
            },
        }
        self.on_tool_call_complete(invocation.call.id.as_str());
        Ok(())
    }

    /// Refuses a call whose name is not acceptable.
    pub(crate) fn reject_invalid_tool_call(&mut self, invocation: &PendingInvocation, message: String) -> (r: Result<
        (),
        String,
    >)
        requires
            old(self).wf(),
        ensures
            final(self).wf(),
            tried(*final(self), r) == call_refused(old(self)@, invocation@, message@),
    {
        let call = &invocation.call;
        match self.keep_request(invocation, "invalid_tool") {
            Ok(_) => {},
            Err(error) => {
                return Err(error);
            },
        }
        let ghost kept = self@;
        self.pending_tool_sessions.insert(call.id.clone(), invocation.session_id.clone());
        assert(self@ =~= State {
            tool_sessions: stored(kept.tool_sessions, call.id@, invocation.session_id@),
            ..kept
        });
        match self.keep_outcome(
            call.id.as_str(),
            "invalid_tool".to_owned(),
            ToolActivityOutcome::Error { message: message.clone(), details: None },
        ) {
            Ok(_) => {},
            Err(error) => {
                return Err(error);
            },
        }
        self.publish_event(
            None,
            Event::ToolError(
                ToolError {
                    call_id: call.id.clone(),
                    tool_name: "invalid_tool".to_owned(),
                    message,
                    details: None,
                },
            ),
        );
        Ok(())
    }

    /// Enters the request of a call into the history of its session.
    fn keep_request(&mut self, invocation: &PendingInvocation, tool_name: &str) -> (r: Result<(), String>)
        requires
            old(self).wf(),
        ensures
            final(self).wf(),
            tried(*final(self), r) == with_kept_entry(
                old(self)@,
                invocation@.session,
                Entry::Tool {
                    call_id: invocation@.id,
                    tool_name: tool_name@,
                    outcome: Outcome::Requested(invocation@.arguments),
                },
            ),
    {
        self.keep_entry(
            invocation.session_id.as_str(),
            SessionEntry::ToolActivity(
                ToolActivityRecord {
                    call_id: invocation.call.id.clone(),
                    tool_name: tool_name.to_owned(),
                    outcome: ToolActivityOutcome::Requested { arguments: invocation.call.arguments.clone() },
                },
            ),
        )
    }

    pub(crate) fn fail_skill_call(&mut self, call_id: &str, message: String) -> (r: Result<(), String>)
        requires
            old(self).wf(),
        ensures
            final(self).wf(),
            tried(*final(self), r) == skill_failed(old(self)@, call_id@, message@),
    {
        self.publish_event(
            None,
            Event::ToolError(
                ToolError {
                    call_id: call_id.to_owned(),
                    tool_name: "skill".to_owned(),
                    message: message.clone(),
                    details: None,
                },
            ),
        );
        self.keep_outcome(
            call_id,
            "skill".to_owned(),
            ToolActivityOutcome::Error { message, details: None },
        )
    }

    pub(crate) fn load_skill(&mut self, call_id: &str, name: &str, content: &str) -> (r: Result<(), String>)
        requires
            old(self).wf(),
        ensures
            final(self).wf(),
            tried(*final(self), r) == skill_loaded(old(self)@, call_id@, name@, content@),
    {
        let body = strip_frontmatter(content);
        let result = skill_value(name, body.as_str());
        let copy = result.clone();
        self.publish_event(
            None,
            Event::ToolResult(
                ToolResult { call_id: call_id.to_owned(), tool_name: "skill".to_owned(), result },
            ),
        );
        self.keep_outcome(call_id, "skill".to_owned(), ToolActivityOutcome::Result { result: copy })
    }

    /// The text of a skill, or why it could not be read; none where there is no such
    /// skill.
    fn skill_content_of(&self, name: &str) -> (r: Option<SkillRead>)
        ensures
            match r {
                Some(read) => lookup(self@.skills, name@) matches Some(skill) && read@ == skill_content(self@, skill),
                None => lookup(self@.skills, name@) is None,
            },
    {
        match self.discovered_skills.get(name) {
            Some(skill) => match &skill.source {
                DiscoveredSkillSource::File(path) => match self.skill_texts.get(path.as_str()) {
                    Some(SkillRead::Text(text)) => Some(SkillRead::Text(text.clone())),
                    Some(SkillRead::Failed(error)) => Some(SkillRead::Failed(error.clone())),
                    None => Some(SkillRead::Failed("not read".to_owned())),
                },
                DiscoveredSkillSource::BuiltIn { content } => Some(SkillRead::Text(content.clone())),
            },
            None => None,
        }
    }

    /// Answers a call of the skill tool.
    fn answer_skill_call(&mut self, invocation: &PendingInvocation) -> (r: Result<(), String>)
        requires
            old(self).wf(),
        ensures
            final(self).wf(),
            tried(*final(self), r) == skill_called(old(self)@, invocation@),
    {
        let call = &invocation.call;
        match self.keep_request(invocation, "skill") {
            Ok(_) => {},
            Err(error) => {
                return Err(error);
            },
        }
        let ghost kept = self@;
        self.pending_tool_sessions.insert(call.id.clone(), invocation.session_id.clone());
        assert(self@ =~= State {
            tool_sessions: stored(kept.tool_sessions, call.id@, invocation.session_id@),
            ..kept
        });
        match cbor_map_text(&call.arguments, "name") {
            Some(name) => match self.skill_content_of(name) {
                Some(SkillRead::Text(content)) => self.load_skill(call.id.as_str(), name, content.as_str()),
                Some(SkillRead::Failed(error)) => {
                    let mut message = "failed to read skill file: ".to_owned();
                    message.append(error.as_str());
                    self.fail_skill_call(call.id.as_str(), message)
                },
                None => {
                    let mut message = "unknown skill: ".to_owned();
                    message.append(name);
                    self.fail_skill_call(call.id.as_str(), message)
                },
            },
            None => self.fail_skill_call(call.id.as_str(), "missing required argument: name".to_owned()),
        }
    }

    /// Begins a call of an extension's tool, and says whether it is over.
    pub(crate) fn begin_tool_call(&mut self, invocation: &PendingInvocation, tool_name: String) -> (r: (
        Result<(), String>,
        bool,
    ))
        requires
            old(self).wf(),
            tool_name@ == invocation@.name,
        ensures
            final(self).wf(),
            (tried(*final(self), r.0), r.1) == tool_called(old(self)@, invocation@),
    {
        let call = &invocation.call;
        match self.keep_request(invocation, tool_name.as_str()) {
            Ok(_) => {},
            Err(error) => {
                return (Err(error), true);
            },
        }
        let ghost kept = self@;
        self.pending_tool_sessions.insert(call.id.clone(), invocation.session_id.clone());
        self.pending_tool_names.insert(call.id.clone(), tool_name.clone());
        assert(self@ =~= State {
            tool_sessions: stored(kept.tool_sessions, call.id@, invocation.session_id@),
            tool_names: stored(kept.tool_names, call.id@, tool_name@),
            ..kept
        });
        self.publish_event(
            None,
            Event::ToolRequest(
                ToolRequest {
                    call_id: call.id.clone(),
                    tool_name: tool_name.clone(),
                    arguments: call.arguments.clone(),
                },
            ),
        );
        match self.provider_index(tool_name.as_str()) {
            Some(i) => {
                assert(self@.log.len() == self.event_log.entries@.len());
                self.route_request(call.id.as_str(), i);
                (Ok(()), false)
            },
            None => {
                let r = self.keep_outcome(
                    call.id.as_str(),
                    tool_name,
                    ToolActivityOutcome::Error {
                        message: "no live provider available".to_owned(),
                        details: None,
                    },
                );
                (r, true)
            },
        }
    }

    /// Hands the request that was published last to the provider of the tool.
    pub(crate) fn route_request(&mut self, call_id: &str, index: usize)
        requires
            old(self).wf(),
            index < old(self).registry.len(),
            old(self).event_log.entries@.len() > 0,
        ensures
            final(self).wf(),
            final(self)@ == (State {
                tool_providers: stored(
                    old(self)@.tool_providers,
                    call_id@,
                    old(self)@.registry[index as int].provider,
                ),
                effects: old(self)@.effects.push(
                    EffectView::Route {
                        to: old(self)@.registry[index as int].provider,
                        seq: old(self)@.log.len() - 1,
                    },
                ),
                ..old(self)@
            }),
    {
        let ghost before = self@;
        assert(before.registry[index as int] == self.registry@[index as int]@);
        let provider = self.registry[index].connection_id.clone();
        let seq = self.event_log.next_seq() - 1;
        self.pending_tool_providers.insert(call_id.to_owned(), provider.clone());
        assert(self@ =~= State {
            tool_providers: stored(before.tool_providers, call_id@, provider@),
            ..before
        });
        self.push_effect(Effect::Route { to: provider, seq });
    }
}

/// The value that the skill tool returns.
pub(crate) fn skill_value(name: &str, body: &str) -> (r: CborValue)
    ensures
        r@ == skill_result(name@, body@),
{
    let mut entries: Vec<(CborValue, CborValue)> = Vec::new();
    entries.push((CborValue::Text("name".to_owned()), CborValue::Text(name.to_owned())));
    entries.push((CborValue::Text("content".to_owned()), CborValue::Text(body.to_owned())));
    assert(entries@[0].0@ == Cbor::Text("name"@) && entries@[0].1@ == Cbor::Text(name@));
    assert(entries@[1].0@ == Cbor::Text("content"@) && entries@[1].1@ == Cbor::Text(body@));
    let r = CborValue::Dict(entries);
    assert(r@->Dict_0 =~= skill_result(name@, body@)->Dict_0);
    r
}

} // verus!

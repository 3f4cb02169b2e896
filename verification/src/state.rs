//! What the harness knows, and how each event changes it.
//!
//! `State` is the mathematical state of the harness. The functions below say how
//! it changes; the harness carries them out and lists, as effects, what is left
//! to do outside.
use vstd::prelude::*;
use crate::assoc::{lookup, removed, stored};
use crate::cbor::Cbor;
use crate::discovery::{AgentsFile, Skill, SkillSource};
use crate::error::{trouble_text, Trouble};
use crate::event::{
    any_selects, event_name, is_tool_name, is_transient_event, selection_name, selectors_view, AgentResponseFinished,
    AgentToolCall, ClientKind, ConnectionOrigin, Effort, Event, EventView, HarnessInfoLevel, Notice, Prompt,
    Selector, SessionStartReason, ShellCommandFinished, ThinkingSummary, Tool, ToolSideEffects, ToolSpec,
};
use crate::json::{cbor_of, json_pretty, option_json, Json};
use crate::models::{clamped, effort_for, efforts_after, efforts_of, percent_of, state_json, window_of, Provider};
use crate::order::sorted_positions;
use crate::paths::same_path;
use crate::prompt::{agents_message, system_prompt};
use crate::session::{conversation, node_lines, option_text, tree_of, with_entry, Entry, Outcome, Tree};
use crate::skills::frontmatter_body;
use crate::text::{decimal, signed_decimal};

verus! {

// ---------------------------------------------------------------------------
// Parts of the state
// ---------------------------------------------------------------------------

/// How far an extension has come.
#[derive(Clone, Copy, Debug, PartialEq, Eq, Structural)]
pub enum ExtensionState {
    /// Started, not heard of yet.
    Spawning,
    /// It introduced itself.
    Handshaking,
    /// It is online.
    Ready,
    /// Its connection is gone.
    Disconnected,
}

/// A connected peer.
pub struct Peer {
    pub id: Seq<char>,
    pub name: Seq<char>,
    pub kind: ClientKind,
    pub origin: ConnectionOrigin,
    pub selectors: Seq<Selector>,
}

/// A tool with the connection that provides it.
pub struct Registered {
    pub name: Seq<char>,
    pub provider: Seq<char>,
    pub description: Option<Seq<char>>,
    pub parameters: Option<Json>,
    pub side_effects: ToolSideEffects,
}

/// A configured extension.
pub struct Ext {
    pub name: Seq<char>,
    pub instance_id: u64,
    pub connection_id: Seq<char>,
    pub kind: ClientKind,
    pub pid: Option<u32>,
    /// The configuration of an extension that runs as a process of its own.
    pub supervised: Option<Json>,
    pub restart_attempt: int,
    pub state: ExtensionState,
    pub last_acked: u64,
}

/// Whose turn it is.
pub enum Turn {
    /// The user's.
    Idle,
    /// Extensions set the session up.
    Initializing { session: Seq<char>, waiting_on: Seq<Seq<char>> },
    /// The agent's.
    Thinking { session: Seq<char> },
    /// The tools'.
    Running { session: Seq<char>, remaining: Seq<Seq<char>> },
}

/// A tool call of the agent.
pub struct Call {
    pub session: Seq<char>,
    pub id: Seq<char>,
    pub name: Seq<char>,
    pub arguments: Cbor,
    pub kind: ToolSideEffects,
}

/// A published event.
pub struct Logged {
    pub source: Option<Seq<char>>,
    pub event: EventView,
}

/// What is left to do outside.
#[allow(inconsistent_fields)]
pub enum EffectView {
    /// Hand entry `seq` of the log to its subscribers, and keep it with the
    /// session.
    Publish { seq: int, session: Option<Seq<char>> },
    /// Hand an event to one connection.
    Send { to: Seq<char>, event: EventView },
    /// Hand entry `seq` of the log to one connection.
    Replay { to: Seq<char>, seq: int },
    /// Hand kept event `index` to one connection.
    ReplayKept { to: Seq<char>, index: int },
    /// Hand the request in entry `seq` of the log to the connection that provides
    /// the tool.
    Route { to: Seq<char>, seq: int },
    /// Write down a node of a session, which is its newest.
    KeepEntry { session: Seq<char>, node: int },
    /// Write down the head of a session.
    KeepHead { session: Seq<char>, node: int },
    /// Start an extension again.
    Respawn { index: int },
    /// Remember the model and the efforts: write this text down.
    Remember { text: Seq<char> },
    /// Open the directory of a session.
    OpenSession { session: Seq<char> },
}

/// The state of the harness.
#[verifier::ext_equal]
pub struct State {
    pub connections: Seq<Peer>,
    pub registry: Seq<Registered>,
    pub sessions: Seq<(Seq<char>, Tree)>,
    /// The kept events: their sessions and names.
    pub kept: Seq<(Seq<char>, Seq<char>)>,
    pub current: Seq<char>,
    pub request_sessions: Seq<Seq<char>>,
    pub tool_sessions: Seq<(Seq<char>, Seq<char>)>,
    pub tool_names: Seq<(Seq<char>, Seq<char>)>,
    pub tool_providers: Seq<(Seq<char>, Seq<char>)>,
    pub log: Seq<Logged>,
    pub clients: Seq<Seq<char>>,
    pub lifecycle: Seq<Seq<char>>,
    pub extensions: Seq<Ext>,
    pub agent: Seq<char>,
    pub next_prompt: int,
    pub next_synthetic: int,
    pub prompt_sessions: Seq<(Seq<char>, Seq<char>)>,
    pub turn: Turn,
    pub pending_prompts: Seq<(Seq<char>, Seq<char>)>,
    pub models: Seq<Seq<char>>,
    pub model: Seq<char>,
    pub effort: Effort,
    pub thinking_summary: ThinkingSummary,
    pub input_tokens: Option<u64>,
    pub cached_tokens: Option<u64>,
    pub percent_used: Option<u8>,
    pub providers: Seq<(Seq<char>, Provider)>,
    /// What the settings said about efforts when they were last read.
    pub default_efforts: Seq<(Seq<char>, Effort)>,
    /// What was remembered of efforts when that was last read.
    pub last_efforts: Seq<(Seq<char>, Effort)>,
    pub skills: Seq<(Seq<char>, Skill)>,
    pub files: Seq<AgentsFile>,
    pub initialized: Seq<Seq<char>>,
    pub completed: Seq<Seq<char>>,
    pub pending_calls: Seq<Call>,
    pub in_flight: Seq<(Seq<char>, ToolSideEffects)>,
    pub cwd: Seq<char>,
    /// What reading the files of skills gave, by path: a text or an error.
    pub skill_texts: Seq<(Seq<char>, Result<Seq<char>, Seq<char>>)>,
    /// How the next attempts to write to the store of sessions end: the error of each
    /// that fails. Those beyond the list succeed.
    pub writes: Seq<Option<Seq<char>>>,
    pub effects: Seq<EffectView>,
}

/// A state with the error of the store that cut the step short, where one did.
#[verifier::ext_equal]
pub struct Tried {
    pub state: State,
    pub error: Option<Seq<char>>,
}

/// A step that was not cut short.
pub open spec fn done(s: State) -> Tried {
    Tried { state: s, error: None }
}

// ---------------------------------------------------------------------------
// Lookups
// ---------------------------------------------------------------------------

/// The position of the first extension with this connection.
pub open spec fn ext_at(extensions: Seq<Ext>, connection: Seq<char>) -> Option<int>
    decreases extensions.len(),
{
    if extensions.len() == 0 {
        None
    } else {
        match ext_at(extensions.drop_last(), connection) {
            Some(i) => Some(i),
            None => if extensions.last().connection_id == connection {
                Some(extensions.len() - 1)
            } else {
                None
            },
        }
    }
}

/// The position of the first extension with this name.
pub open spec fn ext_named(extensions: Seq<Ext>, name: Seq<char>) -> Option<int>
    decreases extensions.len(),
{
    if extensions.len() == 0 {
        None
    } else {
        match ext_named(extensions.drop_last(), name) {
            Some(i) => Some(i),
            None => if extensions.last().name == name {
                Some(extensions.len() - 1)
            } else {
                None
            },
        }
    }
}

/// The position of the first connection with this id.
pub open spec fn peer_at(connections: Seq<Peer>, id: Seq<char>) -> Option<int>
    decreases connections.len(),
{
    if connections.len() == 0 {
        None
    } else {
        match peer_at(connections.drop_last(), id) {
            Some(i) => Some(i),
            None => if connections.last().id == id {
                Some(connections.len() - 1)
            } else {
                None
            },
        }
    }
}

/// The position of the first registration of this tool.
pub open spec fn tool_at(registry: Seq<Registered>, name: Seq<char>) -> Option<int>
    decreases registry.len(),
{
    if registry.len() == 0 {
        None
    } else {
        match tool_at(registry.drop_last(), name) {
            Some(i) => Some(i),
            None => if registry.last().name == name {
                Some(registry.len() - 1)
            } else {
                None
            },
        }
    }
}

/// Whether an extension no longer keeps prompts waiting: it is online or gone.
pub open spec fn settled(e: Ext) -> bool {
    e.state == ExtensionState::Ready || e.state == ExtensionState::Disconnected
}

/// Whether no extension keeps prompts waiting.
pub open spec fn all_ready(s: State) -> bool {
    forall|i: int| 0 <= i < s.extensions.len() ==> settled(#[trigger] s.extensions[i])
}

/// Whether a fresh prompt cannot go to the agent now: no model is selected, a turn
/// is under way, or an extension is still starting.
pub open spec fn blocked(s: State) -> bool {
    s.model.len() == 0 || !(s.turn is Idle) || !all_ready(s)
}

/// Whether a tool changes anything; an unknown one may.
pub open spec fn kind_of(registry: Seq<Registered>, name: Seq<char>) -> ToolSideEffects {
    match tool_at(registry, name) {
        Some(i) => registry[i].side_effects,
        None => ToolSideEffects::Mutating,
    }
}

/// The tools that the agent sees: one of each name, by ascending name.
pub open spec fn first_of_name(registry: Seq<Registered>, n: nat) -> Seq<Registered>
    decreases n,
{
    if n == 0 || n > registry.len() {
        Seq::empty()
    } else {
        let before = first_of_name(registry, (n - 1) as nat);
        if tool_at(registry.take(n - 1), registry[n - 1].name) is None {
            before.push(registry[n - 1])
        } else {
            before
        }
    }
}

/// The names of registered tools.
pub open spec fn registered_names(tools: Seq<Registered>) -> Seq<Seq<char>> {
    tools.map_values(|t: Registered| t.name)
}

/// The tools that the agent sees: one of each name, by ascending name.
pub open spec fn tool_list(registry: Seq<Registered>) -> Seq<Tool> {
    let distinct = first_of_name(registry, registry.len());
    sorted_positions(registered_names(distinct)).map_values(
        |i: int|
            Tool {
                name: distinct[i].name,
                description: distinct[i].description,
                parameters: distinct[i].parameters,
            },
    )
}

/// The session that an event belongs to.
pub open spec fn session_of(s: State, event: EventView) -> Option<Seq<char>> {
    match event {
        EventView::PromptSubmitted { session_id, .. } => Some(session_id),
        EventView::Queued { session_id, .. } => Some(session_id),
        EventView::Started { session_id, .. } => Some(session_id),
        EventView::Shutdown { session_id } => Some(session_id),
        EventView::PromptCreated(p) => Some(p.session_id),
        EventView::Request { call_id, .. } => lookup(s.tool_sessions, call_id),
        EventView::Result { call_id, .. } => lookup(s.tool_sessions, call_id),
        EventView::Error { call_id, .. } => lookup(s.tool_sessions, call_id),
        EventView::Passed(e) => match e {
            Event::UiShellCommand { session_id, command: _ } => Some(session_id@),
            Event::UiSwitchSession { new_session_id, reason: _ } => Some(new_session_id@),
            Event::UiTreeRequest { session_id } => Some(session_id@),
            Event::UiNavigateTree { session_id, node_id: _ } => Some(session_id@),
            Event::AgentPromptSubmitted { session_prompt_id } => lookup(s.prompt_sessions, session_prompt_id@),
            Event::AgentResponseUpdated { session_prompt_id, text: _ } => lookup(
                s.prompt_sessions,
                session_prompt_id@,
            ),
            Event::AgentResponseFinished(r) => lookup(s.prompt_sessions, r.session_prompt_id@),
            Event::ToolProgress(p) => lookup(s.tool_sessions, p.call_id@),
            Event::ShellCommandFinished(f) => Some(f.session_id@),
            Event::ExtAgentsMdAvailable(_) => Some(s.current),
            Event::ExtensionContextReady { session_id: _ } => Some(s.current),
            Event::ExtensionEvent { session_id, name: _, payload: _ } => option_text(session_id),
            _ => None,
        },
        _ => None,
    }
}

// ---------------------------------------------------------------------------
// Publishing
// ---------------------------------------------------------------------------

/// The session that keeps an event: none where the event is transient or belongs
/// to no session.
pub open spec fn keeper(s: State, event: EventView, transient: bool) -> Option<Seq<char>> {
    if transient || is_transient_event(event) {
        None
    } else {
        session_of(s, event)
    }
}

/// The state after an event was published.
#[verifier::opaque]
pub open spec fn published_as(s: State, source: Option<Seq<char>>, event: EventView, transient: bool) -> State {
    let session = keeper(s, event, transient);
    State {
        log: s.log.push(Logged { source, event }),
        kept: match session {
            Some(id) => s.kept.push((id, event_name(event))),
            None => s.kept,
        },
        effects: s.effects.push(EffectView::Publish { seq: s.log.len() as int, session }),
        ..s
    }
}

/// Publishing an event touches the log, the kept events and the effects alone.
pub broadcast proof fn publishing_changes_the_log_alone(s: State, source: Option<Seq<char>>, event: EventView, transient: bool)
    ensures
        ({
            let after = #[trigger] published_as(s, source, event, transient);
            &&& after == (State { log: after.log, kept: after.kept, effects: after.effects, ..s })
            &&& after.log == s.log.push(Logged { source, event })
        }),
{
    reveal(published_as);
}

/// The state after an event was published as its kind is.
pub open spec fn published(s: State, source: Option<Seq<char>>, event: EventView) -> State {
    published_as(s, source, event, is_transient_event(event))
}

/// The state after a message was published.
pub open spec fn informed(s: State, message: Seq<char>, level: HarnessInfoLevel) -> State {
    published(s, Some("harness"@), EventView::Info { message, level })
}

/// The state after an ordinary message was published.
pub open spec fn noted(s: State, message: Seq<char>) -> State {
    informed(s, message, HarnessInfoLevel::Normal)
}

/// The state after an event went to one connection.
pub open spec fn sent(s: State, to: Seq<char>, event: EventView) -> State {
    State { effects: s.effects.push(EffectView::Send { to, event }), ..s }
}

/// The state after an attempt to write to the store of sessions.
pub open spec fn write_tried(s: State) -> Tried {
    if s.writes.len() == 0 {
        done(s)
    } else {
        Tried { state: State { writes: s.writes.drop_first(), ..s }, error: s.writes[0] }
    }
}

/// The state after an entry was appended to a session. Where it cannot be written
/// down, the session stays as it is.
pub open spec fn with_kept_entry(s: State, session: Seq<char>, entry: Entry) -> Tried {
    let t = write_tried(s);
    if t.error is Some {
        t
    } else {
        done(
            State {
                sessions: with_entry(s.sessions, session, entry),
                effects: s.effects.push(
                    EffectView::KeepEntry { session, node: tree_of(s.sessions, session).nodes.len() as int },
                ),
                ..t.state
            },
        )
    }
}

/// The text of an error of the store.
pub open spec fn store_trouble(error: Seq<char>) -> Seq<char> {
    trouble_text(Trouble::SessionStore(error))
}

// ---------------------------------------------------------------------------
// Extensions
// ---------------------------------------------------------------------------

/// The state with extension `i` changed.
pub open spec fn with_ext(s: State, i: int, e: Ext) -> State {
    State { extensions: s.extensions.update(i, e), ..s }
}

/// The state after the extension behind a connection reached a state.
pub open spec fn with_ext_state(s: State, connection: Seq<char>, state: ExtensionState) -> State {
    match ext_at(s.extensions, connection) {
        Some(i) => with_ext(s, i, Ext { state, ..s.extensions[i] }),
        None => s,
    }
}

/// The state after an extension acknowledged everything up to a position; an
/// earlier position changes nothing.
pub open spec fn acked(s: State, connection: Seq<char>, up_to: u64) -> State {
    match ext_at(s.extensions, connection) {
        Some(i) => if up_to > s.extensions[i].last_acked {
            with_ext(s, i, Ext { last_acked: up_to, ..s.extensions[i] })
        } else {
            s
        },
        None => s,
    }
}

/// The notice about the extension with this name.
pub open spec fn notice_of(s: State, name: Seq<char>) -> Notice {
    match ext_named(s.extensions, name) {
        Some(i) => Notice {
            instance_id: s.extensions[i].instance_id,
            extension_name: name,
            pid: s.extensions[i].pid,
        },
        None => Notice { instance_id: 0, extension_name: name, pid: None },
    }
}

/// The state with one more lifecycle message.
pub open spec fn with_lifecycle(s: State, message: Seq<char>) -> State {
    State { lifecycle: s.lifecycle.push(message), ..s }
}

/// The state after an extension was announced as starting.
pub open spec fn ext_starting(s: State, name: Seq<char>) -> State {
    published(
        with_lifecycle(s, "extension "@ + name + " starting"@),
        Some("harness"@),
        EventView::Starting(notice_of(s, name)),
    )
}

/// The state after the extension behind a connection was announced as ready.
pub open spec fn ext_ready(s: State, connection: Seq<char>) -> State {
    match ext_at(s.extensions, connection) {
        Some(i) => {
            let e = s.extensions[i];
            published(
                with_lifecycle(s, "extension "@ + e.name + " ready"@),
                Some("harness"@),
                EventView::Ready(
                    Notice { instance_id: e.instance_id, extension_name: e.name, pid: e.pid },
                ),
            )
        },
        None => s,
    }
}

/// The state after an extension was announced as gone.
pub open spec fn ext_exited(s: State, name: Seq<char>) -> State {
    published(
        with_lifecycle(s, "extension "@ + name + " exited"@),
        Some("harness"@),
        EventView::Exited(notice_of(s, name)),
    )
}

/// The state after an extension was handed its configuration; one that runs
/// inside the harness gets an empty one.
pub open spec fn configured(s: State, connection: Seq<char>) -> State {
    let config = match ext_at(s.extensions, connection) {
        Some(i) => match s.extensions[i].supervised {
            Some(json) => json,
            None => Json::Object(Seq::empty()),
        },
        None => Json::Object(Seq::empty()),
    };
    sent(s, connection, EventView::Configure(cbor_of(config)))
}

/// The message about a configuration that an extension refused.
pub open spec fn config_message(s: State, connection: Seq<char>, message: Seq<char>) -> Seq<char> {
    let name = match ext_at(s.extensions, connection) {
        Some(i) => s.extensions[i].name,
        None => "extension"@,
    };
    "extension "@ + name + " rejected its config: "@ + message + "\nthe value of `extensions."@ + name
        + ".config` in harness.json5 is being ignored"@
}

/// The state after a connection chose its events.
pub open spec fn subscribed(s: State, connection: Seq<char>, selectors: Seq<Selector>) -> State {
    match peer_at(s.connections, connection) {
        Some(i) => State {
            connections: s.connections.update(i, Peer { selectors, ..s.connections[i] }),
            ..s
        },
        None => s,
    }
}

/// The registration of a tool.
pub open spec fn registration(connection: Seq<char>, tool: ToolSpec) -> Registered {
    Registered {
        name: tool.name@,
        provider: connection,
        description: option_text(tool.description),
        parameters: option_json(tool.parameters),
        side_effects: tool.side_effects,
    }
}

/// The registry with a tool in place of the one that the same connection
/// registered under the same name, or at the end.
pub open spec fn registered(registry: Seq<Registered>, tool: Registered) -> Seq<Registered>
    decreases registry.len(),
{
    if registry.len() == 0 {
        seq![tool]
    } else if registry[0].name == tool.name && registry[0].provider == tool.provider {
        seq![tool] + registry.drop_first()
    } else {
        seq![registry[0]] + registered(registry.drop_first(), tool)
    }
}

/// The registry without the tools of a connection.
pub open spec fn unregistered(registry: Seq<Registered>, connection: Seq<char>) -> Seq<Registered>
    decreases registry.len(),
{
    if registry.len() == 0 {
        Seq::empty()
    } else if registry.last().provider == connection {
        unregistered(registry.drop_last(), connection)
    } else {
        unregistered(registry.drop_last(), connection).push(registry.last())
    }
}

/// The skills without those of a connection.
pub open spec fn skills_without(skills: Seq<(Seq<char>, Skill)>, source: Seq<char>) -> Seq<(Seq<char>, Skill)>
    decreases skills.len(),
{
    if skills.len() == 0 {
        Seq::empty()
    } else if skills.last().1.source_id == source {
        skills_without(skills.drop_last(), source)
    } else {
        skills_without(skills.drop_last(), source).push(skills.last())
    }
}

/// The instruction files without those of a connection.
pub open spec fn files_without(files: Seq<AgentsFile>, source: Seq<char>) -> Seq<AgentsFile>
    decreases files.len(),
{
    if files.len() == 0 {
        Seq::empty()
    } else if files.last().source_id == source {
        files_without(files.drop_last(), source)
    } else {
        files_without(files.drop_last(), source).push(files.last())
    }
}

/// The state without what a connection announced.
pub open spec fn without_context(s: State, source: Seq<char>) -> State {
    State { skills: skills_without(s.skills, source), files: files_without(s.files, source), ..s }
}

/// The state without what any of the connections announced.
pub open spec fn without_contexts(s: State, sources: Seq<Seq<char>>) -> State
    decreases sources.len(),
{
    if sources.len() == 0 {
        s
    } else {
        without_context(without_contexts(s, sources.drop_last()), sources.last())
    }
}

/// The instruction files with one announced: the same file of the same connection
/// gets the new content, and any other file goes to the end.
pub open spec fn with_file(files: Seq<AgentsFile>, file: AgentsFile) -> Seq<AgentsFile>
    decreases files.len(),
{
    if files.len() == 0 {
        seq![file]
    } else if files[0].source_id == file.source_id && same_path(files[0].file_path, file.file_path) {
        seq![AgentsFile { content: file.content, ..files[0] }] + files.drop_first()
    } else {
        seq![files[0]] + with_file(files.drop_first(), file)
    }
}

// ---------------------------------------------------------------------------
// Prompts
// ---------------------------------------------------------------------------

/// The prompt for the agent.
#[verifier::opaque]
pub open spec fn prompt_for(s: State, session: Seq<char>) -> Prompt {
    Prompt {
        session_prompt_id: "sp-"@ + decimal(s.next_prompt as nat),
        session_id: session,
        system_prompt: system_prompt(tool_list(s.registry), s.skills, s.cwd),
        messages: conversation(tree_of(s.sessions, session).branch()),
        tools: tool_list(s.registry),
        model: if s.model.len() == 0 {
            None
        } else {
            Some(s.model)
        },
        effort: s.effort,
        thinking_summary: s.thinking_summary,
    }
}

/// The state after the agent was prompted.
pub open spec fn prompted(s: State, session: Seq<char>) -> State {
    let p = prompt_for(s, session);
    published(
        State {
            prompt_sessions: stored(s.prompt_sessions, p.session_prompt_id, session),
            next_prompt: s.next_prompt + 1,
            ..s
        },
        None,
        EventView::PromptCreated(p),
    )
}

/// The state after a prompt of the user went to the agent.
pub open spec fn dispatched(s: State, session: Seq<char>, text: Seq<char>) -> Tried {
    let s1 = published(s, None, EventView::PromptSubmitted { session_id: session, text });
    let t = with_kept_entry(s1, session, Entry::User(text));
    if t.error is Some {
        t
    } else {
        done(prompted(State { turn: Turn::Thinking { session }, ..t.state }, session))
    }
}

/// Whether a connection takes part in setting a session up.
pub open spec fn sets_up(p: Peer) -> bool {
    p.kind == ClientKind::Tool && p.origin != ConnectionOrigin::Socket && any_selects(
        p.selectors,
        "session.started"@,
    )
}

/// The connections that take part in setting a session up.
pub open spec fn setup_peers(connections: Seq<Peer>) -> Seq<Seq<char>>
    decreases connections.len(),
{
    if connections.len() == 0 {
        Seq::empty()
    } else if sets_up(connections.last()) {
        setup_peers(connections.drop_last()).push(connections.last().id)
    } else {
        setup_peers(connections.drop_last())
    }
}

/// A list of texts with one more, where it does not hold it yet.
pub open spec fn included(list: Seq<Seq<char>>, text: Seq<char>) -> Seq<Seq<char>> {
    if list.contains(text) {
        list
    } else {
        list.push(text)
    }
}

/// The state in which a session is set up: the instruction files stand in its
/// history.
pub open spec fn set_up(s: State, session: Seq<char>) -> Tried {
    let t = if s.files.len() == 0 {
        done(s)
    } else {
        with_kept_entry(s, session, Entry::User(agents_message(s.files)))
    };
    if t.error is Some {
        t
    } else {
        done(State { initialized: included(t.state.initialized, session), turn: Turn::Idle, ..t.state })
    }
}

/// The state after the set-up of a session: a failure is announced, and it is the
/// user's turn.
pub open spec fn setup_reported(t: Tried) -> State {
    match t.error {
        Some(error) => State {
            turn: Turn::Idle,
            ..noted(t.state, "failed to initialize session: "@ + store_trouble(error))
        },
        None => t.state,
    }
}

/// The state after the set-up of a session was asked for.
pub open spec fn setup_asked(s: State, session: Seq<char>, reason: SessionStartReason) -> State {
    let waiting_on = setup_peers(s.connections);
    let s1 = without_contexts(s, waiting_on);
    published(
        State { turn: Turn::Initializing { session, waiting_on }, ..s1 },
        None,
        EventView::Started { session_id: session, reason },
    )
}

/// The state after a waiting prompt was to go to the agent: a failure is announced,
/// and it is the user's turn.
pub open spec fn dispatch_reported(t: Tried) -> State {
    match t.error {
        Some(error) => State {
            turn: Turn::Idle,
            ..noted(t.state, "failed to dispatch queued prompt: "@ + store_trouble(error))
        },
        None => t.state,
    }
}

/// The state after the first waiting prompt went to the agent, where a model is
/// selected.
pub open spec fn front_dispatched(s: State) -> State {
    if s.model.len() == 0 {
        s
    } else {
        dispatch_reported(
            dispatched(
                State { pending_prompts: s.pending_prompts.drop_first(), ..s },
                s.pending_prompts[0].0,
                s.pending_prompts[0].1,
            ),
        )
    }
}

/// The state after the queue of prompts moved on as far as it can: not during a
/// turn, nor while an extension starts. A session that is not set up yet is set
/// up first.
pub open spec fn advanced(s: State) -> State {
    if !(s.turn is Idle) || !all_ready(s) || s.pending_prompts.len() == 0 {
        s
    } else {
        let session = s.pending_prompts[0].0;
        if s.initialized.contains(session) {
            front_dispatched(s)
        } else if setup_peers(s.connections).len() == 0 {
            let t = set_up(s, session);
            if t.error is Some {
                setup_reported(t)
            } else {
                front_dispatched(t.state)
            }
        } else {
            setup_asked(s, session, SessionStartReason::Initial)
        }
    }
}

/// The state after a session's set-up was finished.
pub open spec fn setup_finished(s: State, session: Seq<char>) -> Tried {
    let t = set_up(s, session);
    if t.error is Some {
        t
    } else {
        done(advanced(t.state))
    }
}

/// The state after a session started.
pub open spec fn session_started(s: State, session: Seq<char>, reason: SessionStartReason) -> State {
    if setup_peers(s.connections).len() == 0 {
        setup_reported(setup_finished(s, session))
    } else {
        setup_asked(s, session, reason)
    }
}

/// A list of texts without those equal to `text`.
pub open spec fn excluded(list: Seq<Seq<char>>, text: Seq<char>) -> Seq<Seq<char>>
    decreases list.len(),
{
    if list.len() == 0 {
        Seq::empty()
    } else if list.last() == text {
        excluded(list.drop_last(), text)
    } else {
        excluded(list.drop_last(), text).push(list.last())
    }
}

/// The state after a connection reported that it has set a session up.
#[verifier::opaque]
pub open spec fn context_ready(s: State, source: Seq<char>, session: Seq<char>) -> Tried {
    match s.turn {
        Turn::Initializing { session: current, waiting_on } => if current == session {
            let left = excluded(waiting_on, source);
            let s1 = State { turn: Turn::Initializing { session: current, waiting_on: left }, ..s };
            if left.len() == 0 {
                setup_finished(s1, session)
            } else {
                done(s1)
            }
        } else {
            done(s)
        },
        _ => done(s),
    }
}

/// The state after a connection can no longer take part in a set-up.
pub open spec fn context_lost(s: State, source: Seq<char>) -> State {
    match s.turn {
        Turn::Initializing { session, waiting_on } => {
            let left = excluded(waiting_on, source);
            let s1 = State { turn: Turn::Initializing { session, waiting_on: left }, ..s };
            if waiting_on.contains(source) && left.len() == 0 {
                setup_reported(setup_finished(s1, session))
            } else {
                s1
            }
        },
        _ => s,
    }
}

// ---------------------------------------------------------------------------
// Tool calls
// ---------------------------------------------------------------------------

/// Whether a call that changes something is on its way.
pub open spec fn mutating_in_flight(in_flight: Seq<(Seq<char>, ToolSideEffects)>) -> bool {
    exists|i: int| 0 <= i < in_flight.len() && (#[trigger] in_flight[i]).1 == ToolSideEffects::Mutating
}

/// Whether a call may go beside those on their way: one that changes nothing
/// where no other changes anything, one that does where there is no other.
pub open spec fn may_go(in_flight: Seq<(Seq<char>, ToolSideEffects)>, kind: ToolSideEffects) -> bool {
    match kind {
        ToolSideEffects::Pure => !mutating_in_flight(in_flight),
        ToolSideEffects::Mutating => in_flight.len() == 0,
    }
}

/// The session of a call, or the default one.
pub open spec fn call_session(s: State, call_id: Seq<char>) -> Seq<char> {
    match lookup(s.tool_sessions, call_id) {
        Some(session) => session,
        None => "default"@,
    }
}

/// The state after a call's outcome was entered into its session's history and
/// the call was forgotten.
pub open spec fn outcome_kept(s: State, call_id: Seq<char>, tool_name: Seq<char>, outcome: Outcome) -> Tried {
    with_kept_entry(
        State {
            tool_sessions: removed(s.tool_sessions, call_id),
            tool_names: removed(s.tool_names, call_id),
            tool_providers: removed(s.tool_providers, call_id),
            ..s
        },
        call_session(s, call_id),
        Entry::Tool { call_id, tool_name, outcome },
    )
}

/// The state after a finished call was crossed off the turn. The last one hands
/// the turn back to the agent.
pub open spec fn call_crossed_off(s: State, call_id: Seq<char>) -> State {
    match s.turn {
        Turn::Running { session, remaining } => {
            let left = excluded(remaining, call_id);
            if left.len() == 0 {
                prompted(State { turn: Turn::Thinking { session }, ..s }, session)
            } else {
                State { turn: Turn::Running { session, remaining: left }, ..s }
            }
        },
        _ => s,
    }
}

/// The error event of a call.
pub open spec fn failure(call_id: Seq<char>, tool_name: Seq<char>, message: Seq<char>) -> EventView {
    EventView::Error { call_id, tool_name, message, details: None }
}

/// The outcome of a failed call.
pub open spec fn failed(message: Seq<char>) -> Outcome {
    Outcome::Error { message, details: None }
}

/// The message about a tool name that is not acceptable.
pub open spec fn name_message(quoted: Seq<char>) -> Seq<char> {
    "invalid tool name "@ + quoted + ": must be non-empty and match [a-zA-Z0-9_]+"@
}

/// The state after a call was refused: the request and the error stand in the
/// history together.
pub open spec fn call_refused(s: State, call: Call, message: Seq<char>) -> Tried {
    let t = with_kept_entry(
        s,
        call.session,
        Entry::Tool {
            call_id: call.id,
            tool_name: "invalid_tool"@,
            outcome: Outcome::Requested(call.arguments),
        },
    );
    if t.error is Some {
        t
    } else {
        let s1 = t.state;
        let s2 = State { tool_sessions: stored(s1.tool_sessions, call.id, call.session), ..s1 };
        let u = outcome_kept(s2, call.id, "invalid_tool"@, failed(message));
        if u.error is Some {
            u
        } else {
            done(published(u.state, None, failure(call.id, "invalid_tool"@, message)))
        }
    }
}

/// The value that the skill tool returns.
pub open spec fn skill_result(name: Seq<char>, body: Seq<char>) -> Cbor {
    Cbor::Dict(
        seq![
            (Cbor::Text("name"@), Cbor::Text(name)),
            (Cbor::Text("content"@), Cbor::Text(body)),
        ],
    )
}

/// The state in which the skill tool has failed.
pub open spec fn skill_failed(s: State, call_id: Seq<char>, message: Seq<char>) -> Tried {
    let s1 = published(s, None, failure(call_id, "skill"@, message));
    outcome_kept(s1, call_id, "skill"@, failed(message))
}

/// The state in which the skill tool has returned a skill's text.
pub open spec fn skill_loaded(s: State, call_id: Seq<char>, name: Seq<char>, content: Seq<char>) -> Tried {
    let result = skill_result(name, frontmatter_body(content));
    let s1 = published(s, None, EventView::Result { call_id, tool_name: "skill"@, result });
    outcome_kept(s1, call_id, "skill"@, Outcome::Result(result))
}

/// What reading the file at a path gave. A file that was not read counts as one that
/// cannot be.
pub open spec fn text_at(
    texts: Seq<(Seq<char>, Result<Seq<char>, Seq<char>>)>,
    path: Seq<char>,
) -> Result<Seq<char>, Seq<char>> {
    match lookup(texts, path) {
        Some(read) => read,
        None => Err("not read"@),
    }
}

/// The text of a skill, or why it could not be read.
pub open spec fn skill_content(s: State, skill: Skill) -> Result<Seq<char>, Seq<char>> {
    match skill.source {
        SkillSource::File(path) => text_at(s.skill_texts, path),
        SkillSource::BuiltIn(content) => Ok(content),
    }
}

/// The state after a call of the skill tool was answered.
pub open spec fn skill_called(s: State, call: Call) -> Tried {
    let t = with_kept_entry(
        s,
        call.session,
        Entry::Tool { call_id: call.id, tool_name: "skill"@, outcome: Outcome::Requested(call.arguments) },
    );
    if t.error is Some {
        t
    } else {
        let s1 = t.state;
        let s2 = State { tool_sessions: stored(s1.tool_sessions, call.id, call.session), ..s1 };
        match crate::cbor::dict_text(call.arguments, "name"@) {
            Some(name) => match lookup(s2.skills, name) {
                Some(skill) => match skill_content(s2, skill) {
                    Ok(content) => skill_loaded(s2, call.id, name, content),
                    Err(error) => skill_failed(s2, call.id, "failed to read skill file: "@ + error),
                },
                None => skill_failed(s2, call.id, "unknown skill: "@ + name),
            },
            None => skill_failed(s2, call.id, "missing required argument: name"@),
        }
    }
}

/// The state after a call of an extension's tool was begun, and whether it is
/// over: it goes to the connection that provides the tool, or fails where there
/// is none.
pub open spec fn tool_called(s: State, call: Call) -> (Tried, bool) {
    let t = with_kept_entry(
        s,
        call.session,
        Entry::Tool { call_id: call.id, tool_name: call.name, outcome: Outcome::Requested(call.arguments) },
    );
    if t.error is Some {
        (t, true)
    } else {
        let s1 = t.state;
        let s2 = published(
            State {
                tool_sessions: stored(s1.tool_sessions, call.id, call.session),
                tool_names: stored(s1.tool_names, call.id, call.name),
                ..s1
            },
            None,
            EventView::Request { call_id: call.id, tool_name: call.name, arguments: call.arguments },
        );
        match tool_at(s2.registry, call.name) {
            Some(i) => (
                done(
                    State {
                        tool_providers: stored(s2.tool_providers, call.id, s2.registry[i].provider),
                        effects: s2.effects.push(
                            EffectView::Route { to: s2.registry[i].provider, seq: s2.log.len() - 1 },
                        ),
                        ..s2
                    },
                ),
                false,
            ),
            None => (outcome_kept(s2, call.id, call.name, failed("no live provider available"@)), true),
        }
    }
}

/// The state after a call was begun, and whether it is over: refused where its
/// name is not acceptable, answered here where it is the skill tool, else handed
/// to an extension.
#[verifier::opaque]
pub open spec fn call_begun(s: State, call: Call) -> (Tried, bool) {
    if !is_tool_name(call.name) {
        (call_refused(s, call, name_message(crate::text::debug_quoted(call.name))), true)
    } else if call.name == "skill"@ {
        (skill_called(s, call), true)
    } else {
        tool_called(s, call)
    }
}

/// Beginning a call leaves the waiting calls, those on their way, the turn, the
/// counters, the extensions and the connections as they are.
pub broadcast proof fn beginning_a_call_leaves_the_queue(s: State, call: Call)
    ensures
        ({
            let after = (#[trigger] call_begun(s, call)).0.state;
            &&& after.pending_calls == s.pending_calls
            &&& after.in_flight == s.in_flight
            &&& after.turn == s.turn
            &&& after.next_prompt == s.next_prompt
            &&& after.next_synthetic == s.next_synthetic
            &&& after.extensions == s.extensions
            &&& after.connections == s.connections
        }),
{
    broadcast use publishing_changes_the_log_alone;

    reveal(call_begun);
}

/// The state after waiting calls were to go on their way: a failure is announced.
pub open spec fn draining_reported(t: Tried) -> State {
    match t.error {
        Some(error) => noted(t.state, "queued tool dispatch failed: "@ + store_trouble(error)),
        None => t.state,
    }
}

/// The state after waiting calls were sent on their way, first come first, as
/// long as the first may go. A call that is over at once lets others go. One that
/// cannot be begun is dropped, and those behind it wait.
#[verifier::opaque]
pub open spec fn drained(s: State) -> Tried
    decreases s.pending_calls.len(),
{
    if s.pending_calls.len() == 0 || !may_go(s.in_flight, s.pending_calls[0].kind) {
        done(s)
    } else {
        proof {
            broadcast use beginning_a_call_leaves_the_queue;
        }
        let call = s.pending_calls[0];
        let (t, over) = call_begun(
            State {
                pending_calls: s.pending_calls.drop_first(),
                in_flight: stored(s.in_flight, call.id, call.kind),
                ..s
            },
            call,
        );
        let free = State { in_flight: removed(t.state.in_flight, call.id), ..t.state };
        if t.error is Some {
            Tried { state: free, error: t.error }
        } else {
            let s2 = if over {
                call_crossed_off(draining_reported(drained(free)), call.id)
            } else {
                t.state
            };
            if s2.pending_calls.len() < s.pending_calls.len() {
                drained(s2)
            } else {
                done(s2)
            }
        }
    }
}

/// The state after a call has finished: it leaves those on their way, waiting
/// calls may go, and it is crossed off the turn.
pub open spec fn call_finished(s: State, call_id: Seq<char>) -> State {
    call_crossed_off(
        draining_reported(drained(State { in_flight: removed(s.in_flight, call_id), ..s })),
        call_id,
    )
}

/// The state after a call of the skill tool was answered and has finished.
pub open spec fn skill_handled(s: State, call: Call) -> Tried {
    let t = skill_called(s, call);
    if t.error is Some {
        t
    } else {
        done(call_finished(t.state, call.id))
    }
}

/// The state after a call was made.
pub open spec fn call_made(s: State, call: Call) -> Tried {
    let (t, over) = call_begun(s, call);
    if t.error is None && over {
        done(call_finished(t.state, call.id))
    } else {
        t
    }
}

/// Whether the counters of prompts and of made-up ids have not run out.
pub open spec fn counted(s: State) -> bool {
    s.next_prompt <= u64::MAX && s.next_synthetic <= u64::MAX
}

/// Crossing a call off prompts the agent at most once.
pub proof fn crossing_off_counts(s: State, call_id: Seq<char>)
    ensures
        s.next_prompt <= call_crossed_off(s, call_id).next_prompt <= s.next_prompt + 1,
        call_crossed_off(s, call_id).next_synthetic == s.next_synthetic,
        call_crossed_off(s, call_id).pending_calls == s.pending_calls,
{
    broadcast use publishing_changes_the_log_alone;

}

/// Sending calls on their way prompts the agent at most once for each call that goes.
pub proof fn draining_counts(s: State)
    ensures
        s.next_prompt <= drained(s).state.next_prompt,
        drained(s).state.next_synthetic == s.next_synthetic,
        drained(s).state.next_prompt + drained(s).state.pending_calls.len() <= s.next_prompt + s.pending_calls.len(),
        drained(s).state.pending_calls.len() <= s.pending_calls.len(),
    decreases s.pending_calls.len(),
{
    broadcast use {publishing_changes_the_log_alone, beginning_a_call_leaves_the_queue};

    reveal_with_fuel(drained, 1);
    if s.pending_calls.len() > 0 && may_go(s.in_flight, s.pending_calls[0].kind) {
        let call = s.pending_calls[0];
        let (t, over) = call_begun(
            State {
                pending_calls: s.pending_calls.drop_first(),
                in_flight: stored(s.in_flight, call.id, call.kind),
                ..s
            },
            call,
        );
        let free = State { in_flight: removed(t.state.in_flight, call.id), ..t.state };
        draining_counts(free);
        crossing_off_counts(draining_reported(drained(free)), call.id);
        let s2 = if over {
            call_crossed_off(draining_reported(drained(free)), call.id)
        } else {
            t.state
        };
        if s2.pending_calls.len() < s.pending_calls.len() {
            draining_counts(s2);
        }
    }
}

/// A call that finishes prompts the agent at most once, and once for each call that
/// then goes.
pub proof fn finishing_counts(s: State, call_id: Seq<char>)
    ensures
        s.next_prompt <= call_finished(s, call_id).next_prompt,
        call_finished(s, call_id).next_synthetic == s.next_synthetic,
        call_finished(s, call_id).next_prompt + call_finished(s, call_id).pending_calls.len() <= s.next_prompt
            + s.pending_calls.len() + 1,
        call_finished(s, call_id).pending_calls.len() <= s.pending_calls.len(),
{
    broadcast use publishing_changes_the_log_alone;

    let free = State { in_flight: removed(s.in_flight, call_id), ..s };
    draining_counts(free);
    crossing_off_counts(draining_reported(drained(free)), call_id);
}

/// Sending calls on their way leaves the extensions and the connections as they
/// are.
pub proof fn calls_leave_the_extensions(s: State)
    ensures
        drained(s).state.extensions == s.extensions,
        drained(s).state.connections == s.connections,
    decreases s.pending_calls.len(),
{
    broadcast use {publishing_changes_the_log_alone, beginning_a_call_leaves_the_queue};

    reveal_with_fuel(drained, 1);
    if s.pending_calls.len() > 0 && may_go(s.in_flight, s.pending_calls[0].kind) {
        let call = s.pending_calls[0];
        let (t, over) = call_begun(
            State {
                pending_calls: s.pending_calls.drop_first(),
                in_flight: stored(s.in_flight, call.id, call.kind),
                ..s
            },
            call,
        );
        let free = State { in_flight: removed(t.state.in_flight, call.id), ..t.state };
        calls_leave_the_extensions(free);
        let s2 = if over {
            call_crossed_off(draining_reported(drained(free)), call.id)
        } else {
            t.state
        };
        if s2.pending_calls.len() < s.pending_calls.len() {
            calls_leave_the_extensions(s2);
        }
    }
}

/// Losing calls never counts prompts back.
pub proof fn lost_calls_count(s: State, call_ids: Seq<Seq<char>>, n: int)
    requires
        0 <= n <= call_ids.len(),
    ensures
        calls_lost(s, call_ids.take(n)).next_prompt <= calls_lost(s, call_ids).next_prompt,
        calls_lost(s, call_ids.take(n)).next_synthetic == calls_lost(s, call_ids).next_synthetic,
    decreases call_ids.len(),
{
    broadcast use publishing_changes_the_log_alone;

    if n == call_ids.len() {
        assert(call_ids.take(n) =~= call_ids);
    } else {
        assert(call_ids.drop_last().take(n) =~= call_ids.take(n));
        lost_calls_count(s, call_ids.drop_last(), n);
        let before = calls_lost(s, call_ids.drop_last());
        let call_id = call_ids.last();
        let tool_name = match lookup(before.tool_names, call_id) {
            Some(name) => name,
            None => "unknown_tool"@,
        };
        let s1 = State {
            tool_names: removed(before.tool_names, call_id),
            tool_providers: removed(before.tool_providers, call_id),
            ..before
        };
        let s2 = if lookup(s1.tool_sessions, call_id) is Some {
            outcome_kept(s1, call_id, tool_name, failed("tool provider disconnected"@)).state
        } else {
            s1
        };
        finishing_counts(published(s2, None, failure(call_id, tool_name, "tool provider disconnected"@)), call_id);
    }
}

/// Losing calls leaves the extensions and the connections as they are.
pub proof fn lost_calls_leave_the_extensions(s: State, call_ids: Seq<Seq<char>>)
    ensures
        calls_lost(s, call_ids).extensions == s.extensions,
        calls_lost(s, call_ids).connections == s.connections,
    decreases call_ids.len(),
{
    broadcast use publishing_changes_the_log_alone;

    if call_ids.len() > 0 {
        lost_calls_leave_the_extensions(s, call_ids.drop_last());
        let before = calls_lost(s, call_ids.drop_last());
        let call_id = call_ids.last();
        let tool_name = match lookup(before.tool_names, call_id) {
            Some(name) => name,
            None => "unknown_tool"@,
        };
        let s1 = State {
            tool_names: removed(before.tool_names, call_id),
            tool_providers: removed(before.tool_providers, call_id),
            ..before
        };
        let s2 = if lookup(s1.tool_sessions, call_id) is Some {
            outcome_kept(s1, call_id, tool_name, failed("tool provider disconnected"@)).state
        } else {
            s1
        };
        let s3 = published(s2, None, failure(call_id, tool_name, "tool provider disconnected"@));
        calls_leave_the_extensions(State { in_flight: removed(s3.in_flight, call_id), ..s3 });
    }
}

/// The calls on which a connection is at work, oldest first.
pub open spec fn calls_of(providers: Seq<(Seq<char>, Seq<char>)>, connection: Seq<char>) -> Seq<Seq<char>>
    decreases providers.len(),
{
    if providers.len() == 0 {
        Seq::empty()
    } else if providers.last().1 == connection {
        calls_of(providers.drop_last(), connection).push(providers.last().0)
    } else {
        calls_of(providers.drop_last(), connection)
    }
}

/// The state after a call failed because its provider is gone. That the failure
/// cannot be written down changes nothing else.
pub open spec fn call_lost(s: State, call_id: Seq<char>) -> State {
    let tool_name = match lookup(s.tool_names, call_id) {
        Some(name) => name,
        None => "unknown_tool"@,
    };
    let s1 = State {
        tool_names: removed(s.tool_names, call_id),
        tool_providers: removed(s.tool_providers, call_id),
        ..s
    };
    let s2 = if lookup(s1.tool_sessions, call_id) is Some {
        outcome_kept(s1, call_id, tool_name, failed("tool provider disconnected"@)).state
    } else {
        s1
    };
    call_finished(published(s2, None, failure(call_id, tool_name, "tool provider disconnected"@)), call_id)
}

/// The state after the calls failed one after the other.
pub open spec fn calls_lost(s: State, call_ids: Seq<Seq<char>>) -> State
    decreases call_ids.len(),
{
    if call_ids.len() == 0 {
        s
    } else {
        call_lost(calls_lost(s, call_ids.drop_last()), call_ids.last())
    }
}

/// The state after a request of an extension was entered into the history of the
/// session that is next in line, or of the default one.
pub open spec fn request_kept(s: State, call_id: Seq<char>, tool_name: Seq<char>, arguments: Cbor) -> Tried {
    let session = if s.request_sessions.len() > 0 {
        s.request_sessions[0]
    } else {
        "default"@
    };
    with_kept_entry(
        State {
            request_sessions: if s.request_sessions.len() > 0 {
                s.request_sessions.drop_first()
            } else {
                s.request_sessions
            },
            tool_sessions: stored(s.tool_sessions, call_id, session),
            tool_names: stored(s.tool_names, call_id, tool_name),
            ..s
        },
        session,
        Entry::Tool { call_id, tool_name, outcome: Outcome::Requested(arguments) },
    )
}

/// The state after a request of an extension was routed.
#[verifier::opaque]
pub open spec fn request_handled(s: State, source: Seq<char>, call_id: Seq<char>, tool_name: Seq<char>, arguments: Cbor) -> Tried {
    let t = request_kept(s, call_id, tool_name, arguments);
    if t.error is Some {
        t
    } else {
        let s2 = published(t.state, Some(source), EventView::Request { call_id, tool_name, arguments });
        match tool_at(s2.registry, tool_name) {
            Some(i) => done(
                State {
                    tool_providers: stored(s2.tool_providers, call_id, s2.registry[i].provider),
                    effects: s2.effects.push(
                        EffectView::Route { to: s2.registry[i].provider, seq: s2.log.len() - 1 },
                    ),
                    ..s2
                },
            ),
            None => outcome_kept(
                published(s2, None, failure(call_id, tool_name, "no live provider available"@)),
                call_id,
                tool_name,
                failed("no live provider available"@),
            ),
        }
    }
}

// ---------------------------------------------------------------------------
// The agent
// ---------------------------------------------------------------------------

/// The share of the context window that is used, where both are known.
pub open spec fn usage_percent(s: State, input_tokens: Option<u64>) -> Option<u8> {
    match (window_of(s.providers, s.model), input_tokens) {
        (Some(window), Some(tokens)) => Some(percent_of(tokens, window) as u8),
        _ => None,
    }
}

/// The state after the use of the context was reported. Nothing is published
/// where nothing changed.
pub open spec fn usage_reported(s: State, input_tokens: Option<u64>, cached_tokens: Option<u64>) -> State {
    let percent_used = usage_percent(s, input_tokens);
    if s.input_tokens == input_tokens && s.cached_tokens == cached_tokens && s.percent_used == percent_used {
        s
    } else {
        published(
            State { input_tokens, cached_tokens, percent_used, ..s },
            None,
            EventView::ContextUsage { input_tokens, cached_tokens, percent_used },
        )
    }
}

/// The id of a call: its own, or one made up where it has none.
pub open spec fn call_id_of(id: Seq<char>, next_synthetic: int) -> Seq<char> {
    if id.len() == 0 {
        "harness-synth-"@ + decimal(next_synthetic as nat)
    } else {
        id
    }
}

/// The first `n` calls with their ids completed and their kinds looked up, and
/// the next number for a made-up id.
pub open spec fn normalized(s: State, session: Seq<char>, calls: Seq<AgentToolCall>, n: nat) -> (Seq<Call>, int)
    decreases n,
{
    if n == 0 || n > calls.len() {
        (Seq::empty(), s.next_synthetic)
    } else {
        let (before, next) = normalized(s, session, calls, (n - 1) as nat);
        let call = calls[n - 1];
        (
            before.push(
                Call {
                    session,
                    id: call_id_of(call.id@, next),
                    name: call.name.raw(),
                    arguments: call.arguments@,
                    kind: kind_of(s.registry, call.name.raw()),
                },
            ),
            if call.id@.len() == 0 {
                next + 1
            } else {
                next
            },
        )
    }
}

/// The ids of calls.
pub open spec fn call_ids(calls: Seq<Call>) -> Seq<Seq<char>> {
    calls.map_values(|c: Call| c.id)
}

/// The state after the agent asked for tool calls.
pub open spec fn calls_queued(s: State, session: Seq<char>, calls: Seq<AgentToolCall>) -> Tried {
    let (queue, next) = normalized(s, session, calls, calls.len());
    drained(
        State {
            next_synthetic: next,
            turn: Turn::Running { session, remaining: call_ids(queue) },
            pending_calls: s.pending_calls + queue,
            ..s
        },
    )
}

/// The state after the agent finished an answer. An answer to an unknown prompt,
/// such as one that came before, is discarded.
#[verifier::opaque]
pub open spec fn agent_finished(s: State, r: AgentResponseFinished) -> Tried {
    let s1 = if r.input_tokens is Some || r.cached_tokens is Some {
        usage_reported(s, r.input_tokens, r.cached_tokens)
    } else {
        s
    };
    match lookup(s1.prompt_sessions, r.session_prompt_id@) {
        None => done(
            noted(
                s1,
                "discarding duplicate agent response for session_prompt_id="@ + r.session_prompt_id@,
            ),
        ),
        Some(session) => {
            let s2 = published(s1, None, Event::AgentResponseFinished(r)@);
            let s3 = State {
                prompt_sessions: removed(s2.prompt_sessions, r.session_prompt_id@),
                completed: included(s2.completed, r.session_prompt_id@),
                ..s2
            };
            let t = match r.text {
                Some(text) => with_kept_entry(
                    s3,
                    session,
                    Entry::Agent { text: text@, thinking: option_text(r.thinking) },
                ),
                None => done(s3),
            };
            if t.error is Some {
                t
            } else if r.tool_calls@.len() > 0 {
                calls_queued(t.state, session, r.tool_calls@)
            } else {
                done(advanced(State { turn: Turn::Idle, ..t.state }))
            }
        },
    }
}

/// The text that stands for a command of the user in the history.
pub open spec fn shell_entry(f: ShellCommandFinished) -> Seq<char> {
    let exit = match f.exit_code {
        Some(code) => signed_decimal(code as int),
        None => if f.cancelled {
            "cancelled"@
        } else {
            "?"@
        },
    };
    "<user_shell command="@ + crate::text::debug_quoted(f.command@) + " exit_code="@
        + crate::text::debug_quoted(exit) + ">\n"@ + f.output@ + "\n</user_shell>"@
}

// ---------------------------------------------------------------------------
// Events of extensions
// ---------------------------------------------------------------------------

/// The state after the outcome of a call arrived: it is published and kept, and the
/// call has finished.
pub open spec fn outcome_arrived(
    s: State,
    source: Seq<char>,
    event: EventView,
    call_id: Seq<char>,
    tool_name: Seq<char>,
    outcome: Outcome,
) -> Tried {
    let t = outcome_kept(published(s, Some(source), event), call_id, tool_name, outcome);
    if t.error is Some {
        t
    } else {
        done(call_finished(t.state, call_id))
    }
}

/// The state after an extension sent an event.
pub open spec fn after_extension_event(s: State, source: Seq<char>, event: EventView) -> Tried {
    match event {
        EventView::Request { call_id, tool_name, arguments } => request_handled(
            s,
            source,
            call_id,
            tool_name,
            arguments,
        ),
        EventView::Result { call_id, tool_name, result } => if lookup(s.tool_sessions, call_id) is Some {
            outcome_arrived(s, source, event, call_id, tool_name, Outcome::Result(result))
        } else {
            done(noted(s, "discarding duplicate tool result for call_id="@ + call_id))
        },
        EventView::Error { call_id, tool_name, message, details } => if lookup(s.tool_sessions, call_id) is Some {
            outcome_arrived(s, source, event, call_id, tool_name, Outcome::Error { message, details })
        } else {
            done(noted(s, "discarding duplicate tool error for call_id="@ + call_id))
        },
        EventView::Passed(e) => match e {
            Event::Ack { up_to } => done(acked(s, source, up_to)),
            Event::LifecycleHello(_) => done(
                configured(
                    published(with_ext_state(s, source, ExtensionState::Handshaking), Some(source), event),
                    source,
                ),
            ),
            Event::LifecycleConfigError { message } => done(
                informed(s, config_message(s, source, message@), HarnessInfoLevel::Important),
            ),
            Event::LifecycleSubscribe(sub) => done(
                published(subscribed(s, source, selectors_view(sub.selectors@)), Some(source), event),
            ),
            Event::LifecycleReady { message: _ } => done(
                advanced(
                    with_ext_state(
                        published(ext_ready(s, source), Some(source), event),
                        source,
                        ExtensionState::Ready,
                    ),
                ),
            ),
            Event::EmitEvent { event: inner, transient } => done(
                published_as(s, Some(source), inner.view(), transient),
            ),
            Event::ToolRegister(tool) => done(
                State { registry: registered(s.registry, registration(source, tool)), ..s },
            ),
            Event::ShellCommandFinished(f) => {
                let s1 = published(s, Some(source), event);
                if f.include_in_context {
                    with_kept_entry(s1, f.session_id@, Entry::User(shell_entry(f)))
                } else {
                    done(s1)
                }
            },
            Event::ExtSkillAvailable(skill) => done(
                published(
                    State {
                        skills: stored(
                            s.skills,
                            skill.name@,
                            Skill {
                                source_id: source,
                                description: skill.description@,
                                source: SkillSource::File(skill.file_path@),
                                add_to_prompt: skill.add_to_prompt,
                            },
                        ),
                        ..s
                    },
                    Some(source),
                    event,
                ),
            ),
            Event::ExtAgentsMdAvailable(file) => done(
                published(
                    State {
                        files: with_file(
                            s.files,
                            AgentsFile {
                                source_id: source,
                                file_path: file.file_path@,
                                content: file.content@,
                            },
                        ),
                        ..s
                    },
                    Some(source),
                    event,
                ),
            ),
            Event::ExtensionContextReady { session_id } => context_ready(
                published(s, Some(source), event),
                source,
                session_id@,
            ),
            Event::AgentResponseFinished(r) => agent_finished(s, r),
            _ => done(published(s, Some(source), event)),
        },
        _ => done(published(s, Some(source), event)),
    }
}

// ---------------------------------------------------------------------------
// Events of clients
// ---------------------------------------------------------------------------

/// What became of a prompt of the user.
pub enum SubmissionView {
    Dispatched,
    Queued,
    Rejected(Seq<char>),
}

/// What becomes of a prompt: it is refused where it is for another session, it
/// waits where it cannot go yet, else it goes.
pub open spec fn submission(s: State, session: Seq<char>) -> SubmissionView {
    if session != s.current {
        SubmissionView::Rejected(
            "harness is bound to session `"@ + s.current + "`; prompt for `"@ + session + "` rejected"@,
        )
    } else if blocked(s) || !s.initialized.contains(session) {
        SubmissionView::Queued
    } else {
        SubmissionView::Dispatched
    }
}

/// The state after the user submitted a prompt.
pub open spec fn submitted(s: State, session: Seq<char>, text: Seq<char>) -> Tried {
    match submission(s, session) {
        SubmissionView::Rejected(reason) => done(noted(s, reason)),
        SubmissionView::Queued => done(
            advanced(State { pending_prompts: s.pending_prompts.push((session, text)), ..s }),
        ),
        SubmissionView::Dispatched => dispatched(s, session, text),
    }
}

/// Whether an entry of the log is shown again to a client that joins late.
pub open spec fn replayed_kind(event: EventView) -> bool {
    match event {
        EventView::Info { .. } => true,
        EventView::Starting(_) => true,
        EventView::Ready(_) => true,
        EventView::Exited(_) => true,
        EventView::Passed(e) => e is ExtAgentsMdAvailable || e is ExtensionContextReady,
        _ => false,
    }
}

/// The effects that replay the first `n` kept events of the current session.
pub open spec fn kept_replays(s: State, to: Seq<char>, selectors: Seq<Selector>, n: nat) -> Seq<EffectView>
    decreases n,
{
    if n == 0 || n > s.kept.len() {
        Seq::empty()
    } else {
        let before = kept_replays(s, to, selectors, (n - 1) as nat);
        if s.kept[n - 1].0 == s.current && any_selects(selectors, s.kept[n - 1].1) {
            before.push(EffectView::ReplayKept { to, index: n - 1 })
        } else {
            before
        }
    }
}

/// The effects that replay the first `n` entries of the log.
pub open spec fn log_replays(s: State, to: Seq<char>, selectors: Seq<Selector>, n: nat) -> Seq<EffectView>
    decreases n,
{
    if n == 0 || n > s.log.len() {
        Seq::empty()
    } else {
        let before = log_replays(s, to, selectors, (n - 1) as nat);
        let event = s.log[n - 1].event;
        if replayed_kind(event) && any_selects(selectors, selection_name(event)) {
            before.push(EffectView::Replay { to, seq: n - 1 })
        } else {
            before
        }
    }
}

/// The state after an event went to a client that chose it.
pub open spec fn offered(s: State, to: Seq<char>, selectors: Seq<Selector>, event: EventView) -> State {
    if any_selects(selectors, selection_name(event)) {
        sent(s, to, event)
    } else {
        s
    }
}

/// The state after a client that joined was shown what was announced, and the
/// model with its efforts.
#[verifier::opaque]
pub open spec fn info_replayed(s: State, to: Seq<char>, selectors: Seq<Selector>) -> State {
    let s2 = State { effects: s.effects + log_replays(s, to, selectors, s.log.len()), ..s };
    let s3 = offered(s2, to, selectors, EventView::ModelsAvailable(s.models));
    let s4 = offered(
        s3,
        to,
        selectors,
        EventView::ModelSelected { model: s.model, context_window: window_of(s.providers, s.model) },
    );
    let s5 = offered(
        s4,
        to,
        selectors,
        EventView::ContextUsage {
            input_tokens: s.input_tokens,
            cached_tokens: s.cached_tokens,
            percent_used: s.percent_used,
        },
    );
    let s6 = offered(s5, to, selectors, EventView::EffortChanged(s.effort));
    offered(s6, to, selectors, EventView::EffortsAvailable(efforts_of(s.providers, s.model)))
}

/// The state after a client that joined was brought up to date: the kept events of
/// the session, what was announced, and the model with its efforts.
#[verifier::opaque]
pub open spec fn caught_up(s: State, to: Seq<char>, selectors: Seq<Selector>) -> State {
    info_replayed(
        State { effects: s.effects + kept_replays(s, to, selectors, s.kept.len()), ..s },
        to,
        selectors,
    )
}

/// The state after the model and the effort were to be remembered, beside the other
/// efforts that were read.
pub open spec fn remembered(s: State) -> State {
    let efforts = efforts_after(s.last_efforts, s.model, s.effort);
    State {
        effects: s.effects.push(EffectView::Remember { text: json_pretty(state_json(s.model, efforts)) }),
        ..s
    }
}

/// The state after the user chose a model. Its effort is that of the settings and of
/// what is remembered, as they were last read.
#[verifier::opaque]
pub open spec fn model_chosen(s: State, model: Seq<char>) -> State {
    if s.models.contains(model) {
        let s1 = State {
            model,
            effort: effort_for(s.default_efforts, s.last_efforts, s.providers, model),
            ..s
        };
        let s2 = State { input_tokens: None, cached_tokens: None, percent_used: None, ..remembered(s1) };
        let s3 = published(
            s2,
            None,
            EventView::ModelSelected { model, context_window: window_of(s.providers, model) },
        );
        let s4 = published(
            s3,
            None,
            EventView::ContextUsage { input_tokens: None, cached_tokens: None, percent_used: None },
        );
        let s5 = published(s4, None, EventView::EffortChanged(s1.effort));
        let s6 = published(s5, None, EventView::EffortsAvailable(efforts_of(s.providers, model)));
        if s.model.len() == 0 && s6.turn is Idle {
            advanced(s6)
        } else {
            s6
        }
    } else {
        published(
            s,
            None,
            EventView::Info { message: "unknown model: "@ + model, level: HarnessInfoLevel::Normal },
        )
    }
}

/// The state after the user chose an effort.
#[verifier::opaque]
pub open spec fn effort_chosen(s: State, level: Effort) -> State {
    let effort = clamped(level, efforts_of(s.providers, s.model));
    published(remembered(State { effort, ..s }), None, EventView::EffortChanged(effort))
}

/// The state after the harness turned to another session.
#[verifier::opaque]
pub open spec fn switched(s: State, session: Seq<char>, reason: SessionStartReason) -> Tried {
    if session == s.current {
        done(noted(s, "already on session `"@ + session + "`"@))
    } else {
        let s1 = published(s, None, EventView::Shutdown { session_id: s.current });
        let t = write_tried(
            State {
                turn: Turn::Idle,
                pending_prompts: Seq::empty(),
                request_sessions: Seq::empty(),
                pending_calls: Seq::empty(),
                current: session,
                ..s1
            },
        );
        if t.error is Some {
            t
        } else {
            done(
                session_started(
                    State { effects: t.state.effects.push(EffectView::OpenSession { session }), ..t.state },
                    session,
                    reason,
                ),
            )
        }
    }
}

/// The state after messages were published one after the other.
pub open spec fn all_noted(s: State, messages: Seq<Seq<char>>) -> State
    decreases messages.len(),
{
    if messages.len() == 0 {
        s
    } else {
        noted(all_noted(s, messages.drop_last()), messages.last())
    }
}

/// The state after the tree of a session was asked for.
#[verifier::opaque]
pub open spec fn tree_shown(s: State, session: Seq<char>) -> State {
    if session != s.current {
        noted(s, "tree request for `"@ + session + "` ignored; harness is bound to `"@ + s.current + "`"@)
    } else if tree_of(s.sessions, session).nodes.len() == 0 {
        noted(s, "session `"@ + session + "` has no entries yet"@)
    } else {
        all_noted(s, node_lines(tree_of(s.sessions, session)))
    }
}

/// The state after the user moved to a node of the tree.
#[verifier::opaque]
pub open spec fn navigated(s: State, session: Seq<char>, node: int) -> Tried {
    let tree = tree_of(s.sessions, session);
    if session != s.current {
        done(noted(s, "navigate ignored: harness is bound to `"@ + s.current + "`"@))
    } else if !(0 <= node < tree.nodes.len()) {
        done(noted(s, "no node `"@ + decimal(node as nat) + "` in session"@))
    } else {
        let t = write_tried(s);
        if t.error is Some {
            t
        } else {
            done(
                noted(
                    State {
                        sessions: stored(s.sessions, session, Tree { nodes: tree.nodes, head: Some(node) }),
                        effects: s.effects.push(EffectView::KeepHead { session, node }),
                        ..t.state
                    },
                    "navigated to node "@ + decimal(node as nat),
                ),
            )
        }
    }
}

/// The state after a client submitted a prompt. One that waits is announced.
pub open spec fn prompt_taken(s: State, session: Seq<char>, text: Seq<char>) -> Tried {
    let t = submitted(s, session, text);
    if t.error is None && submission(s, session) is Queued {
        let s2 = published(t.state, None, EventView::Queued { session_id: session, text });
        if s2.model.len() == 0 {
            done(noted(s2, "no model selected — use /model to pick one"@))
        } else {
            done(s2)
        }
    } else {
        t
    }
}

/// The state after a client sent an event. `denied` says why its subscription is
/// not granted.
pub open spec fn after_client_event(s: State, client: Seq<char>, event: EventView, denied: Option<Seq<char>>) -> Tried {
    match event {
        EventView::PromptSubmitted { session_id, text } => prompt_taken(s, session_id, text),
        EventView::Disconnect(_) => done(s),
        EventView::Passed(e) => match e {
            Event::LifecycleSubscribe(sub) => match denied {
                None => {
                    let selectors = selectors_view(sub.selectors@);
                    done(
                        caught_up(
                            published(subscribed(s, client, selectors), Some(client), event),
                            client,
                            selectors,
                        ),
                    )
                },
                Some(reason) => done(
                    sent(s, client, EventView::Disconnect(Some("subscription denied: "@ + reason))),
                ),
            },
            Event::UiModelSelect { model } => done(model_chosen(s, model@)),
            Event::UiSetEffort { level } => done(effort_chosen(s, level)),
            Event::UiSwitchSession { new_session_id, reason } => switched(
                published(s, Some(client), event),
                new_session_id@,
                reason,
            ),
            Event::UiTreeRequest { session_id } => done(
                tree_shown(published(s, Some(client), event), session_id@),
            ),
            Event::UiNavigateTree { session_id, node_id } => navigated(
                published(s, Some(client), event),
                session_id@,
                node_id as int,
            ),
            _ => done(published(s, Some(client), event)),
        },
        _ => done(published(s, Some(client), event)),
    }
}

/// Whether a client stays connected after an event.
pub open spec fn client_stays(event: EventView, denied: Option<Seq<char>>) -> bool {
    match event {
        EventView::Disconnect(_) => false,
        EventView::Passed(e) => !(e is LifecycleSubscribe && denied is Some),
        _ => true,
    }
}

// ---------------------------------------------------------------------------
// Lost connections
// ---------------------------------------------------------------------------

/// The connections without one.
pub open spec fn peers_without(connections: Seq<Peer>, id: Seq<char>) -> Seq<Peer>
    decreases connections.len(),
{
    if connections.len() == 0 {
        Seq::empty()
    } else if connections.last().id == id {
        peers_without(connections.drop_last(), id)
    } else {
        peers_without(connections.drop_last(), id).push(connections.last())
    }
}

/// The state after the restart of the extension behind a lost connection was
/// asked for: only one that runs as a process of its own and is not the agent.
pub open spec fn respawn_asked(s: State, connection: Seq<char>) -> State {
    match ext_at(s.extensions, connection) {
        Some(i) => {
            let e = s.extensions[i];
            if e.supervised is Some && e.kind != ClientKind::Agent {
                let s1 = with_ext(s, i, Ext { restart_attempt: e.restart_attempt + 1, ..e });
                let s2 = published(
                    s1,
                    Some("harness"@),
                    EventView::Restarting {
                        notice: Notice { instance_id: e.instance_id, extension_name: e.name, pid: None },
                        attempt: (e.restart_attempt + 1) as u32,
                        reason: Some("unexpected disconnect"@),
                    },
                );
                State { effects: s2.effects.push(EffectView::Respawn { index: i }), ..s2 }
            } else {
                s
            }
        },
        None => s,
    }
}

/// The state after extension `i` was started again behind a new connection.
pub open spec fn respawned(s: State, i: int, connection: Seq<char>, pid: u32) -> State {
    let e = Ext {
        connection_id: connection,
        pid: Some(pid),
        state: ExtensionState::Spawning,
        last_acked: 0,
        ..s.extensions[i]
    };
    let peer = Peer {
        id: connection,
        name: e.name,
        kind: e.kind,
        origin: ConnectionOrigin::Supervised,
        selectors: Seq::empty(),
    };
    ext_starting(with_ext(State { connections: s.connections.push(peer), ..s }, i, e), e.name)
}

/// The state after a connection was lost.
#[verifier::opaque]
pub open spec fn disconnected(s: State, connection: Seq<char>) -> State {
    let s1 = context_lost(without_context(s, connection), connection);
    let s2 = calls_lost(s1, calls_of(s1.tool_providers, connection));
    let s3 = with_ext_state(s2, connection, ExtensionState::Disconnected);
    let s4 = State { clients: excluded(s3.clients, connection), ..s3 };
    match peer_at(s4.connections, connection) {
        None => s4,
        Some(i) => {
            let peer = s4.connections[i];
            let s5 = State { connections: peers_without(s4.connections, connection), ..s4 };
            let s6 = if peer.origin == ConnectionOrigin::Supervised || peer.origin == ConnectionOrigin::InMemory {
                ext_exited(State { registry: unregistered(s5.registry, connection), ..s5 }, peer.name)
            } else {
                s5
            };
            if peer.origin == ConnectionOrigin::Supervised {
                respawn_asked(s6, connection)
            } else {
                s6
            }
        },
    }
}

} // verus!

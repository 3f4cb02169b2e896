//! Starting the harness, serving its clients, and talking to it.
use vstd::prelude::*;
use vstd::string::*;
use crate::assoc::TextMap;
use crate::clients::session_can_be_shown;
use crate::error::{HarnessError, Trouble};
use crate::event::{
    extension_line, format_extension_event, format_tool_progress, progress_line, selectors_view, ClientKind,
    ConnectionOrigin, Effort, Event, EventSelector, EventView, HarnessInfoLevel, LifecycleHello, LifecycleSubscribe,
    Selector, SessionStartReason, ThinkingSummary, ToolSideEffects, ToolSpec,
};
use crate::event_log::EventLog;
use crate::handlers::{can_restart, extension_heard, trouble_in, trouble_of};
use crate::harness::{
    kept_view, ConnectionEntry, ExtensionEntry, Harness, HARNESS_CONNECTION_ID, KeptEvent, TurnState,
};
use crate::json::{lemma_array_view, object_value, option_json, Json, JsonValue};
use crate::models::{
    available_models, effort_for, initial_model, model_names, select_initial_model, selected_effort_for_model,
    ModelRegistry,
};
use crate::session::{option_text, SessionStore};
use crate::state::{
    after_client_event, client_stays, counted, disconnected, ext_starting, included, informed, peer_at, peers_without,
    registered, session_started, Ext, ExtensionState, Peer, Registered, State, Turn,
};
use crate::text::{holds_text, same, texts};

verus! {

broadcast use {
    crate::state::publishing_changes_the_log_alone,
    crate::state::beginning_a_call_leaves_the_queue,
};

// ---------------------------------------------------------------------------
// Starting
// ---------------------------------------------------------------------------

/// An extension that was started.
#[derive(Debug, PartialEq, Eq)]
pub struct StartedExtension {
    pub name: String,
    pub role: Option<String>,
    pub connection_id: String,
    pub pid: u32,
    /// The configuration of an extension that runs as a process of its own.
    pub config: Option<JsonValue>,
}

/// What a `StartedExtension` holds.
pub struct Started {
    pub name: Seq<char>,
    pub kind: ClientKind,
    pub connection: Seq<char>,
    pub pid: u32,
    pub config: Option<Json>,
}

impl StartedExtension {
    pub open spec fn view(&self) -> Started {
        Started {
            name: self.name@,
            kind: if option_text(self.role) == Some("agent"@) {
                ClientKind::Agent
            } else {
                ClientKind::Tool
            },
            connection: self.connection_id@,
            pid: self.pid,
            config: option_json(self.config),
        }
    }
}

pub open spec fn started_view(v: Seq<StartedExtension>) -> Seq<Started> {
    v.map_values(|e: StartedExtension| e@)
}

/// What the harness starts from.
pub struct HarnessSetup {
    pub session_id: String,
    pub registry: ModelRegistry,
    pub default_model: Option<String>,
    pub last_model: Option<String>,
    pub default_efforts: TextMap<Effort>,
    pub last_efforts: TextMap<Effort>,
    pub store: SessionStore,
    pub kept_events: Vec<KeptEvent>,
    pub cwd: String,
}

/// The connection of the agent: that of the last extension in this role.
pub open spec fn agent_connection(extensions: Seq<Started>) -> Option<Seq<char>>
    decreases extensions.len(),
{
    if extensions.len() == 0 {
        None
    } else if extensions.last().kind == ClientKind::Agent {
        Some(extensions.last().connection)
    } else {
        agent_connection(extensions.drop_last())
    }
}

/// The connections of started extensions.
pub open spec fn started_peers(extensions: Seq<Started>) -> Seq<Peer> {
    extensions.map_values(
        |e: Started|
            Peer {
                id: e.connection,
                name: e.name,
                kind: e.kind,
                origin: ConnectionOrigin::Supervised,
                selectors: Seq::empty(),
            },
    )
}

/// Started extensions as the harness tracks them, numbered from zero.
pub open spec fn tracked_extensions(extensions: Seq<Started>) -> Seq<Ext> {
    Seq::new(
        extensions.len(),
        |i: int|
            Ext {
                name: extensions[i].name,
                instance_id: i as u64,
                connection_id: extensions[i].connection,
                kind: extensions[i].kind,
                pid: Some(extensions[i].pid),
                supervised: extensions[i].config,
                restart_attempt: 0,
                state: ExtensionState::Spawning,
                last_acked: 0,
            },
    )
}

/// The first state of the harness.
pub open spec fn first_state(setup: HarnessSetup, extensions: Seq<Started>, agent: Seq<char>) -> State {
    let models = model_names(setup.registry@);
    let model = initial_model(models, option_text(setup.default_model), option_text(setup.last_model));
    State {
        connections: started_peers(extensions),
        registry: Seq::empty(),
        sessions: setup.store@,
        kept: kept_view(setup.kept_events@),
        current: setup.session_id@,
        request_sessions: Seq::empty(),
        tool_sessions: Seq::empty(),
        tool_names: Seq::empty(),
        tool_providers: Seq::empty(),
        log: Seq::empty(),
        clients: Seq::empty(),
        lifecycle: Seq::empty(),
        extensions: tracked_extensions(extensions),
        agent,
        next_prompt: 0,
        next_synthetic: 0,
        prompt_sessions: Seq::empty(),
        turn: Turn::Idle,
        pending_prompts: Seq::empty(),
        models,
        model,
        effort: effort_for(setup.default_efforts@, setup.last_efforts@, setup.registry@, model),
        thinking_summary: ThinkingSummary::Auto,
        input_tokens: None,
        cached_tokens: None,
        percent_used: None,
        providers: setup.registry@,
        default_efforts: setup.default_efforts@,
        last_efforts: setup.last_efforts@,
        skills: Seq::empty(),
        files: Seq::empty(),
        initialized: Seq::empty(),
        completed: Seq::empty(),
        pending_calls: Seq::empty(),
        in_flight: Seq::empty(),
        cwd: setup.cwd@,
        skill_texts: Seq::empty(),
        writes: Seq::empty(),
        effects: Seq::empty(),
    }
}

/// The state after the first `n` extensions were announced as starting.
pub open spec fn announced(s: State, names: Seq<Seq<char>>) -> State
    decreases names.len(),
{
    if names.len() == 0 {
        s
    } else {
        ext_starting(announced(s, names.drop_last()), names.last())
    }
}

/// The names of started extensions.
pub open spec fn started_names(extensions: Seq<Started>) -> Seq<Seq<char>> {
    extensions.map_values(|e: Started| e.name)
}

impl Harness {
    fn bare(setup: HarnessSetup, agent: String) -> (r: Harness)
        ensures
            r.wf(),
            r@ == first_state(setup, Seq::empty(), agent@),
    {
        let models = available_models(&setup.registry);
        let model = select_initial_model(&models, &setup.default_model, &setup.last_model);
        let effort = selected_effort_for_model(
            &setup.default_efforts,
            &setup.last_efforts,
            &setup.registry,
            model.as_str(),
        );
        let r = Harness {
            connections: Vec::new(),
            registry: Vec::new(),
            store: setup.store,
            kept_events: setup.kept_events,
            current_session_id: setup.session_id,
            pending_request_sessions: Vec::new(),
            pending_tool_sessions: TextMap::new(),
            pending_tool_names: TextMap::new(),
            pending_tool_providers: TextMap::new(),
            event_log: EventLog::new(),
            client_writers: Vec::new(),
            lifecycle_messages: Vec::new(),
            extensions: Vec::new(),
            agent_connection_id: agent,
            next_session_prompt_id: 0,
            next_synthetic_call_id: 0,
            prompt_sessions: TextMap::new(),
            turn_state: TurnState::Idle,
            pending_prompts: Vec::new(),
            available_models: models,
            selected_model: model,
            selected_effort: effort,
            selected_thinking_summary: ThinkingSummary::Auto,
            context_input_tokens: None,
            context_cached_tokens: None,
            context_percent_used: None,
            model_registry: setup.registry,
            default_efforts: setup.default_efforts,
            last_efforts: setup.last_efforts,
            discovered_skills: TextMap::new(),
            discovered_agents_files: Vec::new(),
            initialized_sessions: Vec::new(),
            completed_prompts: Vec::new(),
            pending_tool_invocations: Vec::new(),
            in_flight_tool_kinds: TextMap::new(),
            cwd: setup.cwd,
            skill_texts: TextMap::new(),
            write_outcomes: Vec::new(),
            effects: Vec::new(),
        };
        proof {
            let s = first_state(setup, Seq::empty(), agent@);
            assert(r@.connections =~= s.connections);
            assert(r@.registry =~= s.registry);
            assert(r@.log =~= s.log);
            assert(r@.extensions =~= s.extensions);
            assert(r@.files =~= s.files);
            assert(r@.pending_calls =~= s.pending_calls);
            assert(r@.effects =~= s.effects);
            assert(r@ =~= s);
        }
        r
    }

    fn announce_all(&mut self, names: &Vec<String>)
        requires
            old(self).wf(),
        ensures
            final(self).wf(),
            final(self)@ == announced(old(self)@, texts(names@)),
    {
        let ghost before = self@;
        let ghost all = texts(names@);
        let mut i: usize = 0;
        assert(all.take(0) =~= Seq::empty());
        while i < names.len()
            invariant
                i <= names.len(),
                all == texts(names@),
                self.wf(),
                self@ == announced(before, all.take(i as int)),
            decreases names.len() - i,
        {
            assert(all.take(i + 1).drop_last() =~= all.take(i as int));
            assert(all.take(i + 1).last() == names@[i as int]@);
            self.emit_extension_starting(names[i].as_str());
            i += 1;
        }
        assert(all.take(all.len() as int) =~= all);
    }

    /// Makes a harness for started extensions, and announces them. One of them
    /// must be the agent.
    pub fn from_config(setup: HarnessSetup, extensions: Vec<StartedExtension>) -> (r: Result<Harness, HarnessError>)
        ensures
            match r {
                Ok(harness) => harness.wf() && agent_connection(started_view(extensions@)) is Some && harness@
                    == announced(
                    first_state(
                        setup,
                        started_view(extensions@),
                        agent_connection(started_view(extensions@))->0,
                    ),
                    started_names(started_view(extensions@)),
                ),
                Err(error) => agent_connection(started_view(extensions@)) is None && error@
                    == Trouble::NoAgentConfigured,
            },
    {
        let ghost all = started_view(extensions@);
        let mut peers: Vec<ConnectionEntry> = Vec::new();
        let mut entries: Vec<ExtensionEntry> = Vec::new();
        let mut names: Vec<String> = Vec::new();
        let mut agent: Option<String> = None;
        let mut i: usize = 0;
        while i < extensions.len()
            invariant
                i <= extensions.len(),
                all == started_view(extensions@),
                peers.len() == i,
                entries.len() == i,
                names.len() == i,
                option_text(agent) == agent_connection(all.take(i as int)),
                forall|k: int| 0 <= k < i ==> (#[trigger] peers@[k])@ == started_peers(all)[k],
                forall|k: int| 0 <= k < i ==> (#[trigger] entries@[k])@ == tracked_extensions(all)[k],
                forall|k: int| 0 <= k < i ==> (#[trigger] names@[k])@ == all[k].name,
            decreases extensions.len() - i,
        {
            let e = &extensions[i];
            assert(all.take(i + 1).drop_last() =~= all.take(i as int));
            assert(all.take(i + 1).last() == e@);
            let is_agent = match &e.role {
                Some(role) => same(role.as_str(), "agent"),
                None => false,
            };
            let kind = if is_agent {
                ClientKind::Agent
            } else {
                ClientKind::Tool
            };
            assert(kind == e@.kind);
            if is_agent {
                agent = Some(e.connection_id.clone());
            }
            let peer = ConnectionEntry {
                id: e.connection_id.clone(),
                name: e.name.clone(),
                kind,
                origin: ConnectionOrigin::Supervised,
                selectors: Vec::new(),
            };
            assert(peer@.selectors =~= Seq::empty());
            peers.push(peer);
            let config = match &e.config {
                Some(json) => Some(json.clone()),
                None => None,
            };
            entries.push(
                ExtensionEntry {
                    name: e.name.clone(),
                    instance_id: i as u64,
                    connection_id: e.connection_id.clone(),
                    kind,
                    pid: Some(e.pid),
                    supervised_config: config,
                    restart_attempt: 0,
                    state: ExtensionState::Spawning,
                    last_acked: 0,
                },
            );
            names.push(e.name.clone());
            i += 1;
        }
        assert(all.take(all.len() as int) =~= all);
        match agent {
            None => Err(HarnessError::NoAgentConfigured),
            Some(agent) => {
                let ghost first = first_state(setup, all, agent@);
                let mut harness = Harness::bare(setup, agent);
                harness.connections = peers;
                harness.extensions = entries;
                proof {
                    assert(harness@.connections =~= first.connections);
                    assert(harness@.extensions =~= first.extensions);
                    assert(harness@ =~= first);
                    assert(texts(names@) =~= started_names(all));
                }
                harness.announce_all(&names);
                Ok(harness)
            },
        }
    }
}

/// The extensions that run inside the harness: the agent, and the tools for the
/// shell and for files.
pub open spec fn embedded(agent: Seq<char>, shell: Seq<char>, pid: u32) -> Seq<Started> {
    seq![
        Started { name: "agent"@, kind: ClientKind::Agent, connection: agent, pid, config: None },
        Started { name: "shell"@, kind: ClientKind::Tool, connection: shell, pid, config: None },
    ]
}

impl Harness {
    /// Makes a harness whose agent and tools run inside it.
    pub fn new_with_agent(setup: HarnessSetup, agent: String, shell: String, pid: u32) -> (r: Harness)
        ensures
            r.wf(),
            r@ == announced(
                first_state(setup, embedded(agent@, shell@, pid), agent@),
                seq!["agent"@, "shell"@],
            ),
    {
        let mut peers: Vec<ConnectionEntry> = Vec::new();
        let mut entries: Vec<ExtensionEntry> = Vec::new();
        let mut names: Vec<String> = Vec::new();
        names.push("agent".to_owned());
        names.push("shell".to_owned());
        let mut i: usize = 0;
        let ghost all = embedded(agent@, shell@, pid);
        while i < 2
            invariant
                i <= 2,
                names.len() == 2,
                names@[0]@ == "agent"@,
                names@[1]@ == "shell"@,
                all == embedded(agent@, shell@, pid),
                peers.len() == i,
                entries.len() == i,
                forall|k: int| 0 <= k < i ==> (#[trigger] peers@[k])@ == started_peers(all)[k],
                forall|k: int| 0 <= k < i ==> (#[trigger] entries@[k])@ == tracked_extensions(all)[k],
            decreases 2 - i,
        {
            let connection = if i == 0 {
                agent.clone()
            } else {
                shell.clone()
            };
            let kind = if i == 0 {
                ClientKind::Agent
            } else {
                ClientKind::Tool
            };
            let peer = ConnectionEntry {
                id: connection.clone(),
                name: names[i].clone(),
                kind,
                origin: ConnectionOrigin::Supervised,
                selectors: Vec::new(),
            };
            assert(peer@.selectors =~= Seq::empty());
            peers.push(peer);
            entries.push(
                ExtensionEntry {
                    name: names[i].clone(),
                    instance_id: i as u64,
                    connection_id: connection,
                    kind,
                    pid: Some(pid),
                    supervised_config: None,
                    restart_attempt: 0,
                    state: ExtensionState::Spawning,
                    last_acked: 0,
                },
            );
            i += 1;
        }
        let ghost first = first_state(setup, all, agent@);
        let mut harness = Harness::bare(setup, agent);
        harness.connections = peers;
        harness.extensions = entries;
        proof {
            assert(harness@.connections =~= first.connections);
            assert(harness@.extensions =~= first.extensions);
            assert(harness@ =~= first);
            assert(texts(names@) =~= seq!["agent"@, "shell"@]);
        }
        harness.announce_all(&names);
        harness
    }
}

// ---------------------------------------------------------------------------
// Getting ready
// ---------------------------------------------------------------------------

/// A text field of a JSON object.
pub open spec fn text_field(key: Seq<char>, value: Seq<char>) -> (Seq<char>, Json) {
    (key, Json::Text(value))
}

/// The parameters of the skill tool: an object with the name of the skill.
pub open spec fn skill_parameters() -> Json {
    Json::Object(
        seq![
            (
                "properties"@,
                Json::Object(
                    seq![
                        (
                            "name"@,
                            Json::Object(
                                seq![
                                    text_field("description"@, "Name of the skill to load"@),
                                    text_field("type"@, "string"@),
                                ],
                            ),
                        ),
                    ],
                ),
            ),
            ("required"@, Json::Array(seq![Json::Text("name"@)])),
            text_field("type"@, "object"@),
        ],
    )
}

/// The skill tool, as the harness registers it.
pub open spec fn skill_tool() -> Registered {
    Registered {
        name: "skill"@,
        provider: "__harness__"@,
        description: Some(
            "Load a skill's full content by name. Use this when a task matches an available skill's description."@,
        ),
        parameters: Some(skill_parameters()),
        side_effects: ToolSideEffects::Pure,
    }
}

fn skill_parameters_value() -> (r: JsonValue)
    ensures
        r@ == skill_parameters(),
{
    let mut name: Vec<(String, JsonValue)> = Vec::new();
    name.push(("description".to_owned(), JsonValue::Text("Name of the skill to load".to_owned())));
    name.push(("type".to_owned(), JsonValue::Text("string".to_owned())));
    let name_value = object_value(name);
    assert(name_value@->Object_0 =~= seq![
        text_field("description"@, "Name of the skill to load"@),
        text_field("type"@, "string"@),
    ]);
    let mut properties: Vec<(String, JsonValue)> = Vec::new();
    properties.push(("name".to_owned(), name_value));
    let properties_value = object_value(properties);
    assert(properties_value@->Object_0 =~= seq![("name"@, name_value@)]);
    let mut required: Vec<JsonValue> = Vec::new();
    required.push(JsonValue::Text("name".to_owned()));
    let required_value = JsonValue::Array(required);
    proof {
        lemma_array_view(required_value);
        assert(required_value@->Array_0 =~= seq![Json::Text("name"@)]);
    }
    let mut all: Vec<(String, JsonValue)> = Vec::new();
    all.push(("properties".to_owned(), properties_value));
    all.push(("required".to_owned(), required_value));
    all.push(("type".to_owned(), JsonValue::Text("object".to_owned())));
    let r = object_value(all);
    assert(r@->Object_0 =~= skill_parameters()->Object_0);
    r
}

/// The state after the files of settings were looked at.
pub open spec fn config_checked(s: State, found: bool, parse_error: Option<Seq<char>>) -> State {
    let s1 = if found {
        s
    } else {
        informed(
            s,
            "no config found; run `tau init` to create sample config files"@,
            HarnessInfoLevel::Important,
        )
    };
    match parse_error {
        Some(error) => informed(
            s1,
            "harness.json5 failed to parse — extensions and model selection from it are being IGNORED.\n"@ + error,
            HarnessInfoLevel::Important,
        ),
        None => s1,
    }
}

impl Harness {
    /// Registers the tools of the harness itself.
    pub fn register_harness_tools(&mut self)
        requires
            old(self).wf(),
        ensures
            final(self).wf(),
            final(self)@ == (State { registry: registered(old(self)@.registry, skill_tool()), ..old(self)@ }),
    {
        let parameters = skill_parameters_value();
        let tool = ToolSpec {
            name: "skill".to_owned(),
            description: Some(
                "Load a skill's full content by name. Use this when a task matches an available skill's description.".to_owned(),
            ),
            parameters: Some(parameters),
            side_effects: ToolSideEffects::Pure,
        };
        self.register_tool(HARNESS_CONNECTION_ID, tool);
    }

    /// Says where the file of settings is missing.
    pub fn check_config_exists(&mut self, found: bool)
        requires
            old(self).wf(),
        ensures
            final(self).wf(),
            final(self)@ == config_checked(old(self)@, found, None),
    {
        if !found {
            self.emit_info_with_level(
                "no config found; run `tau init` to create sample config files".to_owned(),
                HarnessInfoLevel::Important,
            );
        }
    }

    /// Says where the file of settings could not be read.
    pub fn check_config_parses(&mut self, parse_error: Option<String>)
        requires
            old(self).wf(),
        ensures
            final(self).wf(),
            final(self)@ == config_checked(old(self)@, true, option_text(parse_error)),
    {
        match parse_error {
            Some(error) => {
                let mut text =
                    "harness.json5 failed to parse — extensions and model selection from it are being IGNORED.\n".to_owned();
                text.append(error.as_str());
                self.emit_info_with_level(text, HarnessInfoLevel::Important);
            },
            None => {},
        }
    }

    /// Finishes the start once every extension is ready: the tools of the harness
    /// are registered, the settings looked at, and the session started.
    pub fn finish_startup(&mut self, found: bool, parse_error: Option<String>)
        requires
            old(self).wf(),
            counted(
                session_started(
                    config_checked(
                        State { registry: registered(old(self)@.registry, skill_tool()), ..old(self)@ },
                        found,
                        option_text(parse_error),
                    ),
                    old(self)@.current,
                    SessionStartReason::Initial,
                ),
            ),
        ensures
            final(self).wf(),
            final(self)@ == session_started(
                config_checked(
                    State { registry: registered(old(self)@.registry, skill_tool()), ..old(self)@ },
                    found,
                    option_text(parse_error),
                ),
                old(self)@.current,
                SessionStartReason::Initial,
            ),
    {
        self.register_harness_tools();
        self.check_config_exists(found);
        self.check_config_parses(parse_error);
        let session = self.current_session_id.clone();
        self.start_session_init(session.as_str(), SessionStartReason::Initial);
    }
}

// ---------------------------------------------------------------------------
// Serving
// ---------------------------------------------------------------------------

/// What reaches the harness from outside.
#[allow(inconsistent_fields)]
#[derive(Debug, PartialEq, Eq)]
pub enum HarnessEvent {
    /// An event of a connection.
    FromConnection { connection_id: String, event: Event },
    /// A connection is gone.
    Disconnected { connection_id: String },
    /// A client connected.
    NewClient { connection_id: String },
}

/// How long the harness serves.
#[derive(Clone, Copy, Debug, PartialEq, Eq)]
pub struct ServeOptions {
    /// The harness stops once it has served this many clients.
    pub max_clients: Option<usize>,
    /// The harness stops when its last client has left.
    pub exit_on_disconnect: bool,
}

/// How far serving has come.
#[derive(Clone, Copy, Debug, PartialEq, Eq)]
pub struct ServeProgress {
    pub max_clients: Option<usize>,
    pub exit_on_disconnect: bool,
    pub served_clients: usize,
    pub ever_attached: bool,
}

/// Whether the harness is done serving.
pub open spec fn served_out(p: ServeProgress, s: State) -> bool {
    (p.max_clients matches Some(max) && p.served_clients >= max) || (p.exit_on_disconnect && p.ever_attached
        && s.clients.len() == 0)
}

/// The progress with one more client served.
pub open spec fn one_served(p: ServeProgress) -> ServeProgress {
    ServeProgress { served_clients: (p.served_clients + 1) as usize, ..p }
}

/// The state after a client connected.
pub open spec fn client_accepted(s: State, connection: Seq<char>) -> State {
    State {
        connections: s.connections.push(
            Peer {
                id: connection,
                name: "socket-ui"@,
                kind: ClientKind::Ui,
                origin: ConnectionOrigin::Socket,
                selectors: Seq::empty(),
            },
        ),
        clients: included(s.clients, connection),
        ..s
    }
}

/// Whether a connection is that of a client.
pub open spec fn is_client(s: State, connection: Seq<char>) -> bool {
    peer_at(s.connections, connection) matches Some(i) && s.connections[i].origin == ConnectionOrigin::Socket
}

/// What an arrival makes of the state, of the progress, and which error it ends
/// serving with.
pub open spec fn arrived(s: State, p: ServeProgress, arrival: HarnessEvent, denied: Option<String>) -> (
    State,
    ServeProgress,
    Option<Trouble>,
) {
    match arrival {
        HarnessEvent::FromConnection { connection_id, event } => if peer_at(s.connections, connection_id@) is None {
            (s, p, None)
        } else if is_client(s, connection_id@) {
            let p1 = if event is UiDetachRequest {
                ServeProgress { exit_on_disconnect: false, ..p }
            } else {
                p
            };
            let t = after_client_event(s, connection_id@, event@, option_text(denied));
            let s1 = t.state;
            if t.error is Some || client_stays(event@, option_text(denied)) {
                (s1, p1, trouble_in(t))
            } else {
                (
                    State { connections: peers_without(s1.connections, connection_id@), ..s1 },
                    one_served(p1),
                    None,
                )
            }
        } else {
            let (s1, trouble) = extension_heard(s, connection_id@, event, denied);
            (s1, p, trouble)
        },
        HarnessEvent::Disconnected { connection_id } => (
            disconnected(s, connection_id@),
            if is_client(s, connection_id@) {
                one_served(p)
            } else {
                p
            },
            if connection_id@ == s.agent {
                Some(Trouble::Participant("agent disconnected"@))
            } else {
                None
            },
        ),
        HarnessEvent::NewClient { connection_id } => (
            client_accepted(s, connection_id@),
            ServeProgress { ever_attached: true, ..p },
            None,
        ),
    }
}

/// Whether the history that an arrival asks for can be shown, and the extensions that
/// a loss makes start again can be counted once more.
pub open spec fn arrival_fits(s: State, arrival: HarnessEvent) -> bool {
    match arrival {
        HarnessEvent::FromConnection { connection_id, event } => event matches Event::UiTreeRequest { session_id }
            ==> session_can_be_shown(s, session_id@),
        HarnessEvent::Disconnected { connection_id } => can_restart(s),
        HarnessEvent::NewClient { connection_id } => true,
    }
}

impl ServeProgress {
    /// Before any client.
    pub fn new(options: ServeOptions) -> (r: ServeProgress)
        ensures
            r == (ServeProgress {
                max_clients: options.max_clients,
                exit_on_disconnect: options.exit_on_disconnect,
                served_clients: 0,
                ever_attached: false,
            }),
    {
        ServeProgress {
            max_clients: options.max_clients,
            exit_on_disconnect: options.exit_on_disconnect,
            served_clients: 0,
            ever_attached: false,
        }
    }
}

impl Harness {
    /// Takes a client on.
    pub fn accept_client(&mut self, connection_id: String)
        requires
            old(self).wf(),
        ensures
            final(self).wf(),
            final(self)@ == client_accepted(old(self)@, connection_id@),
    {
        let ghost before = self@;
        let peer = ConnectionEntry {
            id: connection_id.clone(),
            name: "socket-ui".to_owned(),
            kind: ClientKind::Ui,
            origin: ConnectionOrigin::Socket,
            selectors: Vec::new(),
        };
        assert(peer@.selectors =~= Seq::empty());
        self.connections.push(peer);
        assert(self@.connections =~= before.connections.push(peer@));
        if !holds_text(&self.client_writers, connection_id.as_str()) {
            self.client_writers.push(connection_id.clone());
            assert(self@.clients =~= before.clients.push(connection_id@));
        }
        assert(self@ =~= client_accepted(before, connection_id@));
    }

    /// Whether the harness is done serving.
    pub fn serves_no_more(&self, progress: &ServeProgress) -> (r: bool)
        ensures
            r == served_out(*progress, self@),
    {
        assert(self@.clients.len() == self.client_writers@.len());
        let enough = match progress.max_clients {
            Some(max) => progress.served_clients >= max,
            None => false,
        };
        enough || (progress.exit_on_disconnect && progress.ever_attached && self.client_writers.len() == 0)
    }

    /// Does what an arrival asks for while the harness serves. The loss of the
    /// agent ends serving.
    pub fn handle_arrival(&mut self, progress: &mut ServeProgress, arrival: HarnessEvent, denied: Option<String>) -> (r:
        Result<(), HarnessError>)
        requires
            old(self).wf(),
            arrival_fits(old(self)@, arrival),
            counted(arrived(old(self)@, *old(progress), arrival, denied).0),
            old(progress).served_clients < usize::MAX,
        ensures
            final(self).wf(),
            (final(self)@, *final(progress), trouble_of(r)) == arrived(old(self)@, *old(progress), arrival, denied),
    {
        match arrival {
            HarnessEvent::FromConnection { connection_id, event } => {
                let origin = match self.connection_index(connection_id.as_str()) {
                    Some(i) => {
                        assert(self@.connections[i as int] == self.connections@[i as int]@);
                        self.connections[i].origin
                    },
                    None => {
                        return Ok(());
                    },
                };
                if origin == ConnectionOrigin::Socket {
                    match event {
                        Event::UiDetachRequest => {
                            progress.exit_on_disconnect = false;
                        },
                        _ => {},
                    }
                    match self.handle_client_event(connection_id.as_str(), event, denied) {
                        Ok(keep) => {
                            if !keep {
                                self.remove_connection(connection_id.as_str());
                                progress.served_clients = progress.served_clients + 1;
                            }
                            Ok(())
                        },
                        Err(error) => Err(error),
                    }
                } else {
                    self.handle_extension_event(connection_id.as_str(), event, denied)
                }
            },
            HarnessEvent::Disconnected { connection_id } => {
                let is_agent = same(connection_id.as_str(), self.agent_connection_id.as_str());
                let was_client = match self.connection_index(connection_id.as_str()) {
                    Some(i) => {
                        assert(self@.connections[i as int] == self.connections@[i as int]@);
                        self.connections[i].origin == ConnectionOrigin::Socket
                    },
                    None => false,
                };
                self.handle_disconnect(connection_id.as_str());
                if was_client {
                    progress.served_clients = progress.served_clients + 1;
                }
                if is_agent {
                    Err(HarnessError::Participant("agent disconnected".to_owned()))
                } else {
                    Ok(())
                }
            },
            HarnessEvent::NewClient { connection_id } => {
                self.accept_client(connection_id);
                progress.ever_attached = true;
                Ok(())
            },
        }
    }
}

// ---------------------------------------------------------------------------
// Waiting
// ---------------------------------------------------------------------------

/// What an arrival makes of the state while the harness waits for its
/// extensions, and which error it ends the wait with: a connection that is lost
/// meanwhile does.
pub open spec fn arrived_at_startup(s: State, arrival: HarnessEvent, denied: Option<String>) -> (
    State,
    Option<Trouble>,
) {
    match arrival {
        HarnessEvent::FromConnection { connection_id, event } => extension_heard(
            s,
            connection_id@,
            event,
            denied,
        ),
        HarnessEvent::Disconnected { connection_id } => {
            let name = match peer_at(s.connections, connection_id@) {
                Some(i) => s.connections[i].name,
                None => connection_id@,
            };
            (
                disconnected(s, connection_id@),
                Some(Trouble::Participant(name + " disconnected during startup"@)),
            )
        },
        HarnessEvent::NewClient { connection_id } => (s, None),
    }
}

/// What an arrival makes of the state while the harness waits for a session to be
/// set up, and which error it ends the wait with.
pub open spec fn arrived_at_init(s: State, arrival: HarnessEvent, denied: Option<String>) -> (State, Option<Trouble>) {
    match arrival {
        HarnessEvent::Disconnected { connection_id } => (disconnected(s, connection_id@), None),
        _ => arrived_at_startup(s, arrival, denied),
    }
}

impl Harness {
    /// Does what an arrival asks for while the harness waits for its extensions.
    pub fn handle_startup_arrival(&mut self, arrival: HarnessEvent, denied: Option<String>) -> (r: Result<
        (),
        HarnessError,
    >)
        requires
            old(self).wf(),
            arrival_fits(old(self)@, arrival),
            counted(arrived_at_startup(old(self)@, arrival, denied).0),
        ensures
            final(self).wf(),
            (final(self)@, trouble_of(r)) == arrived_at_startup(old(self)@, arrival, denied),
    {
        match arrival {
            HarnessEvent::FromConnection { connection_id, event } => self.handle_extension_event(
                connection_id.as_str(),
                event,
                denied,
            ),
            HarnessEvent::Disconnected { connection_id } => {
                let mut message = match self.connection_index(connection_id.as_str()) {
                    Some(i) => {
                        assert(self@.connections[i as int] == self.connections@[i as int]@);
                        self.connections[i].name.clone()
                    },
                    None => connection_id.clone(),
                };
                message.append(" disconnected during startup");
                self.handle_disconnect(connection_id.as_str());
                Err(HarnessError::Participant(message))
            },
            HarnessEvent::NewClient { connection_id: _ } => Ok(()),
        }
    }

    /// Does what an arrival asks for while the harness waits for a session to be
    /// set up.
    pub fn handle_init_arrival(&mut self, arrival: HarnessEvent, denied: Option<String>) -> (r: Result<
        (),
        HarnessError,
    >)
        requires
            old(self).wf(),
            arrival_fits(old(self)@, arrival),
            counted(arrived_at_init(old(self)@, arrival, denied).0),
        ensures
            final(self).wf(),
            (final(self)@, trouble_of(r)) == arrived_at_init(old(self)@, arrival, denied),
    {
        match arrival {
            HarnessEvent::Disconnected { connection_id } => {
                self.handle_disconnect(connection_id.as_str());
                Ok(())
            },
            other => self.handle_startup_arrival(other, denied),
        }
    }
}

// ---------------------------------------------------------------------------
// One interaction
// ---------------------------------------------------------------------------

/// One interaction of the user, with the messages on its way.
#[derive(Debug, PartialEq, Eq)]
pub struct InteractionOutcome {
    pub lifecycle_messages: Vec<String>,
    pub progress_messages: Vec<String>,
    pub response: String,
}

/// What an `InteractionOutcome` holds.
pub struct Interaction {
    pub lifecycle: Seq<Seq<char>>,
    pub progress: Seq<Seq<char>>,
    pub response: Seq<char>,
}

impl InteractionOutcome {
    pub open spec fn view(&self) -> Interaction {
        Interaction {
            lifecycle: texts(self.lifecycle_messages@),
            progress: texts(self.progress_messages@),
            response: self.response@,
        }
    }
}

/// The answer with which an event ends an interaction: that of the agent, where it
/// asks for no more tool calls. An answer without text is empty.
pub open spec fn final_answer(event: Event) -> Option<Seq<char>> {
    match event {
        Event::AgentResponseFinished(r) => if r.tool_calls@.len() == 0 {
            match r.text {
                Some(text) => Some(text@),
                None => Some(Seq::empty()),
            }
        } else {
            None
        },
        _ => None,
    }
}

/// What an event of a tool adds to the messages.
pub open spec fn with_progress(messages: Seq<Seq<char>>, event: Event) -> Seq<Seq<char>> {
    match event {
        Event::ToolProgress(p) => messages.push(progress_line(p)),
        _ => messages,
    }
}

/// What an arrival makes of the state while the user waits for an answer, and
/// which error it ends the wait with.
pub open spec fn arrived_at_interaction(s: State, arrival: HarnessEvent, denied: Option<String>) -> (
    State,
    Option<Trouble>,
) {
    match arrival {
        HarnessEvent::Disconnected { connection_id } => (
            disconnected(s, connection_id@),
            if connection_id@ == s.agent {
                Some(Trouble::Participant("agent disconnected"@))
            } else {
                None
            },
        ),
        _ => arrived_at_startup(s, arrival, denied),
    }
}

fn answer_of(event: &Event) -> (r: Option<String>)
    ensures
        option_text(r) == final_answer(*event),
{
    match event {
        Event::AgentResponseFinished(finished) => {
            if finished.tool_calls.len() == 0 {
                match &finished.text {
                    Some(text) => Some(text.clone()),
                    None => {
                        let empty = String::new();
                        assert(empty@ =~= Seq::empty());
                        Some(empty)
                    },
                }
            } else {
                None
            }
        },
        _ => None,
    }
}

fn add_progress(messages: &mut Vec<String>, event: &Event)
    ensures
        texts(final(messages)@) == with_progress(texts(old(messages)@), *event),
{
    let ghost before = texts(messages@);
    match event {
        Event::ToolProgress(progress) => {
            messages.push(format_tool_progress(progress));
            assert(texts(messages@) =~= before.push(progress_line(*progress)));
        },
        _ => {},
    }
}

impl Harness {
    /// Does what an arrival asks for while the user waits for an answer, and
    /// returns the outcome once there is one.
    pub fn handle_interaction_arrival(&mut self, progress: &mut Vec<String>, arrival: HarnessEvent, denied: Option<
        String,
    >) -> (r: Result<Option<InteractionOutcome>, HarnessError>)
        requires
            old(self).wf(),
            arrival_fits(old(self)@, arrival),
            counted(arrived_at_interaction(old(self)@, arrival, denied).0),
        ensures
            final(self).wf(),
            (final(self)@, trouble_of(r)) == arrived_at_interaction(old(self)@, arrival, denied),
            match arrival {
                HarnessEvent::FromConnection { connection_id, event } => {
                    let messages = with_progress(texts(old(progress)@), event);
                    match r {
                        Ok(Some(outcome)) => final_answer(event) == Some(outcome@.response) && outcome@.progress
                            == messages && outcome@.lifecycle == Seq::<Seq<char>>::empty() && texts(
                            final(progress)@,
                        ) == Seq::<Seq<char>>::empty(),
                        Ok(None) => final_answer(event) is None && texts(final(progress)@) == messages,
                        Err(_) => texts(final(progress)@) == messages,
                    }
                },
                _ => !(r matches Ok(Some(_))) && final(progress)@ == old(progress)@,
            },
    {
        match arrival {
            HarnessEvent::FromConnection { connection_id, event } => {
                add_progress(progress, &event);
                let answer = answer_of(&event);
                match self.handle_extension_event(connection_id.as_str(), event, denied) {
                    Ok(_) => {},
                    Err(error) => {
                        return Err(error);
                    },
                }
                match answer {
                    Some(response) => {
                        let mut progress_messages: Vec<String> = Vec::new();
                        let ghost all = progress@;
                        progress_messages.append(progress);
                        assert(progress_messages@ =~= all);
                        let lifecycle_messages: Vec<String> = Vec::new();
                        assert(texts(lifecycle_messages@) =~= Seq::<Seq<char>>::empty());
                        assert(texts(progress@) =~= Seq::<Seq<char>>::empty());
                        Ok(Some(InteractionOutcome { lifecycle_messages, progress_messages, response }))
                    },
                    None => Ok(None),
                }
            },
            HarnessEvent::Disconnected { connection_id } => {
                let is_agent = same(connection_id.as_str(), self.agent_connection_id.as_str());
                self.handle_disconnect(connection_id.as_str());
                if is_agent {
                    Err(HarnessError::Participant("agent disconnected".to_owned()))
                } else {
                    Ok(None)
                }
            },
            HarnessEvent::NewClient { connection_id: _ } => Ok(None),
        }
    }
}

// ---------------------------------------------------------------------------
// Talking to a running harness
// ---------------------------------------------------------------------------

/// The selectors of a client that waits for one answer.
pub open spec fn client_selectors() -> Seq<Selector> {
    seq![
        Selector::Prefix("agent."@),
        Selector::Prefix("session."@),
        Selector::Prefix("tool."@),
        Selector::Prefix("extension."@),
        Selector::Prefix("harness."@),
    ]
}

/// The events with which a client asks for one answer: it introduces itself,
/// subscribes, and submits its prompt.
pub fn client_requests(protocol_version: u32, session_id: &str, message: &str) -> (r: Vec<Event>)
    ensures
        r.len() == 3,
        r@[0] matches Event::LifecycleHello(hello) && hello.protocol_version == protocol_version && hello.client_name@
            == "tau-cli"@ && hello.client_kind == ClientKind::Ui,
        r@[1] matches Event::LifecycleSubscribe(subscribe) && selectors_view(subscribe.selectors@)
            == client_selectors(),
        r@[2]@ == (EventView::PromptSubmitted { session_id: session_id@, text: message@ }),
{
    let mut selectors: Vec<EventSelector> = Vec::new();
    selectors.push(EventSelector::Prefix("agent.".to_owned()));
    selectors.push(EventSelector::Prefix("session.".to_owned()));
    selectors.push(EventSelector::Prefix("tool.".to_owned()));
    selectors.push(EventSelector::Prefix("extension.".to_owned()));
    selectors.push(EventSelector::Prefix("harness.".to_owned()));
    assert(selectors_view(selectors@) =~= client_selectors());
    let mut r: Vec<Event> = Vec::new();
    r.push(
        Event::LifecycleHello(
            LifecycleHello { protocol_version, client_name: "tau-cli".to_owned(), client_kind: ClientKind::Ui },
        ),
    );
    r.push(Event::LifecycleSubscribe(LifecycleSubscribe { selectors }));
    r.push(Event::UiPromptSubmitted { session_id: session_id.to_owned(), text: message.to_owned() });
    r
}

/// What a client has heard so far.
#[derive(Debug, PartialEq, Eq)]
pub struct ClientTrace {
    pub lifecycle_messages: Vec<String>,
    pub progress_messages: Vec<String>,
}

/// The event inside a log delivery.
pub open spec fn peeled(event: Event) -> Event {
    match event {
        Event::LogEvent { id: _, event: inner } => *inner,
        other => other,
    }
}

/// What an event adds to the lifecycle messages of a client.
pub open spec fn with_lifecycle_line(messages: Seq<Seq<char>>, event: Event) -> Seq<Seq<char>> {
    match event@ {
        EventView::Info { message, level: _ } => messages.push(message),
        EventView::Starting(_) => messages.push(extension_line(event@)),
        EventView::Ready(_) => messages.push(extension_line(event@)),
        EventView::Exited(_) => messages.push(extension_line(event@)),
        EventView::Restarting { .. } => messages.push(extension_line(event@)),
        _ => messages,
    }
}

/// The reason for which the harness ended the connection.
pub open spec fn end_reason(reason: Option<Seq<char>>) -> Seq<char> {
    match reason {
        Some(text) => text,
        None => "daemon disconnected"@,
    }
}

impl ClientTrace {
    /// Before anything was heard.
    pub fn new() -> (r: ClientTrace)
        ensures
            r.lifecycle_messages@.len() == 0,
            r.progress_messages@.len() == 0,
    {
        ClientTrace { lifecycle_messages: Vec::new(), progress_messages: Vec::new() }
    }

    /// Takes an event in. The answer of the agent ends the wait, and so does the
    /// end of the connection.
    pub fn take(&mut self, event: Event) -> (r: Result<Option<InteractionOutcome>, HarnessError>)
        ensures
            ({
                let inner = peeled(event);
                let lifecycle = with_lifecycle_line(texts(old(self).lifecycle_messages@), inner);
                let progress = with_progress(texts(old(self).progress_messages@), inner);
                match r {
                    Ok(Some(outcome)) => final_answer(inner) == Some(outcome@.response) && outcome@.lifecycle
                        == lifecycle && outcome@.progress == progress,
                    Ok(None) => final_answer(inner) is None && !(inner@ is Disconnect) && texts(
                        final(self).lifecycle_messages@,
                    ) == lifecycle && texts(final(self).progress_messages@) == progress,
                    Err(error) => inner@ matches EventView::Disconnect(reason) && error@ == Trouble::Participant(
                        end_reason(reason),
                    ),
                }
            }),
    {
        let inner = match event {
            Event::LogEvent { id: _, event: inner } => *inner,
            other => other,
        };
        let ghost before = texts(self.lifecycle_messages@);
        add_progress(&mut self.progress_messages, &inner);
        let line = match &inner {
            Event::HarnessInfo { message, level: _ } => Some(message.clone()),
            Event::ExtensionStarting(_) => Some(format_extension_event(&inner)),
            Event::ExtensionReady(_) => Some(format_extension_event(&inner)),
            Event::ExtensionExited(_) => Some(format_extension_event(&inner)),
            Event::ExtensionRestarting { notice: _, attempt: _, reason: _ } => Some(format_extension_event(&inner)),
            _ => None,
        };
        match line {
            Some(text) => {
                self.lifecycle_messages.push(text);
                assert(texts(self.lifecycle_messages@) =~= before.push(text@));
            },
            None => {},
        }
        match answer_of(&inner) {
            Some(response) => {
                let mut lifecycle_messages: Vec<String> = Vec::new();
                let ghost told = self.lifecycle_messages@;
                lifecycle_messages.append(&mut self.lifecycle_messages);
                assert(lifecycle_messages@ =~= told);
                let mut progress_messages: Vec<String> = Vec::new();
                let ghost heard = self.progress_messages@;
                progress_messages.append(&mut self.progress_messages);
                assert(progress_messages@ =~= heard);
                return Ok(Some(InteractionOutcome { lifecycle_messages, progress_messages, response }));
            },
            None => {},
        }
        match inner {
            Event::LifecycleDisconnect { reason } => {
                let text = match reason {
                    Some(text) => text,
                    None => "daemon disconnected".to_owned(),
                };
                Err(HarnessError::Participant(text))
            },
            _ => Ok(None),
        }
    }
}

} // verus!

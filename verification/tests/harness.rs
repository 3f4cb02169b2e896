//! The harness with an agent that repeats what it is told, and with tools that
//! answer at once.
use std::collections::VecDeque;
use tau::assoc::TextMap;
use tau::cbor::{cbor_map_text, CborValue};
use tau::closing::ThreadEnd;
use tau::discovery::{DiscoveredAgentsFile, DiscoveredSkill, DiscoveredSkillSource};
use tau::error::HarnessError;
use tau::event::{
    AgentResponseFinished, AgentToolCall, ClientKind, Effort, Event, EventSelector, ExtAgentsMdAvailable,
    ExtSkillAvailable, LifecycleHello, LifecycleSubscribe, SessionPromptCreated, SessionStartReason,
    ShellCommandFinished, ToolNameMaybe,
    ToolProgress, ToolRequest, ToolResult, ToolSideEffects, ToolSpec,
};
use tau::harness::{Effect, Harness, PendingInvocation, PromptSubmission, SkillRead, TurnState};
use tau::inspect::policy_lines;
use tau::models::{ModelEntry, ModelRegistry, ProviderConfig};
use tau::serve::{
    client_requests, ClientTrace, HarnessEvent, HarnessSetup, InteractionOutcome, ServeOptions, ServeProgress,
};
use tau::session::{
    format_session_entry, session_lines, session_list_lines, ContentBlock, SessionEntry, SessionStore,
    ToolActivityOutcome, ToolActivityRecord,
};

const AGENT: &str = "conn-agent";
const SHELL: &str = "conn-shell";

struct World {
    h: Harness,
    seen: usize,
    arrivals: VecDeque<HarnessEvent>,
}

fn text(s: &str) -> CborValue {
    CborValue::Text(s.to_owned())
}

fn dict(entries: Vec<(&str, &str)>) -> CborValue {
    CborValue::Dict(entries.into_iter().map(|(key, value)| (text(key), text(value))).collect())
}

fn call(id: &str, name: &str, arguments: CborValue) -> AgentToolCall {
    AgentToolCall { id: id.to_owned(), name: ToolNameMaybe::from_raw(name.to_owned()), arguments }
}

fn finished(prompt: &str, answer: Option<&str>, tool_calls: Vec<AgentToolCall>) -> AgentResponseFinished {
    AgentResponseFinished {
        session_prompt_id: prompt.to_owned(),
        text: answer.map(str::to_owned),
        tool_calls,
        input_tokens: None,
        cached_tokens: None,
        thinking: None,
    }
}

fn from(connection: &str, event: Event) -> HarnessEvent {
    HarnessEvent::FromConnection { connection_id: connection.to_owned(), event }
}

fn setup() -> HarnessSetup {
    let mut providers = TextMap::new();
    providers.insert(
        "test".to_owned(),
        ProviderConfig {
            supports_reasoning_effort: true,
            models: vec![ModelEntry { id: "model".to_owned(), context_window: Some(1000) }],
        },
    );
    HarnessSetup {
        session_id: "s1".to_owned(),
        registry: ModelRegistry { providers },
        default_model: None,
        last_model: None,
        default_efforts: TextMap::new(),
        last_efforts: TextMap::new(),
        store: SessionStore::new(),
        kept_events: Vec::new(),
        cwd: "/work".to_owned(),
    }
}

fn tool(name: &str, side_effects: ToolSideEffects) -> Event {
    Event::ToolRegister(ToolSpec { name: name.to_owned(), description: None, parameters: None, side_effects })
}

fn start() -> World {
    let mut h = Harness::new_with_agent(setup(), AGENT.to_owned(), SHELL.to_owned(), 1);
    let hello = |name: &str, kind: ClientKind| {
        Event::LifecycleHello(LifecycleHello { protocol_version: 1, client_name: name.to_owned(), client_kind: kind })
    };
    let subscribe = |prefix: &str| {
        Event::LifecycleSubscribe(LifecycleSubscribe { selectors: vec![EventSelector::Prefix(prefix.to_owned())] })
    };
    let arrivals = vec![
        from(AGENT, hello("agent", ClientKind::Agent)),
        from(AGENT, subscribe("session.")),
        from(AGENT, Event::LifecycleReady { message: None }),
        from(SHELL, hello("shell", ClientKind::Tool)),
        from(SHELL, subscribe("session.")),
        from(SHELL, tool("shell", ToolSideEffects::Mutating)),
        from(SHELL, tool("write", ToolSideEffects::Mutating)),
        from(SHELL, tool("read", ToolSideEffects::Pure)),
        from(SHELL, Event::LifecycleReady { message: None }),
    ];
    for arrival in arrivals {
        h.handle_startup_arrival(arrival, None).expect("startup");
    }
    assert!(h.extensions_all_ready());
    h.finish_startup(true, None);
    World { h, seen: 0, arrivals: VecDeque::new() }
}

fn echo_harness() -> World {
    let mut w = start();
    if !w.h.turn_state.is_idle() {
        let ready = Event::ExtensionContextReady { session_id: "s1".to_owned() };
        w.h.handle_init_arrival(from(SHELL, ready), None).expect("context ready");
    }
    w.h.discovered_agents_files.clear();
    w.seen = w.h.effects.len();
    w
}

/// What the agent answers: a call where it is told to run something, else what it
/// was told last.
fn echo(prompt: &SessionPromptCreated) -> AgentResponseFinished {
    let last = prompt.messages.last().and_then(|message| message.content.last());
    let id = prompt.session_prompt_id.as_str();
    match last {
        Some(ContentBlock::Text { text }) => {
            if let Some(command) = text.strip_prefix("shell ") {
                finished(id, None, vec![call("call-shell", "shell", dict(vec![("command", command)]))])
            } else if let Some(path) = text.strip_prefix("read ") {
                finished(id, None, vec![call("call-read", "read", dict(vec![("path", path)]))])
            } else {
                finished(id, Some(&format!("echo: {text}")), vec![])
            }
        },
        Some(ContentBlock::ToolResult { content, .. }) => finished(id, Some(content), vec![]),
        _ => finished(id, Some("nothing"), vec![]),
    }
}

/// What the tools answer.
fn answers(request: &ToolRequest) -> Vec<Event> {
    let result = |result: &str| {
        Event::ToolResult(ToolResult {
            call_id: request.call_id.clone(),
            tool_name: request.tool_name.clone(),
            result: text(result),
        })
    };
    if request.tool_name == "shell" {
        let progress = Event::ToolProgress(ToolProgress {
            call_id: request.call_id.clone(),
            tool_name: "shell".to_owned(),
            message: Some("running shell command".to_owned()),
            progress: None,
        });
        vec![progress, result(cbor_map_text(&request.arguments, "command").unwrap_or_default())]
    } else {
        vec![result("hello from disk")]
    }
}

impl World {
    /// Does what the harness asked for since the last time.
    fn perform(&mut self) {
        while self.seen < self.h.effects.len() {
            match &self.h.effects[self.seen] {
                Effect::Publish { seq, .. } => {
                    if let Event::SessionPromptCreated(prompt) = &self.h.event_log.entries[*seq as usize].event {
                        self.arrivals.push_back(from(AGENT, Event::AgentResponseFinished(echo(prompt))));
                    }
                },
                Effect::Route { to, seq } => {
                    if let Event::ToolRequest(request) = &self.h.event_log.entries[*seq as usize].event {
                        for event in answers(request) {
                            self.arrivals.push_back(from(to, event));
                        }
                    }
                },
                _ => {},
            }
            self.seen += 1;
        }
    }

    fn send_user_message(&mut self, message: &str) -> InteractionOutcome {
        let submission = self.h.submit_user_prompt("s1".to_owned(), message.to_owned());
        assert_eq!(submission, Ok(PromptSubmission::Dispatched));
        let mut progress = Vec::new();
        loop {
            self.perform();
            let arrival = self.arrivals.pop_front().expect("an arrival");
            let outcome = self.h.handle_interaction_arrival(&mut progress, arrival, None).expect("arrival");
            if let Some(outcome) = outcome {
                return outcome;
            }
        }
    }

    fn take(&mut self, connection: &str, event: Event) {
        self.h.handle_extension_event(connection, event, None).expect("event");
    }

    fn branch(&self) -> Vec<&SessionEntry> {
        let tree = self.h.store.session("s1").expect("session");
        tree.current_branch().into_iter().map(|i| &tree.nodes[i].entry).collect()
    }

    fn activity(&self) -> Vec<&ToolActivityRecord> {
        self.branch()
            .into_iter()
            .filter_map(|entry| match entry {
                SessionEntry::ToolActivity(record) => Some(record),
                _ => None,
            })
            .collect()
    }

    fn prompt(&self, id: &str) -> &SessionPromptCreated {
        self.h
            .event_log
            .entries
            .iter()
            .find_map(|entry| match &entry.event {
                Event::SessionPromptCreated(prompt) if prompt.session_prompt_id == id => Some(prompt),
                _ => None,
            })
            .expect("prompt")
    }

    fn last_acked(&self) -> u64 {
        self.h.extensions.iter().find(|e| e.connection_id == SHELL).expect("entry").last_acked
    }

    fn say(&mut self, message: &str) {
        self.h.store.append("s1", SessionEntry::UserMessage { text: message.to_owned() });
    }

    fn read_skill(&mut self, path: &str, content: &str) {
        let mut texts = TextMap::new();
        texts.insert(path.to_owned(), SkillRead::Text(content.to_owned()));
        self.h.take_skill_texts(texts);
    }

    fn info(&self) -> Vec<&str> {
        let infos = self.h.event_log.entries.iter().filter_map(|entry| match &entry.event {
            Event::HarnessInfo { message, .. } => Some(message.as_str()),
            _ => None,
        });
        infos.collect()
    }

    fn think(&mut self) {
        self.h.selected_model = "test/model".to_owned();
        self.h.turn_state = TurnState::AgentThinking { session_id: "s1".to_owned() };
        self.h.prompt_sessions.insert("sp-x".to_owned(), "s1".to_owned());
    }
}

fn requested(name: &str, arguments: CborValue) -> SessionEntry {
    SessionEntry::ToolActivity(ToolActivityRecord {
        call_id: "call_ugly".to_owned(),
        tool_name: name.to_owned(),
        outcome: ToolActivityOutcome::Requested { arguments },
    })
}

#[test]
fn format_session_entry_tree_preview_hides_call_id_and_shows_skill_name() {
    let skill_request = requested("skill", dict(vec![("name", "jujutsu")]));
    assert_eq!(format_session_entry(&skill_request), "tool.request skill jujutsu");

    let read_request = requested("read", dict(vec![("path", "foo.txt")]));
    assert_eq!(format_session_entry(&read_request), "tool.request read");

    let result = SessionEntry::ToolActivity(ToolActivityRecord {
        call_id: "call_ugly".to_owned(),
        tool_name: "read".to_owned(),
        outcome: ToolActivityOutcome::Result { result: text("hello") },
    });
    assert_eq!(format_session_entry(&result), "tool.result read -> hello");
}

#[test]
fn embedded_mode_returns_agent_response_and_persists_history() {
    let mut w = echo_harness();
    let outcome = w.send_user_message("hello");
    assert!(!outcome.response.is_empty(), "response should not be empty");
    assert!(w.branch().len() >= 2, "should have user msg + agent response, got {}", w.branch().len());
}

#[test]
fn embedded_mode_can_read_files() {
    let mut w = echo_harness();
    let outcome = w.send_user_message("read /tmp/note.txt");
    assert!(!outcome.response.is_empty(), "read response should not be empty");
    assert!(outcome.response.contains("hello from disk"));
}

#[test]
fn embedded_mode_can_run_shell_commands() {
    let mut w = echo_harness();
    let outcome = w.send_user_message("shell printf hi");
    assert!(!outcome.response.is_empty(), "shell response should not be empty");
}

#[test]
fn unavailable_tool_is_reported_without_crashing() {
    let mut w = echo_harness();
    w.h.registry.retain(|provider| provider.connection_id != SHELL);
    let outcome = w.send_user_message("shell printf hi");
    assert!(outcome.response.contains("no live provider available"));
}

#[test]
fn disconnected_tool_completes_pending_call() {
    let mut w = echo_harness();
    w.h.pending_tool_sessions.insert("call-1".to_owned(), "s1".to_owned());
    w.h.pending_tool_names.insert("call-1".to_owned(), "shell".to_owned());
    w.h.pending_tool_providers.insert("call-1".to_owned(), SHELL.to_owned());
    w.h.in_flight_tool_kinds.insert("call-1".to_owned(), ToolSideEffects::Mutating);
    w.h.turn_state =
        TurnState::ToolsRunning { session_id: "s1".to_owned(), remaining_calls: vec!["call-1".to_owned()] };

    w.h.handle_disconnect(SHELL);

    assert!(!matches!(w.h.turn_state, TurnState::ToolsRunning { .. }));
    assert!(!w.h.pending_tool_sessions.contains_key("call-1"));
    assert!(!w.h.pending_tool_providers.contains_key("call-1"));
    assert!(w.activity().iter().any(|record| record.call_id == "call-1"
        && matches!(
            &record.outcome,
            ToolActivityOutcome::Error { message, .. } if message == "tool provider disconnected"
        )));
}

#[test]
fn disconnected_tool_is_removed_cleanly() {
    let mut w = echo_harness();
    let mut progress = ServeProgress::new(ServeOptions { max_clients: None, exit_on_disconnect: false });
    let gone = HarnessEvent::Disconnected { connection_id: SHELL.to_owned() };
    w.h.handle_arrival(&mut progress, gone, None).expect("arrival");

    assert!(w.h.connection_index(SHELL).is_none());
    assert!(w.h.registry.iter().all(|provider| provider.connection_id != SHELL));
    assert!(w.h.lifecycle_messages.iter().any(|m| m == "extension shell exited"));

    w.seen = w.h.effects.len();
    let outcome = w.send_user_message("shell printf hi");
    assert!(outcome.response.contains("no live provider available"));
}

#[test]
fn traced_embedded_reports_shell_progress() {
    let mut w = echo_harness();
    let outcome = w.send_user_message("shell printf hi");
    assert_eq!(outcome.progress_messages, vec!["shell: running shell command"]);
    assert!(!outcome.response.is_empty(), "shell response should not be empty");
}

#[test]
fn traced_embedded_reports_lifecycle() {
    let mut w = echo_harness();
    w.send_user_message("hello");
    w.h.handle_disconnect(AGENT);
    for message in ["extension agent starting", "extension agent ready", "extension agent exited"] {
        assert!(w.h.lifecycle_messages.iter().any(|m| m == message));
    }
}

#[test]
fn empty_session_and_policy_views() {
    let store = SessionStore::new();
    assert_eq!(session_list_lines(&store), vec!["no sessions"]);
    assert_eq!(policy_lines(&vec![]), vec!["no policy approvals"]);
    assert_eq!(session_lines(&store, "x"), vec!["session x not found"]);
}

#[test]
fn daemon_disconnect_reason_is_reported() {
    let requests = client_requests(1, "s1", "hello");
    assert!(matches!(requests[0], Event::LifecycleHello(_)));
    assert!(matches!(requests[1], Event::LifecycleSubscribe(_)));
    let mut trace = ClientTrace::new();
    let err = trace
        .take(Event::LifecycleDisconnect { reason: Some("test disconnect".to_owned()) })
        .expect_err("should get disconnect");
    assert!(matches!(&err, HarnessError::Participant(r) if r == "test disconnect"));
}

#[test]
fn agents_context_is_injected_at_session_init() {
    let mut w = echo_harness();
    for (file_path, content) in
        [("/repo/AGENTS.md", "# Root\n- root rule\n"), ("/repo/pkg/AGENTS.md", "# Package\n- package rule\n")]
    {
        w.h.discovered_agents_files.push(DiscoveredAgentsFile {
            source_id: SHELL.to_owned(),
            file_path: file_path.to_owned(),
            content: content.to_owned(),
        });
    }
    w.h.turn_state =
        TurnState::InitializingSession { session_id: "s1".to_owned(), waiting_on: vec![SHELL.to_owned()] };
    w.take(SHELL, Event::ExtensionContextReady { session_id: "s1".to_owned() });

    assert!(matches!(w.h.turn_state, TurnState::Idle));

    let branch = w.branch();
    let injected = branch
        .iter()
        .rev()
        .find_map(|e| match e {
            SessionEntry::UserMessage { text }
                if text.starts_with("# AGENTS.md instructions") && text.contains("/repo/AGENTS.md") =>
            {
                Some(text.as_str())
            },
            _ => None,
        })
        .expect("expected injected AGENTS.md user message");
    assert!(injected.contains("<AGENTS_FILE path=\"/repo/AGENTS.md\">"));
    assert!(injected.contains("<AGENTS_FILE path=\"/repo/pkg/AGENTS.md\">"));
    let root_pos = injected.find("root rule").expect("root rule");
    let pkg_pos = injected.find("package rule").expect("package rule");
    assert!(root_pos < pkg_pos, "broader file should appear before nested one");
}

#[test]
fn cross_session_prompt_is_rejected() {
    let mut w = echo_harness();
    w.h.selected_model = "test/model".to_owned();
    match w.h.submit_user_prompt("chat-1".to_owned(), "hello".to_owned()) {
        Ok(PromptSubmission::Rejected { reason }) => {
            assert!(reason.contains("s1"), "reason should name bound session");
            assert!(reason.contains("chat-1"), "reason should name rejected id");
        },
        other => panic!("expected Rejected, got {other:?}"),
    }
    assert!(w.h.pending_prompts.is_empty(), "rejected prompt must not queue");
    assert!(w.h.store.session("chat-1").is_none(), "rejected session must not be created");
}

#[test]
fn harness_startup_eagerly_initializes_eager_session() {
    let w = echo_harness();
    assert!(w.h.session_initialized("s1"), "the bound session should be initialized at startup");
    assert!(matches!(w.h.turn_state, TurnState::Idle), "turn state should be Idle after eager init completes");
}

fn replayed<'a>(w: &'a World, to: &str) -> Vec<&'a Event> {
    w.h.effects
        .iter()
        .filter_map(|effect| match effect {
            Effect::Replay { to: client, seq } if client == to => Some(&w.h.event_log.entries[*seq as usize].event),
            _ => None,
        })
        .collect()
}

fn replayed_names<'a>(w: &'a World, to: &str) -> Vec<&'a str> {
    w.h.effects
        .iter()
        .filter_map(|effect| match effect {
            Effect::ReplayKept { to: client, index } if client == to => {
                Some(w.h.kept_events[*index].name.as_str())
            },
            _ => None,
        })
        .collect()
}

#[test]
fn late_joining_ui_client_receives_replayed_session_events() {
    let mut w = echo_harness();
    let outcome = w.send_user_message("hello replay");
    assert!(outcome.response.contains("hello replay"));

    let kept: Vec<&str> = w.h.kept_events.iter().map(|kept| kept.name.as_str()).collect();
    assert!(kept.contains(&"ui.prompt_submitted"), "user prompt should be in durable session event log");
    assert!(kept.contains(&"agent.response_finished"), "final agent response should be in durable session event log");

    w.h.accept_client("ui-1".to_owned());
    let selectors = vec![EventSelector::Prefix("ui.".to_owned()), EventSelector::Prefix("agent.".to_owned())];
    w.h.handle_client_event("ui-1", Event::LifecycleSubscribe(LifecycleSubscribe { selectors }), None).expect("handled");

    let names = replayed_names(&w, "ui-1");
    assert!(names.contains(&"ui.prompt_submitted"), "late UI should replay prior user prompt");
    assert!(names.contains(&"agent.response_finished"), "late UI should replay prior agent response");
}

#[test]
fn late_joining_ui_client_receives_replayed_agents_md_and_context_ready() {
    let mut w = echo_harness();
    w.h.publish_event(
        Some(SHELL),
        Event::ExtAgentsMdAvailable(ExtAgentsMdAvailable {
            file_path: "/test/AGENTS.md".to_owned(),
            content: "# test\n".to_owned(),
        }),
    );
    w.h.publish_event(Some(SHELL), Event::ExtensionContextReady { session_id: "default".to_owned() });

    w.h.accept_client("ui-1".to_owned());
    let selectors = vec![EventSelector::Prefix("extension.".to_owned())];
    w.h.handle_client_event("ui-1", Event::LifecycleSubscribe(LifecycleSubscribe { selectors }), None).expect("handled");

    let events = replayed(&w, "ui-1");
    assert!(
        events.iter().any(|e| matches!(e, Event::ExtAgentsMdAvailable(a) if a.file_path == "/test/AGENTS.md")),
        "late UI client should replay ExtAgentsMdAvailable"
    );
    assert!(
        events.iter().any(|e| matches!(e, Event::ExtensionContextReady { .. })),
        "late UI client should replay ExtensionContextReady"
    );
}

#[test]
fn announcing_an_instruction_file_again_replaces_its_content() {
    let mut w = echo_harness();
    w.h.discovered_agents_files.clear();
    for (path, content) in [("/w/AGENTS.md", "one"), ("/w/b/AGENTS.md", "two"), ("/w/./AGENTS.md", "three")] {
        let file = ExtAgentsMdAvailable { file_path: path.to_owned(), content: content.to_owned() };
        w.h.handle_extension_event(SHELL, Event::ExtAgentsMdAvailable(file), None).expect("accepted");
    }
    let files: Vec<(&str, &str)> =
        w.h.discovered_agents_files.iter().map(|f| (f.file_path.as_str(), f.content.as_str())).collect();
    assert_eq!(files, vec![("/w/AGENTS.md", "three"), ("/w/b/AGENTS.md", "two")]);
}

#[test]
fn empty_tool_name_does_not_panic_and_surfaces_error() {
    let mut w = echo_harness();
    w.think();
    w.h.handle_agent_response_finished(finished("sp-x", None, vec![call("c1", "", dict(vec![]))])).expect("handled");

    assert!(w.h.pending_tool_invocations.is_empty());
    assert!(w.h.in_flight_tool_kinds.entries.is_empty());

    let mut saw_request = false;
    let mut saw_error = false;
    for record in w.activity() {
        if record.call_id != "c1" {
            continue;
        }
        match &record.outcome {
            ToolActivityOutcome::Requested { .. } => saw_request = true,
            ToolActivityOutcome::Error { message, .. } if message.contains("invalid tool name") => saw_error = true,
            _ => {},
        }
    }
    assert!(saw_request && saw_error, "rejected call should leave both a Requested and an Error record");
}

#[test]
fn empty_tool_call_id_is_normalized_to_synthetic_id() {
    let mut w = echo_harness();
    w.think();
    let calls = vec![call("", "", dict(vec![])), call("", "", dict(vec![]))];
    w.h.handle_agent_response_finished(finished("sp-x", None, calls)).expect("handled");

    assert!(w.h.pending_tool_invocations.is_empty());
    assert!(w.h.in_flight_tool_kinds.entries.is_empty());

    let records = w.activity();
    assert_eq!(records.len(), 4, "expected two records per rejected call (Requested + Error)");
    let mut ids: Vec<&str> = Vec::new();
    for record in &records {
        assert!(!record.call_id.is_empty());
        assert!(record.call_id.starts_with("harness-synth-"));
        if !ids.contains(&record.call_id.as_str()) {
            ids.push(&record.call_id);
        }
    }
    assert_eq!(ids.len(), 2, "the two rejected calls must have distinct synthetic ids");
}

#[test]
fn pure_mutating_pure_serializes_through_dispatch_state_machine() {
    let mut w = echo_harness();
    w.think();
    let read = || dict(vec![("path", "/nonexistent/tau-test-path")]);
    let write = dict(vec![("path", "/tmp/w.txt"), ("content", "hi")]);
    let calls = vec![call("c1", "read", read()), call("c2", "write", write), call("c3", "read", read())];
    w.h.handle_agent_response_finished(finished("sp-x", None, calls)).expect("handled");

    let done = |id: &str, name: &str| {
        Event::ToolResult(ToolResult { call_id: id.to_owned(), tool_name: name.to_owned(), result: text("ok") })
    };
    assert_eq!(w.h.in_flight_tool_kinds.entries.len(), 1);
    assert_eq!(w.h.in_flight_tool_kinds.get("c1"), Some(&ToolSideEffects::Pure));
    assert_eq!(w.h.pending_tool_invocations.len(), 2);
    assert_eq!(w.h.pending_tool_invocations[0].call.id, "c2");
    assert_eq!(w.h.pending_tool_invocations[1].call.id, "c3");

    w.take(SHELL, done("c1", "read"));
    assert_eq!(w.h.in_flight_tool_kinds.entries.len(), 1);
    assert_eq!(w.h.in_flight_tool_kinds.get("c2"), Some(&ToolSideEffects::Mutating));
    assert_eq!(w.h.pending_tool_invocations.len(), 1);
    assert_eq!(w.h.pending_tool_invocations[0].call.id, "c3");

    w.take(SHELL, done("c2", "write"));
    assert_eq!(w.h.in_flight_tool_kinds.entries.len(), 1);
    assert_eq!(w.h.in_flight_tool_kinds.get("c3"), Some(&ToolSideEffects::Pure));
    assert!(w.h.pending_tool_invocations.is_empty());

    w.take(SHELL, done("c3", "read"));
    assert!(w.h.in_flight_tool_kinds.entries.is_empty());
}

#[test]
fn extension_ack_advances_cursor() {
    let mut w = echo_harness();
    w.take(SHELL, Event::Ack { up_to: 7 });
    assert_eq!(w.last_acked(), 7);
}

#[test]
fn duplicate_ack_is_ignored() {
    let mut w = echo_harness();
    let before = w.last_acked();
    w.take(SHELL, Event::Ack { up_to: 0 });
    assert_eq!(before, w.last_acked(), "stale ack should not change cursor");
    w.take(SHELL, Event::Ack { up_to: 9 });
    w.take(SHELL, Event::Ack { up_to: 4 });
    assert_eq!(w.last_acked(), 9);
}

#[test]
fn linear_session_prompts_strictly_extend_previous_messages() {
    let mut w = echo_harness();
    w.h.selected_model = "test/model".to_owned();
    w.say("hello");
    let first = w.h.send_prompt_to_agent("s1");
    w.h.handle_agent_response_finished(finished(&first, Some("hi"), vec![])).expect("handled");
    w.say("again");
    let second = w.h.send_prompt_to_agent("s1");

    let prompt1 = w.prompt(&first);
    let prompt2 = w.prompt(&second);
    assert_eq!(prompt2.system_prompt, prompt1.system_prompt);
    assert_eq!(prompt2.tools, prompt1.tools);
    assert_eq!(prompt2.model, prompt1.model);
    assert_eq!(prompt2.effort, prompt1.effort);
    assert!(prompt1.messages.len() < prompt2.messages.len(), "second prompt should strictly extend first");
    assert_eq!(
        &prompt2.messages[..prompt1.messages.len()],
        prompt1.messages.as_slice(),
        "second prompt must keep first prompt messages as an exact prefix"
    );
}

#[test]
fn thinking_is_persisted_but_excluded_from_prompt_replay() {
    let mut w = echo_harness();
    w.h.selected_model = "test/model".to_owned();
    w.say("first");
    let first = w.h.send_prompt_to_agent("s1");
    let mut answer = finished(&first, Some("answer"), vec![]);
    answer.thinking = Some("The user is asking ...".to_owned());
    w.h.handle_agent_response_finished(answer).expect("handled");

    let stored = w
        .branch()
        .into_iter()
        .find_map(|e| match e {
            SessionEntry::AgentMessage { thinking, .. } => Some(thinking.clone()),
            _ => None,
        })
        .expect("agent message");
    assert_eq!(stored.as_deref(), Some("The user is asking ..."));

    w.say("second");
    let second = w.h.send_prompt_to_agent("s1");
    let messages = format!("{:?}", w.prompt(&second).messages);
    assert!(messages.contains("answer"));
    assert!(!messages.contains("The user is asking"), "prompt replay must not echo reasoning back to the model");
}

fn skill_call(id: &str, name: &str) -> PendingInvocation {
    PendingInvocation {
        session_id: "s1".to_owned(),
        call: call(id, "skill", dict(vec![("name", name)])),
        kind: ToolSideEffects::Pure,
    }
}

#[test]
fn skill_tool_reads_file_content() {
    let mut w = echo_harness();
    w.h.discovered_skills.insert(
        "my-skill".to_owned(),
        DiscoveredSkill {
            source_id: "skills".to_owned(),
            description: "A test skill".to_owned(),
            source: DiscoveredSkillSource::File("/skills/my-skill/SKILL.md".to_owned()),
            add_to_prompt: true,
        },
    );
    w.say("load skill");
    w.h.turn_state =
        TurnState::ToolsRunning { session_id: "s1".to_owned(), remaining_calls: vec!["call-skill".to_owned()] };
    let content = "---\nname: my-skill\ndescription: A test skill\n---\n# Instructions\nDo the thing.";
    w.read_skill("/skills/my-skill/SKILL.md", content);
    w.h.handle_skill_tool_call(&skill_call("call-skill", "my-skill")).expect("handled");

    let shown = w
        .activity()
        .into_iter()
        .find_map(|record| match &record.outcome {
            ToolActivityOutcome::Result { result } => Some(format!("{result:?}")),
            _ => None,
        })
        .expect("expected skill tool result in session");
    assert!(shown.contains("Do the thing."));
    assert!(!shown.contains("description: A test skill"));
    assert!(w
        .h
        .event_log
        .entries
        .iter()
        .any(|entry| matches!(&entry.event, Event::ToolResult(result) if result.call_id == "call-skill")));
}

#[test]
fn skill_tool_returns_error_for_unknown_skill() {
    let mut w = echo_harness();
    w.say("load skill");
    w.h.turn_state =
        TurnState::ToolsRunning { session_id: "s1".to_owned(), remaining_calls: vec!["call-missing".to_owned()] };
    w.h.handle_skill_tool_call(&skill_call("call-missing", "nonexistent")).expect("handled");
    assert!(
        w.activity().iter().any(|record| matches!(record.outcome, ToolActivityOutcome::Error { .. })),
        "expected skill tool error in session"
    );
    assert!(w
        .h
        .event_log
        .entries
        .iter()
        .any(|entry| matches!(&entry.event, Event::ToolError(error) if error.call_id == "call-missing")));
}

#[test]
fn skill_tool_registered_in_tool_list() {
    let w = echo_harness();
    let defs = w.h.gather_tool_definitions();
    assert!(defs.iter().any(|d| d.name == "skill"), "skill tool should be registered");
}

#[test]
fn duplicate_tool_result_is_discarded() {
    let mut w = echo_harness();
    let nodes = w.h.store.session("s1").map(|tree| tree.nodes.len());
    let stale = Event::ToolResult(ToolResult {
        call_id: "orphan-call".to_owned(),
        tool_name: "read".to_owned(),
        result: text("stale data"),
    });
    assert!(w.h.handle_extension_event("fake-ext", stale, None).is_ok());
    assert_eq!(w.h.store.session("s1").map(|tree| tree.nodes.len()), nodes);
}

#[test]
fn prompts_wait_for_the_turn_and_go_in_order() {
    let mut w = echo_harness();
    assert_eq!(w.h.submit_user_prompt("s1".to_owned(), "one".to_owned()), Ok(PromptSubmission::Dispatched));
    assert_eq!(w.h.submit_user_prompt("s1".to_owned(), "two".to_owned()), Ok(PromptSubmission::Queued));
    assert_eq!(w.h.pending_prompts.len(), 1);
    w.perform();
    let arrival = w.arrivals.pop_front().expect("answer");
    w.h.handle_interaction_arrival(&mut Vec::new(), arrival, None).expect("arrival");
    assert!(w.h.pending_prompts.is_empty());
    assert!(matches!(w.h.turn_state, TurnState::AgentThinking { .. }));
    assert!(matches!(w.branch().last(), Some(SessionEntry::UserMessage { text }) if text == "two"));
}

#[test]
fn answers_count_once() {
    let mut w = echo_harness();
    w.h.selected_model = "test/model".to_owned();
    w.say("hello");
    let id = w.h.send_prompt_to_agent("s1");
    w.h.handle_agent_response_finished(finished(&id, Some("hi"), vec![])).expect("handled");
    let count = w.branch().len();
    w.h.handle_agent_response_finished(finished(&id, Some("hi again"), vec![])).expect("handled");
    assert_eq!(w.branch().len(), count);
}

#[test]
fn prompts_wait_while_extensions_start() {
    let mut h = Harness::new_with_agent(setup(), AGENT.to_owned(), SHELL.to_owned(), 1);
    h.selected_model = "test/model".to_owned();
    assert!(!h.extensions_all_ready());
    assert_eq!(h.submit_user_prompt("s1".to_owned(), "early".to_owned()), Ok(PromptSubmission::Queued));
    assert!(h.event_log.entries.iter().all(|entry| !matches!(entry.event, Event::SessionPromptCreated(_))));
}

#[test]
fn models_and_efforts_are_chosen_and_remembered() {
    let mut w = echo_harness();
    assert_eq!(w.h.selected_model, "test/model");
    w.h.handle_client_event("ui-1", Event::UiSetEffort { level: Effort::High }, None).expect("handled");
    assert_eq!(w.h.selected_effort, Effort::High);
    assert!(w.h.effects.iter().any(|e| matches!(e, Effect::Remember { text } if text.contains("high"))));
    w.h.select_model("test/unknown".to_owned());
    assert_eq!(w.h.selected_model, "test/model");
}

#[test]
fn sessions_can_be_switched_shown_and_navigated() {
    let mut w = echo_harness();
    w.send_user_message("hello");
    let before = w.branch().len();
    w.h.handle_client_event("ui-1", Event::UiTreeRequest { session_id: "s1".to_owned() }, None).expect("handled");
    w.h.handle_client_event("ui-1", Event::UiNavigateTree { session_id: "s1".to_owned(), node_id: 0 }, None).expect("handled");
    assert_eq!(w.branch().len(), 1);
    assert!(w.h.effects.iter().any(|e| matches!(e, Effect::KeepHead { node: 0, .. })));
    assert_eq!(w.h.store.session("s1").expect("session").nodes.len(), before);

    let switch =
        Event::UiSwitchSession { new_session_id: "s2".to_owned(), reason: SessionStartReason::New };
    w.h.handle_client_event("ui-1", switch, None).expect("handled");
    assert_eq!(w.h.current_session_id, "s2");
    assert!(w.h.effects.iter().any(|e| matches!(e, Effect::OpenSession { session } if session == "s2")));
}

#[test]
fn skills_of_extensions_become_known_and_leave_with_them() {
    let mut w = echo_harness();
    w.take(
        SHELL,
        Event::ExtSkillAvailable(ExtSkillAvailable {
            name: "notes".to_owned(),
            description: "Takes notes".to_owned(),
            file_path: "/skills/notes/SKILL.md".to_owned(),
            add_to_prompt: true,
        }),
    );
    assert!(w.h.discovered_skills.contains_key("notes"));
    w.h.handle_disconnect(SHELL);
    assert!(!w.h.discovered_skills.contains_key("notes"));
}

#[test]
fn serving_ends_with_the_last_client() {
    let mut w = echo_harness();
    let mut progress = ServeProgress::new(ServeOptions { max_clients: Some(1), exit_on_disconnect: true });
    assert!(!w.h.serves_no_more(&progress));
    let new = HarnessEvent::NewClient { connection_id: "ui-1".to_owned() };
    w.h.handle_arrival(&mut progress, new, None).expect("client");
    assert!(!w.h.serves_no_more(&progress));
    let gone = HarnessEvent::Disconnected { connection_id: "ui-1".to_owned() };
    w.h.handle_arrival(&mut progress, gone, None).expect("gone");
    assert!(w.h.serves_no_more(&progress));
}

#[test]
fn every_error_says_what_happened() {
    for error in [
        HarnessError::Io("broken pipe".to_owned()),
        HarnessError::ProtocolDecode("broken pipe".to_owned()),
        HarnessError::ProtocolEncode("broken pipe".to_owned()),
        HarnessError::SessionStore("broken pipe".to_owned()),
        HarnessError::SocketTransport("broken pipe".to_owned()),
        HarnessError::Route("broken pipe".to_owned()),
        HarnessError::ToolRoute("broken pipe".to_owned()),
        HarnessError::ThreadJoin("broken pipe".to_owned()),
        HarnessError::Participant("broken pipe".to_owned()),
    ] {
        assert!(error.text().contains("broken pipe"));
    }
    assert!(!HarnessError::StartupTimeout.text().is_empty());
    assert!(!HarnessError::ResponseTimeout.text().is_empty());
    assert!(!HarnessError::NoAgentConfigured.text().is_empty());
    assert_eq!(HarnessError::Io("x".to_owned()).source(), Some("x"));
    assert_eq!(HarnessError::Participant("x".to_owned()).source(), None);
    let none = Harness::from_config(setup(), vec![]);
    assert!(matches!(none, Err(HarnessError::NoAgentConfigured)));
}

#[test]
fn harnesses_end_with_their_extensions() {
    let mut w = echo_harness();
    assert_eq!(w.h.extension_connection_id("shell"), Some(SHELL));
    assert_eq!(w.h.extension_connection_id("nobody"), None);
    w.h.shutdown(&vec![ThreadEnd::Ended, ThreadEnd::NoThread]).expect("shutdown");
    assert!(w.h.connections.is_empty());
    for message in ["extension agent exited", "extension shell exited"] {
        assert!(w.h.lifecycle_messages.iter().any(|m| m == message));
    }

    let mut failing = echo_harness();
    let error = failing.h.shutdown(&vec![ThreadEnd::Failed("boom".to_owned())]).expect_err("failed");
    assert_eq!(error, HarnessError::Participant("boom".to_owned()));
    let error = echo_harness().h.shutdown(&vec![ThreadEnd::Ended, ThreadEnd::Lost]).expect_err("lost");
    assert_eq!(error, HarnessError::ThreadJoin("shell".to_owned()));
}

#[test]
fn commands_of_the_user_are_shown_to_the_agent() {
    let mut w = echo_harness();
    let finished = ShellCommandFinished {
        session_id: "s1".to_owned(),
        command: "echo \"hi\"".to_owned(),
        output: "hi".to_owned(),
        exit_code: Some(0),
        cancelled: false,
        include_in_context: true,
    };
    w.h.inject_user_shell_output(&finished).expect("handled");
    let expected = "<user_shell command=\"echo \\\"hi\\\"\" exit_code=\"0\">\nhi\n</user_shell>";
    assert!(matches!(w.branch().last(), Some(SessionEntry::UserMessage { text }) if text == expected));
}

fn file_skill(path: &str) -> DiscoveredSkill {
    DiscoveredSkill {
        source_id: "skills".to_owned(),
        description: "a skill".to_owned(),
        source: DiscoveredSkillSource::File(path.to_owned()),
        add_to_prompt: true,
    }
}

#[test]
fn skills_are_answered_before_the_next_call_goes() {
    let mut w = echo_harness();
    w.h.discovered_skills.insert("s".to_owned(), file_skill("/skills/s/SKILL.md"));
    w.think();
    let calls = vec![call("a", "skill", dict(vec![("name", "s")])), call("b", "read", dict(vec![]))];
    let answer = finished("sp-x", None, calls);
    assert_eq!(w.h.skill_files_of_answer(&answer), vec!["/skills/s/SKILL.md".to_owned()]);
    w.read_skill("/skills/s/SKILL.md", "text");
    w.h.handle_agent_response_finished(answer).expect("handled");
    let order: Vec<(&str, bool)> = w
        .activity()
        .into_iter()
        .map(|record| (record.call_id.as_str(), matches!(record.outcome, ToolActivityOutcome::Requested { .. })))
        .collect();
    assert_eq!(order, vec![("a", true), ("a", false), ("b", true)]);
}

#[test]
fn a_skill_that_cannot_be_read_fails_its_call() {
    let mut w = echo_harness();
    w.h.discovered_skills.insert("s".to_owned(), file_skill("/skills/s/SKILL.md"));
    let mut texts = TextMap::new();
    texts.insert("/skills/s/SKILL.md".to_owned(), SkillRead::Failed("gone".to_owned()));
    w.h.take_skill_texts(texts);
    w.h.pending_tool_invocations.push(skill_call("waits", "s"));
    assert_eq!(w.h.skill_files_of_waiting_calls(), vec!["/skills/s/SKILL.md".to_owned()]);
    w.h.pending_tool_invocations.clear();
    w.h.handle_skill_tool_call(&skill_call("c", "s")).expect("handled");
    let failed = w.activity().into_iter().any(|record| {
        matches!(&record.outcome, ToolActivityOutcome::Error { message, .. }
            if message == "failed to read skill file: gone")
    });
    assert!(failed);
}

#[test]
fn efforts_are_those_that_were_read_last() {
    let mut w = echo_harness();
    let mut last = TextMap::new();
    last.insert("test/model".to_owned(), Effort::Minimal);
    w.h.refresh_efforts(TextMap::new(), last);
    w.h.select_model("test/model".to_owned());
    assert_eq!(w.h.selected_effort, Effort::Minimal);
    w.h.refresh_efforts(TextMap::new(), TextMap::new());
    w.h.select_model("test/model".to_owned());
    assert_eq!(w.h.selected_effort, Effort::Low);
    let mut defaults = TextMap::new();
    defaults.insert("test/model".to_owned(), Effort::High);
    w.h.refresh_efforts(defaults, TextMap::new());
    w.h.select_model("test/model".to_owned());
    assert_eq!(w.h.selected_effort, Effort::High);
}

#[test]
fn entries_are_kept_one_by_one() {
    let mut w = echo_harness();
    w.think();
    let from = w.h.effects.len();
    w.h.handle_agent_response_finished(finished("sp-x", None, vec![call("c1", "", dict(vec![]))])).expect("handled");
    let kept: Vec<usize> = w.h.effects[from..]
        .iter()
        .filter_map(|effect| match effect {
            Effect::KeepEntry { node, .. } => Some(*node),
            _ => None,
        })
        .collect();
    assert_eq!(kept, vec![0, 1]);
}

fn fails(times: usize) -> Vec<Option<String>> {
    let mut outcomes = vec![None; times];
    outcomes.push(Some("disk full".to_owned()));
    outcomes
}

#[test]
fn a_prompt_that_cannot_be_kept_is_an_error() {
    let mut w = echo_harness();
    w.h.expect_writes(fails(0));
    assert_eq!(w.h.submit_user_prompt("s1".to_owned(), "hi".to_owned()), Err("disk full".to_owned()));
    assert!(w.h.turn_state.is_idle());
    assert!(w.h.event_log.entries.iter().all(|entry| !matches!(entry.event, Event::SessionPromptCreated(_))));
}

#[test]
fn a_waiting_prompt_that_cannot_be_kept_is_announced() {
    let mut w = echo_harness();
    w.h.pending_prompts.push(("s1".to_owned(), "hi".to_owned()));
    w.h.expect_writes(fails(0));
    w.h.try_advance_queue();
    assert!(w.info().contains(&"failed to dispatch queued prompt: session store error: disk full"));
    assert!(w.h.turn_state.is_idle());
    assert!(w.h.pending_prompts.is_empty());
}

#[test]
fn a_session_that_cannot_be_set_up_is_announced() {
    let mut w = echo_harness();
    w.h.connections.clear();
    w.h.discovered_agents_files.push(DiscoveredAgentsFile {
        source_id: SHELL.to_owned(),
        file_path: "/w/AGENTS.md".to_owned(),
        content: "rule".to_owned(),
    });
    w.h.expect_writes(fails(0));
    w.h.start_session_init("s9", SessionStartReason::New);
    assert!(w.info().contains(&"failed to initialize session: session store error: disk full"));
    assert!(w.h.turn_state.is_idle());
    assert!(!w.h.initialized_sessions.contains(&"s9".to_owned()));
}

#[test]
fn a_waiting_call_that_cannot_be_kept_is_announced() {
    let mut w = echo_harness();
    w.think();
    let calls = vec![call("a", "write", dict(vec![])), call("b", "write", dict(vec![]))];
    w.h.handle_agent_response_finished(finished("sp-x", None, calls)).expect("handled");
    let result =
        ToolResult { call_id: "a".to_owned(), tool_name: "write".to_owned(), result: text("done") };
    w.h.expect_writes(fails(1));
    w.take(SHELL, Event::ToolResult(result));
    assert!(w.info().contains(&"queued tool dispatch failed: session store error: disk full"));
    assert!(w.h.in_flight_tool_kinds.entries.is_empty());
    assert!(w.h.pending_tool_invocations.is_empty());
}

#[test]
fn errors_of_the_store_reach_the_caller() {
    let disk_full = HarnessError::SessionStore("disk full".to_owned());
    let mut w = echo_harness();
    w.think();
    w.h.expect_writes(fails(0));
    let answer = Event::AgentResponseFinished(finished("sp-x", Some("hi"), vec![]));
    assert_eq!(w.h.handle_extension_event(AGENT, answer, None), Err(disk_full));
    assert!(w.h.store.session("s1").is_none());

    let mut w = echo_harness();
    w.say("one");
    w.h.expect_writes(fails(0));
    let navigate = Event::UiNavigateTree { session_id: "s1".to_owned(), node_id: 0 };
    assert!(w.h.handle_client_event("ui-1", navigate, None).is_err());
    w.h.expect_writes(fails(0));
    let switch = Event::UiSwitchSession { new_session_id: "s2".to_owned(), reason: SessionStartReason::New };
    assert!(w.h.handle_client_event("ui-1", switch, None).is_err());
    assert_eq!(w.h.current_session_id, "s2");
    assert!(w.h.turn_state.is_idle());
}

#[test]
fn starts_end_idle_with_the_session_set_up() {
    let mut w = start();
    assert!(w.h.turn_state.is_idle() == w.h.initialized_sessions.contains(&"s1".to_owned()));
    let ready = Event::ExtensionContextReady { session_id: "s1".to_owned() };
    w.h.handle_init_arrival(from(SHELL, ready), None).expect("context ready");
    assert!(w.h.turn_state.is_idle());
    assert!(w.h.initialized_sessions.contains(&"s1".to_owned()));
    assert!(w.h.pending_prompts.is_empty());
}

#[test]
fn other_files_make_no_difference_to_a_skill() {
    let answer_with = |others: &[&str]| {
        let mut w = echo_harness();
        w.h.discovered_skills.insert("s".to_owned(), file_skill("/skills/s/SKILL.md"));
        let mut texts = TextMap::new();
        for other in others {
            texts.insert((*other).to_owned(), SkillRead::Text("other".to_owned()));
        }
        texts.insert("/skills/s/SKILL.md".to_owned(), SkillRead::Text("text".to_owned()));
        w.h.take_skill_texts(texts);
        w.think();
        let calls = vec![call("a", "skill", dict(vec![("name", "s")]))];
        w.h.handle_agent_response_finished(finished("sp-x", None, calls)).expect("handled");
        format!("{:?}", w.activity())
    };
    assert_eq!(answer_with(&[]), answer_with(&["/a", "/b"]));
}

#[test]
fn acknowledgements_need_no_number() {
    let mut w = echo_harness();
    w.h.next_session_prompt_id = u64::MAX;
    w.take(SHELL, Event::Ack { up_to: 3 });
    w.take(SHELL, Event::Ack { up_to: 2 });
    let acked = w.h.extensions.iter().find(|entry| entry.connection_id == SHELL).expect("extension").last_acked;
    assert_eq!(acked, 3);
    w.h.drain_pending_tool_invocations().expect("nothing waits");
}

#[test]
fn room_is_tested_before_an_arrival() {
    let mut w = echo_harness();
    let answer = |calls| from(AGENT, Event::AgentResponseFinished(finished("sp-x", None, calls)));
    let read = || call("a", "read", dict(vec![]));
    assert!(w.h.has_room_for(&answer(vec![read()])));
    w.h.next_session_prompt_id = u64::MAX - 1;
    assert!(w.h.has_room_for(&answer(vec![])));
    assert!(!w.h.has_room_for(&answer(vec![read()])));
    w.h.next_session_prompt_id = 0;
    w.h.next_synthetic_call_id = u64::MAX;
    assert!(!w.h.has_room_for(&answer(vec![read()])));
    let gone = HarnessEvent::Disconnected { connection_id: SHELL.to_owned() };
    assert!(w.h.has_room_for(&gone));
    w.h.extensions[0].restart_attempt = u32::MAX;
    assert!(!w.h.has_room_for(&gone));
    assert!(w.h.has_room_for(&HarnessEvent::NewClient { connection_id: "ui".to_owned() }));
}

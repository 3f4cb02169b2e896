//! What becomes of the events of clients and of extensions, each by its kind, and what
//! events are called.
use vstd::prelude::*;
use crate::assoc::{lookup, lookup_after_stored, removed, stored};
use crate::control_laws::{
    chosen_efforts_count, chosen_models_count, moving_changes_the_head_alone, one_extension_changes_its_state,
    switching_leaves_nothing_waiting,
};
use crate::event::{
    event_name, is_tool_name, is_transient_event, selection_name, selectors_view, AgentResponseFinished, Effort, Event,
    EventView, LifecycleHello, LifecycleSubscribe, SessionStartReason,
};
use crate::harness_laws::{calls_go_to_their_provider, history, last_event, prompts_reach_the_agent, sound};
use crate::models::efforts_of;
use crate::runtime_dir::{belongs, DaemonCandidate};
use crate::session::{option_text, tree_of, Entry, Outcome};
use crate::state::{
    after_client_event, after_extension_event, agent_finished, call_begun, client_stays, context_ready, drained,
    ext_ready, included, normalized, published, published_as, publishing_changes_the_log_alone, setup_peers,
    submission, tool_at, EffectView, ExtensionState, Logged, State, Turn,
};
use crate::text::trimmed;
use crate::paths::same_path;

verus! {

broadcast use publishing_changes_the_log_alone;

/// What a client chooses is chosen.
pub proof fn choices_of_clients_count(s: State, client: Seq<char>, model: String, level: Effort)
    requires
        s.pending_prompts.len() == 0,
    ensures
        s.models.contains(model@) ==> after_client_event(s, client, Event::UiModelSelect { model }@, None).state.model
            == model@,
        !s.models.contains(model@) ==> after_client_event(s, client, Event::UiModelSelect { model }@, None).state.model
            == s.model,
        efforts_of(s.providers, s.model).contains(level) ==> after_client_event(
            s,
            client,
            Event::UiSetEffort { level }@,
            None,
        ).state.effort == level,
{
    chosen_models_count(s, model@);
    chosen_efforts_count(s, level);
}

/// A client that turns to another session turns the harness to it.
pub proof fn clients_switch_sessions(s: State, client: Seq<char>, new_session_id: String, reason: SessionStartReason)
    requires
        sound(s),
        new_session_id@ != s.current,
        setup_peers(s.connections).len() > 0,
    ensures
        ({
            let t = after_client_event(s, client, Event::UiSwitchSession { new_session_id, reason }@, None);
            &&& t.error is None
            &&& t.state.current == new_session_id@
            &&& t.state.log[s.log.len() as int] == (Logged {
                source: Some(client),
                event: Event::UiSwitchSession { new_session_id, reason }@,
            })
            &&& last_event(t.state) == (EventView::Started { session_id: new_session_id@, reason })
        }),
{
    let s1 = published(s, Some(client), Event::UiSwitchSession { new_session_id, reason }@);
    assert(sound(s1));
    switching_leaves_nothing_waiting(s1, new_session_id@, reason);
    reveal(crate::state::switched);
    let s2 = published(s1, None, EventView::Shutdown { session_id: s1.current });
    let opened = State {
        turn: Turn::Idle,
        pending_prompts: Seq::empty(),
        request_sessions: Seq::empty(),
        pending_calls: Seq::empty(),
        current: new_session_id@,
        effects: s2.effects.push(EffectView::OpenSession { session: new_session_id@ }),
        ..s2
    };
    crate::control_laws::lemma_without_contexts(opened, setup_peers(s.connections));
}

/// A client that moves to a node moves the head of the session to it.
pub proof fn clients_move_the_head(s: State, client: Seq<char>, session_id: String, node_id: u64)
    requires
        sound(s),
        session_id@ == s.current,
        node_id < tree_of(s.sessions, s.current).nodes.len(),
    ensures
        ({
            let t = after_client_event(s, client, Event::UiNavigateTree { session_id, node_id }@, None);
            &&& t.error is None
            &&& tree_of(t.state.sessions, s.current).head == Some(node_id as int)
            &&& tree_of(t.state.sessions, s.current).nodes == tree_of(s.sessions, s.current).nodes
        }),
{
    let s1 = published(s, Some(client), Event::UiNavigateTree { session_id, node_id }@);
    assert(sound(s1));
    moving_changes_the_head_alone(s1, node_id as int, s.current);
}

/// A prompt of a client that can go stands in the history of its session.
pub proof fn prompts_of_clients_are_kept(s: State, client: Seq<char>, session_id: String, text: String)
    requires
        sound(s),
        session_id@ == s.current,
        submission(s, s.current) is Dispatched,
    ensures
        ({
            let t = after_client_event(s, client, Event::UiPromptSubmitted { session_id, text }@, None);
            &&& t.error is None
            &&& history(t.state, s.current) == history(s, s.current).push(Entry::User(text@))
            &&& t.state.turn == (Turn::Thinking { session: s.current })
        }),
{
    prompts_reach_the_agent(s, s.current, text@, s.current);
}

/// A client that says farewell changes nothing, and is gone.
pub proof fn farewells_change_nothing(s: State, client: Seq<char>, reason: Option<String>)
    ensures
        after_client_event(s, client, Event::LifecycleDisconnect { reason }@, None).state == s,
        !client_stays(Event::LifecycleDisconnect { reason }@, None),
        client_stays(Event::UiDetachRequest@, None),
{
}

/// A command that a client wants run is announced as it came.
pub proof fn commands_of_clients_are_announced(s: State, client: Seq<char>, session_id: String, command: String)
    ensures
        ({
            let event = Event::UiShellCommand { session_id, command }@;
            let t = after_client_event(s, client, event, None);
            t.error is None && t.state.log == s.log.push(Logged { source: Some(client), event })
        }),
{
}

/// An extension that introduces itself gets its configuration and is no longer merely
/// started.
pub proof fn introductions_are_answered(s: State, source: Seq<char>, hello: LifecycleHello, i: int)
    requires
        0 <= i < s.extensions.len(),
        s.extensions[i].connection_id == source,
        forall|j: int| 0 <= j < i ==> (#[trigger] s.extensions[j]).connection_id != source,
    ensures
        ({
            let t = after_extension_event(s, source, Event::LifecycleHello(hello)@);
            &&& t.error is None
            &&& t.state.extensions[i].state == ExtensionState::Handshaking
            &&& t.state.effects.last() matches EffectView::Send { to, event } && to == source && event is Configure
        }),
{
    one_extension_changes_its_state(s, source, ExtensionState::Handshaking, i);
}

/// An extension that is online no longer keeps prompts waiting.
pub proof fn extensions_come_online(s: State, source: Seq<char>, message: Option<String>, i: int)
    requires
        0 <= i < s.extensions.len(),
        s.extensions[i].connection_id == source,
        forall|j: int| 0 <= j < i ==> (#[trigger] s.extensions[j]).connection_id != source,
        s.pending_prompts.len() == 0,
    ensures
        ({
            let t = after_extension_event(s, source, Event::LifecycleReady { message }@);
            &&& t.error is None
            &&& t.state.extensions[i].state == ExtensionState::Ready
            &&& t.state.extensions[i].name == s.extensions[i].name
            &&& t.state.log.last() == (Logged { source: Some(source), event: Event::LifecycleReady { message }@ })
        }),
{
    let s1 = published(ext_ready(s, source), Some(source), Event::LifecycleReady { message }@);
    one_extension_changes_its_state(s1, source, ExtensionState::Ready, i);
}

/// What an extension publishes is published as its own.
pub proof fn extensions_publish_their_own(s: State, source: Seq<char>, event: Box<Event>, transient: bool)
    ensures
        ({
            let t = after_extension_event(s, source, Event::EmitEvent { event, transient }@);
            &&& t.error is None
            &&& t.state.log == s.log.push(Logged { source: Some(source), event: (*event)@ })
            &&& transient ==> t.state.kept == s.kept
        }),
{
    reveal(published_as);
}

/// What an extension chooses to hear is what it is sent from then on.
pub proof fn extensions_choose_their_events(s: State, source: Seq<char>, sub: LifecycleSubscribe, i: int)
    requires
        0 <= i < s.connections.len(),
        s.connections[i].id == source,
        forall|a: int, b: int|
            0 <= a < b < s.connections.len() ==> (#[trigger] s.connections[a]).id != (#[trigger] s.connections[b]).id,
    ensures
        after_extension_event(s, source, Event::LifecycleSubscribe(sub)@).state.connections[i].selectors == selectors_view(
            sub.selectors@,
        ),
        after_client_event(s, source, Event::LifecycleSubscribe(sub)@, None).state.connections[i].selectors
            == selectors_view(sub.selectors@),
{
    crate::control_laws::subscriptions_are_their_own(s, source, selectors_view(sub.selectors@), i);
    reveal(crate::state::caught_up);
    reveal(crate::state::info_replayed);
}

/// The answer of the agent is taken as such.
pub proof fn answers_are_taken_as_answers(s: State, source: Seq<char>, r: AgentResponseFinished, session: Seq<char>)
    requires
        sound(s),
        lookup(s.prompt_sessions, r.session_prompt_id@) == Some(session),
        r.text is Some,
        r.tool_calls@.len() == 0,
        s.pending_prompts.len() == 0,
        r.input_tokens is None,
        r.cached_tokens is None,
    ensures
        history(after_extension_event(s, source, Event::AgentResponseFinished(r)@).state, session) == history(
            s,
            session,
        ).push(Entry::Agent { text: r.text->Some_0@, thinking: option_text(r.thinking) }),
{
    crate::harness_laws::answers_are_kept_in_their_session(s, r, session, session);
}

/// The call that an answer asks for goes out at once where nothing is on its way: it stands
/// in the history, is on its way under its id, and the turn lasts until it has an outcome.
pub proof fn calls_of_an_answer_go_out(s: State, r: AgentResponseFinished, session: Seq<char>, i: int)
    requires
        sound(s),
        lookup(s.prompt_sessions, r.session_prompt_id@) == Some(session),
        r.text is None,
        r.tool_calls@.len() == 1,
        r.tool_calls@[0].id@.len() > 0,
        r.input_tokens is None,
        r.cached_tokens is None,
        s.pending_calls.len() == 0,
        s.in_flight.len() == 0,
        is_tool_name(r.tool_calls@[0].name.raw()),
        r.tool_calls@[0].name.raw() != "skill"@,
        0 <= i < s.registry.len(),
        s.registry[i].name == r.tool_calls@[0].name.raw(),
        forall|j: int| 0 <= j < i ==> (#[trigger] s.registry[j]).name != r.tool_calls@[0].name.raw(),
    ensures
        ({
            let t = agent_finished(s, r);
            let id = r.tool_calls@[0].id@;
            let name = r.tool_calls@[0].name.raw();
            let arguments = r.tool_calls@[0].arguments@;
            &&& t.error is None
            &&& history(t.state, session) == history(s, session).push(
                Entry::Tool { call_id: id, tool_name: name, outcome: Outcome::Requested(arguments) },
            )
            &&& last_event(t.state) == (EventView::Request { call_id: id, tool_name: name, arguments })
            &&& t.state.effects.last() matches EffectView::Route { to, .. } && to == s.registry[i].provider
            &&& lookup(t.state.in_flight, id) == Some(s.registry[i].side_effects)
            &&& t.state.turn == (Turn::Running { session, remaining: seq![id] })
            &&& t.state.pending_calls.len() == 0
        }),
{
    reveal(agent_finished);
    let s2 = published(s, None, Event::AgentResponseFinished(r)@);
    let s3 = State {
        prompt_sessions: removed(s2.prompt_sessions, r.session_prompt_id@),
        completed: included(s2.completed, r.session_prompt_id@),
        ..s2
    };
    let calls = r.tool_calls@;
    let (queue, next) = normalized(s3, session, calls, 1);
    crate::harness_laws::calls_are_taken_over(s3, session, calls, 1, 0);
    let call = queue[0];
    assert(queue =~= seq![call]);
    assert(call.id == calls[0].id@);
    crate::harness_laws::tools_are_found_where_they_stand_first(s.registry, call.name);
    let k = tool_at(s.registry, call.name)->Some_0;
    assert(tool_at(s.registry, call.name) == Some(i)) by {
        if tool_at(s.registry, call.name) is None {
            assert(s.registry[i].name != call.name);
        } else if k < i {
            assert(s.registry[k].name != call.name);
        } else if i < k {
            assert(s.registry[i].name != call.name);
        }
    }
    let asked = State {
        next_synthetic: next,
        turn: Turn::Running { session, remaining: crate::state::call_ids(queue) },
        pending_calls: s3.pending_calls + queue,
        ..s3
    };
    assert(asked.pending_calls =~= seq![call]);
    assert(crate::state::call_ids(queue) =~= seq![call.id]);
    let going = State {
        pending_calls: asked.pending_calls.drop_first(),
        in_flight: stored(asked.in_flight, call.id, call.kind),
        ..asked
    };
    assert(going.pending_calls.len() == 0);
    assert(sound(going));
    lookup_after_stored(asked.in_flight, call.id, call.kind, call.id);
    calls_go_to_their_provider(going, call, i, session);
    crate::state::beginning_a_call_leaves_the_queue(going, call);
    let t = call_begun(going, call).0;
    assert(!crate::state::mutating_in_flight(asked.in_flight));
    reveal_with_fuel(drained, 2);
    assert(drained(asked) == drained(t.state));
    assert(drained(t.state) == crate::state::done(t.state));
}

/// Every kind of event has a name of its own family.
pub proof fn events_are_called_by_their_kind(e: EventView)
    ensures
        e is Request ==> event_name(e) == "tool.request"@,
        e is Result ==> event_name(e) == "tool.result"@,
        e is Error ==> event_name(e) == "tool.error"@,
        e is Starting ==> event_name(e) == "extension.starting"@,
        e is Ready ==> event_name(e) == "extension.ready"@,
        e is Exited ==> event_name(e) == "extension.exited"@,
        e is Restarting ==> event_name(e) == "extension.restarting"@,
        e is Queued ==> event_name(e) == "session.prompt_queued"@,
        e is Started ==> event_name(e) == "session.started"@,
        e is Shutdown ==> event_name(e) == "session.shutdown"@,
        e is PromptCreated ==> event_name(e) == "session.prompt_created"@,
        e is PromptSubmitted ==> event_name(e) == "ui.prompt_submitted"@,
        e is Info ==> event_name(e) == "harness.info"@,
        e is ModelSelected ==> event_name(e) == "harness.model_selected"@,
        e is ModelsAvailable ==> event_name(e) == "harness.models_available"@,
        e is ContextUsage ==> event_name(e) == "harness.context_usage_changed"@,
        e is EffortChanged ==> event_name(e) == "harness.effort_changed"@,
        e is EffortsAvailable ==> event_name(e) == "harness.efforts_available"@,
        e is Configure ==> event_name(e) == "lifecycle.configure"@,
        e is Disconnect ==> event_name(e) == "lifecycle.disconnect"@,
        !(e is Passed) ==> !is_transient_event(e) && selection_name(e) == event_name(e),
{
}

/// Every kind of event that is passed on has a name of its own family; an event with its
/// place in the log is chosen by the name of that event.
pub proof fn passed_events_are_called_by_their_kind(e: Event, id: u64, inner: Box<Event>)
    ensures
        e is ToolRegister ==> event_name(EventView::Passed(e)) == "tool.register"@,
        e is ToolProgress ==> event_name(EventView::Passed(e)) == "tool.progress"@,
        e is ShellCommandProgress ==> event_name(EventView::Passed(e)) == "shell.command_progress"@,
        e is ShellCommandFinished ==> event_name(EventView::Passed(e)) == "shell.command_finished"@,
        e is ExtSkillAvailable ==> event_name(EventView::Passed(e)) == "extension.skill_available"@,
        e is ExtAgentsMdAvailable ==> event_name(EventView::Passed(e)) == "extension.agents_md_available"@,
        e is ExtensionContextReady ==> event_name(EventView::Passed(e)) == "extension.context_ready"@,
        e matches Event::ExtensionEvent { name, .. } ==> event_name(EventView::Passed(e)) == "extension.event."@ + name@,
        e is AgentStarted ==> event_name(EventView::Passed(e)) == "agent.started"@,
        e is AgentPromptSubmitted ==> event_name(EventView::Passed(e)) == "agent.prompt_submitted"@,
        e is AgentResponseUpdated ==> event_name(EventView::Passed(e)) == "agent.response_updated"@,
        e is AgentResponseFinished ==> event_name(EventView::Passed(e)) == "agent.response_finished"@,
        e is SessionAgentLoaded ==> event_name(EventView::Passed(e)) == "session.agent_loaded"@,
        e is SessionAgentUnloaded ==> event_name(EventView::Passed(e)) == "session.agent_unloaded"@,
        e is LifecycleHello ==> event_name(EventView::Passed(e)) == "lifecycle.hello"@,
        e is LifecycleSubscribe ==> event_name(EventView::Passed(e)) == "lifecycle.subscribe"@,
        e is LifecycleReady ==> event_name(EventView::Passed(e)) == "lifecycle.ready"@,
        e is UiShellCommand ==> event_name(EventView::Passed(e)) == "ui.shell_command"@,
        e is UiModelSelect ==> event_name(EventView::Passed(e)) == "ui.model_select"@,
        e is UiSetEffort ==> event_name(EventView::Passed(e)) == "ui.set_effort"@,
        e is UiSwitchSession ==> event_name(EventView::Passed(e)) == "ui.switch_session"@,
        e is UiTreeRequest ==> event_name(EventView::Passed(e)) == "ui.tree_request"@,
        e is UiNavigateTree ==> event_name(EventView::Passed(e)) == "ui.navigate_tree"@,
        e is UiDetachRequest ==> event_name(EventView::Passed(e)) == "ui.detach_request"@,
        selection_name(EventView::Passed(Event::LogEvent { id, event: inner })) == event_name((*inner)@),
        is_transient_event(EventView::Passed(e)) <==> e is ToolProgress || e is ShellCommandProgress
            || e is AgentResponseUpdated,
{
}

/// The name of a tool is made of letters, digits and underscores, and is not empty.
pub proof fn tool_names_are_plain(name: Seq<char>, i: int)
    ensures
        is_tool_name(name) ==> name.len() > 0,
        is_tool_name(name) && 0 <= i < name.len() ==> ('a' <= name[i] && name[i] <= 'z') || ('A' <= name[i] && name[i]
            <= 'Z') || ('0' <= name[i] && name[i] <= '9') || name[i] == '_',
        name.len() > 0 && (forall|k: int|
            0 <= k < name.len() ==> ('a' <= #[trigger] name[k] && name[k] <= 'z') || ('A' <= name[k] && name[k] <= 'Z') || (
            '0' <= name[k] && name[k] <= '9') || name[k] == '_') ==> is_tool_name(name),
{
    if is_tool_name(name) && 0 <= i < name.len() {
        assert(crate::event::tool_name_char(name[i]));
    }
}

/// A harness belongs to the project that its marker names; canonical forms of both count
/// where they are known.
pub proof fn harnesses_belong_to_the_project_they_name(
    c: DaemonCandidate,
    root: Seq<char>,
    canonical: Option<Seq<char>>,
)
    ensures
        c.marker is None ==> !belongs(c, root, canonical),
        c.marker matches Some(text) ==> canonical is None ==> (belongs(c, root, canonical) <==> same_path(
            trimmed(text@),
            root,
        )),
        c.marker is Some && c.canonical is Some && canonical is Some ==> (belongs(c, root, canonical) <==> same_path(
            c.canonical->Some_0@,
            canonical->Some_0,
        )),
{
}

} // verus!

//! What holds while the harness starts.
//!
//! A harness starts in two waits: until its extensions are ready, and until its
//! session is set up. Meanwhile no prompt is made and none waits; and once the second
//! wait has begun, it is the user's turn only where the session is set up.
use vstd::prelude::*;
use crate::event::{AgentResponseFinished, Event, EventView, SessionStartReason};
use crate::serve::{
    announced, arrived_at_init, arrived_at_startup, config_checked, first_state, skill_tool, HarnessEvent,
    HarnessSetup, Started,
};
use crate::session::Outcome;
use crate::state::{
    after_extension_event, agent_finished, call_finished, call_lost, calls_lost, calls_of, context_lost,
    context_ready, disconnected, drained, excluded, included, outcome_arrived, publishing_changes_the_log_alone,
    registered, request_handled, session_started, setup_finished, setup_peers, without_context, without_contexts,
    State, Turn,
};

verus! {

broadcast use publishing_changes_the_log_alone;

/// Whether no prompt was made and none waits, no call waits, and it is the user's
/// turn or the session of the harness is being set up. Writes to the store succeed.
pub open spec fn starting_up(s: State) -> bool {
    &&& s.writes.len() == 0
    &&& s.prompt_sessions.len() == 0
    &&& s.pending_prompts.len() == 0
    &&& s.pending_calls.len() == 0
    &&& match s.turn {
        Turn::Idle => true,
        Turn::Initializing { session, waiting_on: _ } => session == s.current,
        _ => false,
    }
}

/// Whether it is the user's turn only where the session of the harness is set up.
pub open spec fn idle_once_set_up(s: State) -> bool {
    s.turn is Idle ==> s.initialized.contains(s.current)
}

/// Whether a step kept what holds while the harness starts: it goes on starting with
/// the same session, and it is not the user's turn without a set-up where it was not
/// before.
pub open spec fn start_goes_on(before: State, after: State) -> bool {
    &&& starting_up(before) ==> starting_up(after)
    &&& after.current == before.current
    &&& starting_up(before) && idle_once_set_up(before) ==> idle_once_set_up(after)
}

/// Whether two states agree in what matters while the harness starts.
spec fn alike(a: State, b: State) -> bool {
    &&& a.writes == b.writes
    &&& a.prompt_sessions == b.prompt_sessions
    &&& a.pending_prompts == b.pending_prompts
    &&& a.pending_calls == b.pending_calls
    &&& a.turn == b.turn
    &&& a.current == b.current
    &&& a.initialized == b.initialized
}

/// A harness is made with nothing under way.
pub proof fn fresh_harnesses_start(setup: HarnessSetup, extensions: Seq<Started>, agent: Seq<char>, names: Seq<Seq<char>>)
    ensures
        starting_up(announced(first_state(setup, extensions, agent), names)),
        announced(first_state(setup, extensions, agent), names).turn is Idle,
        announced(first_state(setup, extensions, agent), names).current == setup.session_id@,
{
    lemma_announced(first_state(setup, extensions, agent), names);
}

proof fn lemma_announced(s: State, names: Seq<Seq<char>>)
    ensures
        alike(s, announced(s, names)),
    decreases names.len(),
{
    if names.len() > 0 {
        lemma_announced(s, names.drop_last());
    }
}

proof fn lemma_without_contexts(s: State, sources: Seq<Seq<char>>)
    ensures
        alike(s, without_contexts(s, sources)),
    decreases sources.len(),
{
    if sources.len() > 0 {
        lemma_without_contexts(s, sources.drop_last());
    }
}

proof fn lemma_included(list: Seq<Seq<char>>, text: Seq<char>)
    ensures
        included(list, text).contains(text),
{
    if !list.contains(text) {
        assert(included(list, text)[list.len() as int] == text);
    }
}

proof fn lemma_setup_finished(s: State)
    requires
        s.writes.len() == 0,
        s.prompt_sessions.len() == 0,
        s.pending_prompts.len() == 0,
        s.pending_calls.len() == 0,
    ensures
        setup_finished(s, s.current).error is None,
        starting_up(setup_finished(s, s.current).state),
        idle_once_set_up(setup_finished(s, s.current).state),
        setup_finished(s, s.current).state.current == s.current,
{
    lemma_included(s.initialized, s.current);
}

/// Once the session was started, the harness is idle only where the session is set
/// up.
pub proof fn started_sessions_are_set_up(s: State, reason: SessionStartReason)
    requires
        starting_up(s),
    ensures
        start_goes_on(s, session_started(s, s.current, reason)),
        idle_once_set_up(session_started(s, s.current, reason)),
{
    if setup_peers(s.connections).len() == 0 {
        lemma_setup_finished(s);
    } else {
        lemma_without_contexts(s, setup_peers(s.connections));
    }
}

/// The end of the first wait begins the second: the harness is idle only where its
/// session is set up.
pub proof fn startups_set_the_session_up(s: State, found: bool, parse_error: Option<Seq<char>>)
    requires
        starting_up(s),
    ensures
        ({
            let ready = config_checked(
                State { registry: registered(s.registry, skill_tool()), ..s },
                found,
                parse_error,
            );
            let after = session_started(ready, s.current, SessionStartReason::Initial);
            start_goes_on(s, after) && idle_once_set_up(after)
        }),
{
    let ready = config_checked(State { registry: registered(s.registry, skill_tool()), ..s }, found, parse_error);
    assert(alike(s, ready));
    started_sessions_are_set_up(ready, SessionStartReason::Initial);
}

proof fn lemma_call_finished(s: State, call_id: Seq<char>)
    requires
        starting_up(s),
    ensures
        alike(s, call_finished(s, call_id)),
{
    reveal_with_fuel(drained, 1);
}

proof fn lemma_calls_lost(s: State, call_ids: Seq<Seq<char>>)
    requires
        starting_up(s),
    ensures
        alike(s, calls_lost(s, call_ids)),
    decreases call_ids.len(),
{
    if call_ids.len() > 0 {
        lemma_calls_lost(s, call_ids.drop_last());
        let before = calls_lost(s, call_ids.drop_last());
        lemma_call_lost(before, call_ids.last());
    }
}

proof fn lemma_call_lost(s: State, call_id: Seq<char>)
    requires
        starting_up(s),
    ensures
        alike(s, call_lost(s, call_id)),
{
    reveal_with_fuel(drained, 1);
}

proof fn lemma_context_ready(s: State, source: Seq<char>, session: Seq<char>)
    requires
        starting_up(s),
    ensures
        start_goes_on(s, context_ready(s, source, session).state),
{
    reveal(context_ready);
    if let Turn::Initializing { session: current, waiting_on } = s.turn {
        let left = excluded(waiting_on, source);
        let s1 = State { turn: Turn::Initializing { session: current, waiting_on: left }, ..s };
        lemma_setup_finished(s1);
    }
}

proof fn lemma_context_lost(s: State, source: Seq<char>)
    requires
        starting_up(s),
    ensures
        start_goes_on(s, context_lost(s, source)),
{
    if let Turn::Initializing { session, waiting_on } = s.turn {
        let left = excluded(waiting_on, source);
        let s1 = State { turn: Turn::Initializing { session, waiting_on: left }, ..s };
        lemma_setup_finished(s1);
    }
}

proof fn lemma_answer(s: State, r: AgentResponseFinished)
    requires
        starting_up(s),
    ensures
        alike(s, agent_finished(s, r).state),
{
    reveal(agent_finished);
    crate::assoc::lemma_lookup_stands(s.prompt_sessions, r.session_prompt_id@);
}

/// Whatever an extension sends while the harness starts, the start goes on.
pub proof fn extensions_let_the_start_go_on(s: State, source: Seq<char>, event: EventView)
    requires
        starting_up(s),
    ensures
        start_goes_on(s, after_extension_event(s, source, event).state),
{
    match event {
        EventView::Request { call_id, tool_name, arguments } => {
            reveal(request_handled);
        },
        EventView::Result { call_id, tool_name, result } => {
            lemma_outcome(s, source, event, call_id, tool_name, Outcome::Result(result));
        },
        EventView::Error { call_id, tool_name, message, details } => {
            lemma_outcome(s, source, event, call_id, tool_name, Outcome::Error { message, details });
        },
        EventView::Passed(e) => match e {
            Event::ExtensionContextReady { session_id } => {
                let s1 = crate::state::published(s, Some(source), event);
                lemma_context_ready(s1, source, session_id@);
            },
            Event::AgentResponseFinished(r) => {
                lemma_answer(s, r);
            },
            _ => {},
        },
        _ => {},
    }
}

proof fn lemma_outcome(
    s: State,
    source: Seq<char>,
    event: EventView,
    call_id: Seq<char>,
    tool_name: Seq<char>,
    outcome: Outcome,
)
    requires
        starting_up(s),
    ensures
        alike(s, outcome_arrived(s, source, event, call_id, tool_name, outcome).state),
{
    let s1 = crate::state::published(s, Some(source), event);
    let t = crate::state::outcome_kept(s1, call_id, tool_name, outcome);
    assert(alike(s, t.state));
    lemma_call_finished(t.state, call_id);
}

/// However a connection is lost while the harness starts, the start goes on.
pub proof fn losses_let_the_start_go_on(s: State, connection: Seq<char>)
    requires
        starting_up(s),
    ensures
        start_goes_on(s, disconnected(s, connection)),
{
    reveal(disconnected);
    let s0 = without_context(s, connection);
    lemma_context_lost(s0, connection);
    let s1 = context_lost(s0, connection);
    let ids = calls_of(s1.tool_providers, connection);
    lemma_calls_lost(s1, ids);
    assert(alike(calls_lost(s1, ids), disconnected(s, connection)));
}

/// Whatever arrives during the first wait, the start goes on.
pub proof fn arrivals_let_the_start_go_on(s: State, arrival: HarnessEvent, denied: Option<String>)
    requires
        starting_up(s),
    ensures
        start_goes_on(s, arrived_at_startup(s, arrival, denied).0),
{
    match arrival {
        HarnessEvent::FromConnection { connection_id, event } => {
            extensions_let_the_start_go_on(s, connection_id@, event@);
        },
        HarnessEvent::Disconnected { connection_id } => {
            losses_let_the_start_go_on(s, connection_id@);
        },
        _ => {},
    }
}

/// Whatever arrives during the second wait, the start goes on: so when it ends, which
/// it does once it is the user's turn, the session is set up, and no prompt waits.
pub proof fn starts_end_with_the_session_set_up(s: State, arrival: HarnessEvent, denied: Option<String>)
    requires
        starting_up(s),
        idle_once_set_up(s),
    ensures
        ({
            let after = arrived_at_init(s, arrival, denied).0;
            &&& start_goes_on(s, after)
            &&& after.turn is Idle ==> after.initialized.contains(after.current) && after.pending_prompts.len() == 0
        }),
{
    match arrival {
        HarnessEvent::Disconnected { connection_id } => {
            losses_let_the_start_go_on(s, connection_id@);
        },
        _ => {
            arrivals_let_the_start_go_on(s, arrival, denied);
        },
    }
}

} // verus!

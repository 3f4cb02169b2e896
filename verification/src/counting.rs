//! How far the counters of the harness move.
//!
//! Prompts and made-up ids of calls are numbered with 64 bits. What the harness does
//! is defined as long as these numbers do not run out. Here stands how many of them an
//! arrival can use, and a test that there are enough left.
use vstd::prelude::*;
use vstd::string::*;
use crate::assoc::{lookup, removed};
use crate::event::{AgentResponseFinished, AgentToolCall, Event, EventView, SessionStartReason};
use crate::handlers::{
    advancing_leaves_the_calls, can_restart, extension_heard, lemma_without_contexts, lost_context_leaves,
};
use crate::harness::Harness;
use crate::serve::{
    arrived, arrived_at_init, arrived_at_interaction, arrived_at_startup, HarnessEvent, ServeProgress,
};
use crate::session::{node_lines, option_text, tree_of, Entry, Outcome};
use crate::state::{
    advanced, after_client_event, agent_finished, all_noted, call_ids, calls_lost, calls_of, calls_queued, caught_up,
    context_lost, context_ready, counted, disconnected, done, draining_counts, effort_chosen, excluded, ext_ready,
    failed, failure, finishing_counts, included, info_replayed, model_chosen, navigated, normalized, outcome_arrived,
    outcome_kept, prompt_taken, published, request_handled, session_started, set_up, setup_peers, switched,
    tree_shown, usage_reported, with_ext_state, with_kept_entry, without_context, ExtensionState, State, Turn,
};

verus! {

broadcast use crate::state::publishing_changes_the_log_alone;

/// Whether a step used at most `n` numbers for prompts, and none for calls.
pub open spec fn prompts_at_most(before: State, after: State, n: int) -> bool {
    &&& before.next_prompt <= after.next_prompt <= before.next_prompt + n
    &&& after.next_synthetic == before.next_synthetic
}

/// Whether there are numbers left for one prompt per waiting call and `extra` more.
pub open spec fn has_room(s: State, extra: int) -> bool {
    s.next_prompt + s.pending_calls.len() + extra <= u64::MAX
}

/// Whether there are numbers left for what an event may start.
pub open spec fn has_room_for_event(s: State, event: Event) -> bool {
    match event {
        Event::AgentResponseFinished(r) => has_room(s, 1 + r.tool_calls@.len() as int) && s.next_synthetic
            + r.tool_calls@.len() <= u64::MAX,
        _ => has_room(s, 1),
    }
}

/// Whether there are numbers left for what an arrival may start.
pub open spec fn has_room_for(s: State, arrival: HarnessEvent) -> bool {
    match arrival {
        HarnessEvent::FromConnection { connection_id, event } => has_room_for_event(s, event),
        HarnessEvent::Disconnected { connection_id } => has_room(s, 1 + s.tool_providers.len() as int) && can_restart(s),
        HarnessEvent::NewClient { connection_id } => true,
    }
}

/// The start of a session makes the harness prompt the agent at most once.
pub proof fn starts_count(s: State, session: Seq<char>, reason: SessionStartReason)
    ensures
        prompts_at_most(s, session_started(s, session, reason), 1),
{
    advancing_leaves_the_calls(set_up(s, session).state);
    lemma_without_contexts(s, setup_peers(s.connections));
}

proof fn lemma_context_ready(s: State, source: Seq<char>, session: Seq<char>)
    ensures
        prompts_at_most(s, context_ready(s, source, session).state, 1),
{
    reveal(context_ready);
    match s.turn {
        Turn::Initializing { session: current, waiting_on } => {
            let left = excluded(waiting_on, source);
            let s1 = State { turn: Turn::Initializing { session: current, waiting_on: left }, ..s };
            advancing_leaves_the_calls(set_up(s1, session).state);
        },
        _ => {},
    }
}

proof fn lemma_normalized(s: State, session: Seq<char>, calls: Seq<AgentToolCall>, n: nat)
    requires
        n <= calls.len(),
    ensures
        normalized(s, session, calls, n).0.len() == n,
        s.next_synthetic <= normalized(s, session, calls, n).1 <= s.next_synthetic + n,
    decreases n,
{
    if n > 0 {
        lemma_normalized(s, session, calls, (n - 1) as nat);
    }
}

proof fn lemma_queued(s: State, session: Seq<char>, calls: Seq<AgentToolCall>)
    ensures
        calls_queued(s, session, calls).state.next_prompt <= s.next_prompt + s.pending_calls.len() + calls.len(),
        calls_queued(s, session, calls).state.next_synthetic <= s.next_synthetic + calls.len(),
{
    lemma_normalized(s, session, calls, calls.len());
    let (queue, next) = normalized(s, session, calls, calls.len());
    draining_counts(
        State {
            next_synthetic: next,
            turn: Turn::Running { session, remaining: call_ids(queue) },
            pending_calls: s.pending_calls + queue,
            ..s
        },
    );
}

/// An answer of the agent uses at most one number for a prompt per call, waiting or
/// asked for, and one more, and one for the id of each call that it asks for.
pub proof fn answers_count(s: State, r: AgentResponseFinished)
    ensures
        agent_finished(s, r).state.next_prompt <= s.next_prompt + s.pending_calls.len() + r.tool_calls@.len() + 1,
        agent_finished(s, r).state.next_synthetic <= s.next_synthetic + r.tool_calls@.len(),
{
    reveal(agent_finished);
    let s1 = if r.input_tokens is Some || r.cached_tokens is Some {
        usage_reported(s, r.input_tokens, r.cached_tokens)
    } else {
        s
    };
    match lookup(s1.prompt_sessions, r.session_prompt_id@) {
        Some(session) => {
            let s2 = published(s1, None, Event::AgentResponseFinished(r)@);
            let s3 = State {
                prompt_sessions: removed(s2.prompt_sessions, r.session_prompt_id@),
                completed: included(s2.completed, r.session_prompt_id@),
                ..s2
            };
            let t = match r.text {
                Some(text) => with_kept_entry(
                    s3,
                    session,
                    Entry::Agent { text: text@, thinking: option_text(r.thinking) },
                ),
                None => done(s3),
            };
            lemma_queued(t.state, session, r.tool_calls@);
            advancing_leaves_the_calls(State { turn: Turn::Idle, ..t.state });
        },
        None => {},
    }
}

proof fn lemma_outcome(s: State, source: Seq<char>, event: EventView, call_id: Seq<char>, tool_name: Seq<char>, outcome:
    Outcome)
    ensures
        ({
            let after = outcome_arrived(s, source, event, call_id, tool_name, outcome).state;
            prompts_at_most(s, after, s.pending_calls.len() as int + 1)
        }),
{
    let t = outcome_kept(published(s, Some(source), event), call_id, tool_name, outcome);
    finishing_counts(t.state, call_id);
}

/// Where there is room for an event, no counter runs out when an extension sends it.
pub proof fn extensions_count(s: State, source: Seq<char>, event: Event, denied: Option<String>)
    requires
        counted(s),
        has_room_for_event(s, event),
    ensures
        counted(extension_heard(s, source, event, denied).0),
{
    match event@ {
        EventView::Request { call_id, tool_name, arguments } => {
            reveal(request_handled);
        },
        EventView::Result { call_id, tool_name, result } => {
            lemma_outcome(s, source, event@, call_id, tool_name, Outcome::Result(result));
        },
        EventView::Error { call_id, tool_name, message, details } => {
            lemma_outcome(s, source, event@, call_id, tool_name, Outcome::Error { message, details });
        },
        EventView::Passed(e) => match e {
            Event::LifecycleReady { message: _ } => {
                advancing_leaves_the_calls(
                    with_ext_state(
                        published(ext_ready(s, source), Some(source), event@),
                        source,
                        ExtensionState::Ready,
                    ),
                );
            },
            Event::ExtensionContextReady { session_id } => {
                lemma_context_ready(published(s, Some(source), event@), source, session_id@);
            },
            Event::AgentResponseFinished(r) => {
                answers_count(s, r);
            },
            _ => {},
        },
        _ => {},
    }
}

proof fn lemma_noted(s: State, messages: Seq<Seq<char>>)
    ensures
        prompts_at_most(s, all_noted(s, messages), 0),
    decreases messages.len(),
{
    if messages.len() > 0 {
        lemma_noted(s, messages.drop_last());
    }
}

proof fn lemma_model_chosen(s: State, model: Seq<char>)
    ensures
        prompts_at_most(s, model_chosen(s, model), 1),
{
    reveal(model_chosen);
    assert forall|after: State| #![trigger advanced(after)] prompts_at_most(after, advanced(after), 1) by {
        advancing_leaves_the_calls(after);
    }
}

proof fn lemma_switched(s: State, session: Seq<char>, reason: SessionStartReason)
    ensures
        prompts_at_most(s, switched(s, session, reason).state, 1),
{
    reveal(switched);
    assert forall|after: State| #![trigger session_started(after, session, reason)] prompts_at_most(
        after,
        session_started(after, session, reason),
        1,
    ) by {
        starts_count(after, session, reason);
    }
}

proof fn lemma_tree_shown(s: State, session: Seq<char>)
    ensures
        prompts_at_most(s, tree_shown(s, session), 0),
{
    reveal(tree_shown);
    lemma_noted(s, node_lines(tree_of(s.sessions, session)));
}

proof fn lemma_prompt_taken(s: State, session: Seq<char>, text: Seq<char>)
    ensures
        prompts_at_most(s, prompt_taken(s, session, text).state, 1),
{
    advancing_leaves_the_calls(State { pending_prompts: s.pending_prompts.push((session, text)), ..s });
}

/// A client that sends an event makes the harness prompt the agent at most once.
pub proof fn clients_count(s: State, client: Seq<char>, event: EventView, denied: Option<Seq<char>>)
    ensures
        prompts_at_most(s, after_client_event(s, client, event, denied).state, 1),
{
    match event {
        EventView::PromptSubmitted { session_id, text } => {
            lemma_prompt_taken(s, session_id, text);
        },
        EventView::Passed(e) => match e {
            Event::UiModelSelect { model } => {
                lemma_model_chosen(s, model@);
            },
            Event::UiSwitchSession { new_session_id, reason } => {
                lemma_switched(published(s, Some(client), event), new_session_id@, reason);
            },
            Event::UiTreeRequest { session_id } => {
                lemma_tree_shown(published(s, Some(client), event), session_id@);
            },
            Event::LifecycleSubscribe(_) => {
                reveal(caught_up);
                reveal(info_replayed);
            },
            Event::UiSetEffort { level: _ } => {
                reveal(effort_chosen);
            },
            Event::UiNavigateTree { session_id: _, node_id: _ } => {
                reveal(navigated);
            },
            _ => {},
        },
        _ => {},
    }
}

proof fn lemma_calls_lost(s: State, call_ids: Seq<Seq<char>>)
    ensures
        ({
            let after = calls_lost(s, call_ids);
            &&& after.next_prompt + after.pending_calls.len() <= s.next_prompt + s.pending_calls.len() + call_ids.len()
            &&& after.next_synthetic == s.next_synthetic
        }),
    decreases call_ids.len(),
{
    if call_ids.len() > 0 {
        lemma_calls_lost(s, call_ids.drop_last());
        let before = calls_lost(s, call_ids.drop_last());
        let call_id = call_ids.last();
        let tool_name = match lookup(before.tool_names, call_id) {
            Some(name) => name,
            None => "unknown_tool"@,
        };
        let s1 = State {
            tool_names: removed(before.tool_names, call_id),
            tool_providers: removed(before.tool_providers, call_id),
            ..before
        };
        let s2 = if lookup(s1.tool_sessions, call_id) is Some {
            outcome_kept(s1, call_id, tool_name, failed("tool provider disconnected"@)).state
        } else {
            s1
        };
        finishing_counts(published(s2, None, failure(call_id, tool_name, "tool provider disconnected"@)), call_id);
    }
}

proof fn lemma_calls_of(providers: Seq<(Seq<char>, Seq<char>)>, connection: Seq<char>)
    ensures
        calls_of(providers, connection).len() <= providers.len(),
    decreases providers.len(),
{
    if providers.len() > 0 {
        lemma_calls_of(providers.drop_last(), connection);
    }
}

/// The loss of a connection uses at most one number for a prompt per call, waiting or
/// on its way, and one more.
pub proof fn losses_count(s: State, connection: Seq<char>)
    ensures
        disconnected(s, connection).next_prompt <= s.next_prompt + s.pending_calls.len() + s.tool_providers.len() + 1,
        disconnected(s, connection).next_synthetic == s.next_synthetic,
{
    reveal(disconnected);
    let s1 = context_lost(without_context(s, connection), connection);
    lost_context_leaves(without_context(s, connection), connection);
    lemma_calls_of(s1.tool_providers, connection);
    lemma_calls_lost(s1, calls_of(s1.tool_providers, connection));
}

/// Where there is room for an arrival, no counter runs out, whatever the harness is
/// waiting for.
pub proof fn room_is_enough(s: State, progress: ServeProgress, arrival: HarnessEvent, denied: Option<String>)
    requires
        counted(s),
        has_room_for(s, arrival),
    ensures
        counted(arrived(s, progress, arrival, denied).0),
        counted(arrived_at_startup(s, arrival, denied).0),
        counted(arrived_at_init(s, arrival, denied).0),
        counted(arrived_at_interaction(s, arrival, denied).0),
{
    match arrival {
        HarnessEvent::FromConnection { connection_id, event } => {
            extensions_count(s, connection_id@, event, denied);
            clients_count(s, connection_id@, event@, option_text(denied));
        },
        HarnessEvent::Disconnected { connection_id } => {
            losses_count(s, connection_id@);
        },
        HarnessEvent::NewClient { connection_id } => {},
    }
}

impl Harness {
    fn leaves_room(&self, extra: u128) -> (r: bool)
        requires
            extra <= 0x2_0000_0000_0000_0000,
        ensures
            r == has_room(self@, extra as int),
    {
        assert(self@.pending_calls.len() == self.pending_tool_invocations@.len());
        self.next_session_prompt_id as u128 + self.pending_tool_invocations.len() as u128 + extra <= u64::MAX as u128
    }

    /// Whether there are numbers left for what an arrival may start.
    pub fn has_room_for(&self, arrival: &HarnessEvent) -> (r: bool)
        ensures
            r == has_room_for(self@, *arrival),
    {
        match arrival {
            HarnessEvent::FromConnection { connection_id: _, event } => match event {
                Event::AgentResponseFinished(response) => {
                    let calls = response.tool_calls.len() as u128;
                    self.leaves_room(1 + calls) && self.next_synthetic_call_id as u128 + calls <= u64::MAX as u128
                },
                _ => self.leaves_room(1),
            },
            HarnessEvent::Disconnected { connection_id: _ } => {
                assert(self@.tool_providers.len() == self.pending_tool_providers.entries@.len());
                self.leaves_room(1 + self.pending_tool_providers.entries.len() as u128) && self.can_restart_all()
            },
            HarnessEvent::NewClient { connection_id: _ } => true,
        }
    }

    fn can_restart_all(&self) -> (r: bool)
        ensures
            r == can_restart(self@),
    {
        let mut i: usize = 0;
        while i < self.extensions.len()
            invariant
                i <= self.extensions.len(),
                forall|k: int| 0 <= k < i ==> (#[trigger] self@.extensions[k]).restart_attempt < u32::MAX,
            decreases self.extensions.len() - i,
        {
            assert(self@.extensions[i as int] == self.extensions@[i as int]@);
            if self.extensions[i].restart_attempt == u32::MAX {
                return false;
            }
            i += 1;
        }
        assert(self@.extensions.len() == self.extensions@.len());
        true
    }
}

} // verus!

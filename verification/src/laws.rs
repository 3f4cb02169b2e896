//! What holds of the harness whatever happens.
//!
//! Every event leads from one state to another that follows it: the log and the
//! histories of sessions only grow, a prompt that was answered is never answered
//! again, and a tool call that changes something runs alone.
use vstd::prelude::*;
use crate::assoc::{lookup, lookup_after_removed, lookup_after_stored, removed, stored};
use crate::cbor::Cbor;
use crate::closing::{ended, hung_up, shut_down, ThreadEnd};
use crate::event::{
    selectors_view, AgentResponseFinished, AgentToolCall, Effort, Event, EventView, Selector, SessionStartReason,
    ToolSideEffects,
};
use crate::session::{
    branch_after_append, conversation_extends, node_lines, tree_of, with_entry, ConversationRole, Entry, Outcome,
    Tree,
};
use crate::state::{
    acked, advanced, after_client_event, after_extension_event, agent_finished, all_noted, all_ready,
    beginning_a_call_leaves_the_queue, call_begun, call_crossed_off, call_finished, call_id_of, call_lost,
    call_refused, calls_lost, calls_of, calls_queued, caught_up, context_lost, context_ready, disconnected,
    dispatched, drained, dispatch_reported, done, draining_reported, effort_chosen, excluded, ext_at, ext_exited,
    ext_ready, failed, failure, front_dispatched, info_replayed, kept_replays, log_replays, may_go, model_chosen,
    mutating_in_flight, navigated, normalized, noted, offered, outcome_arrived, outcome_kept, peer_at, peers_without,
    prompt_for, prompted, published, published_as, publishing_changes_the_log_alone, remembered, request_handled,
    request_kept, respawn_asked, sent, session_started, set_up, setup_asked, setup_finished, setup_peers,
    setup_reported, skill_called, skill_content, store_trouble, skill_failed, skill_loaded, submission, submitted,
    subscribed, switched, tool_at, tool_called, tree_shown, unregistered, usage_reported, with_ext_state,
    with_kept_entry, with_lifecycle, without_context, without_contexts, write_tried, Call, EffectView, Ext,
    ExtensionState, Peer, Registered, State, Tried, Turn,
};
use crate::text::{decimal, numerals_differ};

verus! {

broadcast use {publishing_changes_the_log_alone, beginning_a_call_leaves_the_queue};

// ---------------------------------------------------------------------------
// What it means to follow
// ---------------------------------------------------------------------------

/// Whether a list grew at its end alone.
pub open spec fn grown<A>(before: Seq<A>, after: Seq<A>) -> bool {
    before.len() <= after.len() && after.take(before.len() as int) == before
}

/// Whether no entry was taken out of the history of any session.
pub open spec fn histories_grown(before: Seq<(Seq<char>, Tree)>, after: Seq<(Seq<char>, Tree)>) -> bool {
    forall|id: Seq<char>| grown(tree_of(before, id).nodes, (#[trigger] tree_of(after, id)).nodes)
}

/// The id of the prompt with this number.
pub open spec fn prompt_id(n: int) -> Seq<char> {
    "sp-"@ + decimal(n as nat)
}

/// Whether no prompt from this number on will have the id.
pub open spec fn is_past(id: Seq<char>, next_prompt: int) -> bool {
    forall|n: int| n >= next_prompt ==> id != #[trigger] prompt_id(n)
}

/// Whether every past prompt that was forgotten is forgotten still.
pub open spec fn stay_forgotten(before: State, after: State) -> bool {
    forall|id: Seq<char>|
        is_past(id, before.next_prompt) && lookup(before.prompt_sessions, id) is None ==> #[trigger] lookup(
            after.prompt_sessions,
            id,
        ) is None
}

/// Whether a call that changes something is on its way alone.
pub open spec fn runs_alone(in_flight: Seq<(Seq<char>, ToolSideEffects)>) -> bool {
    mutating_in_flight(in_flight) ==> in_flight.len() == 1
}

/// Whether a state can come after another.
#[verifier::opaque]
pub open spec fn follows(before: State, after: State) -> bool {
    &&& grown(before.log, after.log)
    &&& grown(before.kept, after.kept)
    &&& grown(before.effects, after.effects)
    &&& histories_grown(before.sessions, after.sessions)
    &&& before.next_prompt <= after.next_prompt
    &&& stay_forgotten(before, after)
    &&& runs_alone(before.in_flight) ==> runs_alone(after.in_flight)
}

/// Whether two states agree in all that following speaks of.
pub open spec fn same_record(a: State, b: State) -> bool {
    &&& a.log == b.log
    &&& a.kept == b.kept
    &&& a.effects == b.effects
    &&& a.sessions == b.sessions
    &&& a.next_prompt == b.next_prompt
    &&& a.prompt_sessions == b.prompt_sessions
    &&& a.in_flight == b.in_flight
}

proof fn lemma_grown_trans<A>(a: Seq<A>, b: Seq<A>, c: Seq<A>)
    requires
        grown(a, b),
        grown(b, c),
    ensures
        grown(a, c),
{
    assert(c.take(a.len() as int) =~= b.take(a.len() as int));
}

proof fn lemma_grown_push<A>(a: Seq<A>, x: A)
    ensures
        grown(a, a),
        grown(a, a.push(x)),
{
    assert(a.take(a.len() as int) =~= a);
    assert(a.push(x).take(a.len() as int) =~= a);
}

/// What follows a state that follows another follows that one too.
pub broadcast proof fn follows_further(a: State, b: State, c: State)
    requires
        #[trigger] follows(a, b),
        #[trigger] follows(b, c),
    ensures
        follows(a, c),
{
    reveal(follows);
    lemma_grown_trans(a.log, b.log, c.log);
    lemma_grown_trans(a.kept, b.kept, c.kept);
    lemma_grown_trans(a.effects, b.effects, c.effects);
    assert forall|id: Seq<char>| grown(tree_of(a.sessions, id).nodes, (#[trigger] tree_of(c.sessions, id)).nodes) by {
        assert(grown(tree_of(a.sessions, id).nodes, tree_of(b.sessions, id).nodes));
        lemma_grown_trans(tree_of(a.sessions, id).nodes, tree_of(b.sessions, id).nodes, tree_of(c.sessions, id).nodes);
    }
    assert forall|id: Seq<char>|
        is_past(id, a.next_prompt) && lookup(a.prompt_sessions, id) is None implies #[trigger] lookup(
        c.prompt_sessions,
        id,
    ) is None by {
        assert(lookup(b.prompt_sessions, id) is None);
        assert(is_past(id, b.next_prompt));
    }
}

proof fn lemma_same(a: State, b: State)
    requires
        same_record(a, b),
    ensures
        follows(a, b),
{
    reveal(follows);
    assert(a.log.take(a.log.len() as int) =~= a.log);
    assert(a.kept.take(a.kept.len() as int) =~= a.kept);
    assert(a.effects.take(a.effects.len() as int) =~= a.effects);
    assert forall|id: Seq<char>| grown(tree_of(a.sessions, id).nodes, (#[trigger] tree_of(b.sessions, id)).nodes) by {
        let nodes = tree_of(a.sessions, id).nodes;
        assert(nodes.take(nodes.len() as int) =~= nodes);
    }
}

proof fn lemma_effects(s: State, more: Seq<EffectView>)
    ensures
        follows(s, State { effects: s.effects + more, ..s }),
{
    let t = State { effects: s.effects + more, ..s };
    lemma_same(s, State { effects: s.effects, ..s });
    reveal(follows);
    assert((s.effects + more).take(s.effects.len() as int) =~= s.effects);
}

proof fn lemma_one_effect(s: State, effect: EffectView)
    ensures
        follows(s, State { effects: s.effects.push(effect), ..s }),
{
    lemma_effects(s, seq![effect]);
    assert(s.effects + seq![effect] =~= s.effects.push(effect));
}

broadcast proof fn lemma_published(s: State, source: Option<Seq<char>>, event: EventView, transient: bool)
    ensures
        follows(s, #[trigger] published_as(s, source, event, transient)),
{
    lemma_same(s, s);
    reveal(follows);
    reveal(published_as);
    let after = published_as(s, source, event, transient);
    lemma_grown_push(s.log, after.log.last());
    lemma_grown_push(s.effects, after.effects.last());
    lemma_grown_push(s.kept, after.kept.last());
}

broadcast proof fn lemma_sent(s: State, to: Seq<char>, event: EventView)
    ensures
        follows(s, #[trigger] sent(s, to, event)),
{
    lemma_one_effect(s, EffectView::Send { to, event });
}

proof fn lemma_write_tried(s: State)
    ensures
        follows(s, write_tried(s).state),
        same_record(s, write_tried(s).state),
        write_tried(s).state == (State { writes: write_tried(s).state.writes, ..s }),
{
    lemma_same(s, write_tried(s).state);
}

broadcast proof fn lemma_kept_entry(s: State, session: Seq<char>, entry: Entry)
    ensures
        follows(s, (#[trigger] with_kept_entry(s, session, entry)).state),
{
    lemma_write_tried(s);
    lemma_same(s, s);
    let after = with_kept_entry(s, session, entry).state;
    if write_tried(s).error is None {
        reveal(follows);
        let node = tree_of(s.sessions, session).nodes.len() as int;
        lemma_grown_push(s.effects, EffectView::KeepEntry { session, node });
        assert forall|id: Seq<char>|
            grown(tree_of(s.sessions, id).nodes, (#[trigger] tree_of(after.sessions, id)).nodes) by {
            let tree = tree_of(s.sessions, session);
            lookup_after_stored(s.sessions, session, tree.appended(entry), id);
            lemma_grown_push(tree_of(s.sessions, id).nodes, tree.appended(entry).nodes.last());
        }
    }
}

proof fn lemma_flight_stored(list: Seq<(Seq<char>, ToolSideEffects)>, id: Seq<char>, kind: ToolSideEffects)
    requires
        may_go(list, kind),
    ensures
        runs_alone(stored(list, id, kind)),
    decreases list.len(),
{
    reveal_with_fuel(stored, 2);
    let after = stored(list, id, kind);
    if list.len() == 0 {
    } else {
        assert(kind == ToolSideEffects::Pure);
        lemma_pure_stored(list, id);
    }
}

proof fn lemma_pure_stored(list: Seq<(Seq<char>, ToolSideEffects)>, id: Seq<char>)
    requires
        !mutating_in_flight(list),
    ensures
        !mutating_in_flight(stored(list, id, ToolSideEffects::Pure)),
    decreases list.len(),
{
    reveal_with_fuel(stored, 2);
    let after = stored(list, id, ToolSideEffects::Pure);
    if list.len() > 0 {
        let rest = list.drop_first();
        assert forall|i: int| 0 <= i < rest.len() implies (#[trigger] rest[i]).1 != ToolSideEffects::Mutating by {
            assert(list[i + 1].1 != ToolSideEffects::Mutating);
        }
        lemma_pure_stored(rest, id);
        assert forall|i: int| 0 <= i < after.len() implies (#[trigger] after[i]).1 != ToolSideEffects::Mutating by {
            if list[0].0 == id {
                if i > 0 {
                    assert(after[i] == rest[i - 1]);
                }
            } else if i == 0 {
                assert(after[i] == list[0]);
            } else {
                assert(after[i] == stored(rest, id, ToolSideEffects::Pure)[i - 1]);
            }
        }
    }
}

proof fn lemma_flight_removed(list: Seq<(Seq<char>, ToolSideEffects)>, id: Seq<char>)
    ensures
        mutating_in_flight(removed(list, id)) ==> mutating_in_flight(list),
        removed(list, id).len() <= list.len(),
    decreases list.len(),
{
    reveal_with_fuel(removed, 2);
    if list.len() > 0 {
        let init = list.drop_last();
        lemma_flight_removed(init, id);
        let after = removed(list, id);
        if mutating_in_flight(after) {
            let i = choose|i: int| 0 <= i < after.len() && (#[trigger] after[i]).1 == ToolSideEffects::Mutating;
            if list.last().0 != id && i == after.len() - 1 {
                assert(list[list.len() - 1].1 == ToolSideEffects::Mutating);
            } else {
                assert(removed(init, id)[i].1 == ToolSideEffects::Mutating);
                assert(mutating_in_flight(init));
                let k = choose|k: int| 0 <= k < init.len() && (#[trigger] init[k]).1 == ToolSideEffects::Mutating;
                assert(list[k].1 == ToolSideEffects::Mutating);
            }
        }
    }
}

proof fn lemma_landed(s: State, id: Seq<char>)
    ensures
        follows(s, State { in_flight: removed(s.in_flight, id), ..s }),
{
    let after = State { in_flight: removed(s.in_flight, id), ..s };
    lemma_same(s, s);
    lemma_flight_removed(s.in_flight, id);
    reveal(follows);
    if mutating_in_flight(after.in_flight) {
        let l = after.in_flight;
        let i = choose|i: int| 0 <= i < l.len() && (#[trigger] l[i]).1 == ToolSideEffects::Mutating;
        assert(l.len() > 0);
    }
}

// ---------------------------------------------------------------------------
// Prompts
// ---------------------------------------------------------------------------

broadcast proof fn lemma_prompted(s: State, session: Seq<char>)
    ensures
        follows(s, #[trigger] prompted(s, session)),
{
    let p = prompt_for(s, session);
    reveal(prompt_for);
    assert(p.session_prompt_id == prompt_id(s.next_prompt));
    let s1 = State {
        prompt_sessions: stored(s.prompt_sessions, p.session_prompt_id, session),
        next_prompt: s.next_prompt + 1,
        ..s
    };
    assert(follows(s, s1)) by {
        lemma_same(s, s);
        reveal(follows);
        assert forall|id: Seq<char>|
            is_past(id, s.next_prompt) && lookup(s.prompt_sessions, id) is None implies #[trigger] lookup(
            s1.prompt_sessions,
            id,
        ) is None by {
            lookup_after_stored(s.prompt_sessions, p.session_prompt_id, session, id);
            assert(id != prompt_id(s.next_prompt));
        }
    }
    lemma_published(s1, None, EventView::PromptCreated(p), false);
    follows_further(s, s1, prompted(s, session));
}

broadcast proof fn lemma_dispatched(s: State, session: Seq<char>, text: Seq<char>)
    ensures
        follows(s, (#[trigger] dispatched(s, session, text)).state),
{
    broadcast use {follows_further, lemma_published, lemma_kept_entry, lemma_prompted};

    let s1 = published(s, None, EventView::PromptSubmitted { session_id: session, text });
    let s2 = with_kept_entry(s1, session, Entry::User(text)).state;
    let s3 = State { turn: Turn::Thinking { session }, ..s2 };
    lemma_same(s2, s3);
    assert(follows(s, s1));
    assert(follows(s, s2));
    assert(follows(s, s3));
    assert(follows(s3, prompted(s3, session)));
}

proof fn lemma_set_up(s: State, session: Seq<char>)
    ensures
        follows(s, set_up(s, session).state),
{
    broadcast use {follows_further, lemma_kept_entry};

    let t = if s.files.len() == 0 {
        done(s)
    } else {
        with_kept_entry(s, session, Entry::User(crate::prompt::agents_message(s.files)))
    };
    lemma_same(s, s);
    assert(follows(s, t.state));
    if t.error is None {
        lemma_same(t.state, set_up(s, session).state);
    }
}

proof fn lemma_setup_reported(t: Tried)
    ensures
        follows(t.state, setup_reported(t)),
{
    lemma_same(t.state, t.state);
    if let Some(error) = t.error {
        let s1 = noted(t.state, "failed to initialize session: "@ + store_trouble(error));
        lemma_noted(t.state, "failed to initialize session: "@ + store_trouble(error));
        lemma_same(s1, setup_reported(t));
        follows_further(t.state, s1, setup_reported(t));
    }
}

proof fn lemma_dispatch_reported(t: Tried)
    ensures
        follows(t.state, dispatch_reported(t)),
{
    lemma_same(t.state, t.state);
    if let Some(error) = t.error {
        let s1 = noted(t.state, "failed to dispatch queued prompt: "@ + store_trouble(error));
        lemma_noted(t.state, "failed to dispatch queued prompt: "@ + store_trouble(error));
        lemma_same(s1, dispatch_reported(t));
        follows_further(t.state, s1, dispatch_reported(t));
    }
}

proof fn lemma_draining_reported(t: Tried)
    ensures
        follows(t.state, draining_reported(t)),
        draining_reported(t) == (State {
            log: draining_reported(t).log,
            kept: draining_reported(t).kept,
            effects: draining_reported(t).effects,
            ..t.state
        }),
{
    lemma_same(t.state, t.state);
    if let Some(error) = t.error {
        lemma_noted(t.state, "queued tool dispatch failed: "@ + store_trouble(error));
    }
}

proof fn lemma_noted(s: State, message: Seq<char>)
    ensures
        follows(s, noted(s, message)),
{
    let event = EventView::Info { message, level: crate::event::HarnessInfoLevel::Normal };
    lemma_published(s, Some("harness"@), event, crate::event::is_transient_event(event));
}

proof fn lemma_without_contexts(s: State, sources: Seq<Seq<char>>)
    ensures
        same_record(s, without_contexts(s, sources)),
        without_contexts(s, sources).turn == s.turn,
    decreases sources.len(),
{
    if sources.len() > 0 {
        lemma_without_contexts(s, sources.drop_last());
    }
}

proof fn lemma_setup_asked(s: State, session: Seq<char>, reason: SessionStartReason)
    ensures
        follows(s, setup_asked(s, session, reason)),
{
    broadcast use {follows_further, lemma_published};

    let waiting_on = setup_peers(s.connections);
    let s1 = without_contexts(s, waiting_on);
    lemma_without_contexts(s, waiting_on);
    let s2 = State { turn: Turn::Initializing { session, waiting_on }, ..s1 };
    lemma_same(s, s2);
    assert(follows(s2, setup_asked(s, session, reason)));
}

proof fn lemma_front_dispatched(s: State)
    ensures
        follows(s, front_dispatched(s)),
{
    broadcast use {follows_further, lemma_dispatched};

    lemma_same(s, s);
    let s1 = State { pending_prompts: s.pending_prompts.drop_first(), ..s };
    lemma_same(s, s1);
    let t = dispatched(s1, s.pending_prompts[0].0, s.pending_prompts[0].1);
    assert(follows(s1, t.state));
    lemma_dispatch_reported(t);
    assert(follows(s, dispatch_reported(t)));
}

broadcast proof fn lemma_advanced(s: State)
    ensures
        follows(s, #[trigger] advanced(s)),
{
    broadcast use follows_further;

    lemma_same(s, s);
    let session = s.pending_prompts[0].0;
    let t = set_up(s, session);
    lemma_front_dispatched(s);
    lemma_set_up(s, session);
    lemma_setup_reported(t);
    lemma_front_dispatched(t.state);
    lemma_setup_asked(s, session, SessionStartReason::Initial);
    follows_further(s, t.state, front_dispatched(t.state));
    follows_further(s, t.state, setup_reported(t));
}

proof fn lemma_setup_finished(s: State, session: Seq<char>)
    ensures
        follows(s, setup_finished(s, session).state),
{
    let t = set_up(s, session);
    lemma_set_up(s, session);
    lemma_advanced(t.state);
    follows_further(s, t.state, advanced(t.state));
}

proof fn lemma_setup_ended(s: State, session: Seq<char>)
    ensures
        follows(s, setup_reported(setup_finished(s, session))),
{
    let t = setup_finished(s, session);
    lemma_setup_finished(s, session);
    lemma_setup_reported(t);
    follows_further(s, t.state, setup_reported(t));
}

proof fn lemma_session_started(s: State, session: Seq<char>, reason: SessionStartReason)
    ensures
        follows(s, session_started(s, session, reason)),
{
    lemma_setup_ended(s, session);
    lemma_setup_asked(s, session, reason);
}

proof fn lemma_context_ready(s: State, source: Seq<char>, session: Seq<char>)
    ensures
        follows(s, context_ready(s, source, session).state),
{
    reveal(context_ready);
    lemma_same(s, s);
    if let Turn::Initializing { session: current, waiting_on } = s.turn {
        let left = excluded(waiting_on, source);
        let s1 = State { turn: Turn::Initializing { session: current, waiting_on: left }, ..s };
        lemma_same(s, s1);
        lemma_setup_finished(s1, session);
        follows_further(s, s1, setup_finished(s1, session).state);
    }
}

proof fn lemma_context_lost(s: State, source: Seq<char>)
    ensures
        follows(s, context_lost(s, source)),
{
    lemma_same(s, s);
    if let Turn::Initializing { session, waiting_on } = s.turn {
        let left = excluded(waiting_on, source);
        let s1 = State { turn: Turn::Initializing { session, waiting_on: left }, ..s };
        lemma_same(s, s1);
        lemma_setup_ended(s1, session);
        follows_further(s, s1, setup_reported(setup_finished(s1, session)));
    }
}

// ---------------------------------------------------------------------------
// Tool calls
// ---------------------------------------------------------------------------

broadcast proof fn lemma_outcome_kept(s: State, call_id: Seq<char>, tool_name: Seq<char>, outcome: Outcome)
    ensures
        follows(s, (#[trigger] outcome_kept(s, call_id, tool_name, outcome)).state),
{
    let s1 = State {
        tool_sessions: removed(s.tool_sessions, call_id),
        tool_names: removed(s.tool_names, call_id),
        tool_providers: removed(s.tool_providers, call_id),
        ..s
    };
    lemma_same(s, s1);
    let entry = Entry::Tool { call_id, tool_name, outcome };
    lemma_kept_entry(s1, crate::state::call_session(s, call_id), entry);
    follows_further(s, s1, outcome_kept(s, call_id, tool_name, outcome).state);
}

broadcast proof fn lemma_call_crossed_off(s: State, call_id: Seq<char>)
    ensures
        follows(s, #[trigger] call_crossed_off(s, call_id)),
{
    lemma_same(s, s);
    if let Turn::Running { session, remaining } = s.turn {
        let left = excluded(remaining, call_id);
        let s1 = State { turn: Turn::Thinking { session }, ..s };
        lemma_same(s, s1);
        lemma_prompted(s1, session);
        follows_further(s, s1, prompted(s1, session));
        lemma_same(s, State { turn: Turn::Running { session, remaining: left }, ..s });
    }
}

proof fn lemma_call_refused(s: State, call: Call, message: Seq<char>)
    ensures
        follows(s, call_refused(s, call, message).state),
{
    broadcast use {follows_further, lemma_published, lemma_kept_entry, lemma_outcome_kept};

    let s1 = with_kept_entry(
        s,
        call.session,
        Entry::Tool { call_id: call.id, tool_name: "invalid_tool"@, outcome: Outcome::Requested(call.arguments) },
    ).state;
    let s2 = State { tool_sessions: stored(s1.tool_sessions, call.id, call.session), ..s1 };
    lemma_same(s1, s2);
    let s3 = outcome_kept(s2, call.id, "invalid_tool"@, failed(message)).state;
    assert(follows(s, s2));
    assert(follows(s2, s3));
    assert(follows(s, s3));
    assert(follows(s3, published(s3, None, failure(call.id, "invalid_tool"@, message))));
}

proof fn lemma_skill_called(s: State, call: Call)
    ensures
        follows(s, skill_called(s, call).state),
{
    broadcast use {follows_further, lemma_published, lemma_kept_entry, lemma_outcome_kept};

    let t = with_kept_entry(
        s,
        call.session,
        Entry::Tool { call_id: call.id, tool_name: "skill"@, outcome: Outcome::Requested(call.arguments) },
    );
    let s1 = t.state;
    let s2 = State { tool_sessions: stored(s1.tool_sessions, call.id, call.session), ..s1 };
    lemma_same(s1, s2);
    assert(follows(s, s2));
    match crate::cbor::dict_text(call.arguments, "name"@) {
        Some(name) => match lookup(s2.skills, name) {
            Some(skill) => match skill_content(s2, skill) {
                Ok(content) => {
                    lemma_skill_loaded(s2, call.id, name, content);
                },
                Err(error) => {
                    lemma_skill_failed(s2, call.id, "failed to read skill file: "@ + error);
                },
            },
            None => {
                lemma_skill_failed(s2, call.id, "unknown skill: "@ + name);
            },
        },
        None => {
            lemma_skill_failed(s2, call.id, "missing required argument: name"@);
        },
    }
}

proof fn lemma_skill_failed(s: State, call_id: Seq<char>, message: Seq<char>)
    ensures
        follows(s, skill_failed(s, call_id, message).state),
{
    broadcast use {follows_further, lemma_published, lemma_outcome_kept};

    let s1 = published(s, None, failure(call_id, "skill"@, message));
    assert(follows(s, s1));
    assert(follows(s1, skill_failed(s, call_id, message).state));
}

proof fn lemma_skill_loaded(s: State, call_id: Seq<char>, name: Seq<char>, content: Seq<char>)
    ensures
        follows(s, skill_loaded(s, call_id, name, content).state),
{
    broadcast use {follows_further, lemma_published, lemma_outcome_kept};

    let result = crate::state::skill_result(name, crate::skills::frontmatter_body(content));
    let s1 = published(s, None, EventView::Result { call_id, tool_name: "skill"@, result });
    assert(follows(s, s1));
    assert(follows(s1, skill_loaded(s, call_id, name, content).state));
}

proof fn lemma_tool_called(s: State, call: Call)
    ensures
        follows(s, tool_called(s, call).0.state),
{
    broadcast use {follows_further, lemma_published, lemma_kept_entry, lemma_outcome_kept};

    let s1 = with_kept_entry(
        s,
        call.session,
        Entry::Tool { call_id: call.id, tool_name: call.name, outcome: Outcome::Requested(call.arguments) },
    ).state;
    let t = State {
        tool_sessions: stored(s1.tool_sessions, call.id, call.session),
        tool_names: stored(s1.tool_names, call.id, call.name),
        ..s1
    };
    lemma_same(s1, t);
    let s2 = published(
        t,
        None,
        EventView::Request { call_id: call.id, tool_name: call.name, arguments: call.arguments },
    );
    assert(follows(s, t));
    assert(follows(s, s2));
    match tool_at(s2.registry, call.name) {
        Some(i) => {
            let u = State {
                tool_providers: stored(s2.tool_providers, call.id, s2.registry[i].provider),
                ..s2
            };
            lemma_same(s2, u);
            lemma_one_effect(u, EffectView::Route { to: s2.registry[i].provider, seq: s2.log.len() - 1 });
            assert(follows(s, u));
        },
        None => {
            assert(follows(s2, outcome_kept(s2, call.id, call.name, failed("no live provider available"@)).state));
        },
    }
}

broadcast proof fn lemma_call_begun(s: State, call: Call)
    ensures
        follows(s, (#[trigger] call_begun(s, call)).0.state),
{
    reveal(call_begun);
    lemma_call_refused(s, call, crate::state::name_message(crate::text::debug_quoted(call.name)));
    lemma_skill_called(s, call);
    lemma_tool_called(s, call);
}

/// Sending calls on their way leads to a state that follows.
pub broadcast proof fn lemma_drained(s: State)
    ensures
        follows(s, (#[trigger] drained(s)).state),
    decreases s.pending_calls.len(),
{
    reveal_with_fuel(drained, 1);
    lemma_same(s, s);
    if s.pending_calls.len() > 0 && may_go(s.in_flight, s.pending_calls[0].kind) {
        let call = s.pending_calls[0];
        let s0 = State {
            pending_calls: s.pending_calls.drop_first(),
            in_flight: stored(s.in_flight, call.id, call.kind),
            ..s
        };
        assert(follows(s, s0)) by {
            lemma_same(s, s);
            reveal(follows);
            lemma_flight_stored(s.in_flight, call.id, call.kind);
        }
        let (t, over) = call_begun(s0, call);
        let s1 = t.state;
        lemma_call_begun(s0, call);
        follows_further(s, s0, s1);
        let free = State { in_flight: removed(s1.in_flight, call.id), ..s1 };
        lemma_landed(s1, call.id);
        lemma_drained(free);
        let d = draining_reported(drained(free));
        lemma_draining_reported(drained(free));
        lemma_call_crossed_off(d, call.id);
        follows_further(s, s1, free);
        follows_further(s, free, drained(free).state);
        follows_further(s, drained(free).state, d);
        follows_further(s, d, call_crossed_off(d, call.id));
        let s2 = if over {
            call_crossed_off(d, call.id)
        } else {
            s1
        };
        if s2.pending_calls.len() < s.pending_calls.len() {
            lemma_drained(s2);
            follows_further(s, s2, drained(s2).state);
        }
    }
}

broadcast proof fn lemma_call_finished(s: State, call_id: Seq<char>)
    ensures
        follows(s, #[trigger] call_finished(s, call_id)),
{
    let free = State { in_flight: removed(s.in_flight, call_id), ..s };
    lemma_landed(s, call_id);
    lemma_drained(free);
    let d = draining_reported(drained(free));
    lemma_draining_reported(drained(free));
    lemma_call_crossed_off(d, call_id);
    follows_further(s, free, drained(free).state);
    follows_further(s, drained(free).state, d);
    follows_further(s, d, call_finished(s, call_id));
}

proof fn lemma_call_lost(s: State, call_id: Seq<char>)
    ensures
        follows(s, call_lost(s, call_id)),
{
    broadcast use {follows_further, lemma_published, lemma_outcome_kept, lemma_call_finished};

    let tool_name = match lookup(s.tool_names, call_id) {
        Some(name) => name,
        None => "unknown_tool"@,
    };
    let s1 = State {
        tool_names: removed(s.tool_names, call_id),
        tool_providers: removed(s.tool_providers, call_id),
        ..s
    };
    lemma_same(s, s1);
    let s2 = if lookup(s1.tool_sessions, call_id) is Some {
        outcome_kept(s1, call_id, tool_name, failed("tool provider disconnected"@)).state
    } else {
        s1
    };
    assert(follows(s, s2));
    let s3 = published(s2, None, failure(call_id, tool_name, "tool provider disconnected"@));
    assert(follows(s, s3));
    assert(follows(s3, call_finished(s3, call_id)));
}

proof fn lemma_calls_lost(s: State, call_ids: Seq<Seq<char>>)
    ensures
        follows(s, calls_lost(s, call_ids)),
    decreases call_ids.len(),
{
    lemma_same(s, s);
    if call_ids.len() > 0 {
        let before = calls_lost(s, call_ids.drop_last());
        lemma_calls_lost(s, call_ids.drop_last());
        lemma_call_lost(before, call_ids.last());
        follows_further(s, before, calls_lost(s, call_ids));
    }
}

proof fn lemma_request_handled(s: State, source: Seq<char>, call_id: Seq<char>, tool_name: Seq<char>, arguments: Cbor)
    ensures
        follows(s, request_handled(s, source, call_id, tool_name, arguments).state),
{
    broadcast use {follows_further, lemma_published, lemma_kept_entry, lemma_outcome_kept};

    reveal(request_handled);
    let session = if s.request_sessions.len() > 0 {
        s.request_sessions[0]
    } else {
        "default"@
    };
    let s0 = State {
        request_sessions: if s.request_sessions.len() > 0 {
            s.request_sessions.drop_first()
        } else {
            s.request_sessions
        },
        tool_sessions: stored(s.tool_sessions, call_id, session),
        tool_names: stored(s.tool_names, call_id, tool_name),
        ..s
    };
    lemma_same(s, s0);
    let s1 = request_kept(s, call_id, tool_name, arguments).state;
    assert(follows(s0, s1));
    let s2 = published(s1, Some(source), EventView::Request { call_id, tool_name, arguments });
    assert(follows(s, s1));
    assert(follows(s, s2));
    match tool_at(s2.registry, tool_name) {
        Some(i) => {
            let u = State { tool_providers: stored(s2.tool_providers, call_id, s2.registry[i].provider), ..s2 };
            lemma_same(s2, u);
            lemma_one_effect(u, EffectView::Route { to: s2.registry[i].provider, seq: s2.log.len() - 1 });
            assert(follows(s, u));
        },
        None => {
            let s3 = published(s2, None, failure(call_id, tool_name, "no live provider available"@));
            assert(follows(s2, s3));
            assert(follows(s, s3));
            assert(follows(s3, outcome_kept(s3, call_id, tool_name, failed("no live provider available"@)).state));
        },
    }
}

// ---------------------------------------------------------------------------
// The agent
// ---------------------------------------------------------------------------

proof fn lemma_usage_reported(s: State, input_tokens: Option<u64>, cached_tokens: Option<u64>)
    ensures
        follows(s, usage_reported(s, input_tokens, cached_tokens)),
        usage_reported(s, input_tokens, cached_tokens).prompt_sessions == s.prompt_sessions,
        usage_reported(s, input_tokens, cached_tokens).next_prompt == s.next_prompt,
        usage_reported(s, input_tokens, cached_tokens).turn == s.turn,
        usage_reported(s, input_tokens, cached_tokens).sessions == s.sessions,
        usage_reported(s, input_tokens, cached_tokens).pending_calls == s.pending_calls,
        usage_reported(s, input_tokens, cached_tokens).pending_prompts == s.pending_prompts,
        usage_reported(s, input_tokens, cached_tokens).in_flight == s.in_flight,
{
    lemma_same(s, s);
    let percent_used = crate::state::usage_percent(s, input_tokens);
    let s1 = State { input_tokens, cached_tokens, percent_used, ..s };
    lemma_same(s, s1);
    lemma_published(s1, None, EventView::ContextUsage { input_tokens, cached_tokens, percent_used }, false);
    follows_further(
        s,
        s1,
        published(s1, None, EventView::ContextUsage { input_tokens, cached_tokens, percent_used }),
    );
}

proof fn lemma_calls_queued(s: State, session: Seq<char>, calls: Seq<AgentToolCall>)
    ensures
        follows(s, calls_queued(s, session, calls).state),
{
    let (queue, next) = normalized(s, session, calls, calls.len());
    let s1 = State {
        next_synthetic: next,
        turn: Turn::Running { session, remaining: crate::state::call_ids(queue) },
        pending_calls: s.pending_calls + queue,
        ..s
    };
    lemma_same(s, s1);
    lemma_drained(s1);
    follows_further(s, s1, drained(s1).state);
}

/// The state in which an answer is taken over, before its calls or the next prompt.
spec fn answer_taken(s: State, r: AgentResponseFinished, session: Seq<char>) -> Tried {
    let s2 = published(s, None, Event::AgentResponseFinished(r)@);
    let s3 = State {
        prompt_sessions: removed(s2.prompt_sessions, r.session_prompt_id@),
        completed: crate::state::included(s2.completed, r.session_prompt_id@),
        ..s2
    };
    match r.text {
        Some(text) => with_kept_entry(
            s3,
            session,
            Entry::Agent { text: text@, thinking: crate::session::option_text(r.thinking) },
        ),
        None => done(s3),
    }
}

proof fn lemma_answer_taken(s: State, r: AgentResponseFinished, session: Seq<char>)
    ensures
        follows(s, answer_taken(s, r, session).state),
        lookup(answer_taken(s, r, session).state.prompt_sessions, r.session_prompt_id@) is None,
        answer_taken(s, r, session).state.next_prompt == s.next_prompt,
{
    broadcast use {follows_further, lemma_published, lemma_kept_entry};

    let s2 = published(s, None, Event::AgentResponseFinished(r)@);
    let s3 = State {
        prompt_sessions: removed(s2.prompt_sessions, r.session_prompt_id@),
        completed: crate::state::included(s2.completed, r.session_prompt_id@),
        ..s2
    };
    lookup_after_removed(s2.prompt_sessions, r.session_prompt_id@, r.session_prompt_id@);
    assert(follows(s2, s3)) by {
        lemma_same(s2, s2);
        reveal(follows);
        assert forall|id: Seq<char>|
            is_past(id, s2.next_prompt) && lookup(s2.prompt_sessions, id) is None implies #[trigger] lookup(
            s3.prompt_sessions,
            id,
        ) is None by {
            lookup_after_removed(s2.prompt_sessions, r.session_prompt_id@, id);
        }
    }
    assert(follows(s, s2));
    assert(follows(s, s3));
    assert(follows(s3, answer_taken(s, r, session).state)) by {
        lemma_same(s3, s3);
    }
}

proof fn lemma_agent_finished(s: State, r: AgentResponseFinished)
    ensures
        follows(s, agent_finished(s, r).state),
{
    broadcast use {follows_further, lemma_published, lemma_advanced};

    reveal(agent_finished);
    lemma_same(s, s);
    lemma_usage_reported(s, r.input_tokens, r.cached_tokens);
    let s1 = if r.input_tokens is Some || r.cached_tokens is Some {
        usage_reported(s, r.input_tokens, r.cached_tokens)
    } else {
        s
    };
    assert(follows(s, s1));
    match lookup(s1.prompt_sessions, r.session_prompt_id@) {
        None => {
            assert(follows(s1, agent_finished(s, r).state));
        },
        Some(session) => {
            lemma_answer_taken(s1, r, session);
            let s4 = answer_taken(s1, r, session).state;
            assert(follows(s, s4));
            if r.tool_calls@.len() > 0 {
                lemma_calls_queued(s4, session, r.tool_calls@);
            } else {
                let s5 = State { turn: Turn::Idle, ..s4 };
                lemma_same(s4, s5);
                assert(follows(s, s5));
                assert(follows(s5, advanced(s5)));
            }
        },
    }
}

// ---------------------------------------------------------------------------
// Events
// ---------------------------------------------------------------------------

proof fn lemma_lifecycle_published(s: State, message: Seq<char>, source: Option<Seq<char>>, event: EventView)
    ensures
        follows(s, published(with_lifecycle(s, message), source, event)),
{
    let s1 = with_lifecycle(s, message);
    lemma_same(s, s1);
    lemma_published(s1, source, event, crate::event::is_transient_event(event));
    follows_further(s, s1, published(s1, source, event));
}

proof fn lemma_ext_ready(s: State, connection: Seq<char>)
    ensures
        follows(s, ext_ready(s, connection)),
{
    lemma_same(s, s);
    if let Some(i) = ext_at(s.extensions, connection) {
        let e = s.extensions[i];
        lemma_lifecycle_published(
            s,
            "extension "@ + e.name + " ready"@,
            Some("harness"@),
            EventView::Ready(
                crate::event::Notice { instance_id: e.instance_id, extension_name: e.name, pid: e.pid },
            ),
        );
    }
}

proof fn lemma_outcome_arrived(
    s: State,
    source: Seq<char>,
    event: EventView,
    call_id: Seq<char>,
    tool_name: Seq<char>,
    outcome: Outcome,
)
    ensures
        follows(s, outcome_arrived(s, source, event, call_id, tool_name, outcome).state),
{
    broadcast use {follows_further, lemma_published, lemma_outcome_kept, lemma_call_finished};

    let s1 = published(s, Some(source), event);
    let s2 = outcome_kept(s1, call_id, tool_name, outcome).state;
    assert(follows(s, s1));
    assert(follows(s, s2));
    assert(follows(s, call_finished(s2, call_id)));
}

/// Whatever an extension sends, the state after it follows the one before.
pub proof fn extension_events_follow(s: State, source: Seq<char>, event: EventView)
    ensures
        follows(s, after_extension_event(s, source, event).state),
{
    broadcast use {
        follows_further,
        lemma_published,
        lemma_sent,
        lemma_kept_entry,
        lemma_outcome_kept,
        lemma_call_finished,
        lemma_advanced,
    };

    let after = after_extension_event(s, source, event).state;
    lemma_same(s, s);
    match event {
        EventView::Request { call_id, tool_name, arguments } => {
            lemma_request_handled(s, source, call_id, tool_name, arguments);
        },
        EventView::Result { call_id, tool_name, result } => {
            lemma_outcome_arrived(s, source, event, call_id, tool_name, Outcome::Result(result));
            assert(follows(s, noted(s, "discarding duplicate tool result for call_id="@ + call_id)));
        },
        EventView::Error { call_id, tool_name, message, details } => {
            lemma_outcome_arrived(s, source, event, call_id, tool_name, Outcome::Error { message, details });
            assert(follows(s, noted(s, "discarding duplicate tool error for call_id="@ + call_id)));
        },
        EventView::Passed(e) => match e {
            Event::Ack { up_to } => {
                lemma_same(s, acked(s, source, up_to));
            },
            Event::LifecycleHello(_) => {
                let s1 = with_ext_state(s, source, ExtensionState::Handshaking);
                lemma_same(s, s1);
                let s2 = published(s1, Some(source), event);
                assert(follows(s, s2));
                assert(follows(s2, after));
            },
            Event::LifecycleSubscribe(sub) => {
                let s1 = subscribed(s, source, selectors_view(sub.selectors@));
                lemma_same(s, s1);
                assert(follows(s1, after));
            },
            Event::LifecycleReady { message: _ } => {
                let s1 = ext_ready(s, source);
                lemma_ext_ready(s, source);
                let s2 = published(s1, Some(source), event);
                assert(follows(s, s2));
                let s3 = with_ext_state(s2, source, ExtensionState::Ready);
                lemma_same(s2, s3);
                assert(follows(s, s3));
                assert(follows(s3, after));
            },
            Event::ToolRegister(_) => {
                lemma_same(s, after);
            },
            Event::ShellCommandFinished(f) => {
                let s1 = published(s, Some(source), event);
                assert(follows(s, s1));
                if f.include_in_context {
                    assert(follows(s1, after));
                }
            },
            Event::ExtSkillAvailable(skill) => {
                let s1 = State {
                    skills: stored(
                        s.skills,
                        skill.name@,
                        crate::discovery::Skill {
                            source_id: source,
                            description: skill.description@,
                            source: crate::discovery::SkillSource::File(skill.file_path@),
                            add_to_prompt: skill.add_to_prompt,
                        },
                    ),
                    ..s
                };
                lemma_same(s, s1);
                assert(follows(s1, after));
            },
            Event::ExtAgentsMdAvailable(file) => {
                let s1 = State {
                    files: crate::state::with_file(
                        s.files,
                        crate::discovery::AgentsFile {
                            source_id: source,
                            file_path: file.file_path@,
                            content: file.content@,
                        },
                    ),
                    ..s
                };
                lemma_same(s, s1);
                assert(follows(s1, after));
            },
            Event::ExtensionContextReady { session_id } => {
                let s1 = published(s, Some(source), event);
                assert(follows(s, s1));
                lemma_context_ready(s1, source, session_id@);
            },
            Event::AgentResponseFinished(r) => {
                lemma_agent_finished(s, r);
            },
            _ => {},
        },
        _ => {},
    }
}

proof fn lemma_submitted(s: State, session: Seq<char>, text: Seq<char>)
    ensures
        follows(s, submitted(s, session, text).state),
{
    broadcast use {follows_further, lemma_published, lemma_dispatched, lemma_advanced};

    let s1 = State { pending_prompts: s.pending_prompts.push((session, text)), ..s };
    lemma_same(s, s1);
    assert(follows(s1, advanced(s1)));
}

proof fn lemma_offered(s: State, to: Seq<char>, selectors: Seq<Selector>, event: EventView)
    ensures
        follows(s, offered(s, to, selectors, event)),
{
    lemma_same(s, s);
    lemma_sent(s, to, event);
}

proof fn lemma_caught_up(s: State, to: Seq<char>, selectors: Seq<Selector>)
    ensures
        follows(s, caught_up(s, to, selectors)),
{
    broadcast use follows_further;

    reveal(caught_up);
    reveal(info_replayed);
    let t = State { effects: s.effects + kept_replays(s, to, selectors, s.kept.len()), ..s };
    lemma_effects(s, kept_replays(s, to, selectors, s.kept.len()));
    let s2 = State { effects: t.effects + log_replays(t, to, selectors, t.log.len()), ..t };
    lemma_effects(t, log_replays(t, to, selectors, t.log.len()));
    assert(follows(s, s2));
    let e3 = EventView::ModelsAvailable(t.models);
    let s3 = offered(s2, to, selectors, e3);
    lemma_offered(s2, to, selectors, e3);
    let e4 = EventView::ModelSelected {
        model: t.model,
        context_window: crate::models::window_of(t.providers, t.model),
    };
    let s4 = offered(s3, to, selectors, e4);
    lemma_offered(s3, to, selectors, e4);
    let e5 = EventView::ContextUsage {
        input_tokens: t.input_tokens,
        cached_tokens: t.cached_tokens,
        percent_used: t.percent_used,
    };
    let s5 = offered(s4, to, selectors, e5);
    lemma_offered(s4, to, selectors, e5);
    let e6 = EventView::EffortChanged(t.effort);
    let s6 = offered(s5, to, selectors, e6);
    lemma_offered(s5, to, selectors, e6);
    let e7 = EventView::EffortsAvailable(crate::models::efforts_of(t.providers, t.model));
    lemma_offered(s6, to, selectors, e7);
    assert(follows(s, s3));
    assert(follows(s, s4));
    assert(follows(s, s5));
    assert(follows(s, s6));
    assert(caught_up(s, to, selectors) == offered(s6, to, selectors, e7));
}

proof fn lemma_remembered(s: State)
    ensures
        follows(s, remembered(s)),
{
    let efforts = crate::models::efforts_after(s.last_efforts, s.model, s.effort);
    let effect = EffectView::Remember {
        text: crate::json::json_pretty(crate::models::state_json(s.model, efforts)),
    };
    lemma_one_effect(s, effect);
}

proof fn lemma_model_chosen(s: State, model: Seq<char>)
    ensures
        follows(s, model_chosen(s, model)),
{
    broadcast use {follows_further, lemma_published, lemma_advanced};

    reveal(model_chosen);
    if s.models.contains(model) {
        let s1 = State {
            model,
            effort: crate::models::effort_for(s.default_efforts, s.last_efforts, s.providers, model),
            ..s
        };
        lemma_same(s, s1);
        let r = remembered(s1);
        lemma_remembered(s1);
        let s2 = State { input_tokens: None, cached_tokens: None, percent_used: None, ..r };
        lemma_same(r, s2);
        assert(follows(s, r));
        assert(follows(s, s2));
        let s3 = published(
            s2,
            None,
            EventView::ModelSelected { model, context_window: crate::models::window_of(s.providers, model) },
        );
        let s4 = published(
            s3,
            None,
            EventView::ContextUsage { input_tokens: None, cached_tokens: None, percent_used: None },
        );
        let s5 = published(s4, None, EventView::EffortChanged(s1.effort));
        let s6 = published(
            s5,
            None,
            EventView::EffortsAvailable(crate::models::efforts_of(s.providers, model)),
        );
        assert(follows(s, s3));
        assert(follows(s, s4));
        assert(follows(s, s5));
        assert(follows(s, s6));
        assert(follows(s6, advanced(s6)));
    }
}

proof fn lemma_effort_chosen(s: State, level: Effort)
    ensures
        follows(s, effort_chosen(s, level)),
{
    broadcast use {follows_further, lemma_published};

    reveal(effort_chosen);
    let effort = crate::models::clamped(level, crate::models::efforts_of(s.providers, s.model));
    let s1 = State { effort, ..s };
    lemma_same(s, s1);
    lemma_remembered(s1);
    assert(follows(s, remembered(s1)));
}

proof fn lemma_switched(s: State, session: Seq<char>, reason: SessionStartReason)
    ensures
        follows(s, switched(s, session, reason).state),
{
    broadcast use {follows_further, lemma_published};

    reveal(switched);
    if session != s.current {
        let s1 = published(s, None, EventView::Shutdown { session_id: s.current });
        let s2 = State {
            turn: Turn::Idle,
            pending_prompts: Seq::empty(),
            request_sessions: Seq::empty(),
            pending_calls: Seq::empty(),
            current: session,
            ..s1
        };
        lemma_same(s1, s2);
        let w = write_tried(s2).state;
        lemma_write_tried(s2);
        lemma_one_effect(w, EffectView::OpenSession { session });
        let s3 = State { effects: w.effects.push(EffectView::OpenSession { session }), ..w };
        assert(follows(s, s1));
        assert(follows(s, s2));
        assert(follows(s, w));
        assert(follows(s, s3));
        lemma_session_started(s3, session, reason);
    }
}

proof fn lemma_all_noted(s: State, messages: Seq<Seq<char>>)
    ensures
        follows(s, all_noted(s, messages)),
    decreases messages.len(),
{
    broadcast use {follows_further, lemma_published};

    lemma_same(s, s);
    if messages.len() > 0 {
        lemma_all_noted(s, messages.drop_last());
        assert(follows(all_noted(s, messages.drop_last()), all_noted(s, messages)));
    }
}

proof fn lemma_navigated(s: State, session: Seq<char>, node: int)
    ensures
        follows(s, navigated(s, session, node).state),
{
    broadcast use {follows_further, lemma_published};

    reveal(navigated);
    let tree = tree_of(s.sessions, session);
    if session == s.current && 0 <= node < tree.nodes.len() {
        let moved = Tree { nodes: tree.nodes, head: Some(node) };
        let w = write_tried(s).state;
        lemma_write_tried(s);
        let s1 = State { sessions: stored(s.sessions, session, moved), ..w };
        assert(follows(s, s1)) by {
            lemma_same(s, w);
            reveal(follows);
            assert forall|id: Seq<char>| grown(tree_of(s.sessions, id).nodes, (#[trigger] tree_of(s1.sessions, id)).nodes) by {
                lookup_after_stored(s.sessions, session, moved, id);
                let nodes = tree_of(s.sessions, id).nodes;
                assert(nodes.take(nodes.len() as int) =~= nodes);
            }
        }
        lemma_one_effect(s1, EffectView::KeepHead { session, node });
        let s2 = State { effects: s1.effects.push(EffectView::KeepHead { session, node }), ..s1 };
        assert(follows(s, s2));
        lemma_noted(s2, "navigated to node "@ + decimal(node as nat));
    }
}

/// Whatever a client sends, the state after it follows the one before.
pub proof fn client_events_follow(s: State, client: Seq<char>, event: EventView, denied: Option<Seq<char>>)
    ensures
        follows(s, after_client_event(s, client, event, denied).state),
{
    broadcast use {follows_further, lemma_published, lemma_sent};

    let after = after_client_event(s, client, event, denied).state;
    lemma_same(s, s);
    match event {
        EventView::PromptSubmitted { session_id, text } => {
            let s1 = submitted(s, session_id, text).state;
            lemma_submitted(s, session_id, text);
            let s2 = published(s1, None, EventView::Queued { session_id, text });
            assert(follows(s, s2));
            assert(follows(s2, noted(s2, "no model selected — use /model to pick one"@)));
        },
        EventView::Passed(e) => match e {
            Event::LifecycleSubscribe(sub) => {
                let selectors = selectors_view(sub.selectors@);
                let s1 = subscribed(s, client, selectors);
                lemma_same(s, s1);
                let s2 = published(s1, Some(client), event);
                assert(follows(s, s2));
                lemma_caught_up(s2, client, selectors);
            },
            Event::UiModelSelect { model } => {
                lemma_model_chosen(s, model@);
            },
            Event::UiSetEffort { level } => {
                lemma_effort_chosen(s, level);
            },
            Event::UiSwitchSession { new_session_id, reason } => {
                let s1 = published(s, Some(client), event);
                assert(follows(s, s1));
                lemma_switched(s1, new_session_id@, reason);
            },
            Event::UiTreeRequest { session_id } => {
                let s1 = published(s, Some(client), event);
                assert(follows(s, s1));
                reveal(tree_shown);
                lemma_all_noted(s1, node_lines(tree_of(s1.sessions, session_id@)));
                assert(follows(s1, after));
            },
            Event::UiNavigateTree { session_id, node_id } => {
                let s1 = published(s, Some(client), event);
                assert(follows(s, s1));
                lemma_navigated(s1, session_id@, node_id as int);
            },
            _ => {},
        },
        _ => {},
    }
}

proof fn lemma_respawn_asked(s: State, connection: Seq<char>)
    ensures
        follows(s, respawn_asked(s, connection)),
        respawn_asked(s, connection).registry == s.registry,
        respawn_asked(s, connection).connections == s.connections,
{
    broadcast use {follows_further, lemma_published};

    lemma_same(s, s);
    if let Some(i) = ext_at(s.extensions, connection) {
        let e = s.extensions[i];
        let s1 = crate::state::with_ext(s, i, Ext { restart_attempt: e.restart_attempt + 1, ..e });
        lemma_same(s, s1);
        let s2 = published(
            s1,
            Some("harness"@),
            EventView::Restarting {
                notice: crate::event::Notice { instance_id: e.instance_id, extension_name: e.name, pid: None },
                attempt: (e.restart_attempt + 1) as u32,
                reason: Some("unexpected disconnect"@),
            },
        );
        assert(follows(s, s2));
        lemma_one_effect(s2, EffectView::Respawn { index: i });
    }
}

/// However a connection is lost, the state after it follows the one before.
pub proof fn losses_follow(s: State, connection: Seq<char>)
    ensures
        follows(s, disconnected(s, connection)),
{
    broadcast use follows_further;

    reveal(disconnected);
    let s0 = without_context(s, connection);
    lemma_same(s, s0);
    let s1 = context_lost(s0, connection);
    lemma_context_lost(s0, connection);
    assert(follows(s, s1));
    let s2 = calls_lost(s1, calls_of(s1.tool_providers, connection));
    lemma_calls_lost(s1, calls_of(s1.tool_providers, connection));
    assert(follows(s, s2));
    let s3 = with_ext_state(s2, connection, ExtensionState::Disconnected);
    let s4 = State { clients: excluded(s3.clients, connection), ..s3 };
    lemma_same(s2, s4);
    assert(follows(s, s4));
    if let Some(i) = peer_at(s4.connections, connection) {
        let peer = s4.connections[i];
        let s5 = State { connections: peers_without(s4.connections, connection), ..s4 };
        lemma_same(s4, s5);
        assert(follows(s, s5));
        let t = State { registry: unregistered(s5.registry, connection), ..s5 };
        lemma_same(s5, t);
        lemma_lifecycle_published(
            t,
            "extension "@ + peer.name + " exited"@,
            Some("harness"@),
            EventView::Exited(crate::state::notice_of(t, peer.name)),
        );
        assert(follows(s, t));
        assert(follows(s, ext_exited(t, peer.name)));
        lemma_respawn_asked(ext_exited(t, peer.name), connection);
        lemma_respawn_asked(s5, connection);
    }
}

/// However a harness ends, the state after it follows the one before.
pub proof fn endings_follow(s: State, ends: Seq<ThreadEnd>)
    ensures
        follows(s, shut_down(s, ends).0),
{
    let alone = State { connections: hung_up(s.connections, s.extensions), ..s };
    lemma_same(s, alone);
    lemma_ended(alone, ends, s.extensions.len());
    follows_further(s, alone, shut_down(s, ends).0);
}

proof fn lemma_ended(s: State, ends: Seq<ThreadEnd>, n: nat)
    ensures
        follows(s, ended(s, ends, n).0),
    decreases n,
{
    lemma_same(s, s);
    if n > 0 {
        let before = ended(s, ends, (n - 1) as nat).0;
        let name = s.extensions[n - 1].name;
        lemma_ended(s, ends, (n - 1) as nat);
        lemma_lifecycle_published(
            before,
            "extension "@ + name + " exited"@,
            Some("harness"@),
            EventView::Exited(crate::state::notice_of(before, name)),
        );
        follows_further(s, before, ext_exited(before, name));
    }
}

// ---------------------------------------------------------------------------
// What follows from following
// ---------------------------------------------------------------------------

/// The log only grows, and so does the history of every session.
pub proof fn nothing_is_lost(before: State, after: State, session: Seq<char>)
    requires
        follows(before, after),
    ensures
        grown(before.log, after.log),
        grown(before.kept, after.kept),
        grown(tree_of(before.sessions, session).nodes, tree_of(after.sessions, session).nodes),
{
    reveal(follows);
}

/// A call that changes something runs alone, whatever happens.
pub proof fn changes_run_alone(before: State, after: State)
    requires
        follows(before, after),
        runs_alone(before.in_flight),
    ensures
        runs_alone(after.in_flight),
{
    reveal(follows);
}

/// A prompt that was made is past: no later one has its id.
pub proof fn made_prompts_are_past(n: int, next_prompt: int)
    requires
        0 <= n < next_prompt,
    ensures
        is_past(prompt_id(n), next_prompt),
{
    assert forall|k: int| k >= next_prompt implies prompt_id(n) != #[trigger] prompt_id(k) by {
        if prompt_id(n) == prompt_id(k) {
            let start = "sp-"@.len();
            assert(prompt_id(n).skip(start as int) =~= decimal(n as nat));
            assert(prompt_id(k).skip(start as int) =~= decimal(k as nat));
            numerals_differ(n as nat, k as nat, 10);
        }
    }
}

/// An answer counts once: after it the prompt is forgotten, and stays so whatever
/// happens, so that the same answer is discarded when it comes again.
pub proof fn answers_count_once(s: State, r: AgentResponseFinished, later: State)
    requires
        lookup(s.prompt_sessions, r.session_prompt_id@) is Some,
        is_past(r.session_prompt_id@, s.next_prompt),
        follows(agent_finished(s, r).state, later),
    ensures
        lookup(agent_finished(s, r).state.prompt_sessions, r.session_prompt_id@) is None,
        lookup(later.prompt_sessions, r.session_prompt_id@) is None,
{
    reveal(agent_finished);
    let id = r.session_prompt_id@;
    lemma_usage_reported(s, r.input_tokens, r.cached_tokens);
    let s1 = if r.input_tokens is Some || r.cached_tokens is Some {
        usage_reported(s, r.input_tokens, r.cached_tokens)
    } else {
        s
    };
    let session = lookup(s1.prompt_sessions, id)->Some_0;
    let s4 = answer_taken(s1, r, session).state;
    lemma_same(s4, s4);
    lemma_answer_taken(s1, r, session);
    assert(is_past(id, s4.next_prompt));
    if r.tool_calls@.len() > 0 {
        lemma_calls_queued(s4, session, r.tool_calls@);
    } else {
        let s5 = State { turn: Turn::Idle, ..s4 };
        lemma_same(s4, s5);
        lemma_advanced(s5);
        follows_further(s4, s5, advanced(s5));
    }
    assert(follows(s4, agent_finished(s, r).state));
    follows_further(s4, agent_finished(s, r).state, later);
    reveal(follows);
}

/// An answer to a prompt that is not known changes no history, no turn and no
/// queue.
pub proof fn unknown_answers_are_discarded(s: State, r: AgentResponseFinished)
    requires
        lookup(s.prompt_sessions, r.session_prompt_id@) is None,
    ensures
        agent_finished(s, r).state.sessions == s.sessions,
        agent_finished(s, r).state.turn == s.turn,
        agent_finished(s, r).state.pending_prompts == s.pending_prompts,
        agent_finished(s, r).state.pending_calls == s.pending_calls,
        agent_finished(s, r).state.prompt_sessions == s.prompt_sessions,
{
    reveal(agent_finished);
    lemma_usage_reported(s, r.input_tokens, r.cached_tokens);
}

/// A result, or an error, of a call that is not known changes no history, no turn
/// and no queue.
pub proof fn unknown_results_are_discarded(s: State, source: Seq<char>, event: EventView)
    requires
        match event {
            EventView::Result { call_id, .. } => lookup(s.tool_sessions, call_id) is None,
            EventView::Error { call_id, .. } => lookup(s.tool_sessions, call_id) is None,
            _ => false,
        },
    ensures
        ({
            let after = after_extension_event(s, source, event).state;
            &&& after.sessions == s.sessions
            &&& after.turn == s.turn
            &&& after.in_flight == s.in_flight
            &&& after.pending_calls == s.pending_calls
            &&& after.tool_sessions == s.tool_sessions
        }),
{
}

/// A call whose outcome was entered is forgotten.
pub proof fn finished_calls_are_forgotten(s: State, call_id: Seq<char>, tool_name: Seq<char>, outcome: Outcome)
    ensures
        lookup(outcome_kept(s, call_id, tool_name, outcome).state.tool_sessions, call_id) is None,
        lookup(outcome_kept(s, call_id, tool_name, outcome).state.tool_providers, call_id) is None,
{
    lookup_after_removed(s.tool_sessions, call_id, call_id);
    lookup_after_removed(s.tool_providers, call_id, call_id);
}

proof fn lemma_ext_at(extensions: Seq<Ext>, connection: Seq<char>)
    ensures
        ext_at(extensions, connection) matches Some(i) ==> 0 <= i < extensions.len(),
    decreases extensions.len(),
{
    if extensions.len() > 0 {
        lemma_ext_at(extensions.drop_last(), connection);
    }
}

/// An acknowledgement never moves a position back, and one that comes late
/// changes nothing.
pub proof fn acknowledgements_never_move_back(s: State, connection: Seq<char>, up_to: u64, i: int)
    requires
        0 <= i < s.extensions.len(),
    ensures
        acked(s, connection, up_to).extensions[i].last_acked >= s.extensions[i].last_acked,
        ext_at(s.extensions, connection) matches Some(k) && 0 <= k < s.extensions.len() && up_to
            <= s.extensions[k].last_acked ==> acked(s, connection, up_to) == s,
{
    lemma_ext_at(s.extensions, connection);
}

/// An acknowledgement publishes nothing and fails never: it moves the position of the
/// extension that sends it to the greater of the two, and leaves all else as it is.
pub proof fn acknowledgements_move_one_position(s: State, source: Seq<char>, up_to: u64)
    ensures
        ({
            let t = after_extension_event(s, source, Event::Ack { up_to }@);
            &&& t.error is None
            &&& t.state == (State { extensions: t.state.extensions, ..s })
            &&& match ext_at(s.extensions, source) {
                Some(k) => {
                    &&& 0 <= k < s.extensions.len()
                    &&& t.state.extensions == s.extensions.update(
                        k,
                        Ext {
                            last_acked: if up_to > s.extensions[k].last_acked {
                                up_to
                            } else {
                                s.extensions[k].last_acked
                            },
                            ..s.extensions[k]
                        },
                    )
                },
                None => t.state.extensions == s.extensions,
            }
        }),
{
    lemma_ext_at(s.extensions, source);
    assert(acked(s, source, up_to).extensions =~= after_extension_event(
        s,
        source,
        Event::Ack { up_to }@,
    ).state.extensions);
}

/// A prompt for another session leaves no history and no queue behind.
pub proof fn prompts_for_other_sessions_are_refused(s: State, session: Seq<char>, text: Seq<char>)
    requires
        session != s.current,
    ensures
        submission(s, session) is Rejected,
        submitted(s, session, text).state.sessions == s.sessions,
        submitted(s, session, text).state.pending_prompts == s.pending_prompts,
        submitted(s, session, text).state.turn == s.turn,
{
}

/// No prompt goes to the agent while an extension is starting, nor during a turn.
pub proof fn prompts_wait_for_extensions_and_turns(s: State, session: Seq<char>)
    requires
        !all_ready(s) || !(s.turn is Idle),
    ensures
        !(submission(s, session) is Dispatched),
        advanced(s) == s,
{
}

/// Waiting calls go in their order: what is left is the end of the queue, and the
/// first of it may not go yet, unless the store cut the sending short. A call that
/// changes something still runs alone, cut short or not.
pub proof fn calls_go_in_order(s: State)
    ensures
        drained(s).state.pending_calls.len() <= s.pending_calls.len(),
        drained(s).state.pending_calls == s.pending_calls.skip(
            s.pending_calls.len() - drained(s).state.pending_calls.len(),
        ),
        drained(s).error is None && drained(s).state.pending_calls.len() > 0 ==> !may_go(
            drained(s).state.in_flight,
            drained(s).state.pending_calls[0].kind,
        ),
        runs_alone(s.in_flight) ==> runs_alone(drained(s).state.in_flight),
    decreases s.pending_calls.len(),
{
    lemma_drained(s);
    assert(runs_alone(s.in_flight) ==> runs_alone(drained(s).state.in_flight)) by {
        reveal(follows);
    }
    reveal_with_fuel(drained, 1);
    assert(s.pending_calls.skip(0) =~= s.pending_calls);
    if s.pending_calls.len() > 0 && may_go(s.in_flight, s.pending_calls[0].kind) {
        let call = s.pending_calls[0];
        let s0 = State {
            pending_calls: s.pending_calls.drop_first(),
            in_flight: stored(s.in_flight, call.id, call.kind),
            ..s
        };
        let (t, over) = call_begun(s0, call);
        let s1 = t.state;
        let free = State { in_flight: removed(s1.in_flight, call.id), ..s1 };
        let q = s.pending_calls;
        assert(q.drop_first() =~= q.skip(1));
        if t.error is None {
            calls_go_in_order(free);
            let d = draining_reported(drained(free));
            lemma_draining_reported(drained(free));
            let s2 = if over {
                call_crossed_off(d, call.id)
            } else {
                s1
            };
            assert(over ==> s2.pending_calls == d.pending_calls);
            assert(s2.pending_calls.len() < s.pending_calls.len());
            calls_go_in_order(s2);
            let left = drained(s2).state.pending_calls;
            assert(s2.pending_calls =~= q.skip(q.len() - s2.pending_calls.len()));
            assert(left =~= q.skip(q.len() - left.len()));
        }
    }
}

/// A call that is refused leaves its request and its error in the history, one
/// after the other, unless the store fails.
pub proof fn refused_calls_leave_request_and_error(s: State, call: Call, message: Seq<char>)
    requires
        tree_of(s.sessions, call.session).wf(),
        call_refused(s, call, message).error is None,
    ensures
        tree_of(call_refused(s, call, message).state.sessions, call.session).branch() == tree_of(
            s.sessions,
            call.session,
        ).branch().push(
            Entry::Tool { call_id: call.id, tool_name: "invalid_tool"@, outcome: Outcome::Requested(call.arguments) },
        ).push(
            Entry::Tool {
                call_id: call.id,
                tool_name: "invalid_tool"@,
                outcome: Outcome::Error { message, details: None },
            },
        ),
{
    let tree = tree_of(s.sessions, call.session);
    let first = Entry::Tool {
        call_id: call.id,
        tool_name: "invalid_tool"@,
        outcome: Outcome::Requested(call.arguments),
    };
    let second = Entry::Tool { call_id: call.id, tool_name: "invalid_tool"@, outcome: failed(message) };
    branch_after_append(tree, first);
    branch_after_append(tree.appended(first), second);
    let sessions1 = with_entry(s.sessions, call.session, first);
    lookup_after_stored(s.sessions, call.session, tree.appended(first), call.session);
    lookup_after_stored(
        sessions1,
        call.session,
        tree.appended(first).appended(second),
        call.session,
    );
    lookup_after_stored(s.tool_sessions, call.id, call.session, call.id);
}

/// Every call of the agent has an id once it is queued, one that it lacks is made
/// up.
pub proof fn queued_calls_have_ids(s: State, session: Seq<char>, calls: Seq<AgentToolCall>, n: nat)
    requires
        n <= calls.len(),
    ensures
        normalized(s, session, calls, n).0.len() == n,
        forall|i: int| 0 <= i < n ==> (#[trigger] normalized(s, session, calls, n).0[i]).id.len() > 0,
    decreases n,
{
    if n > 0 {
        queued_calls_have_ids(s, session, calls, (n - 1) as nat);
        reveal_strlit("harness-synth-");
    }
}

proof fn lemma_made_up_ids(s: State, session: Seq<char>, calls: Seq<AgentToolCall>, n: nat, i: int)
    requires
        0 <= i < n <= calls.len(),
        s.next_synthetic >= 0,
        calls[i].id@.len() == 0,
    ensures
        exists|k: int|
            s.next_synthetic <= k < normalized(s, session, calls, n).1 && normalized(s, session, calls, n).0[i].id
                == #[trigger] call_id_of(Seq::empty(), k),
    decreases n,
{
    let before = normalized(s, session, calls, (n - 1) as nat);
    queued_calls_have_ids(s, session, calls, (n - 1) as nat);
    lemma_numbers_grow(s, session, calls, (n - 1) as nat);
    if i < n - 1 {
        lemma_made_up_ids(s, session, calls, (n - 1) as nat, i);
        let k = choose|k: int|
            s.next_synthetic <= k < before.1 && before.0[i].id == #[trigger] call_id_of(Seq::empty(), k);
        assert(normalized(s, session, calls, n).0[i].id == call_id_of(Seq::empty(), k));
    } else {
        assert(normalized(s, session, calls, n).0[i].id == call_id_of(Seq::empty(), before.1));
    }
}

proof fn lemma_numbers_grow(s: State, session: Seq<char>, calls: Seq<AgentToolCall>, n: nat)
    requires
        n <= calls.len(),
    ensures
        normalized(s, session, calls, n).1 >= s.next_synthetic,
    decreases n,
{
    if n > 0 {
        lemma_numbers_grow(s, session, calls, (n - 1) as nat);
    }
}

/// Two ids that were made up differ.
pub proof fn made_up_ids_differ(
    s: State,
    session: Seq<char>,
    calls: Seq<AgentToolCall>,
    n: nat,
    i: int,
    j: int,
)
    requires
        0 <= i < j < n <= calls.len(),
        s.next_synthetic >= 0,
        calls[i].id@.len() == 0,
        calls[j].id@.len() == 0,
    ensures
        normalized(s, session, calls, n).0[i].id != normalized(s, session, calls, n).0[j].id,
    decreases n,
{
    queued_calls_have_ids(s, session, calls, (n - 1) as nat);
    lemma_numbers_grow(s, session, calls, (n - 1) as nat);
    let before = normalized(s, session, calls, (n - 1) as nat);
    let all = normalized(s, session, calls, n).0;
    assert(all[i] == before.0[i]);
    if j < n - 1 {
        made_up_ids_differ(s, session, calls, (n - 1) as nat, i, j);
        assert(all[j] == before.0[j]);
    } else {
        lemma_made_up_ids(s, session, calls, (n - 1) as nat, i);
        let k = choose|k: int|
            s.next_synthetic <= k < before.1 && before.0[i].id == #[trigger] call_id_of(Seq::empty(), k);
        assert(all[j].id == call_id_of(Seq::empty(), before.1));
        if all[i].id == all[j].id {
            let start = "harness-synth-"@.len() as int;
            assert(all[i].id.skip(start) =~= decimal(k as nat));
            assert(all[j].id.skip(start) =~= decimal(before.1 as nat));
            numerals_differ(k as nat, before.1 as nat, 10);
        }
    }
}

/// The messages of a prompt begin with those of every earlier prompt of the
/// session that ended with the user's side, as long as entries were only added.
pub proof fn prompts_extend_earlier_ones(earlier: State, later: State, session: Seq<char>, more: Seq<Entry>)
    requires
        tree_of(later.sessions, session).branch() == tree_of(earlier.sessions, session).branch() + more,
        prompt_for(earlier, session).messages.len() > 0 ==> prompt_for(earlier, session).messages.last().role
            == ConversationRole::User,
    ensures
        grown(prompt_for(earlier, session).messages, prompt_for(later, session).messages),
{
    reveal(prompt_for);
    conversation_extends(tree_of(earlier.sessions, session).branch(), more);
}

proof fn lemma_unregistered(registry: Seq<Registered>, connection: Seq<char>)
    ensures
        forall|i: int|
            0 <= i < unregistered(registry, connection).len() ==> (#[trigger] unregistered(registry, connection)[i]).provider
                != connection,
    decreases registry.len(),
{
    if registry.len() > 0 {
        lemma_unregistered(registry.drop_last(), connection);
    }
}

proof fn lemma_peers_without(connections: Seq<Peer>, id: Seq<char>)
    ensures
        forall|i: int|
            0 <= i < peers_without(connections, id).len() ==> (#[trigger] peers_without(connections, id)[i]).id != id,
    decreases connections.len(),
{
    if connections.len() > 0 {
        lemma_peers_without(connections.drop_last(), id);
    }
}

proof fn lemma_peer_at(connections: Seq<Peer>, id: Seq<char>)
    ensures
        peer_at(connections, id) is None ==> forall|i: int|
            0 <= i < connections.len() ==> (#[trigger] connections[i]).id != id,
        peer_at(connections, id) matches Some(i) ==> 0 <= i < connections.len() && connections[i].id == id,
    decreases connections.len(),
{
    if connections.len() > 0 {
        let init = connections.drop_last();
        lemma_peer_at(init, id);
        assert forall|i: int| 0 <= i < connections.len() && peer_at(connections, id) is None implies (
        #[trigger] connections[i]).id != id by {
            if i < init.len() {
                assert(init[i].id != id);
            }
        }
    }
}

/// A connection that is lost is gone, and the tools of an extension behind it are
/// gone with it.
pub proof fn lost_connections_are_gone(s: State, connection: Seq<char>, i: int)
    ensures
        0 <= i < disconnected(s, connection).connections.len() ==> disconnected(s, connection).connections[i].id
            != connection,
{
    reveal(disconnected);
    let s0 = without_context(s, connection);
    let s1 = context_lost(s0, connection);
    let s2 = calls_lost(s1, calls_of(s1.tool_providers, connection));
    let s3 = with_ext_state(s2, connection, ExtensionState::Disconnected);
    let s4 = State { clients: excluded(s3.clients, connection), ..s3 };
    lemma_peer_at(s4.connections, connection);
    lemma_peers_without(s4.connections, connection);
    if let Some(k) = peer_at(s4.connections, connection) {
        let peer = s4.connections[k];
        let s5 = State { connections: peers_without(s4.connections, connection), ..s4 };
        let t = State { registry: unregistered(s5.registry, connection), ..s5 };
        lemma_respawn_asked(ext_exited(t, peer.name), connection);
        lemma_respawn_asked(s5, connection);
    }
}

/// An extension that is lost provides no tool any more.
pub proof fn lost_extensions_provide_nothing(s: State, connection: Seq<char>, i: int)
    requires
        ({
            let s1 = context_lost(without_context(s, connection), connection);
            let s2 = calls_lost(s1, calls_of(s1.tool_providers, connection));
            peer_at(s2.connections, connection) matches Some(k) && s2.connections[k].origin
                != crate::event::ConnectionOrigin::Socket
        }),
    ensures
        0 <= i < disconnected(s, connection).registry.len() ==> disconnected(s, connection).registry[i].provider
            != connection,
{
    reveal(disconnected);
    let s0 = without_context(s, connection);
    let s1 = context_lost(s0, connection);
    let s2 = calls_lost(s1, calls_of(s1.tool_providers, connection));
    let s3 = with_ext_state(s2, connection, ExtensionState::Disconnected);
    let s4 = State { clients: excluded(s3.clients, connection), ..s3 };
    let k = peer_at(s4.connections, connection)->Some_0;
    let peer = s4.connections[k];
    let s5 = State { connections: peers_without(s4.connections, connection), ..s4 };
    let t = State { registry: unregistered(s5.registry, connection), ..s5 };
    lemma_unregistered(s5.registry, connection);
    lemma_respawn_asked(ext_exited(t, peer.name), connection);
}

} // verus!

//! What becomes of prompts, answers, tool calls and their outcomes in the harness: whose
//! they are, where they go and where they are kept.
use vstd::prelude::*;
use crate::assoc::{lookup, lookup_after_removed, lookup_after_stored, removed, stored};
use crate::cbor::{dict_entry, dict_text, any_entry, Cbor};
use crate::discovery::{Skill, SkillSource};
use crate::event::{
    event_name, is_tool_name, is_transient_event, AgentResponseFinished, AgentToolCall, Event, EventView,
    ToolSideEffects,
};
use crate::prompt::agents_message;
use crate::session::{branch_after_append, conversation, option_text, tree_of, Entry, Outcome};
use crate::skills::frontmatter_body;
use crate::state::{
    advanced, after_extension_event, agent_finished, call_begun, call_crossed_off, call_ids, call_lost, calls_queued,
    dispatched, drained, excluded, failed, failure, may_go, mutating_in_flight, normalized, outcome_kept, prompt_for,
    prompted, published, published_as, publishing_changes_the_log_alone, request_handled, set_up, skill_called,
    skill_result, submission, submitted, tool_at, tool_list, with_kept_entry, Call, EffectView, Logged, Registered,
    State, Turn,
};
use crate::text::decimal;

verus! {

broadcast use publishing_changes_the_log_alone;

/// The history of a session.
pub open spec fn history(s: State, session: Seq<char>) -> Seq<Entry> {
    tree_of(s.sessions, session).branch()
}

/// Whether all writing to the store will succeed and the heads of all sessions are
/// nodes of theirs.
pub open spec fn sound(s: State) -> bool {
    &&& s.writes.len() == 0
    &&& forall|id: Seq<char>| (#[trigger] tree_of(s.sessions, id)).wf()
}

/// The event that was published last.
pub open spec fn last_event(s: State) -> EventView {
    s.log.last().event
}

/// An entry that is kept stands at the end of its session's history and of no other, and
/// is to be written down.
pub proof fn entries_are_kept_in_their_session(s: State, session: Seq<char>, entry: Entry, other: Seq<char>)
    requires
        sound(s),
    ensures
        ({
            let t = with_kept_entry(s, session, entry);
            &&& t.error is None
            &&& sound(t.state)
            &&& history(t.state, session) == history(s, session).push(entry)
            &&& other != session ==> history(t.state, other) == history(s, other)
            &&& t.state.effects.last() == (EffectView::KeepEntry {
                session,
                node: tree_of(t.state.sessions, session).nodes.len() - 1,
            })
            &&& tree_of(t.state.sessions, session).head == Some(tree_of(t.state.sessions, session).nodes.len() - 1)
            &&& t.state == (State { sessions: t.state.sessions, effects: t.state.effects, ..s })
        }),
{
    let tree = tree_of(s.sessions, session);
    let t = with_kept_entry(s, session, entry);
    branch_after_append(tree, entry);
    lookup_after_stored(s.sessions, session, tree.appended(entry), session);
    lookup_after_stored(s.sessions, session, tree.appended(entry), other);
    assert forall|id: Seq<char>| (#[trigger] tree_of(t.state.sessions, id)).wf() by {
        lookup_after_stored(s.sessions, session, tree.appended(entry), id);
        assert(tree_of(s.sessions, id).wf());
    }
}

/// An entry that cannot be written down is kept nowhere.
pub proof fn entries_that_cannot_be_written_are_not_kept(s: State, session: Seq<char>, entry: Entry)
    requires
        s.writes.len() > 0,
        s.writes[0] is Some,
    ensures
        ({
            let t = with_kept_entry(s, session, entry);
            &&& t.error == s.writes[0]
            &&& t.state.sessions == s.sessions
            &&& t.state.effects == s.effects
        }),
{
}

/// A published event is logged with its source and handed out under its place in the log.
/// It is kept with its session unless it is transient.
pub proof fn published_events_are_logged(s: State, source: Option<Seq<char>>, event: EventView)
    ensures
        ({
            let after = published(s, source, event);
            &&& after.log == s.log.push(Logged { source, event })
            &&& after.effects.len() == s.effects.len() + 1
            &&& after.effects.last() matches EffectView::Publish { seq, .. } && after.log[seq] == (Logged { source, event })
            &&& after.effects.drop_last() == s.effects
            &&& is_transient_event(event) ==> after.kept == s.kept && after.effects.last()
                == (EffectView::Publish { seq: s.log.len() as int, session: None })
        }),
{
    reveal(published_as);
    assert(published(s, source, event).effects.drop_last() =~= s.effects);
}

/// What is said of a call is kept with the session of the call, and a prompt with the
/// session that it is for.
pub proof fn events_are_kept_with_their_session(
    s: State,
    source: Option<Seq<char>>,
    session: Seq<char>,
    text: Seq<char>,
    call_id: Seq<char>,
    tool_name: Seq<char>,
    value: Cbor,
)
    ensures
        ({
            let event = EventView::PromptSubmitted { session_id: session, text };
            !is_transient_event(event) ==> published(s, source, event).kept == s.kept.push((session, event_name(event)))
        }),
        ({
            let event = EventView::Request { call_id, tool_name, arguments: value };
            !is_transient_event(event) && lookup(s.tool_sessions, call_id) == Some(session) ==> published(s, source, event).kept
                == s.kept.push((session, event_name(event)))
        }),
        ({
            let event = EventView::Result { call_id, tool_name, result: value };
            !is_transient_event(event) && lookup(s.tool_sessions, call_id) == Some(session) ==> published(s, source, event).kept
                == s.kept.push((session, event_name(event)))
        }),
        ({
            let event = EventView::Error { call_id, tool_name, message: text, details: None };
            !is_transient_event(event) && lookup(s.tool_sessions, call_id) == Some(session) ==> published(s, source, event).kept
                == s.kept.push((session, event_name(event)))
        }),
{
    reveal(published_as);
}

/// A prompt for the agent is about the session that it is for: it holds that session's
/// history as a conversation, the tools that are registered, and the model and effort of
/// the harness. Its answer will be known as one for that session.
pub proof fn prompts_are_about_their_session(s: State, session: Seq<char>)
    ensures
        ({
            let after = prompted(s, session);
            &&& last_event(after) matches EventView::PromptCreated(p) && {
                &&& p.session_id == session
                &&& p.messages == conversation(history(s, session))
                &&& s.model.len() > 0 ==> p.model == Some(s.model)
                &&& s.model.len() == 0 ==> p.model is None
                &&& p.effort == s.effort
                &&& p.thinking_summary == s.thinking_summary
                &&& p.tools == tool_list(s.registry)
                &&& p.session_prompt_id == "sp-"@ + decimal(s.next_prompt as nat)
                &&& lookup(after.prompt_sessions, p.session_prompt_id) == Some(session)
            }
            &&& after.next_prompt == s.next_prompt + 1
            &&& after.sessions == s.sessions
            &&& after.log.drop_last() == s.log
        }),
{
    reveal(prompt_for);
    lookup_after_stored(
        s.prompt_sessions,
        prompt_for(s, session).session_prompt_id,
        session,
        prompt_for(s, session).session_prompt_id,
    );
    assert(prompted(s, session).log.drop_last() =~= s.log);
}

/// A prompt of the user that goes to the agent is announced, stands at the end of its
/// session's history, and is the last message that the agent gets; it is the agent's turn
/// in that session.
pub proof fn prompts_reach_the_agent(s: State, session: Seq<char>, text: Seq<char>, other: Seq<char>)
    requires
        sound(s),
    ensures
        ({
            let t = dispatched(s, session, text);
            &&& t.error is None
            &&& history(t.state, session) == history(s, session).push(Entry::User(text))
            &&& other != session ==> history(t.state, other) == history(s, other)
            &&& t.state.turn == Turn::Thinking { session }
            &&& t.state.log.len() == s.log.len() + 2
            &&& t.state.log[s.log.len() as int].event == (EventView::PromptSubmitted { session_id: session, text })
            &&& last_event(t.state) matches EventView::PromptCreated(p) && p.session_id == session && p.messages
                == conversation(history(s, session).push(Entry::User(text)))
        }),
{
    let s1 = published(s, None, EventView::PromptSubmitted { session_id: session, text });
    entries_are_kept_in_their_session(s1, session, Entry::User(text), other);
    let t = with_kept_entry(s1, session, Entry::User(text));
    prompts_are_about_their_session(State { turn: Turn::Thinking { session }, ..t.state }, session);
}

/// A prompt that can go, goes; one that cannot go yet waits behind those that wait.
pub proof fn prompts_go_or_wait(s: State, text: Seq<char>)
    requires
        sound(s),
    ensures
        submission(s, s.current) is Dispatched ==> submitted(s, s.current, text) == dispatched(s, s.current, text),
        submission(s, s.current) is Queued && !(s.turn is Idle) ==> submitted(s, s.current, text).state.pending_prompts
            == s.pending_prompts.push((s.current, text)) && submitted(s, s.current, text).state.sessions == s.sessions,
        s.model.len() == 0 || !(s.turn is Idle) ==> submission(s, s.current) is Queued,
        s.model.len() > 0 && s.turn is Idle && crate::state::all_ready(s) && s.initialized.contains(s.current)
            ==> submission(s, s.current) is Dispatched,
{
}

/// The first prompt that waits goes first, to its own session.
pub proof fn waiting_prompts_go_in_order(s: State)
    requires
        sound(s),
        s.pending_prompts.len() > 0,
        s.turn is Idle,
        crate::state::all_ready(s),
        s.model.len() > 0,
        s.initialized.contains(s.pending_prompts[0].0),
    ensures
        ({
            let after = advanced(s);
            let (session, text) = s.pending_prompts[0];
            &&& after.pending_prompts == s.pending_prompts.drop_first()
            &&& history(after, session) == history(s, session).push(Entry::User(text))
            &&& after.turn == Turn::Thinking { session }
            &&& last_event(after) matches EventView::PromptCreated(p) && p.session_id == session
        }),
{
    let rest = State { pending_prompts: s.pending_prompts.drop_first(), ..s };
    let (session, text) = s.pending_prompts[0];
    prompts_reach_the_agent(rest, session, text, session);
}

/// The agent's answer stands in the history of the session that was asked, with its text
/// and its reasoning. Without tool calls it is the user's turn again, and the prompt is
/// answered once and for all.
pub proof fn answers_are_kept_in_their_session(
    s: State,
    r: AgentResponseFinished,
    session: Seq<char>,
    other: Seq<char>,
)
    requires
        sound(s),
        lookup(s.prompt_sessions, r.session_prompt_id@) == Some(session),
        r.text is Some,
        r.tool_calls@.len() == 0,
        s.pending_prompts.len() == 0,
        r.input_tokens is None,
        r.cached_tokens is None,
    ensures
        ({
            let t = agent_finished(s, r);
            &&& t.error is None
            &&& history(t.state, session) == history(s, session).push(
                Entry::Agent { text: r.text->Some_0@, thinking: option_text(r.thinking) },
            )
            &&& other != session ==> history(t.state, other) == history(s, other)
            &&& t.state.turn is Idle
            &&& lookup(t.state.prompt_sessions, r.session_prompt_id@) is None
            &&& t.state.completed.contains(r.session_prompt_id@)
            &&& t.state.log.len() == s.log.len() + 1
            &&& last_event(t.state) == Event::AgentResponseFinished(r)@
        }),
{
    reveal(agent_finished);
    let s2 = published(s, None, Event::AgentResponseFinished(r)@);
    let s3 = State {
        prompt_sessions: removed(s2.prompt_sessions, r.session_prompt_id@),
        completed: crate::state::included(s2.completed, r.session_prompt_id@),
        ..s2
    };
    if !s.completed.contains(r.session_prompt_id@) {
        assert(s3.completed[s.completed.len() as int] == r.session_prompt_id@);
    }
    lookup_after_removed(s.prompt_sessions, r.session_prompt_id@, r.session_prompt_id@);
    entries_are_kept_in_their_session(
        s3,
        session,
        Entry::Agent { text: r.text->Some_0@, thinking: option_text(r.thinking) },
        other,
    );
}

/// The calls that the agent asks for are queued one by one: each with its own name,
/// arguments and id, for the session of the answer. Only a missing id is made up.
pub proof fn calls_are_taken_over(s: State, session: Seq<char>, calls: Seq<AgentToolCall>, n: nat, i: int)
    requires
        0 <= i < n <= calls.len(),
    ensures
        normalized(s, session, calls, n).0.len() == n,
        ({
            let call = normalized(s, session, calls, n).0[i];
            &&& calls[i].id@.len() > 0 ==> call.id == calls[i].id@
            &&& call.name == calls[i].name.raw()
            &&& call.arguments == calls[i].arguments@
            &&& call.session == session
            &&& match tool_at(s.registry, call.name) {
                Some(k) => call.kind == s.registry[k].side_effects,
                None => call.kind == ToolSideEffects::Mutating,
            }
        }),
    decreases n,
{
    crate::laws::queued_calls_have_ids(s, session, calls, n);
    crate::laws::queued_calls_have_ids(s, session, calls, (n - 1) as nat);
    if i < n - 1 {
        calls_are_taken_over(s, session, calls, (n - 1) as nat, i);
    }
}

/// While a call that changes something is on its way, all calls wait: the new ones behind
/// the old ones, and the turn lasts until each of them has an outcome.
pub proof fn calls_wait_for_a_change(s: State, session: Seq<char>, calls: Seq<AgentToolCall>)
    requires
        mutating_in_flight(s.in_flight),
    ensures
        ({
            let queue = normalized(s, session, calls, calls.len()).0;
            let t = calls_queued(s, session, calls);
            &&& t.error is None
            &&& t.state.pending_calls == s.pending_calls + queue
            &&& t.state.turn == (Turn::Running { session, remaining: queue.map_values(|c: Call| c.id) })
            &&& t.state.in_flight == s.in_flight
            &&& t.state.log == s.log
        }),
{
    let (queue, next) = normalized(s, session, calls, calls.len());
    let asked = State {
        next_synthetic: next,
        turn: Turn::Running { session, remaining: call_ids(queue) },
        pending_calls: s.pending_calls + queue,
        ..s
    };
    let i = choose|i: int| 0 <= i < s.in_flight.len() && (#[trigger] s.in_flight[i]).1 == ToolSideEffects::Mutating;
    assert(s.in_flight[i].1 == ToolSideEffects::Mutating);
    reveal_with_fuel(drained, 1);
    assert(queue.map_values(|c: Call| c.id) =~= call_ids(queue));
}

/// The position of a tool is that of its first registration.
pub proof fn tools_are_found_where_they_stand_first(registry: Seq<Registered>, name: Seq<char>)
    ensures
        match tool_at(registry, name) {
            Some(i) => 0 <= i < registry.len() && registry[i].name == name && forall|j: int|
                0 <= j < i ==> (#[trigger] registry[j]).name != name,
            None => forall|j: int| 0 <= j < registry.len() ==> (#[trigger] registry[j]).name != name,
        },
    decreases registry.len(),
{
    if registry.len() > 0 {
        let short = registry.drop_last();
        tools_are_found_where_they_stand_first(short, name);
        match tool_at(short, name) {
            Some(i) => {
                assert(short[i] == registry[i]);
                assert forall|j: int| 0 <= j < i implies (#[trigger] registry[j]).name != name by {
                    assert(short[j] == registry[j]);
                }
            },
            None => {
                assert forall|j: int| 0 <= j < registry.len() - 1 implies (#[trigger] registry[j]).name != name by {
                    assert(short[j] == registry[j]);
                }
            },
        }
    }
}

/// A call of a tool that a connection provides stands in the history of its session and
/// goes to that connection, with its id, its name and its arguments; the harness knows
/// whose call it is and who is at work on it.
pub proof fn calls_go_to_their_provider(s: State, call: Call, i: int, other: Seq<char>)
    requires
        sound(s),
        is_tool_name(call.name),
        call.name != "skill"@,
        0 <= i < s.registry.len(),
        s.registry[i].name == call.name,
        forall|j: int| 0 <= j < i ==> (#[trigger] s.registry[j]).name != call.name,
    ensures
        ({
            let (t, over) = call_begun(s, call);
            let request = EventView::Request {
                call_id: call.id,
                tool_name: call.name,
                arguments: call.arguments,
            };
            &&& t.error is None
            &&& !over
            &&& history(t.state, call.session) == history(s, call.session).push(
                Entry::Tool { call_id: call.id, tool_name: call.name, outcome: Outcome::Requested(call.arguments) },
            )
            &&& other != call.session ==> history(t.state, other) == history(s, other)
            &&& t.state.log.len() == s.log.len() + 1
            &&& last_event(t.state) == request
            &&& t.state.effects.last() == (EffectView::Route { to: s.registry[i].provider, seq: s.log.len() as int })
            &&& lookup(t.state.tool_sessions, call.id) == Some(call.session)
            &&& lookup(t.state.tool_names, call.id) == Some(call.name)
            &&& lookup(t.state.tool_providers, call.id) == Some(s.registry[i].provider)
        }),
{
    reveal(call_begun);
    let entry = Entry::Tool { call_id: call.id, tool_name: call.name, outcome: Outcome::Requested(call.arguments) };
    entries_are_kept_in_their_session(s, call.session, entry, other);
    tools_are_found_where_they_stand_first(s.registry, call.name);
    let k = tool_at(s.registry, call.name)->Some_0;
    assert(k == i) by {
        if k < i {
            assert(s.registry[k].name != call.name);
        }
        if i < k {
            assert(s.registry[i].name == call.name);
        }
    }
    lookup_after_stored(s.tool_sessions, call.id, call.session, call.id);
    lookup_after_stored(s.tool_names, call.id, call.name, call.id);
    lookup_after_stored(s.tool_providers, call.id, s.registry[i].provider, call.id);
}

/// The outcome of a call stands in the history of the session that made the call, under
/// the id of the call, and the harness knows nothing of the call any more.
pub proof fn outcomes_are_kept_in_their_session(
    s: State,
    call_id: Seq<char>,
    tool_name: Seq<char>,
    outcome: Outcome,
    session: Seq<char>,
    other: Seq<char>,
)
    requires
        sound(s),
        lookup(s.tool_sessions, call_id) == Some(session),
    ensures
        ({
            let t = outcome_kept(s, call_id, tool_name, outcome);
            &&& t.error is None
            &&& sound(t.state)
            &&& history(t.state, session) == history(s, session).push(Entry::Tool { call_id, tool_name, outcome })
            &&& other != session ==> history(t.state, other) == history(s, other)
            &&& lookup(t.state.tool_sessions, call_id) is None
            &&& lookup(t.state.tool_names, call_id) is None
            &&& lookup(t.state.tool_providers, call_id) is None
            &&& t.state.log == s.log
        }),
{
    let forgotten = State {
        tool_sessions: removed(s.tool_sessions, call_id),
        tool_names: removed(s.tool_names, call_id),
        tool_providers: removed(s.tool_providers, call_id),
        ..s
    };
    lookup_after_removed(s.tool_sessions, call_id, call_id);
    lookup_after_removed(s.tool_names, call_id, call_id);
    lookup_after_removed(s.tool_providers, call_id, call_id);
    entries_are_kept_in_their_session(forgotten, session, Entry::Tool { call_id, tool_name, outcome }, other);
}

/// A call of a tool that nobody provides fails at once: the request and the failure stand
/// in the history of its session, under its id.
pub proof fn calls_without_a_provider_fail(s: State, call: Call)
    requires
        sound(s),
        is_tool_name(call.name),
        call.name != "skill"@,
        forall|j: int| 0 <= j < s.registry.len() ==> (#[trigger] s.registry[j]).name != call.name,
    ensures
        ({
            let (t, over) = call_begun(s, call);
            &&& over
            &&& t.error is None
            &&& history(t.state, call.session) == history(s, call.session).push(
                Entry::Tool { call_id: call.id, tool_name: call.name, outcome: Outcome::Requested(call.arguments) },
            ).push(
                Entry::Tool {
                    call_id: call.id,
                    tool_name: call.name,
                    outcome: Outcome::Error { message: "no live provider available"@, details: None },
                },
            )
            &&& lookup(t.state.tool_sessions, call.id) is None
        }),
{
    reveal(call_begun);
    let entry = Entry::Tool { call_id: call.id, tool_name: call.name, outcome: Outcome::Requested(call.arguments) };
    entries_are_kept_in_their_session(s, call.session, entry, call.session);
    tools_are_found_where_they_stand_first(s.registry, call.name);
    lookup_after_stored(s.tool_sessions, call.id, call.session, call.id);
    let s1 = with_kept_entry(s, call.session, entry).state;
    let s2 = published(
        State {
            tool_sessions: stored(s1.tool_sessions, call.id, call.session),
            tool_names: stored(s1.tool_names, call.id, call.name),
            ..s1
        },
        None,
        EventView::Request { call_id: call.id, tool_name: call.name, arguments: call.arguments },
    );
    assert(sound(s2));
    outcomes_are_kept_in_their_session(
        s2,
        call.id,
        call.name,
        failed("no live provider available"@),
        call.session,
        call.session,
    );
}

/// A call of the skill tool is answered with the text of the skill that it names: the
/// request and the result stand in the history of its session, under its id, and the
/// result is announced.
pub proof fn skill_calls_return_the_skill(s: State, call: Call, skill: Skill, name: Seq<char>, content: Seq<char>)
    requires
        sound(s),
        dict_text(call.arguments, "name"@) == Some(name),
        lookup(s.skills, name) == Some(skill),
        match skill.source {
            SkillSource::File(path) => lookup(s.skill_texts, path) == Some(Ok::<Seq<char>, Seq<char>>(content)),
            SkillSource::BuiltIn(own) => own == content,
        },
    ensures
        ({
            let t = skill_called(s, call);
            &&& t.error is None
            &&& last_event(t.state) matches EventView::Result { call_id, tool_name, result } && {
                &&& call_id == call.id
                &&& tool_name == "skill"@
                &&& dict_entry(result, "name"@) == Some(Cbor::Text(name))
                &&& dict_entry(result, "content"@) == Some(Cbor::Text(frontmatter_body(content)))
                &&& history(t.state, call.session) == history(s, call.session).push(
                    Entry::Tool { call_id: call.id, tool_name: "skill"@, outcome: Outcome::Requested(call.arguments) },
                ).push(Entry::Tool { call_id: call.id, tool_name: "skill"@, outcome: Outcome::Result(result) })
            }
            &&& lookup(t.state.tool_sessions, call.id) is None
        }),
{
    let entry = Entry::Tool { call_id: call.id, tool_name: "skill"@, outcome: Outcome::Requested(call.arguments) };
    entries_are_kept_in_their_session(s, call.session, entry, call.session);
    lookup_after_stored(s.tool_sessions, call.id, call.session, call.id);
    let s1 = with_kept_entry(s, call.session, entry).state;
    let s2 = State { tool_sessions: stored(s1.tool_sessions, call.id, call.session), ..s1 };
    let result = skill_result(name, frontmatter_body(content));
    let s3 = published(s2, None, EventView::Result { call_id: call.id, tool_name: "skill"@, result });
    assert(sound(s3));
    outcomes_are_kept_in_their_session(s3, call.id, "skill"@, Outcome::Result(result), call.session, call.session);
    reveal_strlit("name");
    reveal_strlit("content");
    assert("name"@.len() == 4 && "content"@.len() == 7);
    reveal_with_fuel(any_entry, 3);
    assert(result->Dict_0.drop_first()[0] == result->Dict_0[1]);
}

/// A call of the skill tool that names no known skill, or one that cannot be read, is
/// answered with an error under its id.
pub proof fn failed_skill_calls_say_why(s: State, call: Call)
    requires
        sound(s),
        dict_text(call.arguments, "name"@) matches Some(name) ==> match lookup(s.skills, name) {
            Some(skill) => skill.source matches SkillSource::File(path) && lookup(s.skill_texts, path) matches Some(
                Err(_),
            ),
            None => true,
        },
    ensures
        ({
            let t = skill_called(s, call);
            let reason = match dict_text(call.arguments, "name"@) {
                Some(name) => match lookup(s.skills, name) {
                    Some(skill) => "failed to read skill file: "@ + lookup(
                        s.skill_texts,
                        skill.source->File_0,
                    )->Some_0->Err_0,
                    None => "unknown skill: "@ + name,
                },
                None => "missing required argument: name"@,
            };
            &&& t.error is None
            &&& last_event(t.state) == (EventView::Error {
                call_id: call.id,
                tool_name: "skill"@,
                message: reason,
                details: None,
            })
            &&& history(t.state, call.session) == history(s, call.session).push(
                Entry::Tool { call_id: call.id, tool_name: "skill"@, outcome: Outcome::Requested(call.arguments) },
            ).push(
                Entry::Tool {
                    call_id: call.id,
                    tool_name: "skill"@,
                    outcome: Outcome::Error { message: reason, details: None },
                },
            )
        }),
{
    let entry = Entry::Tool { call_id: call.id, tool_name: "skill"@, outcome: Outcome::Requested(call.arguments) };
    entries_are_kept_in_their_session(s, call.session, entry, call.session);
    lookup_after_stored(s.tool_sessions, call.id, call.session, call.id);
    let s1 = with_kept_entry(s, call.session, entry).state;
    let s2 = State { tool_sessions: stored(s1.tool_sessions, call.id, call.session), ..s1 };
    let reason = match dict_text(call.arguments, "name"@) {
        Some(name) => match lookup(s.skills, name) {
            Some(skill) => "failed to read skill file: "@ + lookup(
                s.skill_texts,
                skill.source->File_0,
            )->Some_0->Err_0,
            None => "unknown skill: "@ + name,
        },
        None => "missing required argument: name"@,
    };
    let s3 = published(s2, None, failure(call.id, "skill"@, reason));
    assert(sound(s3));
    outcomes_are_kept_in_their_session(s3, call.id, "skill"@, failed(reason), call.session, call.session);
}

proof fn lemma_excluded(list: Seq<Seq<char>>, text: Seq<char>)
    ensures
        !excluded(list, text).contains(text),
        forall|x: Seq<char>| x != text ==> (#[trigger] excluded(list, text).contains(x) <==> list.contains(x)),
        excluded(list, text).len() <= list.len(),
    decreases list.len(),
{
    if list.len() > 0 {
        let short = list.drop_last();
        lemma_excluded(short, text);
        let kept = excluded(short, text);
        assert forall|x: Seq<char>| x != text implies (#[trigger] excluded(list, text).contains(x) <==> list.contains(x)) by {
            if list.contains(x) && x != list.last() {
                let i = choose|i: int| 0 <= i < list.len() && list[i] == x;
                assert(short[i] == x);
                assert(kept.contains(x));
                let k = choose|k: int| 0 <= k < kept.len() && kept[k] == x;
                assert(excluded(list, text)[k] == x);
            }
            if list.contains(x) && x == list.last() {
                assert(excluded(list, text)[kept.len() as int] == x);
            }
            if excluded(list, text).contains(x) {
                let k = choose|k: int| 0 <= k < excluded(list, text).len() && excluded(list, text)[k] == x;
                if k < kept.len() {
                    assert(kept[k] == x);
                    assert(kept.contains(x));
                    assert(short.contains(x));
                    let i = choose|i: int| 0 <= i < short.len() && short[i] == x;
                    assert(list[i] == x);
                } else {
                    assert(list[list.len() - 1] == x);
                }
            }
        }
        if excluded(list, text).contains(text) {
            let k = choose|k: int| 0 <= k < excluded(list, text).len() && excluded(list, text)[k] == text;
            assert(kept[k] == text);
            assert(kept.contains(text));
        }
    }
}

/// The turn lasts as long as a call of it has no outcome. With the last one it is the
/// agent's turn again, which is prompted for the session of the turn.
pub proof fn turns_last_until_the_last_outcome(s: State, call_id: Seq<char>, session: Seq<char>, remaining: Seq<Seq<char>>)
    requires
        s.turn == (Turn::Running { session, remaining }),
    ensures
        ({
            let after = call_crossed_off(s, call_id);
            let others = exists|x: Seq<char>| #[trigger] remaining.contains(x) && x != call_id;
            &&& others ==> after.log == s.log && after.turn is Running && after.turn->Running_session == session
                && !after.turn->remaining.contains(call_id)
            &&& others ==> forall|x: Seq<char>|
                x != call_id ==> (#[trigger] after.turn->remaining.contains(x) <==> remaining.contains(x))
            &&& !others ==> after.turn == (Turn::Thinking { session })
            &&& !others ==> (last_event(after) matches EventView::PromptCreated(p) && p.session_id == session && p.messages
                == conversation(history(s, session)))
        }),
{
    lemma_excluded(remaining, call_id);
    let left = excluded(remaining, call_id);
    if left.len() == 0 {
        prompts_are_about_their_session(State { turn: Turn::Thinking { session }, ..s }, session);
        assert forall|x: Seq<char>| #[trigger] remaining.contains(x) implies x == call_id by {
            if x != call_id {
                assert(left.contains(x));
            }
        }
    } else {
        assert(left.contains(left[0]));
        assert(remaining.contains(left[0]));
        assert(left[0] != call_id);
    }
}

/// The result of a call stands in the history of the session that made the call, under
/// the id of the call, and is announced as it came.
pub proof fn results_are_kept_under_their_call(
    s: State,
    source: Seq<char>,
    call_id: Seq<char>,
    tool_name: Seq<char>,
    result: Cbor,
    session: Seq<char>,
    other: Seq<char>,
)
    requires
        sound(s),
        s.pending_calls.len() == 0,
        lookup(s.tool_sessions, call_id) == Some(session),
    ensures
        ({
            let event = EventView::Result { call_id, tool_name, result };
            let t = after_extension_event(s, source, event);
            &&& t.error is None
            &&& history(t.state, session) == history(s, session).push(
                Entry::Tool { call_id, tool_name, outcome: Outcome::Result(result) },
            )
            &&& other != session ==> history(t.state, other) == history(s, other)
            &&& t.state.log[s.log.len() as int] == (Logged { source: Some(source), event })
            &&& lookup(t.state.tool_sessions, call_id) is None
            &&& lookup(t.state.in_flight, call_id) is None
        }),
{
    let event = EventView::Result { call_id, tool_name, result };
    let s1 = published(s, Some(source), event);
    assert(sound(s1));
    outcomes_are_kept_in_their_session(s1, call_id, tool_name, Outcome::Result(result), session, other);
    let s2 = outcome_kept(s1, call_id, tool_name, Outcome::Result(result)).state;
    lookup_after_removed(s2.in_flight, call_id, call_id);
    reveal_with_fuel(drained, 1);
}

/// The failure of a call stands in the history of the session that made the call, under
/// the id of the call, and is announced as it came.
pub proof fn failures_are_kept_under_their_call(
    s: State,
    source: Seq<char>,
    call_id: Seq<char>,
    tool_name: Seq<char>,
    message: Seq<char>,
    details: Option<Cbor>,
    session: Seq<char>,
    other: Seq<char>,
)
    requires
        sound(s),
        s.pending_calls.len() == 0,
        lookup(s.tool_sessions, call_id) == Some(session),
    ensures
        ({
            let event = EventView::Error { call_id, tool_name, message, details };
            let t = after_extension_event(s, source, event);
            &&& t.error is None
            &&& history(t.state, session) == history(s, session).push(
                Entry::Tool { call_id, tool_name, outcome: Outcome::Error { message, details } },
            )
            &&& other != session ==> history(t.state, other) == history(s, other)
            &&& t.state.log[s.log.len() as int] == (Logged { source: Some(source), event })
            &&& lookup(t.state.tool_sessions, call_id) is None
            &&& lookup(t.state.in_flight, call_id) is None
        }),
{
    let event = EventView::Error { call_id, tool_name, message, details };
    let s1 = published(s, Some(source), event);
    assert(sound(s1));
    outcomes_are_kept_in_their_session(s1, call_id, tool_name, Outcome::Error { message, details }, session, other);
    let s2 = outcome_kept(s1, call_id, tool_name, Outcome::Error { message, details }).state;
    lookup_after_removed(s2.in_flight, call_id, call_id);
    reveal_with_fuel(drained, 1);
}

/// A call whose provider is lost fails in the history of its session under its id and
/// name.
pub proof fn lost_calls_fail_in_their_session(s: State, call_id: Seq<char>, tool_name: Seq<char>, session: Seq<char>)
    requires
        sound(s),
        s.pending_calls.len() == 0,
        lookup(s.tool_sessions, call_id) == Some(session),
        lookup(s.tool_names, call_id) == Some(tool_name),
    ensures
        ({
            let after = call_lost(s, call_id);
            let message = "tool provider disconnected"@;
            &&& history(after, session) == history(s, session).push(
                Entry::Tool { call_id, tool_name, outcome: Outcome::Error { message, details: None } },
            )
            &&& after.log[s.log.len() as int].event == (EventView::Error { call_id, tool_name, message, details: None })
            &&& lookup(after.tool_sessions, call_id) is None
            &&& lookup(after.tool_providers, call_id) is None
            &&& lookup(after.in_flight, call_id) is None
        }),
{
    let s1 = State {
        tool_names: removed(s.tool_names, call_id),
        tool_providers: removed(s.tool_providers, call_id),
        ..s
    };
    assert(sound(s1));
    let message = "tool provider disconnected"@;
    outcomes_are_kept_in_their_session(s1, call_id, tool_name, failed(message), session, session);
    let s2 = outcome_kept(s1, call_id, tool_name, failed(message)).state;
    lookup_after_removed(s2.in_flight, call_id, call_id);
    reveal_with_fuel(drained, 1);
}

/// A request of an extension belongs to the session that is next in line. It stands in
/// that session's history and goes to the connection that provides the tool.
pub proof fn requests_go_to_the_provider(
    s: State,
    source: Seq<char>,
    call_id: Seq<char>,
    tool_name: Seq<char>,
    arguments: Cbor,
    i: int,
)
    requires
        sound(s),
        s.request_sessions.len() > 0,
        tool_at(s.registry, tool_name) == Some(i),
    ensures
        ({
            let t = request_handled(s, source, call_id, tool_name, arguments);
            let session = s.request_sessions[0];
            &&& t.error is None
            &&& t.state.request_sessions == s.request_sessions.drop_first()
            &&& history(t.state, session) == history(s, session).push(
                Entry::Tool { call_id, tool_name, outcome: Outcome::Requested(arguments) },
            )
            &&& t.state.log.last() == (Logged {
                source: Some(source),
                event: EventView::Request { call_id, tool_name, arguments },
            })
            &&& t.state.effects.last() == (EffectView::Route { to: s.registry[i].provider, seq: s.log.len() as int })
            &&& lookup(t.state.tool_sessions, call_id) == Some(session)
            &&& lookup(t.state.tool_providers, call_id) == Some(s.registry[i].provider)
        }),
{
    reveal(request_handled);
    let session = s.request_sessions[0];
    let s1 = State {
        request_sessions: s.request_sessions.drop_first(),
        tool_sessions: stored(s.tool_sessions, call_id, session),
        tool_names: stored(s.tool_names, call_id, tool_name),
        ..s
    };
    assert(sound(s1));
    entries_are_kept_in_their_session(
        s1,
        session,
        Entry::Tool { call_id, tool_name, outcome: Outcome::Requested(arguments) },
        session,
    );
    lookup_after_stored(s.tool_sessions, call_id, session, call_id);
    lookup_after_stored(s.tool_providers, call_id, s.registry[i].provider, call_id);
}

/// A call that changes nothing may go where nothing that is on its way changes anything;
/// one that does may go where nothing is on its way.
pub proof fn changes_go_alone(in_flight: Seq<(Seq<char>, ToolSideEffects)>)
    ensures
        may_go(in_flight, ToolSideEffects::Mutating) <==> in_flight.len() == 0,
        may_go(in_flight, ToolSideEffects::Pure) <==> forall|i: int|
            0 <= i < in_flight.len() ==> (#[trigger] in_flight[i]).1 == ToolSideEffects::Pure,
{
    if !may_go(in_flight, ToolSideEffects::Pure) {
        let i = choose|i: int| 0 <= i < in_flight.len() && (#[trigger] in_flight[i]).1 == ToolSideEffects::Mutating;
        assert(in_flight[i].1 != ToolSideEffects::Pure);
    }
}

/// A session is set up with the instruction files in its history, as one message of the
/// user; without files its history stays.
pub proof fn sessions_begin_with_their_files(s: State, session: Seq<char>)
    requires
        sound(s),
    ensures
        ({
            let t = set_up(s, session);
            &&& t.error is None
            &&& t.state.initialized.contains(session)
            &&& t.state.turn is Idle
            &&& s.files.len() == 0 ==> history(t.state, session) == history(s, session)
            &&& s.files.len() > 0 ==> history(t.state, session) == history(s, session).push(
                Entry::User(agents_message(s.files)),
            )
        }),
{
    entries_are_kept_in_their_session(s, session, Entry::User(agents_message(s.files)), session);
    if !s.initialized.contains(session) {
        assert(s.initialized.push(session)[s.initialized.len() as int] == session);
    }
}

/// The outcome of a call that no session is known to have made stands in the history of
/// the default session.
pub proof fn outcomes_of_unknown_calls_are_kept(
    s: State,
    call_id: Seq<char>,
    tool_name: Seq<char>,
    outcome: Outcome,
    other: Seq<char>,
)
    requires
        sound(s),
        lookup(s.tool_sessions, call_id) is None,
    ensures
        ({
            let t = outcome_kept(s, call_id, tool_name, outcome);
            &&& t.error is None
            &&& history(t.state, "default"@) == history(s, "default"@).push(
                Entry::Tool { call_id, tool_name, outcome },
            )
            &&& other != "default"@ ==> history(t.state, other) == history(s, other)
            &&& t.state.log == s.log
        }),
{
    let forgotten = State {
        tool_sessions: removed(s.tool_sessions, call_id),
        tool_names: removed(s.tool_names, call_id),
        tool_providers: removed(s.tool_providers, call_id),
        ..s
    };
    entries_are_kept_in_their_session(forgotten, "default"@, Entry::Tool { call_id, tool_name, outcome }, other);
}

} // verus!

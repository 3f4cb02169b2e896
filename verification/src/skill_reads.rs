//! Which files of skills are read: those of the calls that go on their way, and no
//! others.
//!
//! The harness is handed what reading these files gave before it handles anything.
//! Whatever else it was handed makes no difference.
use vstd::prelude::*;
use vstd::string::*;
use crate::assoc::{lookup, removed, stored};
use crate::discovery::Skill;
use crate::event::{AgentResponseFinished, AgentToolCall, Event, EventView};
use crate::handlers::{file_of_call, files_of_answer, files_of_waiting};
use crate::session::{option_text, Entry};
use crate::state::{
    advanced, agent_finished, all_ready, call_begun, call_crossed_off, call_finished, call_ids, calls_queued,
    dispatched, done, draining_reported, drained, front_dispatched, included, may_go, normalized, prompt_for, prompted,
    published, published_as, set_up, setup_peers, usage_percent, usage_reported, with_kept_entry, without_contexts,
    Call, State, Tried, Turn,
};

verus! {

/// What reading files gave, by their paths.
pub type Reads = Seq<(Seq<char>, Result<Seq<char>, Seq<char>>)>;

/// The state with other texts of skills at hand.
pub open spec fn retold(s: State, reads: Reads) -> State {
    State { skill_texts: reads, ..s }
}

/// What was tried with other texts of skills at hand.
pub open spec fn tried_retold(t: Tried, reads: Reads) -> Tried {
    Tried { state: retold(t.state, reads), error: t.error }
}

/// Whether reading the files at these paths gave the same.
pub open spec fn read_alike(a: Reads, b: Reads, paths: Seq<Seq<char>>) -> bool {
    forall|path: Seq<char>| paths.contains(path) ==> #[trigger] lookup(a, path) == lookup(b, path)
}

/// Whether a call finds its skill alike.
pub open spec fn call_reads_alike(a: Reads, b: Reads, skills: Seq<(Seq<char>, Skill)>, call: Call) -> bool {
    match file_of_call(skills, call.name, call.arguments) {
        Some(path) => lookup(a, path) == lookup(b, path),
        None => true,
    }
}

/// Whether calls find their skills alike.
pub open spec fn calls_read_alike(a: Reads, b: Reads, skills: Seq<(Seq<char>, Skill)>, calls: Seq<Call>) -> bool {
    forall|i: int| 0 <= i < calls.len() ==> call_reads_alike(a, b, skills, #[trigger] calls[i])
}

proof fn lemma_published(s: State, reads: Reads, source: Option<Seq<char>>, event: EventView)
    ensures
        published(retold(s, reads), source, event) == retold(published(s, source, event), reads),
{
    reveal(published_as);
}

proof fn lemma_prompted(s: State, reads: Reads, session: Seq<char>)
    ensures
        prompted(retold(s, reads), session) == retold(prompted(s, session), reads),
{
    let p = prompt_for(s, session);
    assert(prompt_for(retold(s, reads), session) == p) by {
        reveal(prompt_for);
    }
    lemma_published(
        State {
            prompt_sessions: stored(s.prompt_sessions, p.session_prompt_id, session),
            next_prompt: s.next_prompt + 1,
            ..s
        },
        reads,
        None,
        EventView::PromptCreated(p),
    );
}

proof fn lemma_dispatched(s: State, reads: Reads, session: Seq<char>, text: Seq<char>)
    ensures
        dispatched(retold(s, reads), session, text) == tried_retold(dispatched(s, session, text), reads),
{
    let submitted = EventView::PromptSubmitted { session_id: session, text };
    lemma_published(s, reads, None, submitted);
    let t = with_kept_entry(published(s, None, submitted), session, Entry::User(text));
    lemma_prompted(State { turn: Turn::Thinking { session }, ..t.state }, reads, session);
}

proof fn lemma_front_dispatched(s: State, reads: Reads)
    ensures
        front_dispatched(retold(s, reads)) == retold(front_dispatched(s), reads),
{
    let s1 = State { pending_prompts: s.pending_prompts.drop_first(), ..s };
    lemma_dispatched(s1, reads, s.pending_prompts[0].0, s.pending_prompts[0].1);
    assert(retold(s1, reads) == (State {
        pending_prompts: s.pending_prompts.drop_first(),
        ..retold(s, reads)
    }));
    reveal(published_as);
}

proof fn lemma_without_contexts(s: State, reads: Reads, sources: Seq<Seq<char>>)
    ensures
        without_contexts(retold(s, reads), sources) == retold(without_contexts(s, sources), reads),
    decreases sources.len(),
{
    if sources.len() > 0 {
        lemma_without_contexts(s, reads, sources.drop_last());
    }
}

proof fn lemma_advanced(s: State, reads: Reads)
    ensures
        advanced(retold(s, reads)) == retold(advanced(s), reads),
{
    if s.turn is Idle && all_ready(s) && s.pending_prompts.len() > 0 {
        let session = s.pending_prompts[0].0;
        let t = set_up(s, session);
        lemma_front_dispatched(s, reads);
        assert(set_up(retold(s, reads), session) == tried_retold(t, reads));
        lemma_front_dispatched(t.state, reads);
        lemma_without_contexts(s, reads, setup_peers(s.connections));
        reveal(published_as);
    }
}

proof fn lemma_begun(s: State, reads: Reads, call: Call)
    requires
        call_reads_alike(s.skill_texts, reads, s.skills, call),
    ensures
        call_begun(retold(s, reads), call).0 == tried_retold(call_begun(s, call).0, reads),
        call_begun(retold(s, reads), call).1 == call_begun(s, call).1,
        call_begun(s, call).0.state.skills == s.skills,
        call_begun(s, call).0.state.skill_texts == s.skill_texts,
{
    reveal(call_begun);
    reveal(published_as);
}

proof fn lemma_crossed_off(s: State, reads: Reads, call_id: Seq<char>)
    ensures
        call_crossed_off(retold(s, reads), call_id) == retold(call_crossed_off(s, call_id), reads),
        call_crossed_off(s, call_id).skills == s.skills,
        call_crossed_off(s, call_id).skill_texts == s.skill_texts,
        call_crossed_off(s, call_id).pending_calls == s.pending_calls,
{
    broadcast use crate::state::publishing_changes_the_log_alone;

    match s.turn {
        Turn::Running { session, remaining: _ } => {
            lemma_prompted(State { turn: Turn::Thinking { session }, ..s }, reads, session);
        },
        _ => {},
    }
}

proof fn lemma_reported(t: Tried, reads: Reads)
    ensures
        draining_reported(tried_retold(t, reads)) == retold(draining_reported(t), reads),
        draining_reported(t).skills == t.state.skills,
        draining_reported(t).skill_texts == t.state.skill_texts,
        draining_reported(t).pending_calls == t.state.pending_calls,
{
    reveal(published_as);
}

/// Whether the calls of `after` are the last ones of `before`.
spec fn last_of(after: Seq<Call>, before: Seq<Call>) -> bool {
    after.len() <= before.len() && after == before.skip(before.len() - after.len())
}

proof fn lemma_drained(s: State, reads: Reads)
    requires
        calls_read_alike(s.skill_texts, reads, s.skills, s.pending_calls),
    ensures
        drained(retold(s, reads)) == tried_retold(drained(s), reads),
        drained(s).state.skills == s.skills,
        drained(s).state.skill_texts == s.skill_texts,
        last_of(drained(s).state.pending_calls, s.pending_calls),
    decreases s.pending_calls.len(),
{
    broadcast use crate::state::beginning_a_call_leaves_the_queue;

    reveal_with_fuel(drained, 1);
    if s.pending_calls.len() == 0 || !may_go(s.in_flight, s.pending_calls[0].kind) {
        assert(s.pending_calls.skip(0) =~= s.pending_calls);
    } else {
        let call = s.pending_calls[0];
        let s1 = State {
            pending_calls: s.pending_calls.drop_first(),
            in_flight: stored(s.in_flight, call.id, call.kind),
            ..s
        };
        lemma_begun(s1, reads, call);
        let (t, over) = call_begun(s1, call);
        let free = State { in_flight: removed(t.state.in_flight, call.id), ..t.state };
        assert(free.pending_calls =~= s.pending_calls.skip(1));
        if t.error is None {
            let s2 = if over {
                lemma_drained(free, reads);
                lemma_reported(drained(free), reads);
                lemma_crossed_off(draining_reported(drained(free)), reads, call.id);
                call_crossed_off(draining_reported(drained(free)), call.id)
            } else {
                t.state
            };
            let passed = s.pending_calls.len() - s2.pending_calls.len();
            assert(s2.pending_calls =~= s.pending_calls.skip(passed));
            assert(retold(free, reads) == (State {
                in_flight: removed(retold(t.state, reads).in_flight, call.id),
                ..retold(t.state, reads)
            }));
            lemma_drained(s2, reads);
            let left = drained(s2).state.pending_calls;
            assert(left =~= s.pending_calls.skip(s.pending_calls.len() - left.len()));
        }
    }
}

proof fn lemma_files_of_waiting(skills: Seq<(Seq<char>, Skill)>, calls: Seq<Call>, n: nat, i: int)
    requires
        0 <= i < n <= calls.len(),
    ensures
        match file_of_call(skills, calls[i].name, calls[i].arguments) {
            Some(path) => files_of_waiting(skills, calls, n).contains(path),
            None => true,
        },
    decreases n,
{
    let before = files_of_waiting(skills, calls, (n - 1) as nat);
    let files = files_of_waiting(skills, calls, n);
    match file_of_call(skills, calls[i].name, calls[i].arguments) {
        Some(path) => {
            if i == n - 1 {
                assert(files.last() == path);
            } else {
                lemma_files_of_waiting(skills, calls, (n - 1) as nat, i);
                let k = choose|k: int| 0 <= k < before.len() && before[k] == path;
                assert(files[k] == path);
            }
        },
        None => {},
    }
}

proof fn lemma_files_of_answer(skills: Seq<(Seq<char>, Skill)>, calls: Seq<AgentToolCall>, n: nat, i: int)
    requires
        0 <= i < n <= calls.len(),
    ensures
        match file_of_call(skills, calls[i].name.raw(), calls[i].arguments@) {
            Some(path) => files_of_answer(skills, calls, n).contains(path),
            None => true,
        },
    decreases n,
{
    let before = files_of_answer(skills, calls, (n - 1) as nat);
    let files = files_of_answer(skills, calls, n);
    match file_of_call(skills, calls[i].name.raw(), calls[i].arguments@) {
        Some(path) => {
            if i == n - 1 {
                assert(files.last() == path);
            } else {
                lemma_files_of_answer(skills, calls, (n - 1) as nat, i);
                let k = choose|k: int| 0 <= k < before.len() && before[k] == path;
                assert(files[k] == path);
            }
        },
        None => {},
    }
}

proof fn lemma_waiting_alike(a: Reads, b: Reads, skills: Seq<(Seq<char>, Skill)>, calls: Seq<Call>)
    requires
        read_alike(a, b, files_of_waiting(skills, calls, calls.len())),
    ensures
        calls_read_alike(a, b, skills, calls),
{
    assert forall|i: int| 0 <= i < calls.len() implies call_reads_alike(a, b, skills, #[trigger] calls[i]) by {
        lemma_files_of_waiting(skills, calls, calls.len(), i);
    }
}

/// Calls that go on their way read their own files alone: what reading other files
/// gave makes no difference.
pub proof fn waiting_calls_read_their_files_alone(s: State, reads: Reads)
    requires
        read_alike(s.skill_texts, reads, files_of_waiting(s.skills, s.pending_calls, s.pending_calls.len())),
    ensures
        drained(retold(s, reads)) == tried_retold(drained(s), reads),
{
    lemma_waiting_alike(s.skill_texts, reads, s.skills, s.pending_calls);
    lemma_drained(s, reads);
}

/// A call that finishes lets waiting calls read their own files alone.
pub proof fn finished_calls_let_others_read_their_files_alone(s: State, reads: Reads, call_id: Seq<char>)
    requires
        read_alike(s.skill_texts, reads, files_of_waiting(s.skills, s.pending_calls, s.pending_calls.len())),
    ensures
        call_finished(retold(s, reads), call_id) == retold(call_finished(s, call_id), reads),
{
    let s1 = State { in_flight: removed(s.in_flight, call_id), ..s };
    waiting_calls_read_their_files_alone(s1, reads);
    lemma_reported(drained(s1), reads);
    lemma_crossed_off(draining_reported(drained(s1)), reads, call_id);
    assert(retold(s1, reads) == (State {
        in_flight: removed(retold(s, reads).in_flight, call_id),
        ..retold(s, reads)
    }));
}

proof fn lemma_normalized(s: State, session: Seq<char>, calls: Seq<AgentToolCall>, n: nat)
    requires
        n <= calls.len(),
    ensures
        normalized(s, session, calls, n).0.len() == n,
        forall|i: int|
            0 <= i < n ==> (#[trigger] normalized(s, session, calls, n).0[i]).name == calls[i].name.raw()
                && normalized(s, session, calls, n).0[i].arguments == calls[i].arguments@,
    decreases n,
{
    if n > 0 {
        lemma_normalized(s, session, calls, (n - 1) as nat);
    }
}

proof fn lemma_normalized_retold(s: State, reads: Reads, session: Seq<char>, calls: Seq<AgentToolCall>, n: nat)
    ensures
        normalized(retold(s, reads), session, calls, n) == normalized(s, session, calls, n),
    decreases n,
{
    if n > 0 {
        lemma_normalized_retold(s, reads, session, calls, (n - 1) as nat);
    }
}

proof fn lemma_queued(s: State, reads: Reads, session: Seq<char>, calls: Seq<AgentToolCall>)
    requires
        read_alike(s.skill_texts, reads, files_of_waiting(s.skills, s.pending_calls, s.pending_calls.len())),
        read_alike(s.skill_texts, reads, files_of_answer(s.skills, calls, calls.len())),
    ensures
        calls_queued(retold(s, reads), session, calls) == tried_retold(calls_queued(s, session, calls), reads),
{
    lemma_normalized(s, session, calls, calls.len());
    lemma_normalized_retold(s, reads, session, calls, calls.len());
    lemma_waiting_alike(s.skill_texts, reads, s.skills, s.pending_calls);
    let (queue, next) = normalized(s, session, calls, calls.len());
    let all = s.pending_calls + queue;
    assert forall|i: int| 0 <= i < all.len() implies call_reads_alike(
        s.skill_texts,
        reads,
        s.skills,
        #[trigger] all[i],
    ) by {
        if i < s.pending_calls.len() {
            assert(all[i] == s.pending_calls[i]);
        } else {
            let k = i - s.pending_calls.len();
            assert(all[i] == queue[k]);
            lemma_files_of_answer(s.skills, calls, calls.len(), k);
        }
    }
    let s1 = State {
        next_synthetic: next,
        turn: Turn::Running { session, remaining: call_ids(queue) },
        pending_calls: all,
        ..s
    };
    lemma_drained(s1, reads);
}

proof fn lemma_usage_reported(s: State, reads: Reads, input_tokens: Option<u64>, cached_tokens: Option<u64>)
    ensures
        usage_reported(retold(s, reads), input_tokens, cached_tokens) == retold(
            usage_reported(s, input_tokens, cached_tokens),
            reads,
        ),
{
    let percent_used = usage_percent(s, input_tokens);
    assert(usage_percent(retold(s, reads), input_tokens) == percent_used);
    lemma_published(
        State { input_tokens, cached_tokens, percent_used, ..s },
        reads,
        None,
        EventView::ContextUsage { input_tokens, cached_tokens, percent_used },
    );
}

/// An answer of the agent makes waiting calls and its own calls read their own files
/// alone.
pub proof fn answers_read_their_files_alone(s: State, reads: Reads, r: AgentResponseFinished)
    requires
        read_alike(s.skill_texts, reads, files_of_waiting(s.skills, s.pending_calls, s.pending_calls.len())),
        read_alike(s.skill_texts, reads, files_of_answer(s.skills, r.tool_calls@, r.tool_calls@.len())),
    ensures
        agent_finished(retold(s, reads), r) == tried_retold(agent_finished(s, r), reads),
{
    broadcast use crate::state::publishing_changes_the_log_alone;

    reveal(agent_finished);
    let s1 = if r.input_tokens is Some || r.cached_tokens is Some {
        usage_reported(s, r.input_tokens, r.cached_tokens)
    } else {
        s
    };
    lemma_usage_reported(s, reads, r.input_tokens, r.cached_tokens);
    match lookup(s1.prompt_sessions, r.session_prompt_id@) {
        Some(session) => {
            let s2 = published(s1, None, Event::AgentResponseFinished(r)@);
            lemma_published(s1, reads, None, Event::AgentResponseFinished(r)@);
            let s3 = State {
                prompt_sessions: removed(s2.prompt_sessions, r.session_prompt_id@),
                completed: included(s2.completed, r.session_prompt_id@),
                ..s2
            };
            let t = match r.text {
                Some(text) => with_kept_entry(
                    s3,
                    session,
                    Entry::Agent { text: text@, thinking: option_text(r.thinking) },
                ),
                None => done(s3),
            };
            if t.error is None {
                if r.tool_calls@.len() > 0 {
                    lemma_queued(t.state, reads, session, r.tool_calls@);
                } else {
                    lemma_advanced(State { turn: Turn::Idle, ..t.state }, reads);
                }
            }
        },
        None => {
            reveal(published_as);
        },
    }
}

} // verus!

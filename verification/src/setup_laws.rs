//! What becomes of extensions that come and go, of the set-up of sessions, of what is
//! reported and of what a client is shown when it joins.
use vstd::prelude::*;
use crate::assoc::{lookup, lookup_after_stored};
use crate::discovery::{AgentsFile, Skill, SkillSource};
use crate::event::{
    any_selects, is_transient_event, progress_line, selection_name, ClientKind, ConnectionOrigin, Event, EventView,
    ExtSkillAvailable, HarnessInfoLevel, Notice, ProgressUpdate, Selector, ShellCommandFinished, ToolProgress,
    ToolSpec,
};
use crate::harness_laws::{entries_are_kept_in_their_session, history, last_event, sound};
use crate::models::{efforts_of, percent_of, window_of};
use crate::paths::same_path;
use crate::session::Entry;
use crate::state::{
    after_client_event, after_extension_event, caught_up, context_ready, excluded, ext_at, ext_exited, ext_named,
    ext_ready, info_replayed, kept_replays, log_replays, offered, prompt_taken, published,
    publishing_changes_the_log_alone, registered, registration, sent, session_of, setup_peers, shell_entry,
    usage_reported, with_file, EffectView, Logged, Peer, State, Turn,
};
use crate::text::{decimal, debug_quoted, signed_decimal};

verus! {

broadcast use publishing_changes_the_log_alone;

/// An extension that comes online is announced under its own name, instance and process.
pub proof fn extensions_are_announced_as_ready(s: State, connection: Seq<char>, i: int)
    requires
        ext_at(s.extensions, connection) == Some(i),
    ensures
        ({
            let after = ext_ready(s, connection);
            let e = s.extensions[i];
            &&& last_event(after) == EventView::Ready(
                Notice { instance_id: e.instance_id, extension_name: e.name, pid: e.pid },
            )
            &&& after.lifecycle == s.lifecycle.push("extension "@ + e.name + " ready"@)
            &&& after.log.len() == s.log.len() + 1
        }),
        ext_at(s.extensions, connection) is None ==> ext_ready(s, connection) == s,
{
}

/// An extension that is gone is announced under its own name.
pub proof fn extensions_are_announced_as_gone(s: State, name: Seq<char>)
    ensures
        ({
            let after = ext_exited(s, name);
            &&& last_event(after) matches EventView::Exited(notice) && notice.extension_name == name && (ext_named(
                s.extensions,
                name,
            ) matches Some(i) ==> notice.instance_id == s.extensions[i].instance_id && notice.pid == s.extensions[i].pid)
            &&& after.lifecycle == s.lifecycle.push("extension "@ + name + " exited"@)
        }),
{
}

/// A configuration that an extension refuses is reported as important, with the name of
/// the extension and what it says.
pub proof fn refused_configurations_are_reported(s: State, source: Seq<char>, message: String, i: int)
    requires
        ext_at(s.extensions, source) == Some(i),
    ensures
        ({
            let t = after_extension_event(s, source, Event::LifecycleConfigError { message }@);
            let name = s.extensions[i].name;
            last_event(t.state) == (EventView::Info {
                message: "extension "@ + name + " rejected its config: "@ + message@ + "\nthe value of `extensions."@ + name
                    + ".config` in harness.json5 is being ignored"@,
                level: HarnessInfoLevel::Important,
            })
        }),
{
}

/// A tool that an extension registers is in the registry, for the extension that
/// registered it.
pub proof fn registered_tools_are_there(s: State, source: Seq<char>, tool: ToolSpec)
    ensures
        ({
            let t = after_extension_event(s, source, Event::ToolRegister(tool)@);
            &&& t.error is None
            &&& t.state.registry.contains(registration(source, tool))
            &&& t.state == (State { registry: t.state.registry, ..s })
        }),
{
    crate::control_laws::registrations_take_their_place(
        s.registry,
        registration(source, tool),
        registration(source, tool),
    );
}

/// A skill that an extension announces is known under its name, with its description, its
/// file and the extension that it came from.
pub proof fn announced_skills_are_known(s: State, source: Seq<char>, skill: ExtSkillAvailable, other: Seq<char>)
    ensures
        ({
            let t = after_extension_event(s, source, Event::ExtSkillAvailable(skill)@);
            &&& t.error is None
            &&& lookup(t.state.skills, skill.name@) == Some(
                Skill {
                    source_id: source,
                    description: skill.description@,
                    source: SkillSource::File(skill.file_path@),
                    add_to_prompt: skill.add_to_prompt,
                },
            )
            &&& other != skill.name@ ==> lookup(t.state.skills, other) == lookup(s.skills, other)
            &&& t.state.log.last() == (Logged { source: Some(source), event: Event::ExtSkillAvailable(skill)@ })
        }),
{
    let known = Skill {
        source_id: source,
        description: skill.description@,
        source: SkillSource::File(skill.file_path@),
        add_to_prompt: skill.add_to_prompt,
    };
    lookup_after_stored(s.skills, skill.name@, known, skill.name@);
    lookup_after_stored(s.skills, skill.name@, known, other);
}

/// A file that is announced once more gets its new content in its place; a new one comes
/// behind the others.
pub proof fn announced_files_are_known(files: Seq<AgentsFile>, file: AgentsFile, i: int)
    ensures
        (forall|k: int|
            0 <= k < files.len() ==> !((#[trigger] files[k]).source_id == file.source_id && same_path(
                files[k].file_path,
                file.file_path,
            ))) ==> with_file(files, file) == files.push(file),
        0 <= i < files.len() && files[i].source_id == file.source_id && same_path(files[i].file_path, file.file_path) && (
        forall|k: int|
            0 <= k < i ==> !((#[trigger] files[k]).source_id == file.source_id && same_path(
                files[k].file_path,
                file.file_path,
            ))) ==> with_file(files, file) == files.update(i, AgentsFile { content: file.content, ..files[i] }),
    decreases files.len(),
{
    if files.len() == 0 {
        assert(with_file(files, file) =~= files.push(file));
    } else if files[0].source_id == file.source_id && same_path(files[0].file_path, file.file_path) {
        assert(with_file(files, file) =~= files.update(0, AgentsFile { content: file.content, ..files[0] }));
    } else {
        let rest = files.drop_first();
        announced_files_are_known(rest, file, i - 1);
        if forall|k: int|
            0 <= k < files.len() ==> !((#[trigger] files[k]).source_id == file.source_id && same_path(
                files[k].file_path,
                file.file_path,
            )) {
            assert forall|k: int| 0 <= k < rest.len() implies !((#[trigger] rest[k]).source_id == file.source_id && same_path(
                rest[k].file_path,
                file.file_path,
            )) by {
                assert(rest[k] == files[k + 1]);
            }
            assert(with_file(files, file) =~= files.push(file));
        }
        if 0 <= i < files.len() && files[i].source_id == file.source_id && same_path(files[i].file_path, file.file_path)
            && (forall|k: int|
            0 <= k < i ==> !((#[trigger] files[k]).source_id == file.source_id && same_path(
                files[k].file_path,
                file.file_path,
            ))) {
            assert(rest[i - 1] == files[i]);
            assert forall|k: int| 0 <= k < i - 1 implies !((#[trigger] rest[k]).source_id == file.source_id && same_path(
                rest[k].file_path,
                file.file_path,
            )) by {
                assert(rest[k] == files[k + 1]);
            }
            assert(with_file(files, file) =~= files.update(i, AgentsFile { content: file.content, ..files[i] }));
        }
    }
}

/// Those that set a session up are the tools of the harness that chose to hear of its
/// start.
pub proof fn tools_that_listen_set_sessions_up(connections: Seq<Peer>, p: Peer)
    ensures
        setup_peers(Seq::empty()).len() == 0,
        p.kind == ClientKind::Tool && p.origin != ConnectionOrigin::Socket && any_selects(
            p.selectors,
            "session.started"@,
        ) ==> setup_peers(connections.push(p)) == setup_peers(connections).push(p.id),
        p.kind != ClientKind::Tool || p.origin == ConnectionOrigin::Socket || !any_selects(
            p.selectors,
            "session.started"@,
        ) ==> setup_peers(connections.push(p)) == setup_peers(connections),
{
    assert(connections.push(p).drop_last() =~= connections);
}

/// While others still set the session up, one that is ready is no longer waited for and
/// nothing else changes.
pub proof fn set_ups_wait_for_all(s: State, source: Seq<char>, session: Seq<char>, waiting_on: Seq<Seq<char>>)
    requires
        s.turn == (Turn::Initializing { session, waiting_on }),
        exists|x: Seq<char>| #[trigger] waiting_on.contains(x) && x != source,
    ensures
        ({
            let t = context_ready(s, source, session);
            &&& t.error is None
            &&& t.state.turn matches Turn::Initializing { session: now, waiting_on: left } && now == session
                && !left.contains(source) && left.len() > 0 && forall|x: Seq<char>|
                x != source ==> (#[trigger] left.contains(x) <==> waiting_on.contains(x))
            &&& t.state.sessions == s.sessions
            &&& t.state.log == s.log
        }),
{
    reveal(context_ready);
    lemma_excluded(waiting_on, source);
    let left = excluded(waiting_on, source);
    let x = choose|x: Seq<char>| #[trigger] waiting_on.contains(x) && x != source;
    assert(left.contains(x));
}

proof fn lemma_excluded(list: Seq<Seq<char>>, text: Seq<char>)
    ensures
        !excluded(list, text).contains(text),
        forall|x: Seq<char>| x != text ==> (#[trigger] excluded(list, text).contains(x) <==> list.contains(x)),
    decreases list.len(),
{
    if list.len() > 0 {
        let short = list.drop_last();
        lemma_excluded(short, text);
        let kept = excluded(short, text);
        let after = excluded(list, text);
        assert forall|x: Seq<char>| x != text implies (#[trigger] after.contains(x) <==> list.contains(x)) by {
            assert(kept.contains(x) <==> short.contains(x));
            if list.contains(x) {
                let i = choose|i: int| 0 <= i < list.len() && list[i] == x;
                if i < short.len() {
                    assert(short[i] == x);
                    let k = choose|k: int| 0 <= k < kept.len() && kept[k] == x;
                    assert(after[k] == x);
                } else {
                    assert(after[kept.len() as int] == x);
                }
            }
            if after.contains(x) {
                let k = choose|k: int| 0 <= k < after.len() && after[k] == x;
                if k < kept.len() {
                    assert(kept[k] == x);
                    let i = choose|i: int| 0 <= i < short.len() && short[i] == x;
                    assert(list[i] == x);
                } else {
                    assert(list[list.len() - 1] == x);
                }
            }
        }
        if after.contains(text) {
            let k = choose|k: int| 0 <= k < after.len() && after[k] == text;
            assert(kept[k] == text);
            assert(kept.contains(text));
        }
    }
}

/// With the last that sets a session up, the session is set up: the instruction files
/// stand in its history and it is the user's turn, where no prompt waits.
pub proof fn the_last_one_ends_the_set_up(s: State, source: Seq<char>, session: Seq<char>, waiting_on: Seq<Seq<char>>)
    requires
        sound(s),
        s.turn == (Turn::Initializing { session, waiting_on }),
        forall|x: Seq<char>| #[trigger] waiting_on.contains(x) ==> x == source,
        s.pending_prompts.len() == 0,
    ensures
        ({
            let t = context_ready(s, source, session);
            &&& t.error is None
            &&& t.state.turn is Idle
            &&& t.state.initialized.contains(session)
            &&& s.files.len() > 0 ==> history(t.state, session) == history(s, session).push(
                Entry::User(crate::prompt::agents_message(s.files)),
            )
            &&& s.files.len() == 0 ==> history(t.state, session) == history(s, session)
        }),
{
    reveal(context_ready);
    lemma_excluded(waiting_on, source);
    let left = excluded(waiting_on, source);
    if left.len() > 0 {
        assert(left.contains(left[0]));
    }
    let s1 = State { turn: Turn::Initializing { session, waiting_on: left }, ..s };
    assert(sound(s1));
    crate::harness_laws::sessions_begin_with_their_files(s1, session);
}

/// The use of the context is what the model reported, against the window of the model; it
/// is announced where it changed.
pub proof fn the_use_of_the_context_is_reported(
    s: State,
    input_tokens: Option<u64>,
    cached_tokens: Option<u64>,
)
    ensures
        ({
            let after = usage_reported(s, input_tokens, cached_tokens);
            &&& after.input_tokens == input_tokens
            &&& after.cached_tokens == cached_tokens
            &&& match (window_of(s.providers, s.model), input_tokens) {
                (Some(window), Some(tokens)) => after.percent_used == Some(percent_of(tokens, window) as u8),
                _ => after.percent_used is None,
            }
            &&& after != s ==> last_event(after) == (EventView::ContextUsage {
                input_tokens,
                cached_tokens,
                percent_used: after.percent_used,
            })
            &&& after.sessions == s.sessions
        }),
{
}

/// A command of the user that counts for the context stands in the history of its session,
/// with the command, how it ended and what came out of it.
pub proof fn commands_of_the_user_are_kept(s: State, source: Seq<char>, f: ShellCommandFinished, other: Seq<char>)
    requires
        sound(s),
    ensures
        ({
            let t = after_extension_event(s, source, Event::ShellCommandFinished(f)@);
            let exit = match f.exit_code {
                Some(code) => signed_decimal(code as int),
                None => if f.cancelled {
                    "cancelled"@
                } else {
                    "?"@
                },
            };
            &&& f.include_in_context ==> history(t.state, f.session_id@) == history(s, f.session_id@).push(
                Entry::User(
                    "<user_shell command="@ + debug_quoted(f.command@) + " exit_code="@ + debug_quoted(exit) + ">\n"@
                        + f.output@ + "\n</user_shell>"@,
                ),
            )
            &&& !f.include_in_context ==> t.state.sessions == s.sessions
            &&& other != f.session_id@ ==> history(t.state, other) == history(s, other)
            &&& t.state.log.last() == (Logged { source: Some(source), event: Event::ShellCommandFinished(f)@ })
        }),
{
    let s1 = published(s, Some(source), Event::ShellCommandFinished(f)@);
    assert(sound(s1));
    entries_are_kept_in_their_session(s1, f.session_id@, Entry::User(shell_entry(f)), other);
}

/// A prompt that has to wait is announced as waiting; without a model the user is told to
/// choose one.
pub proof fn waiting_prompts_are_announced(s: State, text: Seq<char>)
    requires
        !(s.turn is Idle),
    ensures
        ({
            let t = prompt_taken(s, s.current, text);
            let queued = EventView::Queued { session_id: s.current, text };
            &&& t.error is None
            &&& t.state.pending_prompts == s.pending_prompts.push((s.current, text))
            &&& t.state.log[s.log.len() as int].event == queued
            &&& s.model.len() > 0 ==> last_event(t.state) == queued
            &&& s.model.len() == 0 ==> (last_event(t.state) matches EventView::Info { .. })
        }),
{
}

/// A client is sent what it chose, and nothing else.
pub proof fn clients_are_sent_what_they_chose(s: State, to: Seq<char>, selectors: Seq<Selector>, event: EventView)
    ensures
        any_selects(selectors, selection_name(event)) ==> offered(s, to, selectors, event).effects == s.effects.push(
            EffectView::Send { to, event },
        ),
        !any_selects(selectors, selection_name(event)) ==> offered(s, to, selectors, event) == s,
{
}

/// A client that joins and chose everything is told the models, the model with its window,
/// the use of the context and the effort, in this order, at the end.
pub proof fn clients_that_join_are_brought_up_to_date(s: State, to: Seq<char>, selectors: Seq<Selector>)
    requires
        any_selects(selectors, "harness.models_available"@),
        any_selects(selectors, "harness.model_selected"@),
        any_selects(selectors, "harness.context_usage_changed"@),
        any_selects(selectors, "harness.effort_changed"@),
        any_selects(selectors, "harness.efforts_available"@),
    ensures
        caught_up(s, to, selectors).effects == s.effects + kept_replays(s, to, selectors, s.kept.len()) + log_replays(
            s,
            to,
            selectors,
            s.log.len(),
        ) + seq![
            EffectView::Send { to, event: EventView::ModelsAvailable(s.models) },
            EffectView::Send {
                to,
                event: EventView::ModelSelected { model: s.model, context_window: window_of(s.providers, s.model) },
            },
            EffectView::Send {
                to,
                event: EventView::ContextUsage {
                    input_tokens: s.input_tokens,
                    cached_tokens: s.cached_tokens,
                    percent_used: s.percent_used,
                },
            },
            EffectView::Send { to, event: EventView::EffortChanged(s.effort) },
            EffectView::Send { to, event: EventView::EffortsAvailable(efforts_of(s.providers, s.model)) },
        ],
        caught_up(s, to, selectors) == (State { effects: caught_up(s, to, selectors).effects, ..s }),
{
    reveal(caught_up);
    reveal(info_replayed);
    let kept = State { effects: s.effects + kept_replays(s, to, selectors, s.kept.len()), ..s };
    lemma_log_replays(s, kept, to, selectors, s.log.len());
}

proof fn lemma_log_replays(a: State, b: State, to: Seq<char>, selectors: Seq<Selector>, n: nat)
    requires
        a.log == b.log,
    ensures
        log_replays(a, to, selectors, n) == log_replays(b, to, selectors, n),
    decreases n,
{
    if 0 < n <= a.log.len() {
        lemma_log_replays(a, b, to, selectors, (n - 1) as nat);
    }
}

/// A subscription that is denied ends the connection with the reason; one that is granted
/// brings the client up to date.
pub proof fn denied_subscriptions_end_the_connection(
    s: State,
    client: Seq<char>,
    sub: crate::event::LifecycleSubscribe,
    reason: Seq<char>,
)
    ensures
        after_client_event(s, client, Event::LifecycleSubscribe(sub)@, Some(reason)).state.effects == s.effects.push(
            EffectView::Send { to: client, event: EventView::Disconnect(Some("subscription denied: "@ + reason)) },
        ),
        !crate::state::client_stays(Event::LifecycleSubscribe(sub)@, Some(reason)),
        crate::state::client_stays(Event::LifecycleSubscribe(sub)@, None),
{
}

/// What belongs to a prompt or a call is kept with the session of that prompt or call.
pub proof fn events_belong_to_the_session_of_their_prompt(
    s: State,
    session: Seq<char>,
    r: crate::event::AgentResponseFinished,
    p: ToolProgress,
)
    ensures
        lookup(s.prompt_sessions, r.session_prompt_id@) == Some(session) ==> session_of(
            s,
            Event::AgentResponseFinished(r)@,
        ) == Some(session),
        lookup(s.tool_sessions, p.call_id@) == Some(session) ==> session_of(s, Event::ToolProgress(p)@) == Some(session),
        is_transient_event(Event::ToolProgress(p)@),
        !is_transient_event(Event::AgentResponseFinished(r)@),
{
}

/// The progress of a tool is told with its name, its message and how far it has come.
pub proof fn progress_is_told(p: ToolProgress, message: String, current: u64, total: u64)
    ensures
        p.message == Some(message) && p.progress is None ==> progress_line(p) == p.tool_name@ + ": "@ + message@,
        p.message is None && p.progress is None ==> progress_line(p) == p.tool_name@,
        p.message is None && p.progress == Some(ProgressUpdate { current: Some(current), total: Some(total) })
            ==> progress_line(p) == p.tool_name@ + (" ("@ + decimal(current as nat) + "/"@ + decimal(total as nat)
            + ")"@),
{
    if p.message == Some(message) && p.progress is None {
        assert(progress_line(p) =~= p.tool_name@ + ": "@ + message@);
    }
    if p.message is None && p.progress is None {
        assert(progress_line(p) =~= p.tool_name@);
    }
    if p.message is None {
        assert(p.tool_name@ + Seq::<char>::empty() =~= p.tool_name@);
    }
}

} // verus!

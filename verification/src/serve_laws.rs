//! What holds of a harness that starts, serves its clients and comes to an end.
use vstd::prelude::*;
use crate::assoc::lookup;
use crate::cbor::{dict_text, Cbor};
use crate::closing::{end_trouble, hung_up, ThreadEnd};
use crate::discovery::{Skill, SkillSource};
use crate::error::Trouble;
use crate::event::{
    any_selects, selects, AgentResponseFinished, ClientKind, ConnectionOrigin, Event, EventView, Selector,
};
use crate::handlers::{file_of_call, files_of_waiting};
use crate::models::{efforts_of, model_names};
use crate::runtime_dir::{belongs, found_harness, runtime_root, stored_session, DaemonCandidate};
use crate::paths::path_join;
use crate::serve::{
    agent_connection, announced, arrived, arrived_at_startup, client_accepted, final_answer, first_state, served_out,
    started_peers, tracked_extensions, with_lifecycle_line, with_progress, HarnessEvent, HarnessSetup, ServeProgress,
    Started,
};
use crate::session::option_text;
use crate::settings::{
    all_switched, spawn_names, spawns_by_name, startup_role, switched_to, BuiltInExtensionDef, Merged, Spawn,
};
use crate::order::{sorted_positions, sorted_positions_in_order};
use crate::state::{
    after_client_event, after_extension_event, client_stays, disconnected, peer_at, peers_without,
    publishing_changes_the_log_alone, Call, Ext, ExtensionState, Peer, State,
};
use crate::text::{begins, text_less, texts, trimmed};

verus! {

broadcast use publishing_changes_the_log_alone;

/// The agent is the last extension in that role; without one there is no agent.
pub proof fn the_last_agent_is_the_agent(extensions: Seq<Started>, e: Started)
    ensures
        e.kind == ClientKind::Agent ==> agent_connection(extensions.push(e)) == Some(e.connection),
        e.kind != ClientKind::Agent ==> agent_connection(extensions.push(e)) == agent_connection(extensions),
        agent_connection(Seq::empty()) is None,
{
    assert(extensions.push(e).drop_last() =~= extensions);
}

/// Every extension that was started is known under its name, its connection and its
/// process, and is to be heard of yet.
pub proof fn started_extensions_are_known(extensions: Seq<Started>, i: int)
    requires
        0 <= i < extensions.len() <= u64::MAX,
    ensures
        tracked_extensions(extensions).len() == extensions.len(),
        ({
            let e = tracked_extensions(extensions)[i];
            &&& e.name == extensions[i].name
            &&& e.connection_id == extensions[i].connection
            &&& e.kind == extensions[i].kind
            &&& e.pid == Some(extensions[i].pid)
            &&& e.supervised == extensions[i].config
            &&& e.instance_id == i
            &&& e.state == ExtensionState::Spawning
            &&& e.last_acked == 0
            &&& e.restart_attempt == 0
        }),
        started_peers(extensions).len() == extensions.len(),
        ({
            let p = started_peers(extensions)[i];
            &&& p.id == extensions[i].connection
            &&& p.name == extensions[i].name
            &&& p.kind == extensions[i].kind
            &&& p.selectors.len() == 0
        }),
{
}

/// A harness begins idle, in the session of its setup and with what that session holds,
/// with a model that is available and an effort that this model allows.
pub proof fn harnesses_begin_with_their_setup(setup: HarnessSetup, extensions: Seq<Started>, agent: Seq<char>)
    ensures
        ({
            let s = first_state(setup, extensions, agent);
            &&& s.current == setup.session_id@
            &&& s.sessions == setup.store@
            &&& s.cwd == setup.cwd@
            &&& s.agent == agent
            &&& s.turn is Idle
            &&& s.log.len() == 0
            &&& s.pending_prompts.len() == 0
            &&& s.models == model_names(setup.registry@)
            &&& s.models.len() > 0 ==> s.models.contains(s.model)
            &&& s.models.len() == 0 ==> s.model.len() == 0
            &&& setup.default_model matches Some(m) ==> s.models.contains(m@) ==> s.model == m@
            &&& efforts_of(s.providers, s.model).len() > 0 ==> efforts_of(s.providers, s.model).contains(s.effort)
        }),
{
    let s = first_state(setup, extensions, agent);
    crate::model_laws::the_first_model_is_available(
        model_names(setup.registry@),
        option_text(setup.default_model),
        option_text(setup.last_model),
    );
    crate::model_laws::efforts_are_those_of_the_settings_first(
        setup.default_efforts@,
        setup.last_efforts@,
        setup.registry@,
        s.model,
    );
}

/// Every extension is announced as starting, in order.
pub proof fn extensions_are_announced_in_order(s: State, names: Seq<Seq<char>>, i: int)
    ensures
        announced(s, names).log.len() == s.log.len() + names.len(),
        announced(s, names).extensions == s.extensions,
        0 <= i < names.len() ==> (announced(s, names).log[s.log.len() + i].event matches EventView::Starting(notice)
            && notice.extension_name == names[i]),
    decreases names.len(),
{
    if names.len() > 0 {
        extensions_are_announced_in_order(s, names.drop_last(), i);
    }
}

/// A client that connects is a connection of its own, which chose nothing yet.
pub proof fn clients_are_accepted(s: State, connection: Seq<char>)
    ensures
        ({
            let after = client_accepted(s, connection);
            &&& after.connections.len() == s.connections.len() + 1
            &&& after.connections.last().id == connection
            &&& after.connections.last().kind == ClientKind::Ui
            &&& after.connections.last().origin == ConnectionOrigin::Socket
            &&& after.connections.last().selectors.len() == 0
            &&& after.clients.contains(connection)
            &&& after.sessions == s.sessions
        }),
{
    if !s.clients.contains(connection) {
        assert(s.clients.push(connection)[s.clients.len() as int] == connection);
    }
}

/// The harness is done once it has served as many clients as it may, or once the last
/// client of one that is to end with it has gone.
pub proof fn serving_comes_to_its_end(p: ServeProgress, s: State)
    ensures
        p.max_clients matches Some(max) ==> p.served_clients >= max ==> served_out(p, s),
        p.exit_on_disconnect && p.ever_attached && s.clients.len() == 0 ==> served_out(p, s),
        p.max_clients is None && !p.exit_on_disconnect ==> !served_out(p, s),
        p.max_clients is None && s.clients.len() > 0 ==> !served_out(p, s),
{
}

/// What an unknown connection sends is passed over.
pub proof fn unknown_connections_are_passed_over(
    s: State,
    p: ServeProgress,
    connection_id: String,
    event: Event,
    denied: Option<String>,
)
    requires
        peer_at(s.connections, connection_id@) is None,
    ensures
        arrived(s, p, HarnessEvent::FromConnection { connection_id, event }, denied) == (s, p, None::<Trouble>),
{
}

/// What a client sends is taken as a client's, and what an extension sends as an
/// extension's.
pub proof fn events_are_taken_by_their_side(
    s: State,
    p: ServeProgress,
    connection_id: String,
    event: Event,
    i: int,
)
    requires
        peer_at(s.connections, connection_id@) == Some(i),
        !(event is LifecycleSubscribe),
        !(event is LifecycleDisconnect),
    ensures
        s.connections[i].origin == ConnectionOrigin::Socket ==> arrived(
            s,
            p,
            HarnessEvent::FromConnection { connection_id, event },
            None,
        ).0 == after_client_event(s, connection_id@, event@, None).state,
        s.connections[i].origin != ConnectionOrigin::Socket ==> arrived(
            s,
            p,
            HarnessEvent::FromConnection { connection_id, event },
            None,
        ).0 == after_extension_event(s, connection_id@, event@).state,
{
    assert(client_stays(event@, None));
}

/// The loss of a connection is taken as such, and the loss of the agent is reported.
pub proof fn losing_the_agent_is_reported(s: State, p: ServeProgress, connection_id: String, denied: Option<String>)
    ensures
        arrived(s, p, HarnessEvent::Disconnected { connection_id }, denied).0 == disconnected(s, connection_id@),
        connection_id@ == s.agent ==> arrived(s, p, HarnessEvent::Disconnected { connection_id }, denied).2 == Some(
            Trouble::Participant("agent disconnected"@),
        ),
        connection_id@ != s.agent ==> arrived(s, p, HarnessEvent::Disconnected { connection_id }, denied).2 is None,
        arrived_at_startup(s, HarnessEvent::Disconnected { connection_id }, denied).1 is Some,
{
}

/// An answer is final where it asks for no tool; what it says is the answer.
pub proof fn answers_without_calls_are_final(r: AgentResponseFinished)
    ensures
        r.tool_calls@.len() > 0 ==> final_answer(Event::AgentResponseFinished(r)) is None,
        r.tool_calls@.len() == 0 ==> (r.text matches Some(text) ==> final_answer(Event::AgentResponseFinished(r)) == Some(
            text@,
        )),
        r.tool_calls@.len() == 0 && r.text is None ==> final_answer(Event::AgentResponseFinished(r)) == Some(
            Seq::<char>::empty(),
        ),
{
}

/// Messages of the harness and the state of extensions are told line by line, and nothing
/// else is.
pub proof fn messages_are_told_in_order(messages: Seq<Seq<char>>, event: Event)
    ensures
        event@ matches EventView::Info { message, .. } ==> with_lifecycle_line(messages, event) == messages.push(message),
        event@ matches EventView::Ready(n) ==> with_lifecycle_line(messages, event) == messages.push(
            "extension "@ + n.extension_name + " ready"@,
        ),
        event@ matches EventView::Starting(n) ==> with_lifecycle_line(messages, event) == messages.push(
            "extension "@ + n.extension_name + " starting"@,
        ),
        event@ matches EventView::Exited(n) ==> with_lifecycle_line(messages, event) == messages.push(
            "extension "@ + n.extension_name + " exited"@,
        ),
        event@ matches EventView::Restarting { notice, .. } ==> with_lifecycle_line(messages, event) == messages.push(
            "extension "@ + notice.extension_name + " restarting"@,
        ),
        event@ is PromptCreated ==> with_lifecycle_line(messages, event) == messages,
        !(event is ToolProgress) ==> with_progress(messages, event) == messages,
{
}

/// An event is chosen by its name, or by what its name begins with.
pub proof fn events_are_chosen_by_name(selectors: Seq<Selector>, name: Seq<char>, i: int)
    ensures
        0 <= i < selectors.len() && selectors[i] == Selector::Exact(name) ==> any_selects(selectors, name),
        0 <= i < selectors.len() && (selectors[i] matches Selector::Prefix(prefix) && begins(name, prefix)) ==> any_selects(
            selectors,
            name,
        ),
        selectors.len() == 0 ==> !any_selects(selectors, name),
        selects(Selector::Exact(name), name),
{
    if 0 <= i < selectors.len() && selects(selectors[i], name) {
        assert(any_selects(selectors, name));
    }
}

/// A call of the skill tool reads the file of the skill that it names, and no other call
/// reads a file.
pub proof fn skill_calls_read_the_file_of_the_skill(
    skills: Seq<(Seq<char>, Skill)>,
    arguments: Cbor,
    name: Seq<char>,
    path: Seq<char>,
    other: Seq<char>,
)
    ensures
        dict_text(arguments, "name"@) == Some(name) && (lookup(skills, name) matches Some(skill) && skill.source
            == SkillSource::File(path)) ==> file_of_call(skills, "skill"@, arguments) == Some(path),
        other != "skill"@ ==> file_of_call(skills, other, arguments) is None,
        dict_text(arguments, "name"@) is None ==> file_of_call(skills, "skill"@, arguments) is None,
{
}

/// Every file that a waiting call reads is read.
pub proof fn files_of_waiting_calls_are_read(skills: Seq<(Seq<char>, Skill)>, calls: Seq<Call>, n: nat, i: int)
    requires
        0 <= i < n <= calls.len(),
    ensures
        file_of_call(skills, calls[i].name, calls[i].arguments) matches Some(path) ==> files_of_waiting(
            skills,
            calls,
            n,
        ).contains(path),
    decreases n,
{
    if let Some(path) = file_of_call(skills, calls[i].name, calls[i].arguments) {
        let before = files_of_waiting(skills, calls, (n - 1) as nat);
        if i == n - 1 {
            assert(files_of_waiting(skills, calls, n)[before.len() as int] == path);
        } else {
            files_of_waiting_calls_are_read(skills, calls, (n - 1) as nat, i);
            let k = choose|k: int| 0 <= k < before.len() && before[k] == path;
            assert(files_of_waiting(skills, calls, n)[k] == path);
        }
    }
}

proof fn lemma_peers_without(connections: Seq<Peer>, id: Seq<char>, peer: Peer)
    ensures
        peers_without(connections, id).contains(peer) <==> connections.contains(peer) && peer.id != id,
    decreases connections.len(),
{
    if connections.len() > 0 {
        let short = connections.drop_last();
        let kept = peers_without(short, id);
        let after = peers_without(connections, id);
        lemma_peers_without(short, id, peer);
        if after.contains(peer) {
            let i = choose|i: int| 0 <= i < after.len() && after[i] == peer;
            if i < kept.len() {
                assert(kept[i] == peer);
                assert(kept.contains(peer));
                let k = choose|k: int| 0 <= k < short.len() && short[k] == peer;
                assert(connections[k] == peer);
            } else {
                assert(connections[connections.len() - 1] == peer);
            }
        }
        if connections.contains(peer) && peer.id != id {
            let k = choose|k: int| 0 <= k < connections.len() && connections[k] == peer;
            if k < short.len() {
                assert(short[k] == peer);
                assert(kept.contains(peer));
                let i = choose|i: int| 0 <= i < kept.len() && kept[i] == peer;
                assert(after[i] == peer);
            } else {
                assert(after[kept.len() as int] == peer);
            }
        }
    }
}

/// At the end the connections of all extensions are hung up, and no other.
pub proof fn other_connections_stay(connections: Seq<Peer>, extensions: Seq<Ext>, peer: Peer)
    ensures
        hung_up(connections, extensions).contains(peer) <==> connections.contains(peer) && forall|i: int|
            0 <= i < extensions.len() ==> (#[trigger] extensions[i]).connection_id != peer.id,
    decreases extensions.len(),
{
    if extensions.len() > 0 {
        let short = extensions.drop_last();
        let n = extensions.len() - 1;
        other_connections_stay(connections, short, peer);
        lemma_peers_without(hung_up(connections, short), extensions[n].connection_id, peer);
        if forall|i: int| 0 <= i < extensions.len() ==> (#[trigger] extensions[i]).connection_id != peer.id {
            assert forall|i: int| 0 <= i < short.len() implies (#[trigger] short[i]).connection_id != peer.id by {
                assert(short[i] == extensions[i]);
            }
            assert(extensions[n].connection_id != peer.id);
        }
        if hung_up(connections, extensions).contains(peer) {
            assert forall|i: int| 0 <= i < extensions.len() implies (#[trigger] extensions[i]).connection_id != peer.id by {
                if i < n {
                    assert(short[i] == extensions[i]);
                }
            }
        }
    }
}

/// A thread that failed or was lost is reported; one that ended is not.
pub proof fn failed_ends_are_reported(name: Seq<char>, message: String)
    ensures
        end_trouble(name, Some(ThreadEnd::Failed(message))) == Some(Trouble::Participant(message@)),
        end_trouble(name, Some(ThreadEnd::Lost)) == Some(Trouble::ThreadJoin(name)),
        end_trouble(name, Some(ThreadEnd::Ended)) is None,
        end_trouble(name, Some(ThreadEnd::NoThread)) is None,
        end_trouble(name, None) is None,
{
}

/// The first running harness of a project is the one that is found, whatever candidates
/// come behind it.
pub proof fn the_first_running_harness_is_found(
    candidates: Seq<DaemonCandidate>,
    root: Seq<char>,
    canonical: Option<Seq<char>>,
    i: int,
    n: nat,
)
    requires
        0 <= i < n <= candidates.len(),
        candidates[i].running,
        belongs(candidates[i], root, canonical),
        forall|j: int| 0 <= j < i ==> !((#[trigger] candidates[j]).running && belongs(candidates[j], root, canonical)),
    ensures
        found_harness(candidates, root, canonical, n).0 == Some(candidates[i].dir@),
    decreases n,
{
    if i < n - 1 {
        the_first_running_harness_is_found(candidates, root, canonical, i, (n - 1) as nat);
    } else {
        lemma_none_running(candidates, root, canonical, (n - 1) as nat);
    }
}

proof fn lemma_none_running(candidates: Seq<DaemonCandidate>, root: Seq<char>, canonical: Option<Seq<char>>, n: nat)
    requires
        n <= candidates.len(),
        forall|j: int| 0 <= j < n ==> !((#[trigger] candidates[j]).running && belongs(candidates[j], root, canonical)),
    ensures
        found_harness(candidates, root, canonical, n).0 is None,
    decreases n,
{
    if n > 0 {
        lemma_none_running(candidates, root, canonical, (n - 1) as nat);
        assert(!(candidates[n - 1].running && belongs(candidates[n - 1], root, canonical)));
    }
}

/// A harness that no longer runs is listed as stale, where none was found before it.
pub proof fn harnesses_that_ended_are_stale(
    candidates: Seq<DaemonCandidate>,
    root: Seq<char>,
    canonical: Option<Seq<char>>,
    n: nat,
)
    requires
        0 < n <= candidates.len(),
        found_harness(candidates, root, canonical, (n - 1) as nat).0 is None,
    ensures
        ({
            let before = found_harness(candidates, root, canonical, (n - 1) as nat).1;
            let after = found_harness(candidates, root, canonical, n).1;
            let c = candidates[n - 1];
            &&& belongs(c, root, canonical) && !c.running ==> after == before.push(c.dir@)
            &&& !belongs(c, root, canonical) || c.running ==> after == before
        }),
{
}

/// The session that was noted is the one that is stored, without white space round it.
pub proof fn noted_sessions_are_stored(text: Seq<char>)
    ensures
        trimmed(text).len() > 0 ==> stored_session(Some(text)) == Some(trimmed(text)),
        trimmed(text).len() == 0 ==> stored_session(Some(text)) is None,
        stored_session(None) is None,
{
}

/// The directory for running harnesses lies in that of the user, or under a name of the
/// user's own.
pub proof fn runtime_files_belong_to_the_user(dir: Seq<char>, user: Seq<char>)
    ensures
        runtime_root(Some(dir), Some(user)) == path_join(dir, "tau"@),
        runtime_root(None, Some(user)) == "/tmp/tau-"@ + user,
{
}

/// Switching all extensions on or off changes nothing else of them.
pub proof fn switches_change_nothing_else(entries: Seq<(Seq<char>, Merged)>, on: bool, i: int)
    requires
        0 <= i < entries.len(),
    ensures
        all_switched(entries, on).len() == entries.len(),
        all_switched(entries, on)[i].0 == entries[i].0,
        all_switched(entries, on)[i].1 == (Merged { enable: on, ..entries[i].1 }),
        switched_to(entries[i].1, on).enable == on,
        switched_to(entries[i].1, on).config == entries[i].1.config,
        switched_to(entries[i].1, on).command == entries[i].1.command,
{
}

/// A role from the environment counts before that of the settings, unless it is empty.
pub proof fn roles_of_the_environment_count_first(settings_role: Option<Seq<char>>, role: Seq<char>)
    ensures
        role.len() > 0 ==> startup_role(settings_role, Some(role)) == Some(role),
        role.len() == 0 ==> startup_role(settings_role, Some(role)) == settings_role,
        startup_role(settings_role, None) == settings_role,
{
}

/// Sorting extensions by name keeps each of them.
pub proof fn extensions_are_sorted_by_name(spawns: Seq<Spawn>, i: int, j: int)
    ensures
        spawns_by_name(spawns).len() == spawns.len(),
        0 <= i < spawns.len() ==> spawns_by_name(spawns).contains(spawns[i]),
        0 <= i < j < spawns.len() ==> !text_less(spawns_by_name(spawns)[j].name, spawns_by_name(spawns)[i].name),
{
    let names = spawn_names(spawns);
    let at = sorted_positions(names);
    sorted_positions_in_order(names);
    if 0 <= i < spawns.len() {
        assert(at.contains(i));
        let k = choose|k: int| 0 <= k < at.len() && at[k] == i;
        assert(spawns_by_name(spawns)[k] == spawns[i]);
    }
    if 0 <= i < j < spawns.len() {
        assert(names[at[i]] == spawns_by_name(spawns)[i].name);
        assert(names[at[j]] == spawns_by_name(spawns)[j].name);
        if text_less(names[at[j]], names[at[i]]) {
            if text_less(names[at[i]], names[at[j]]) {
                crate::order::text_less_transitive(names[at[i]], names[at[j]], names[at[i]]);
            }
            crate::order::text_less_irreflexive(names[at[i]]);
        }
    }
}

/// A built-in extension runs what its definition says, and the program itself where it
/// names no command.
pub proof fn definitions_mean_what_they_say(d: BuiltInExtensionDef, binary: Seq<char>)
    ensures
        ({
            let (name, e) = d.meaning(binary);
            &&& name == d.name@
            &&& d.command is None ==> e.command == seq![binary]
            &&& d.command matches Some(v) ==> e.command == texts(v@)
            &&& d.prefix is None ==> e.prefix.len() == 0
            &&& d.prefix matches Some(v) ==> e.prefix == texts(v@)
            &&& d.suffix is None ==> e.suffix.len() == 0
            &&& d.suffix matches Some(v) ==> e.suffix == texts(v@)
            &&& e.enable == d.enable
            &&& e.require == d.require
            &&& e.config == d.config@
            &&& d.role matches Some(role) ==> e.role == Some(role@)
            &&& d.secrets matches Some(secrets) ==> e.secrets == secrets@
        }),
{
}

} // verus!

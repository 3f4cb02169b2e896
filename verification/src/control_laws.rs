//! What becomes of registrations, subscriptions, choices and lost connections in the
//! harness.
use vstd::prelude::*;
use crate::assoc::lookup_after_stored;
use crate::discovery::{AgentsFile, Skill};
use crate::event::{
    any_selects, selection_name, ClientKind, Effort, EventView, HarnessInfoLevel, Selector, SessionStartReason,
    ToolSpec,
};
use crate::harness_laws::{last_event, sound, tools_are_found_where_they_stand_first};
use crate::json::{cbor_of, json_pretty, Json};
use crate::models::{effort_for, efforts_after, efforts_of, state_json, window_of};
use crate::order::{sorted_positions, sorted_positions_in_order};
use crate::session::{node_lines, tree_of, Tree};
use crate::state::{
    all_noted, calls_of, configured, effort_chosen, ext_at, files_without, first_of_name, kept_replays, log_replays,
    model_chosen, navigated, peer_at, published, published_as, publishing_changes_the_log_alone, registered,
    registered_names, registration, remembered, replayed_kind, respawn_asked, respawned, setup_peers, skills_without,
    subscribed, switched, tool_at, tool_list, tree_shown, unregistered, with_ext_state, without_contexts, EffectView,
    Ext, ExtensionState, Peer, Registered, State, Turn,
};
use crate::text::text_less;

verus! {

broadcast use publishing_changes_the_log_alone;

/// Whether a registration is one of this tool by this connection.
pub open spec fn same_registration(a: Registered, b: Registered) -> bool {
    a.name == b.name && a.provider == b.provider
}

/// A tool that is registered is found in the registry as it was registered. It takes the
/// place of the one that the same connection registered under the same name; every other
/// registration stays.
pub proof fn registrations_take_their_place(registry: Seq<Registered>, tool: Registered, other: Registered)
    ensures
        registered(registry, tool).contains(tool),
        !same_registration(other, tool) ==> (registered(registry, tool).contains(other) <==> registry.contains(other)),
        (forall|i: int| 0 <= i < registry.len() ==> !same_registration(#[trigger] registry[i], tool)) ==> registered(
            registry,
            tool,
        ) == registry.push(tool),
        (exists|i: int| 0 <= i < registry.len() && same_registration(#[trigger] registry[i], tool)) ==> registered(
            registry,
            tool,
        ).len() == registry.len(),
    decreases registry.len(),
{
    let after = registered(registry, tool);
    if registry.len() == 0 {
        assert(after[0] == tool);
        assert(after =~= registry.push(tool));
    } else if same_registration(registry[0], tool) {
        assert(after[0] == tool);
        assert(after =~= registry.update(0, tool));
        if !same_registration(other, tool) {
            if registry.contains(other) {
                let i = choose|i: int| 0 <= i < registry.len() && registry[i] == other;
                assert(after[i] == other);
            }
            if after.contains(other) {
                let i = choose|i: int| 0 <= i < after.len() && after[i] == other;
                assert(registry[i] == other);
            }
        }
    } else {
        let rest = registry.drop_first();
        let new = registered(rest, tool);
        registrations_take_their_place(rest, tool, other);
        assert(after =~= seq![registry[0]] + new);
        let k = choose|k: int| 0 <= k < new.len() && new[k] == tool;
        assert(after[k + 1] == tool);
        if !same_registration(other, tool) {
            if registry.contains(other) {
                let i = choose|i: int| 0 <= i < registry.len() && registry[i] == other;
                if i == 0 {
                    assert(after[0] == other);
                } else {
                    assert(rest[i - 1] == other);
                    assert(new.contains(other));
                    let m = choose|m: int| 0 <= m < new.len() && new[m] == other;
                    assert(after[m + 1] == other);
                }
            }
            if after.contains(other) {
                let i = choose|i: int| 0 <= i < after.len() && after[i] == other;
                if i == 0 {
                    assert(registry[0] == other);
                } else {
                    assert(new[i - 1] == other);
                    assert(rest.contains(other));
                    let m = choose|m: int| 0 <= m < rest.len() && rest[m] == other;
                    assert(registry[m + 1] == other);
                }
            }
        }
        if forall|i: int| 0 <= i < registry.len() ==> !same_registration(#[trigger] registry[i], tool) {
            assert forall|i: int| 0 <= i < rest.len() implies !same_registration(#[trigger] rest[i], tool) by {
                assert(rest[i] == registry[i + 1]);
            }
            assert(after =~= registry.push(tool));
        } else {
            let i = choose|i: int| 0 <= i < registry.len() && same_registration(#[trigger] registry[i], tool);
            assert(rest[i - 1] == registry[i]);
            assert(same_registration(rest[i - 1], tool));
        }
    }
}

/// A tool is registered under its own name, with its own description, parameters and
/// side effects, for the connection that registers it.
pub proof fn tools_are_registered_as_they_are(connection: Seq<char>, tool: ToolSpec)
    ensures
        ({
            let r = registration(connection, tool);
            &&& r.name == tool.name@
            &&& r.provider == connection
            &&& r.side_effects == tool.side_effects
            &&& tool.description matches Some(d) ==> r.description == Some(d@)
            &&& tool.description is None ==> r.description is None
            &&& tool.parameters matches Some(p) ==> r.parameters == Some(p@)
            &&& tool.parameters is None ==> r.parameters is None
        }),
{
}

/// A connection that is gone takes its tools with it and leaves those of others.
pub proof fn others_stay_registered(registry: Seq<Registered>, connection: Seq<char>, tool: Registered)
    ensures
        unregistered(registry, connection).contains(tool) <==> registry.contains(tool) && tool.provider != connection,
    decreases registry.len(),
{
    if registry.len() > 0 {
        let short = registry.drop_last();
        let kept = unregistered(short, connection);
        let after = unregistered(registry, connection);
        others_stay_registered(short, connection, tool);
        if after.contains(tool) {
            let i = choose|i: int| 0 <= i < after.len() && after[i] == tool;
            if i < kept.len() {
                assert(kept[i] == tool);
                assert(kept.contains(tool));
                let k = choose|k: int| 0 <= k < short.len() && short[k] == tool;
                assert(registry[k] == tool);
            } else {
                assert(registry[registry.len() - 1] == tool);
            }
        }
        if registry.contains(tool) && tool.provider != connection {
            let k = choose|k: int| 0 <= k < registry.len() && registry[k] == tool;
            if k < short.len() {
                assert(short[k] == tool);
                assert(kept.contains(tool));
                let i = choose|i: int| 0 <= i < kept.len() && kept[i] == tool;
                assert(after[i] == tool);
            } else {
                assert(after[kept.len() as int] == tool);
            }
        }
    }
}

/// A connection that is gone takes the skills and files that it announced with it and
/// leaves those of others.
pub proof fn others_stay_announced(
    skills: Seq<(Seq<char>, Skill)>,
    files: Seq<AgentsFile>,
    source: Seq<char>,
    skill: (Seq<char>, Skill),
    file: AgentsFile,
)
    ensures
        skills_without(skills, source).contains(skill) <==> skills.contains(skill) && skill.1.source_id != source,
        files_without(files, source).contains(file) <==> files.contains(file) && file.source_id != source,
    decreases skills.len() + files.len(),
{
    if skills.len() > 0 {
        let short = skills.drop_last();
        let kept = skills_without(short, source);
        let after = skills_without(skills, source);
        others_stay_announced(short, files, source, skill, file);
        if after.contains(skill) {
            let i = choose|i: int| 0 <= i < after.len() && after[i] == skill;
            if i < kept.len() {
                assert(kept[i] == skill);
                assert(kept.contains(skill));
                let k = choose|k: int| 0 <= k < short.len() && short[k] == skill;
                assert(skills[k] == skill);
            } else {
                assert(skills[skills.len() - 1] == skill);
            }
        }
        if skills.contains(skill) && skill.1.source_id != source {
            let k = choose|k: int| 0 <= k < skills.len() && skills[k] == skill;
            if k < short.len() {
                assert(short[k] == skill);
                assert(kept.contains(skill));
                let i = choose|i: int| 0 <= i < kept.len() && kept[i] == skill;
                assert(after[i] == skill);
            } else {
                assert(after[kept.len() as int] == skill);
            }
        }
    }
    if files.len() > 0 {
        let short = files.drop_last();
        let kept = files_without(short, source);
        let after = files_without(files, source);
        others_stay_announced(skills, short, source, skill, file);
        if after.contains(file) {
            let i = choose|i: int| 0 <= i < after.len() && after[i] == file;
            if i < kept.len() {
                assert(kept[i] == file);
                assert(kept.contains(file));
                let k = choose|k: int| 0 <= k < short.len() && short[k] == file;
                assert(files[k] == file);
            } else {
                assert(files[files.len() - 1] == file);
            }
        }
        if files.contains(file) && file.source_id != source {
            let k = choose|k: int| 0 <= k < files.len() && files[k] == file;
            if k < short.len() {
                assert(short[k] == file);
                assert(kept.contains(file));
                let i = choose|i: int| 0 <= i < kept.len() && kept[i] == file;
                assert(after[i] == file);
            } else {
                assert(after[kept.len() as int] == file);
            }
        }
    }
}

proof fn lemma_first_of_name(registry: Seq<Registered>, n: nat)
    requires
        n <= registry.len(),
    ensures
        forall|k: int|
            0 <= k < first_of_name(registry, n).len() ==> exists|i: int|
                0 <= i < n && tool_at(registry, (#[trigger] first_of_name(registry, n)[k]).name) == Some(i) && registry[i]
                    == first_of_name(registry, n)[k],
        forall|i: int|
            0 <= i < n && tool_at(registry, (#[trigger] registry[i]).name) == Some(i) ==> first_of_name(
                registry,
                n,
            ).contains(registry[i]),
    decreases n,
{
    if n > 0 {
        let m = n - 1;
        let before = first_of_name(registry, m as nat);
        let after = first_of_name(registry, n);
        lemma_first_of_name(registry, m as nat);
        tools_are_found_where_they_stand_first(registry.take(m), registry[m].name);
        tools_are_found_where_they_stand_first(registry, registry[m].name);
        let new = tool_at(registry.take(m), registry[m].name) is None;
        assert(new <==> tool_at(registry, registry[m].name) == Some(m)) by {
            let at = tool_at(registry, registry[m].name);
            if new {
                let i = at->Some_0;
                if i < m {
                    assert(registry.take(m)[i] == registry[i]);
                }
                if at is None {
                    assert(registry[m].name == registry[m].name);
                }
                if i > m {
                    assert(registry[m].name != registry[m].name);
                }
            } else {
                let j = tool_at(registry.take(m), registry[m].name)->Some_0;
                assert(registry.take(m)[j] == registry[j]);
                if at == Some(m) {
                    assert(registry[j].name != registry[m].name);
                }
            }
        }
        assert forall|k: int| 0 <= k < after.len() implies exists|i: int|
            0 <= i < n && tool_at(registry, (#[trigger] after[k]).name) == Some(i) && registry[i] == after[k] by {
            if k < before.len() {
                assert(after[k] == before[k]);
                let i = choose|i: int|
                    0 <= i < m && tool_at(registry, before[k].name) == Some(i) && registry[i] == before[k];
                assert(0 <= i < n);
            } else {
                assert(after[k] == registry[m]);
            }
        }
        assert forall|i: int| 0 <= i < n && tool_at(registry, (#[trigger] registry[i]).name) == Some(i) implies after.contains(
            registry[i],
        ) by {
            if i < m {
                assert(before.contains(registry[i]));
                let k = choose|k: int| 0 <= k < before.len() && before[k] == registry[i];
                assert(after[k] == registry[i]);
            } else {
                assert(after[before.len() as int] == registry[i]);
            }
        }
    }
}

/// The agent sees every tool that is registered, once and in the order of names, with the
/// description and parameters of its first registration, and no other tool.
pub proof fn the_agent_sees_the_registered_tools(registry: Seq<Registered>, i: int, j: int)
    ensures
        0 <= i < registry.len() ==> exists|k: int|
            0 <= k < tool_list(registry).len() && (#[trigger] tool_list(registry)[k]).name == registry[i].name,
        0 <= i < tool_list(registry).len() ==> ({
            let tool = tool_list(registry)[i];
            tool_at(registry, tool.name) matches Some(at) && registry[at].description == tool.description && registry[at].parameters
                == tool.parameters
        }),
        0 <= i < j < tool_list(registry).len() ==> !text_less(tool_list(registry)[j].name, tool_list(registry)[i].name),
{
    let distinct = first_of_name(registry, registry.len());
    let names = registered_names(distinct);
    let at = sorted_positions(names);
    let list = tool_list(registry);
    lemma_first_of_name(registry, registry.len());
    sorted_positions_in_order(names);
    if 0 <= i < registry.len() {
        let name = registry[i].name;
        tools_are_found_where_they_stand_first(registry, name);
        let first = tool_at(registry, name)->Some_0;
        assert(tool_at(registry, name) is Some) by {
            if tool_at(registry, name) is None {
                assert(registry[i].name != name);
            }
        }
        assert(tool_at(registry, registry[first].name) == Some(first));
        assert(distinct.contains(registry[first]));
        let d = choose|d: int| 0 <= d < distinct.len() && distinct[d] == registry[first];
        assert(at.contains(d));
        let k = choose|k: int| 0 <= k < at.len() && at[k] == d;
        assert(list[k].name == name);
    }
    if 0 <= i < list.len() {
        assert(list[i].name == distinct[at[i]].name);
        assert(0 <= at[i] < distinct.len());
        let d = distinct[at[i]];
        assert(exists|x: int| 0 <= x < registry.len() && tool_at(registry, d.name) == Some(x) && registry[x] == d);
    }
    if 0 <= i < j < list.len() {
        assert(names[at[i]] == list[i].name);
        assert(names[at[j]] == list[j].name);
        if text_less(list[j].name, list[i].name) {
            if text_less(names[at[i]], names[at[j]]) {
                crate::order::text_less_transitive(names[at[i]], names[at[j]], names[at[i]]);
            }
            crate::order::text_less_irreflexive(names[at[i]]);
        }
    }
}

/// A known model that the user chooses becomes the model of the harness, with the effort
/// that is set or remembered for it, and is to be remembered itself. An unknown one
/// changes nothing.
pub proof fn chosen_models_count(s: State, model: Seq<char>)
    requires
        s.pending_prompts.len() == 0,
    ensures
        ({
            let after = model_chosen(s, model);
            let known = s.models.contains(model);
            &&& known ==> after.model == model
            &&& known ==> after.effort == effort_for(s.default_efforts, s.last_efforts, s.providers, model)
            &&& known ==> after.input_tokens is None && after.cached_tokens is None && after.percent_used is None
            &&& known ==> after.effects[s.effects.len() as int] == (EffectView::Remember {
                text: json_pretty(state_json(model, efforts_after(s.last_efforts, model, after.effort))),
            })
            &&& known ==> after.log.len() == s.log.len() + 4
            &&& known ==> after.log[s.log.len() as int].event == (EventView::ModelSelected {
                model,
                context_window: window_of(s.providers, model),
            })
            &&& known ==> after.log[s.log.len() as int + 2].event == EventView::EffortChanged(after.effort)
            &&& known ==> last_event(after) == EventView::EffortsAvailable(efforts_of(s.providers, model))
            &&& !known ==> after.model == s.model && after.effort == s.effort && last_event(after) == (EventView::Info {
                message: "unknown model: "@ + model,
                level: HarnessInfoLevel::Normal,
            })
            &&& after.sessions == s.sessions
            &&& after.turn == s.turn
        }),
{
    reveal(model_chosen);
    reveal(published_as);
}

/// The effort that the user chooses becomes the one of the harness, as far as the model
/// allows it, is to be remembered for the model, and is announced.
pub proof fn chosen_efforts_count(s: State, level: Effort)
    ensures
        ({
            let after = effort_chosen(s, level);
            let allowed = efforts_of(s.providers, s.model);
            &&& allowed.contains(level) ==> after.effort == level
            &&& allowed.len() > 0 ==> allowed.contains(after.effort)
            &&& last_event(after) == EventView::EffortChanged(after.effort)
            &&& after.effects[s.effects.len() as int] == (EffectView::Remember {
                text: json_pretty(state_json(s.model, efforts_after(s.last_efforts, s.model, after.effort))),
            })
            &&& after.model == s.model
        }),
{
    reveal(effort_chosen);
    reveal(published_as);
    let allowed = efforts_of(s.providers, s.model);
    if allowed.len() > 0 {
        crate::models::clamped_is_allowed(level, allowed);
    }
}

/// Turning to another session ends the one before, and nothing of that one waits any more.
pub proof fn switching_leaves_nothing_waiting(s: State, session: Seq<char>, reason: SessionStartReason)
    requires
        sound(s),
        session != s.current,
        setup_peers(s.connections).len() > 0,
    ensures
        ({
            let t = switched(s, session, reason);
            &&& t.error is None
            &&& t.state.current == session
            &&& t.state.pending_prompts.len() == 0
            &&& t.state.request_sessions.len() == 0
            &&& t.state.pending_calls.len() == 0
            &&& t.state.log[s.log.len() as int].event == (EventView::Shutdown { session_id: s.current })
            &&& last_event(t.state) == (EventView::Started { session_id: session, reason })
            &&& t.state.turn matches Turn::Initializing { session: begun, waiting_on } && begun == session && waiting_on
                == setup_peers(s.connections)
            &&& t.state.sessions == s.sessions
            &&& t.state.effects.contains(EffectView::OpenSession { session })
        }),
{
    reveal(switched);
    reveal(published_as);
    let t = switched(s, session, reason);
    let s1 = published(s, None, EventView::Shutdown { session_id: s.current });
    let opened = State {
        turn: Turn::Idle,
        pending_prompts: Seq::empty(),
        request_sessions: Seq::empty(),
        pending_calls: Seq::empty(),
        current: session,
        effects: s1.effects.push(EffectView::OpenSession { session }),
        ..s1
    };
    lemma_without_contexts(opened, setup_peers(s.connections));
    assert(t.state.effects[s1.effects.len() as int] == (EffectView::OpenSession { session }));
}

pub proof fn lemma_without_contexts(s: State, sources: Seq<Seq<char>>)
    ensures
        without_contexts(s, sources) == (State {
            skills: without_contexts(s, sources).skills,
            files: without_contexts(s, sources).files,
            ..s
        }),
    decreases sources.len(),
{
    if sources.len() > 0 {
        lemma_without_contexts(s, sources.drop_last());
    }
}

/// Turning to the session that the harness is on changes nothing but the log.
pub proof fn switching_to_the_same_session_is_noted(s: State, reason: SessionStartReason)
    ensures
        switched(s, s.current, reason).error is None,
        switched(s, s.current, reason).state.turn == s.turn,
        switched(s, s.current, reason).state.pending_prompts == s.pending_prompts,
        switched(s, s.current, reason).state.current == s.current,
{
    reveal(switched);
}

/// Moving to a node makes it the head of the session, keeps all nodes, and leaves other
/// sessions alone; it is to be written down.
pub proof fn moving_changes_the_head_alone(s: State, node: int, other: Seq<char>)
    requires
        sound(s),
        0 <= node < tree_of(s.sessions, s.current).nodes.len(),
    ensures
        ({
            let t = navigated(s, s.current, node);
            &&& t.error is None
            &&& tree_of(t.state.sessions, s.current).head == Some(node)
            &&& tree_of(t.state.sessions, s.current).nodes == tree_of(s.sessions, s.current).nodes
            &&& other != s.current ==> tree_of(t.state.sessions, other) == tree_of(s.sessions, other)
            &&& t.state.effects[s.effects.len() as int] == (EffectView::KeepHead { session: s.current, node })
        }),
{
    reveal(navigated);
    reveal(published_as);
    let tree = Tree { nodes: tree_of(s.sessions, s.current).nodes, head: Some(node) };
    lookup_after_stored(s.sessions, s.current, tree, s.current);
    lookup_after_stored(s.sessions, s.current, tree, other);
}

/// Moving to a node that is not there, or in another session, moves nothing.
pub proof fn moving_nowhere_moves_nothing(s: State, session: Seq<char>, node: int)
    requires
        session != s.current || !(0 <= node < tree_of(s.sessions, session).nodes.len()),
    ensures
        navigated(s, session, node).error is None,
        navigated(s, session, node).state.sessions == s.sessions,
        navigated(s, session, node).state.log.len() == s.log.len() + 1,
{
    reveal(navigated);
}

proof fn lemma_all_noted(s: State, messages: Seq<Seq<char>>, i: int)
    ensures
        all_noted(s, messages).log.len() == s.log.len() + messages.len(),
        all_noted(s, messages).sessions == s.sessions,
        0 <= i < messages.len() ==> all_noted(s, messages).log[s.log.len() + i].event == (EventView::Info {
            message: messages[i],
            level: HarnessInfoLevel::Normal,
        }),
    decreases messages.len(),
{
    if messages.len() > 0 {
        lemma_all_noted(s, messages.drop_last(), i);
    }
}

/// The tree of a session is told with one message for each node, in their order.
pub proof fn trees_are_told_node_by_node(s: State, i: int)
    requires
        0 <= i < tree_of(s.sessions, s.current).nodes.len(),
    ensures
        ({
            let after = tree_shown(s, s.current);
            let tree = tree_of(s.sessions, s.current);
            &&& after.log.len() == s.log.len() + tree.nodes.len()
            &&& after.log[s.log.len() + i].event == (EventView::Info {
                message: crate::session::node_line(tree, i),
                level: HarnessInfoLevel::Normal,
            })
            &&& after.sessions == s.sessions
        }),
{
    reveal(tree_shown);
    lemma_all_noted(s, node_lines(tree_of(s.sessions, s.current)), i);
}

/// A client that joins is shown the kept events of the current session that it chose,
/// each once and in order, and none of another session.
pub proof fn kept_events_are_shown_again(s: State, to: Seq<char>, selectors: Seq<Selector>, n: nat, k: int)
    requires
        n <= s.kept.len(),
    ensures
        0 <= k < n && s.kept[k].0 == s.current && any_selects(selectors, s.kept[k].1) ==> kept_replays(
            s,
            to,
            selectors,
            n,
        ).contains(EffectView::ReplayKept { to, index: k }),
        0 <= k < kept_replays(s, to, selectors, n).len() ==> (kept_replays(s, to, selectors, n)[k] matches EffectView::ReplayKept {
            to: at,
            index,
        } && at == to && 0 <= index < n && s.kept[index].0 == s.current && any_selects(selectors, s.kept[index].1)),
    decreases n,
{
    if n > 0 {
        let before = kept_replays(s, to, selectors, (n - 1) as nat);
        let after = kept_replays(s, to, selectors, n);
        kept_events_are_shown_again(s, to, selectors, (n - 1) as nat, k);
        let e = EffectView::ReplayKept { to, index: k };
        if k < n - 1 && before.contains(e) {
            let i = choose|i: int| 0 <= i < before.len() && before[i] == e;
            assert(after[i] == e);
        }
        if k == n - 1 && s.kept[k].0 == s.current && any_selects(selectors, s.kept[k].1) {
            assert(after[before.len() as int] == e);
        }
    }
}

/// A client that joins is shown the messages and extension events in the log that it
/// chose, each once and in order.
pub proof fn logged_events_are_shown_again(s: State, to: Seq<char>, selectors: Seq<Selector>, n: nat, k: int)
    requires
        n <= s.log.len(),
    ensures
        0 <= k < n && replayed_kind(s.log[k].event) && any_selects(selectors, selection_name(s.log[k].event))
            ==> log_replays(s, to, selectors, n).contains(EffectView::Replay { to, seq: k }),
        0 <= k < log_replays(s, to, selectors, n).len() ==> (log_replays(s, to, selectors, n)[k] matches EffectView::Replay {
            to: at,
            seq,
        } && at == to && 0 <= seq < n && any_selects(selectors, selection_name(s.log[seq].event))),
    decreases n,
{
    if n > 0 {
        let before = log_replays(s, to, selectors, (n - 1) as nat);
        let after = log_replays(s, to, selectors, n);
        logged_events_are_shown_again(s, to, selectors, (n - 1) as nat, k);
        let e = EffectView::Replay { to, seq: k };
        if k < n - 1 && before.contains(e) {
            let i = choose|i: int| 0 <= i < before.len() && before[i] == e;
            assert(after[i] == e);
        }
        if k == n - 1 && replayed_kind(s.log[k].event) && any_selects(selectors, selection_name(s.log[k].event)) {
            assert(after[before.len() as int] == e);
        }
    }
}

proof fn lemma_ext_at(extensions: Seq<Ext>, connection: Seq<char>)
    ensures
        match ext_at(extensions, connection) {
            Some(i) => 0 <= i < extensions.len() && extensions[i].connection_id == connection && forall|j: int|
                0 <= j < i ==> (#[trigger] extensions[j]).connection_id != connection,
            None => forall|j: int| 0 <= j < extensions.len() ==> (#[trigger] extensions[j]).connection_id != connection,
        },
    decreases extensions.len(),
{
    if extensions.len() > 0 {
        let short = extensions.drop_last();
        lemma_ext_at(short, connection);
        match ext_at(short, connection) {
            Some(i) => {
                assert(short[i] == extensions[i]);
                assert forall|j: int| 0 <= j < i implies (#[trigger] extensions[j]).connection_id != connection by {
                    assert(short[j] == extensions[j]);
                }
            },
            None => {
                assert forall|j: int| 0 <= j < extensions.len() - 1 implies (#[trigger] extensions[j]).connection_id
                    != connection by {
                    assert(short[j] == extensions[j]);
                }
            },
        }
    }
}

/// An extension is handed the configuration that was set for it; one without is handed an
/// empty one.
pub proof fn extensions_get_their_configuration(s: State, connection: Seq<char>, i: int)
    requires
        0 <= i < s.extensions.len(),
        s.extensions[i].connection_id == connection,
        forall|j: int| 0 <= j < i ==> (#[trigger] s.extensions[j]).connection_id != connection,
    ensures
        s.extensions[i].supervised matches Some(json) ==> configured(s, connection).effects.last() == (EffectView::Send {
            to: connection,
            event: EventView::Configure(cbor_of(json)),
        }),
        s.extensions[i].supervised is None ==> configured(s, connection).effects.last() == (EffectView::Send {
            to: connection,
            event: EventView::Configure(cbor_of(Json::Object(Seq::empty()))),
        }),
{
    lemma_ext_at(s.extensions, connection);
    let k = ext_at(s.extensions, connection)->Some_0;
    assert(k == i) by {
        if ext_at(s.extensions, connection) is None {
            assert(s.extensions[i].connection_id != connection);
        } else if k < i {
            assert(s.extensions[k].connection_id != connection);
        } else if k > i {
            assert(s.extensions[i].connection_id != connection);
        }
    }
}

/// The state of an extension changes for the extension behind the connection and for no
/// other.
pub proof fn one_extension_changes_its_state(s: State, connection: Seq<char>, state: ExtensionState, i: int)
    requires
        0 <= i < s.extensions.len(),
    ensures
        ({
            let after = with_ext_state(s, connection, state);
            &&& after.extensions.len() == s.extensions.len()
            &&& s.extensions[i].connection_id != connection ==> after.extensions[i] == s.extensions[i]
            &&& after.extensions[i] == (Ext { state: after.extensions[i].state, ..s.extensions[i] })
            &&& s.extensions[i].connection_id == connection && (forall|j: int|
                0 <= j < i ==> (#[trigger] s.extensions[j]).connection_id != connection) ==> after.extensions[i].state
                == state
        }),
{
    lemma_ext_at(s.extensions, connection);
    if let Some(k) = ext_at(s.extensions, connection) {
        if k < i {
            assert(s.extensions[k].connection_id == connection);
        }
    }
}

proof fn lemma_peer_at(connections: Seq<Peer>, id: Seq<char>)
    ensures
        match peer_at(connections, id) {
            Some(i) => 0 <= i < connections.len() && connections[i].id == id,
            None => forall|j: int| 0 <= j < connections.len() ==> (#[trigger] connections[j]).id != id,
        },
    decreases connections.len(),
{
    if connections.len() > 0 {
        let short = connections.drop_last();
        lemma_peer_at(short, id);
        match peer_at(short, id) {
            Some(i) => {
                assert(short[i] == connections[i]);
            },
            None => {
                assert forall|j: int| 0 <= j < connections.len() - 1 implies (#[trigger] connections[j]).id != id by {
                    assert(short[j] == connections[j]);
                }
            },
        }
    }
}

/// A connection that chooses its events gets those, and the other connections keep
/// theirs.
pub proof fn subscriptions_are_their_own(s: State, connection: Seq<char>, selectors: Seq<Selector>, i: int)
    requires
        0 <= i < s.connections.len(),
        forall|a: int, b: int|
            0 <= a < b < s.connections.len() ==> (#[trigger] s.connections[a]).id != (#[trigger] s.connections[b]).id,
    ensures
        ({
            let after = subscribed(s, connection, selectors);
            &&& after.connections.len() == s.connections.len()
            &&& s.connections[i].id == connection ==> after.connections[i] == (Peer { selectors, ..s.connections[i] })
            &&& s.connections[i].id != connection ==> after.connections[i] == s.connections[i]
        }),
{
    lemma_peer_at(s.connections, connection);
    if let Some(k) = peer_at(s.connections, connection) {
        if k < i {
            assert(s.connections[k].id != s.connections[i].id);
        }
        if i < k {
            assert(s.connections[i].id != s.connections[k].id);
        }
    } else {
        assert(s.connections[i].id != connection);
    }
}

/// The lost extension of a process of its own is announced as restarting and is to be
/// started again, once more than before; the agent's is not.
pub proof fn lost_extensions_are_started_again(s: State, connection: Seq<char>, i: int)
    requires
        ext_at(s.extensions, connection) == Some(i),
        0 <= i < s.extensions.len(),
    ensures
        ({
            let after = respawn_asked(s, connection);
            let e = s.extensions[i];
            let again = e.supervised is Some && e.kind != ClientKind::Agent;
            &&& again ==> after.effects.last() == (EffectView::Respawn { index: i })
            &&& again ==> after.extensions[i] == (Ext { restart_attempt: e.restart_attempt + 1, ..e })
            &&& again ==> (last_event(after) matches EventView::Restarting { notice, attempt, .. } && notice.extension_name
                == e.name && notice.instance_id == e.instance_id && attempt == (e.restart_attempt + 1) as u32)
            &&& !again ==> after == s
        }),
{
}

/// An extension that was started again is known by its new connection and process, and
/// has to come online anew.
pub proof fn started_extensions_begin_anew(s: State, i: int, connection: Seq<char>, pid: u32)
    requires
        0 <= i < s.extensions.len(),
    ensures
        ({
            let after = respawned(s, i, connection, pid);
            let e = s.extensions[i];
            &&& after.extensions[i].connection_id == connection
            &&& after.extensions[i].pid == Some(pid)
            &&& after.extensions[i].state == ExtensionState::Spawning
            &&& after.extensions[i].last_acked == 0
            &&& after.extensions[i].name == e.name
            &&& after.extensions[i].supervised == e.supervised
            &&& after.connections.len() == s.connections.len() + 1
            &&& after.connections.last().id == connection
            &&& after.connections.last().name == e.name
            &&& after.connections.last().selectors.len() == 0
            &&& last_event(after) matches EventView::Starting(notice) && notice.extension_name == e.name
            &&& after.lifecycle == s.lifecycle.push("extension "@ + e.name + " starting"@)
        }),
{
    assert(respawned(s, i, connection, pid).lifecycle =~= s.lifecycle.push("extension "@ + s.extensions[i].name + " starting"@));
}

/// The calls on which a connection is at work are those that are filed under it.
pub proof fn calls_are_filed_under_their_provider(
    providers: Seq<(Seq<char>, Seq<char>)>,
    connection: Seq<char>,
    call_id: Seq<char>,
)
    ensures
        calls_of(providers, connection).contains(call_id) <==> providers.contains((call_id, connection)),
    decreases providers.len(),
{
    if providers.len() > 0 {
        let short = providers.drop_last();
        let before = calls_of(short, connection);
        let after = calls_of(providers, connection);
        calls_are_filed_under_their_provider(short, connection, call_id);
        let filed = (call_id, connection);
        if after.contains(call_id) {
            let i = choose|i: int| 0 <= i < after.len() && after[i] == call_id;
            if i < before.len() {
                assert(before[i] == call_id);
                assert(before.contains(call_id));
                let k = choose|k: int| 0 <= k < short.len() && short[k] == filed;
                assert(providers[k] == filed);
            } else {
                assert(providers[providers.len() - 1] == filed);
            }
        }
        if providers.contains(filed) {
            let k = choose|k: int| 0 <= k < providers.len() && providers[k] == filed;
            if k < short.len() {
                assert(short[k] == filed);
                assert(before.contains(call_id));
                let i = choose|i: int| 0 <= i < before.len() && before[i] == call_id;
                assert(after[i] == call_id);
            } else {
                assert(after[before.len() as int] == call_id);
            }
        }
    }
}

} // verus!

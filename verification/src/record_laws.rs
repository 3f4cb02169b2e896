//! What the records of a running program stand for, and what names are acceptable.
use vstd::prelude::*;
use crate::context::safe_text;
use crate::event::Selector;
use crate::harness::Harness;
use crate::inspect::{approval_shown, listed, selector_shown, ListedSession, PolicyApproval};
use crate::messages::{EventLogSeq, UnixMicros};
use crate::models::ProviderConfig;
use crate::paths::{path_join, state_dir_of, stderr_log};
use crate::pool::{PoolKey, WsConn};
use crate::provider_store::{name_fault, NameFault};
use crate::secrets::names_secret;
use crate::serve::{client_selectors, config_checked, embedded, end_reason, peeled};
use crate::event::{any_selects, selects, ClientKind, Event, EventView, HarnessInfoLevel};
use crate::harness_laws::last_event;
use crate::skills::plain_name;
use crate::state::{publishing_changes_the_log_alone, State};
use crate::text::{begins, ends_in, with_char_replaced};
use crate::text_laws::parts_are_found;
use crate::tool_turn::{PendingTool, RunningTool};

verus! {

/// What a harness knows is what its parts hold.
pub proof fn harnesses_know_what_their_parts_hold(h: Harness, i: int)
    ensures
        h@.current == h.current_session_id@,
        h@.sessions == h.store@,
        h@.model == h.selected_model@,
        h@.effort == h.selected_effort,
        h@.thinking_summary == h.selected_thinking_summary,
        h@.agent == h.agent_connection_id@,
        h@.turn == h.turn_state@,
        h@.cwd == h.cwd@,
        h@.prompt_sessions == h.prompt_sessions@,
        h@.tool_sessions == h.pending_tool_sessions@,
        h@.tool_names == h.pending_tool_names@,
        h@.tool_providers == h.pending_tool_providers@,
        h@.in_flight == h.in_flight_tool_kinds@,
        h@.skills == h.discovered_skills@,
        h@.providers == h.model_registry@,
        h@.default_efforts == h.default_efforts@,
        h@.last_efforts == h.last_efforts@,
        h@.input_tokens == h.context_input_tokens,
        h@.cached_tokens == h.context_cached_tokens,
        h@.percent_used == h.context_percent_used,
        h@.next_prompt == h.next_session_prompt_id,
        h@.next_synthetic == h.next_synthetic_call_id,
        h@.connections.len() == h.connections@.len(),
        0 <= i < h.connections@.len() ==> h@.connections[i] == h.connections@[i]@,
        h@.registry.len() == h.registry@.len(),
        0 <= i < h.registry@.len() ==> h@.registry[i] == h.registry@[i]@,
        h@.extensions.len() == h.extensions@.len(),
        0 <= i < h.extensions@.len() ==> h@.extensions[i] == h.extensions@[i]@,
        h@.log.len() == h.event_log.entries@.len(),
        0 <= i < h.event_log.entries@.len() ==> h@.log[i].event == h.event_log.entries@[i].event@,
        h@.pending_prompts.len() == h.pending_prompts@.len(),
        0 <= i < h.pending_prompts@.len() ==> h@.pending_prompts[i] == (h.pending_prompts@[i].0@, h.pending_prompts@[i].1@),
        h@.pending_calls.len() == h.pending_tool_invocations@.len(),
        0 <= i < h.pending_tool_invocations@.len() ==> h@.pending_calls[i] == h.pending_tool_invocations@[i]@,
        h@.effects.len() == h.effects@.len(),
        0 <= i < h.effects@.len() ==> h@.effects[i] == h.effects@[i]@,
        h@.kept.len() == h.kept_events@.len(),
        0 <= i < h.kept_events@.len() ==> h@.kept[i] == (h.kept_events@[i].session_id@, h.kept_events@[i].name@),
        h@.models.len() == h.available_models@.len(),
        0 <= i < h.available_models@.len() ==> h@.models[i] == h.available_models@[i]@,
        h@.files.len() == h.discovered_agents_files@.len(),
        0 <= i < h.discovered_agents_files@.len() ==> h@.files[i] == h.discovered_agents_files@[i]@,
{
}

/// Connections, calls and providers stand for the parts of the same names.
pub proof fn connections_and_calls_stand_for_themselves(
    key: PoolKey,
    conn: WsConn,
    waiting: PendingTool,
    running: RunningTool,
    provider: ProviderConfig,
    i: int,
)
    ensures
        key@.base_url == key.base_url@,
        key.account_id matches Some(id) ==> key@.account == Some(id@),
        key.account_id is None ==> key@.account is None,
        key@.session == key.session_id@,
        key@.conversation == key.conversation_id@,
        conn@.handle == conn.handle,
        conn@.bearer == conn.bearer@,
        conn@.opened_at == conn.opened_at,
        waiting@.conversation == waiting.conversation_id@,
        waiting@.invocation == waiting.invocation,
        waiting@.mode == waiting.mode,
        waiting@.background == waiting.background_support,
        waiting@.scope == waiting.lock_scope,
        running@.conversation == running.conversation_id@,
        running@.id == running.call_id@,
        running@.mode == running.mode,
        running@.scope == running.lock_scope,
        running@.deadline == running.deadline,
        running@.backgrounded == running.backgrounded,
        provider@.supports_reasoning_effort == provider.supports_reasoning_effort,
        provider@.models.len() == provider.models@.len(),
        0 <= i < provider.models@.len() ==> provider@.models[i] == (
            provider.models@[i].id@,
            provider.models@[i].context_window,
        ),
{
}

/// A number that was wrapped is the number, and the next one is one more.
pub proof fn numbers_stay_numbers(v: u64, seq: EventLogSeq, at: UnixMicros)
    ensures
        call_ensures(EventLogSeq::new, (v,), seq) ==> forall|r: u64| #[trigger]
            call_ensures(EventLogSeq::get, (seq,), r) ==> r == v,
        call_ensures(EventLogSeq::new, (v,), seq) ==> forall|next: EventLogSeq, r: u64|
            #![trigger call_ensures(EventLogSeq::next, (seq,), next), call_ensures(EventLogSeq::get, (next,), r)]
            call_ensures(EventLogSeq::next, (seq,), next) && call_ensures(EventLogSeq::get, (next,), r) ==> r == v + 1,
        call_ensures(UnixMicros::new, (v,), at) ==> forall|r: u64| #[trigger]
            call_ensures(UnixMicros::get, (at,), r) ==> r == v,
{
}

/// The name of a secret is made of letters, digits, dots, underscores and hyphens, and is
/// neither empty nor a directory.
pub proof fn names_of_secrets_are_plain(name: Seq<char>, i: int)
    ensures
        names_secret(name) ==> name.len() > 0 && name != "."@ && name != ".."@,
        names_secret(name) && 0 <= i < name.len() ==> ('a' <= name[i] && name[i] <= 'z') || ('A' <= name[i] && name[i]
            <= 'Z') || ('0' <= name[i] && name[i] <= '9') || name[i] == '.' || name[i] == '_' || name[i] == '-',
        name.len() > 0 && name != "."@ && name != ".."@ && (forall|k: int|
            0 <= k < name.len() ==> ('a' <= #[trigger] name[k] && name[k] <= 'z') || ('A' <= name[k] && name[k] <= 'Z') || (
            '0' <= name[k] && name[k] <= '9') || name[k] == '.' || name[k] == '_' || name[k] == '-') ==> names_secret(name),
{
    if names_secret(name) && 0 <= i < name.len() {
        assert(crate::secrets::secret_char(name[i]));
    }
}

/// The name of a file for credentials is made of letters, digits, underscores, hyphens and
/// dots, and begins with neither a dot nor a hyphen.
pub proof fn names_of_credentials_are_plain(name: Seq<char>, i: int)
    ensures
        name_fault(name) == NameFault::Fine && 0 <= i < name.len() ==> ('a' <= name[i] && name[i] <= 'z') || ('A' <= name[i]
            && name[i] <= 'Z') || ('0' <= name[i] && name[i] <= '9') || name[i] == '_' || name[i] == '-' || name[i] == '.',
        name.len() > 0 && name[0] != '.' && name[0] != '-' && (forall|k: int|
            0 <= k < name.len() ==> ('a' <= #[trigger] name[k] && name[k] <= 'z') || ('A' <= name[k] && name[k] <= 'Z') || (
            '0' <= name[k] && name[k] <= '9') || name[k] == '_' || name[k] == '-' || name[k] == '.') ==> name_fault(name)
            == NameFault::Fine,
        name.len() == 0 ==> name_fault(name) == NameFault::Empty,
        name.len() > 0 && (name[0] == '.' || name[0] == '-') ==> name_fault(name) == NameFault::Start,
{
    if name_fault(name) == NameFault::Fine && 0 <= i < name.len() {
        assert(crate::provider_store::auth_name_char(name[i]));
    }
}

/// The name of a skill is plain where it is made of small letters, digits and hyphens.
pub proof fn plain_names_of_skills(name: Seq<char>, i: int)
    ensures
        plain_name(name) && 0 <= i < name.len() ==> ('a' <= name[i] && name[i] <= 'z') || ('0' <= name[i] && name[i]
            <= '9') || name[i] == '-',
        (forall|k: int|
            0 <= k < name.len() ==> ('a' <= #[trigger] name[k] && name[k] <= 'z') || ('0' <= name[k] && name[k] <= '9')
                || name[k] == '-') ==> plain_name(name),
{
    if plain_name(name) && 0 <= i < name.len() {
        assert(crate::skills::skill_name_char(name[i]));
    }
}

/// A line feed that may not stay is told by two characters, as are the return and the
/// tabulator; every other character that may pass stays.
pub proof fn control_characters_are_told(s: Seq<char>, keep_lines: bool, c: char)
    ensures
        safe_text(s + seq!['\n'], false) == safe_text(s, false) + seq!['\\', 'n'],
        safe_text(s + seq!['\n'], true) == safe_text(s, true) + seq!['\n'],
        safe_text(s + seq!['\r'], keep_lines) == safe_text(s, keep_lines) + seq!['\\', 'r'],
        safe_text(s + seq!['\t'], keep_lines) == safe_text(s, keep_lines) + seq!['\\', 't'],
        ' ' <= c && c <= '~' ==> safe_text(s + seq![c], keep_lines) == safe_text(s, keep_lines) + seq![c],
{
    assert((s + seq!['\n']).drop_last() =~= s);
    assert((s + seq!['\r']).drop_last() =~= s);
    assert((s + seq!['\t']).drop_last() =~= s);
    assert((s + seq![c]).drop_last() =~= s);
}

/// An approval is shown with the name of the connection, and what it approves of by name.
pub proof fn approvals_are_shown_by_name(approval: PolicyApproval, name: Seq<char>)
    ensures
        begins(approval_shown(approval), approval.connection_name@),
        selector_shown(Selector::Exact(name)) == name,
        selector_shown(Selector::Prefix(name)) == name + "*"@,
{
    let all = approval_shown(approval);
    assert(all.take(approval.connection_name@.len() as int) =~= approval.connection_name@);
}

/// A session is listed by its id.
pub proof fn sessions_are_listed_by_id(session: ListedSession)
    ensures
        begins(listed(session), session.session_id@),
{
    assert(listed(session).take(session.session_id@.len() as int) =~= session.session_id@);
}

/// A client that is to hear of everything hears of agents, sessions, tools, extensions and
/// the harness.
pub proof fn clients_hear_of_everything(rest: Seq<char>)
    ensures
        any_selects(client_selectors(), "agent."@ + rest),
        any_selects(client_selectors(), "session."@ + rest),
        any_selects(client_selectors(), "tool."@ + rest),
        any_selects(client_selectors(), "extension."@ + rest),
        any_selects(client_selectors(), "harness."@ + rest),
{
    let all = client_selectors();
    parts_are_found(Seq::empty(), "agent."@, rest);
    parts_are_found(Seq::empty(), "session."@, rest);
    parts_are_found(Seq::empty(), "tool."@, rest);
    parts_are_found(Seq::empty(), "extension."@, rest);
    parts_are_found(Seq::empty(), "harness."@, rest);
    assert(selects(all[0], "agent."@ + rest));
    assert(selects(all[1], "session."@ + rest));
    assert(selects(all[2], "tool."@ + rest));
    assert(selects(all[3], "extension."@ + rest));
    assert(selects(all[4], "harness."@ + rest));
}

/// An event with its place in the log is the event; any other is itself.
pub proof fn places_are_peeled_off(id: u64, event: Box<Event>, other: Event, reason: Seq<char>)
    ensures
        peeled(Event::LogEvent { id, event }) == *event,
        !(other is LogEvent) ==> peeled(other) == other,
        end_reason(Some(reason)) == reason,
        end_reason(None) == "daemon disconnected"@,
{
}

/// A harness in one process has its agent and its shell behind the connections that they
/// were given.
pub proof fn embedded_extensions_have_their_connections(agent: Seq<char>, shell: Seq<char>, pid: u32)
    ensures
        embedded(agent, shell, pid).len() == 2,
        embedded(agent, shell, pid)[0].connection == agent,
        embedded(agent, shell, pid)[0].kind == ClientKind::Agent,
        embedded(agent, shell, pid)[1].connection == shell,
        embedded(agent, shell, pid)[1].kind == ClientKind::Tool,
        crate::serve::agent_connection(embedded(agent, shell, pid)) == Some(agent),
{
    let all = embedded(agent, shell, pid);
    reveal_with_fuel(crate::serve::agent_connection, 3);
    assert(all.drop_last()[0] == all[0]);
    assert(all.drop_last().last() == all[0]);
}

/// A missing configuration and one that cannot be read are reported as important.
pub proof fn trouble_with_the_configuration_is_reported(s: State, error: Seq<char>)
    ensures
        config_checked(s, true, None) == s,
        config_checked(s, false, None).log.len() == s.log.len() + 1,
        config_checked(s, true, Some(error)).log.len() == s.log.len() + 1,
        last_event(config_checked(s, true, Some(error))) matches EventView::Info { message, level } && ends_in(message, error)
            && level == HarnessInfoLevel::Important,
{
    broadcast use publishing_changes_the_log_alone;

    parts_are_found(
        "harness.json5 failed to parse — extensions and model selection from it are being IGNORED.\n"@,
        error,
        Seq::empty(),
    );
}

/// The log of an extension lies with its session, under its name.
pub proof fn logs_lie_with_their_session(state_dir: Seq<char>, session: Seq<char>, name: Seq<char>)
    requires
        name.len() > 0,
        name[0] != '/',
    ensures
        ends_in(stderr_log(state_dir, session, name), name + ".log"@),
        state_dir_of(Some(state_dir)) == state_dir,
{
    crate::data_laws::paths_lie_in_their_directory(
        path_join(path_join(state_dir, session), "extensions"@),
        name + ".log"@,
    );
}

/// Replacing a character keeps all others in their places.
pub proof fn characters_are_replaced(s: Seq<char>, from: char, to: char, i: int)
    requires
        0 <= i < s.len(),
    ensures
        with_char_replaced(s, from, to).len() == s.len(),
        with_char_replaced(s, from, to)[i] == (if s[i] == from { to } else { s[i] }),
{
}

} // verus!

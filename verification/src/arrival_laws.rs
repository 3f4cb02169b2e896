//! What holds of what reaches a harness while it starts, serves and ends.
use vstd::prelude::*;
use crate::assoc::lookup;
use crate::calendar::{date_line, Date};
use crate::closing::{ended, shut_down, ThreadEnd};
use crate::context::without_last_lines;
use crate::discovery::AgentsFile;
use crate::error::Trouble;
use crate::event::{ConnectionOrigin, Effort, Event, EventView, ExtAgentsMdAvailable, ToolProgress};
use crate::handlers::extension_heard;
use crate::json::{json_field, Json};
use crate::models::state_json;
use crate::paths::same_path;
use crate::provider_cli::{login_comes_to, LoginPlan, Settings};
use crate::secrets::{collected, names_secret, secret_for, SecretFile, SecretTrouble};
use crate::serve::{
    arrived, arrived_at_init, arrived_at_interaction, arrived_at_startup, with_progress, HarnessEvent, ServeProgress,
};
use crate::state::{
    after_client_event, after_extension_event, call_refused, peer_at, published, publishing_changes_the_log_alone,
    tree_shown, with_file, Call, State,
};
use crate::text::{ascii_lower, decimal, has_text, stands_at};
use crate::tool_turn::{calls_start_in_order, startable, ToolTurnLockScope, Turn};

verus! {

broadcast use publishing_changes_the_log_alone;

/// A client counts as served when its connection is lost; the loss of an extension changes
/// nothing about how far serving has come.
pub proof fn lost_clients_are_served(s: State, p: ServeProgress, connection_id: String, denied: Option<String>, i: int)
    requires
        peer_at(s.connections, connection_id@) == Some(i),
        p.served_clients < usize::MAX,
    ensures
        ({
            let after = arrived(s, p, HarnessEvent::Disconnected { connection_id }, denied).1;
            &&& s.connections[i].origin == ConnectionOrigin::Socket ==> after.served_clients == p.served_clients + 1
            &&& s.connections[i].origin != ConnectionOrigin::Socket ==> after.served_clients == p.served_clients
            &&& after.max_clients == p.max_clients
            &&& after.exit_on_disconnect == p.exit_on_disconnect
            &&& after.ever_attached == p.ever_attached
        }),
{
}

/// A client that connects is remembered, and counts as served only when it leaves.
pub proof fn new_clients_are_remembered(s: State, p: ServeProgress, connection_id: String, denied: Option<String>)
    ensures
        ({
            let (after, q, trouble) = arrived(s, p, HarnessEvent::NewClient { connection_id }, denied);
            &&& q.ever_attached
            &&& q.served_clients == p.served_clients
            &&& q.max_clients == p.max_clients
            &&& q.exit_on_disconnect == p.exit_on_disconnect
            &&& trouble is None
            &&& after.connections.len() == s.connections.len() + 1
        }),
{
}

/// A client that detaches leaves a harness behind that does not end with its last client;
/// nothing else that anybody sends changes whether it does.
pub proof fn detached_harnesses_go_on(
    s: State,
    p: ServeProgress,
    connection_id: String,
    event: Event,
    denied: Option<String>,
    i: int,
)
    requires
        peer_at(s.connections, connection_id@) == Some(i),
        p.served_clients < usize::MAX,
    ensures
        ({
            let after = arrived(s, p, HarnessEvent::FromConnection { connection_id, event }, denied).1;
            &&& after.exit_on_disconnect == (p.exit_on_disconnect && !(event is UiDetachRequest
                && s.connections[i].origin == ConnectionOrigin::Socket))
            &&& after.max_clients == p.max_clients
            &&& after.ever_attached == p.ever_attached
            &&& p.served_clients <= after.served_clients <= p.served_clients + 1
            &&& s.connections[i].origin != ConnectionOrigin::Socket ==> after == p
        }),
{
}

/// A client that says farewell is served, and its connection is gone.
pub proof fn clients_that_leave_are_served(
    s: State,
    p: ServeProgress,
    connection_id: String,
    event: Event,
    denied: Option<String>,
    i: int,
)
    requires
        peer_at(s.connections, connection_id@) == Some(i),
        s.connections[i].origin == ConnectionOrigin::Socket,
        event@ is Disconnect,
        p.served_clients < usize::MAX,
    ensures
        ({
            let (after, q, trouble) = arrived(s, p, HarnessEvent::FromConnection { connection_id, event }, denied);
            trouble is None ==> q.served_clients == p.served_clients + 1
        }),
{
}

/// Who leaves while the harness starts stops it, and is named: by the name of the
/// connection, or by its id where it has none. Later the loss of a connection is no trouble
/// of its own, unless it is that of the agent.
pub proof fn losses_count_by_their_time(s: State, connection_id: String, denied: Option<String>, i: int)
    ensures
        peer_at(s.connections, connection_id@) == Some(i) ==> arrived_at_startup(
            s,
            HarnessEvent::Disconnected { connection_id },
            denied,
        ).1 == Some(Trouble::Participant(s.connections[i].name + " disconnected during startup"@)),
        peer_at(s.connections, connection_id@) is None ==> arrived_at_startup(
            s,
            HarnessEvent::Disconnected { connection_id },
            denied,
        ).1 == Some(Trouble::Participant(connection_id@ + " disconnected during startup"@)),
        arrived_at_init(s, HarnessEvent::Disconnected { connection_id }, denied).1 is None,
        connection_id@ == s.agent ==> arrived_at_interaction(
            s,
            HarnessEvent::Disconnected { connection_id },
            denied,
        ).1 == Some(Trouble::Participant("agent disconnected"@)),
        connection_id@ != s.agent ==> arrived_at_interaction(
            s,
            HarnessEvent::Disconnected { connection_id },
            denied,
        ).1 is None,
        arrived_at_init(s, HarnessEvent::Disconnected { connection_id }, denied).0 == arrived_at_startup(
            s,
            HarnessEvent::Disconnected { connection_id },
            denied,
        ).0,
        arrived_at_interaction(s, HarnessEvent::Disconnected { connection_id }, denied).0 == arrived_at_startup(
            s,
            HarnessEvent::Disconnected { connection_id },
            denied,
        ).0,
{
}

/// What is sent means the same whenever it is sent.
pub proof fn events_count_alike_at_any_time(s: State, connection_id: String, event: Event, denied: Option<String>)
    ensures
        arrived_at_init(s, HarnessEvent::FromConnection { connection_id, event }, denied) == arrived_at_startup(
            s,
            HarnessEvent::FromConnection { connection_id, event },
            denied,
        ),
        arrived_at_interaction(s, HarnessEvent::FromConnection { connection_id, event }, denied)
            == arrived_at_startup(s, HarnessEvent::FromConnection { connection_id, event }, denied),
{
}

/// An extension that may not have what it subscribes to is told why, and nothing changes.
/// Everything else that it sends takes its effect.
pub proof fn denied_subscriptions_change_nothing(s: State, source: Seq<char>, event: Event, denied: String)
    ensures
        event is LifecycleSubscribe ==> extension_heard(s, source, event, Some(denied)) == (
            s,
            Some(Trouble::Route(denied@)),
        ),
        !(event is LifecycleSubscribe) ==> extension_heard(s, source, event, Some(denied)) == extension_heard(
            s,
            source,
            event,
            None,
        ),
        extension_heard(s, source, event, None).0 == after_extension_event(s, source, event@).state,
        match after_extension_event(s, source, event@).error {
            Some(error) => extension_heard(s, source, event, None).1 == Some(Trouble::SessionStore(error)),
            None => extension_heard(s, source, event, None).1 is None,
        },
{
}

/// Every report of a tool adds one line behind the others.
pub proof fn reports_are_told_one_by_one(messages: Seq<Seq<char>>, p: ToolProgress)
    ensures
        with_progress(messages, Event::ToolProgress(p)).len() == messages.len() + 1,
        with_progress(messages, Event::ToolProgress(p)).drop_last() == messages,
        with_progress(messages, Event::ToolProgress(p)).last() == with_progress(Seq::empty(), Event::ToolProgress(p))[0],
{
    assert(with_progress(messages, Event::ToolProgress(p)).drop_last() =~= messages);
}

/// What the environment holds of a secret counts, whatever its file holds.
pub proof fn the_environment_comes_first(
    state_dir: Seq<char>,
    env: Seq<(Seq<char>, Seq<char>)>,
    extension: Seq<char>,
    name: Seq<char>,
    optional: bool,
    value: Seq<char>,
    text: String,
)
    requires
        names_secret(name),
        lookup(env, ascii_lower(name)) == Some(value),
        value.len() > 0,
    ensures
        secret_for(state_dir, env, extension, name, optional, SecretFile::Missing) == Ok::<
            Option<Seq<char>>,
            SecretTrouble,
        >(Some(value)),
        secret_for(state_dir, env, extension, name, optional, SecretFile::Text(text)) == Ok::<
            Option<Seq<char>>,
            SecretTrouble,
        >(Some(value)),
{
}

/// The first trouble with the environment is the one that is reported.
pub proof fn the_first_trouble_is_reported(vars: Seq<(Seq<char>, Seq<char>)>, more: (Seq<char>, Seq<char>))
    requires
        collected(vars).trouble is Some,
    ensures
        collected(vars.push(more)).trouble == collected(vars).trouble,
{
    assert(vars.push(more).drop_last() =~= vars);
}

/// A provider without a word about how to sign in is taken to have a key, and the answer
/// to the wish to log in says so and names the provider.
pub proof fn providers_with_a_key_have_no_login(settings: Settings, name: Seq<char>, r: Result<LoginPlan, String>)
    requires
        login_comes_to(Some(settings), name, r),
        settings.auth is None,
    ensures
        r matches Ok(LoginPlan::NotOauth(message)) && has_text(message@, "'"@ + name + "' (auth="@ + "api-key"@ + ")"@),
{
    reveal_strlit("none");
    reveal_strlit("api-key");
    reveal_strlit("openai-codex");
    reveal_strlit("github-copilot");
    assert("none"@.len() == 4 && "api-key"@.len() == 7);
    assert("openai-codex"@.len() == 12 && "github-copilot"@.len() == 14);
    reveal_strlit("'");
    reveal_strlit(")");
    reveal_strlit("' (auth=");
    reveal_strlit("Provider '");
    reveal_strlit(") does not use OAuth login.");
    let needle = "'"@ + name + "' (auth="@ + "api-key"@ + ")"@;
    let message = r->Ok_0->NotOauth_0@;
    assert(message.subrange(9int, 9int + needle.len()) =~= needle);
    assert(stands_at(message, needle, 9));
}

proof fn lemma_good_ends(s: State, ends: Seq<ThreadEnd>, n: nat, i: int)
    requires
        n <= s.extensions.len(),
        forall|j: int| 0 <= j < n && j < ends.len() ==> !((#[trigger] ends[j]) is Failed) && !(ends[j] is Lost),
    ensures
        ended(s, ends, n).1 is None,
        ended(s, ends, n).0.log.len() == s.log.len() + n,
        0 <= i < n ==> (ended(s, ends, n).0.log[s.log.len() + i].event matches EventView::Exited(notice)
            && notice.extension_name == s.extensions[i].name),
    decreases n,
{
    if n > 0 {
        lemma_good_ends(s, ends, (n - 1) as nat, i);
    }
}

/// Where every extension comes to a good end, the harness ends without trouble and tells
/// of each of them, in their order, that it is gone.
pub proof fn good_ends_are_told(s: State, ends: Seq<ThreadEnd>, i: int)
    requires
        forall|j: int| 0 <= j < ends.len() ==> !((#[trigger] ends[j]) is Failed) && !(ends[j] is Lost),
    ensures
        shut_down(s, ends).1 is None,
        shut_down(s, ends).0.log.len() == s.log.len() + s.extensions.len(),
        0 <= i < s.extensions.len() ==> (shut_down(s, ends).0.log[s.log.len() + i].event matches EventView::Exited(
            notice,
        ) && notice.extension_name == s.extensions[i].name),
{
    let alone = State { connections: crate::closing::hung_up(s.connections, s.extensions), ..s };
    lemma_good_ends(alone, ends, s.extensions.len(), i);
}

proof fn lemma_trouble_stays(s: State, ends: Seq<ThreadEnd>, k: nat, n: nat)
    requires
        k <= n,
        ended(s, ends, k).1 is Some,
    ensures
        ended(s, ends, n).1 == ended(s, ends, k).1,
    decreases n,
{
    if k < n {
        lemma_trouble_stays(s, ends, k, (n - 1) as nat);
    }
}

/// The first extension that comes to a bad end is the trouble of the harness.
pub proof fn the_first_bad_end_is_reported(s: State, ends: Seq<ThreadEnd>, i: int)
    requires
        0 <= i < s.extensions.len(),
        i < ends.len(),
        ends[i] is Failed || ends[i] is Lost,
        forall|j: int| 0 <= j < i ==> !((#[trigger] ends[j]) is Failed) && !(ends[j] is Lost),
    ensures
        match ends[i] {
            ThreadEnd::Failed(message) => shut_down(s, ends).1 == Some(Trouble::Participant(message@)),
            _ => shut_down(s, ends).1 == Some(Trouble::ThreadJoin(s.extensions[i].name)),
        },
{
    let alone = State { connections: crate::closing::hung_up(s.connections, s.extensions), ..s };
    lemma_good_ends(alone, ends, i as nat, 0);
    lemma_trouble_stays(alone, ends, (i + 1) as nat, s.extensions.len());
}

/// Line feeds at the end of a text go, however many there are, and nothing else does.
pub proof fn line_feeds_at_the_end_go(s: Seq<char>)
    ensures
        without_last_lines(s.push('\n')) == without_last_lines(s),
        s.len() > 0 && s.last() != '\n' ==> without_last_lines(s) == s,
        without_last_lines(Seq::empty()) == Seq::<char>::empty(),
{
    reveal_with_fuel(without_last_lines, 2);
    assert(s.push('\n').drop_last() =~= s);
}

proof fn lemma_with_file(files: Seq<AgentsFile>, file: AgentsFile)
    ensures
        exists|k: int|
            0 <= k < with_file(files, file).len() && {
                let kept = #[trigger] with_file(files, file)[k];
                &&& kept.source_id == file.source_id
                &&& kept.content == file.content
                &&& kept.file_path == file.file_path || same_path(kept.file_path, file.file_path)
            },
    decreases files.len(),
{
    let after = with_file(files, file);
    if files.len() == 0 {
        assert(after[0] == file);
    } else if files[0].source_id == file.source_id && same_path(files[0].file_path, file.file_path) {
        assert(after[0].content == file.content);
    } else {
        lemma_with_file(files.drop_first(), file);
        let rest = with_file(files.drop_first(), file);
        let k = choose|k: int|
            0 <= k < rest.len() && {
                let kept = #[trigger] rest[k];
                &&& kept.source_id == file.source_id
                &&& kept.content == file.content
                &&& kept.file_path == file.file_path || same_path(kept.file_path, file.file_path)
            };
        assert(after[k + 1] == rest[k]);
    }
}

/// An instruction file that an extension tells of is known from then on, with what the
/// extension says that it holds.
pub proof fn instruction_files_are_known(s: State, source: Seq<char>, file: ExtAgentsMdAvailable)
    ensures
        ({
            let t = after_extension_event(s, source, Event::ExtAgentsMdAvailable(file)@);
            &&& t.error is None
            &&& exists|k: int|
                0 <= k < t.state.files.len() && {
                    let kept = #[trigger] t.state.files[k];
                    &&& kept.source_id == source
                    &&& kept.content == file.content@
                    &&& kept.file_path == file.file_path@ || same_path(kept.file_path, file.file_path@)
                }
            &&& t.state.sessions == s.sessions
        }),
{
    let known = AgentsFile { source_id: source, file_path: file.file_path@, content: file.content@ };
    let next = State { files: with_file(s.files, known), ..s };
    let event = Event::ExtAgentsMdAvailable(file)@;
    let t = after_extension_event(s, source, event);
    assert(t.state == published(next, Some(source), event));
    assert(t.state.files == with_file(s.files, known));
    lemma_with_file(s.files, known);
    let k = choose|k: int|
        0 <= k < with_file(s.files, known).len() && {
            let kept = #[trigger] with_file(s.files, known)[k];
            &&& kept.source_id == known.source_id
            &&& kept.content == known.content
            &&& kept.file_path == known.file_path || same_path(kept.file_path, known.file_path)
        };
    assert(t.state.files[k].source_id == source);
}

/// A call that is refused is told of: what is published last is its failure, under its id.
pub proof fn refused_calls_are_told(s: State, call: Call, message: Seq<char>)
    requires
        s.writes.len() == 0,
    ensures
        ({
            let t = call_refused(s, call, message);
            &&& t.error is None
            &&& t.state.log.len() == s.log.len() + 1
            &&& t.state.log.last().event matches EventView::Error { call_id, message: said, .. } && call_id == call.id
                && said == message
        }),
{
}

/// A call starts ahead of an earlier call of its conversation only where it is a launcher
/// and the earlier one is an ordinary call.
pub proof fn only_launchers_overtake(t: Turn, j: int)
    requires
        startable(t) matches Some(i) && 0 <= j < i && t.waiting[j].conversation == t.waiting[i].conversation,
    ensures
        t.waiting[j].scope == ToolTurnLockScope::Normal,
        t.waiting[startable(t)->Some_0].scope == ToolTurnLockScope::DelegateLauncher,
{
    calls_start_in_order(t, j);
}

/// A date is written as its year, and the numbers of its month and day, counted from one,
/// in two digits.
pub proof fn dates_are_written_in_numbers(d: Date)
    requires
        0 <= d.month < 12,
        0 <= d.day < 31,
        0 <= d.year,
    ensures
        d.month >= 9 && d.day >= 9 ==> date_line(d) == decimal(d.year as nat) + "-"@ + decimal((d.month + 1) as nat)
            + "-"@ + decimal((d.day + 1) as nat),
        d.month < 9 && d.day >= 9 ==> date_line(d) == decimal(d.year as nat) + "-"@ + (seq!['0'] + decimal(
            (d.month + 1) as nat,
        )) + "-"@ + decimal((d.day + 1) as nat),
        d.month >= 9 && d.day < 9 ==> date_line(d) == decimal(d.year as nat) + "-"@ + decimal((d.month + 1) as nat)
            + "-"@ + (seq!['0'] + decimal((d.day + 1) as nat)),
        d.month < 9 && d.day < 9 ==> date_line(d) == decimal(d.year as nat) + "-"@ + (seq!['0'] + decimal(
            (d.month + 1) as nat,
        )) + "-"@ + (seq!['0'] + decimal((d.day + 1) as nat)),
{
}

/// What is remembered between two starts names the model that was chosen last.
pub proof fn the_chosen_model_is_remembered(model: Seq<char>, efforts: Seq<(Seq<char>, Effort)>)
    ensures
        json_field(state_json(model, efforts), "last_selected_model"@) == Some(Json::Text(model)),
        json_field(state_json(model, efforts), "last_efforts"@) is Some,
{
    reveal_with_fuel(lookup, 3);
    reveal_strlit("last_selected_model");
    reveal_strlit("last_efforts");
    assert("last_selected_model"@.len() == 19 && "last_efforts"@.len() == 12);
}

/// A client that asks for the tree of another session is told that it is not that of the
/// harness.
pub proof fn trees_of_other_sessions_are_not_shown(s: State, client: Seq<char>, session_id: String)
    requires
        session_id@ != s.current,
    ensures
        ({
            let t = after_client_event(s, client, (Event::UiTreeRequest { session_id })@, None);
            &&& t.error is None
            &&& t.state.log.len() == s.log.len() + 2
            &&& t.state.log.last().event is Info
            &&& t.state.sessions == s.sessions
        }),
{
    reveal(tree_shown);
}

} // verus!

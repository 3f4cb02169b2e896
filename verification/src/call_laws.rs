//! What holds of calls of the library: how what one returns relates to what it is given,
//! and how what two calls return fit together.
use vstd::prelude::*;
use crate::assoc::{keys_differ, lookup, TextMap};
use crate::models::{clamp_effort, parse_effort, select_initial_model};
use crate::skills::{parse_frontmatter, strip_frontmatter};
use crate::cbor::{cbor_text, cbor_to_text, CborValue};
use crate::chat_completions::StreamState;
use crate::context::cbor_tool_response_text;
use crate::conversation_laws::results_name_their_calls;
use crate::event::{Effort, Event};
use crate::json::{cbor_to_json, json_to_cbor, JsonValue};
use crate::messages::{EventDelivery, EventLogSeq, HarnessOutputMessage, SecretValue, UnixMicros};
use crate::paths::{join_path, name_of};
use crate::router::{session_membership_id_for_event, should_persist_event};
use crate::session::{assemble_conversation, Block, ContentBlock, ConversationMessage, Entry, Outcome, SessionTree};
use crate::settings::{
    resolve_extensions_with_cli_overrides_and_diagnostics, BuiltinExtension, ExtensionCliOverride, ExtensionConfig,
    ExtensionEntry, HarnessSettings, ResolveExtensionsError, ResolvedExtension, ResolvedExtensions,
};
use crate::skill_tool::{skill_name_to_auto_load, SearchedSkill, SkillAnswer, SkillHit, SkillReply};
use crate::socket::{
    plan_bind, receive, removes_on_drop, Awaited, BindPlan, FoundAtPath, SocketIdentity, SocketReceive,
    SocketTransportError,
};

verus! {

/// In the conversation that is assembled of a history which ends with the result of a
/// call, the last block answers that call with the text of the result.
pub proof fn assembled_results_answer_their_call(
    tree: &SessionTree,
    r: Vec<ConversationMessage>,
    call_id: Seq<char>,
    tool_name: Seq<char>,
    value: crate::cbor::Cbor,
)
    requires
        call_ensures(assemble_conversation, (tree,), r),
        tree@.branch().len() > 0,
        tree@.branch().last() == (Entry::Tool { call_id, tool_name, outcome: Outcome::Result(value) }),
    ensures
        r@.len() > 0,
        r@.last().content@.len() == 1,
        r@.last().content@[0] matches ContentBlock::ToolResult { tool_use_id, content, is_error } && tool_use_id@ == call_id
            && content@ == cbor_text(value) && !is_error,
{
    let entries = tree@.branch();
    results_name_their_calls(entries.drop_last(), call_id, tool_name, value);
    assert(entries.drop_last().push(entries.last()) =~= entries);
    let view = crate::session::messages_view(r@);
    assert(view.len() == r@.len());
    let last = r@[r@.len() - 1];
    assert(view[view.len() - 1] == last@);
    assert(last@.content == seq![Block::ToolResult { tool_use_id: call_id, content: cbor_text(value), is_error: false }]);
    assert(last@.content.len() == last.content@.len());
    assert(last@.content[0] == last.content@[0]@);
}

/// The skill that is loaded for a search is the only hit, or the one that has the only
/// term as its name.
pub proof fn loaded_skills_are_asked_for(needles: &Vec<String>, hits: &Vec<SkillHit>, r: Option<String>, i: int)
    requires
        call_ensures(skill_name_to_auto_load, (needles, hits), r),
    ensures
        r matches Some(name) ==> hits@.len() == 1 || (needles@.len() == 1 && needles@[0]@ == name@),
        hits@.len() == 1 ==> (r matches Some(name) && name@ == hits@[0].name@),
        needles@.len() == 1 && 0 <= i < hits@.len() && hits@[i].name@ == needles@[0]@ ==> (r matches Some(name) && name@
            == needles@[0]@),
{
    let terms = crate::text::texts(needles@);
    let found = crate::skill_tool::hits_view(hits@);
    crate::skill_laws::settled_skills_are_asked_for(terms, found);
    if hits@.len() == 1 {
        assert(found =~= seq![hits@[0]@]);
        crate::skill_laws::the_only_hit_is_settled_on(terms, hits@[0]@);
    }
    if needles@.len() == 1 && 0 <= i < hits@.len() && hits@[i].name@ == needles@[0]@ {
        assert(terms =~= seq![found[i].name]);
        crate::skill_laws::skills_asked_for_by_name_are_settled_on(found, i);
    }
}

/// A message that is delivered with its place is acknowledged by that place, and what is
/// delivered is the event.
pub proof fn deliveries_hold_their_event(seq: EventLogSeq, at: UnixMicros, event: Event, m: HarnessOutputMessage, d: EventDelivery)
    ensures
        call_ensures(HarnessOutputMessage::deliver_sequenced, (seq, at, event), m) ==> forall|r: Option<EventLogSeq>|
            #[trigger] call_ensures(HarnessOutputMessage::ack_sequence, (&m,), r) ==> r == Some(seq),
        call_ensures(HarnessOutputMessage::deliver_sequenced, (seq, at, event), m) ==> forall|r: Option<Event>|
            #[trigger] call_ensures(HarnessOutputMessage::into_delivered_event, (m,), r) ==> r == Some(event),
        call_ensures(HarnessOutputMessage::deliver, (event,), m) ==> forall|r: Option<EventLogSeq>|
            #[trigger] call_ensures(HarnessOutputMessage::ack_sequence, (&m,), r) ==> r is None,
        call_ensures(HarnessOutputMessage::deliver, (event,), m) ==> forall|r: Option<Event>|
            #[trigger] call_ensures(HarnessOutputMessage::into_delivered_event, (m,), r) ==> r == Some(event),
        call_ensures(EventDelivery::sequenced, (seq, at, event), d) ==> forall|r: (
            Event,
            Option<EventLogSeq>,
            Option<UnixMicros>,
        )|
            #[trigger] call_ensures(EventDelivery::into_parts, (d,), r) ==> r == (event, Some(seq), Some(at)),
{
}

/// A socket is bound where nothing is, or where a socket is that no longer answers; nothing
/// else is replaced.
pub proof fn living_sockets_are_not_replaced(
    path: &str,
    found: FoundAtPath,
    answers: bool,
    r: Result<BindPlan, SocketTransportError>,
)
    requires
        call_ensures(plan_bind, (path, found, answers), r),
    ensures
        r is Ok <==> found is Nothing || (found is Socket && !answers),
        found is Nothing ==> r == Ok::<BindPlan, SocketTransportError>(BindPlan::Bind),
        found is Socket && !answers ==> r == Ok::<BindPlan, SocketTransportError>(BindPlan::RemoveAndBind),
        found is Socket && answers ==> (r matches Err(SocketTransportError::ActiveSocketExists { path: p }) && p@ == path@),
        found is NoSocket ==> (r matches Err(SocketTransportError::RefuseNonSocketPath { path: p }) && p@ == path@),
{
}

/// A harness that ends removes its own socket and no other.
pub proof fn own_sockets_are_removed(found: FoundAtPath, own: SocketIdentity, r: bool)
    requires
        call_ensures(removes_on_drop, (found, own), r),
    ensures
        r <==> found == FoundAtPath::Socket(own),
{
}

/// What was read is received as it is; a reader that is gone closes the stream.
pub proof fn what_is_read_is_received(awaited: Awaited, r: Result<SocketReceive, SocketTransportError>)
    requires
        call_ensures(receive, (awaited,), r),
    ensures
        awaited matches Awaited::Read(message) ==> r == Ok::<SocketReceive, SocketTransportError>(
            SocketReceive::Message { message },
        ),
        awaited matches Awaited::Unreadable(source) ==> r == Err::<SocketReceive, SocketTransportError>(
            SocketTransportError::Decode { source },
        ),
        awaited is TimedOut ==> r == Ok::<SocketReceive, SocketTransportError>(SocketReceive::Timeout),
        awaited is ReaderGone ==> r == Ok::<SocketReceive, SocketTransportError>(SocketReceive::Closed),
{
}

/// Every event is kept but those that pass; the end of a tool call is always kept.
pub proof fn ends_of_calls_are_always_kept(event: &Event, transient: bool, r: bool)
    requires
        call_ensures(should_persist_event, (event, transient), r),
    ensures
        !transient ==> r,
        *event is ToolResult || *event is ToolError ==> r,
        transient && !(*event is ToolResult) && !(*event is ToolError) ==> !r,
{
}

/// An agent that joins or leaves a session does so in the session that it names.
pub proof fn members_belong_to_the_session_they_name(event: &Event, r: Option<String>)
    requires
        call_ensures(session_membership_id_for_event, (event,), r),
    ensures
        *event matches Event::SessionAgentLoaded { session_id, .. } ==> (r matches Some(id) && id@ == session_id@),
        *event matches Event::SessionAgentUnloaded { session_id, .. } ==> (r matches Some(id) && id@ == session_id@),
        !(*event is SessionAgentLoaded) && !(*event is SessionAgentUnloaded) ==> r is None,
{
}

/// A secret is what it was made of, and is not told.
pub proof fn secrets_are_not_told(value: String, secret: SecretValue)
    requires
        call_ensures(SecretValue::new, (value,), secret),
    ensures
        forall|r: &str| #[trigger] call_ensures(SecretValue::expose_secret, (&secret,), r) ==> r@ == value@,
        forall|r: String| #[trigger] call_ensures(SecretValue::redacted, (&secret,), r) ==> r@ == "<redacted>"@,
{
}

/// What the user sets about an extension, what becomes of it and what is started stand for
/// the parts of the same names.
pub proof fn settings_stand_for_what_they_hold(
    entry: ExtensionEntry,
    extension: ResolvedExtension,
    started: ExtensionConfig,
    builtin: BuiltinExtension,
)
    ensures
        entry.config matches Some(c) ==> entry@.config == Some(c@),
        entry.config is None ==> entry@.config is None,
        entry@.enable == entry.enable,
        entry@.require == entry.require,
        entry.command matches Some(v) ==> entry@.command == Some(crate::text::texts(v@)),
        entry.command is None ==> entry@.command is None,
        entry.prefix matches Some(v) ==> entry@.prefix == Some(crate::text::texts(v@)),
        entry.suffix matches Some(v) ==> entry@.suffix == Some(crate::text::texts(v@)),
        entry.role matches Some(role) ==> entry@.role == Some(role@),
        entry.cwd matches Some(Some(cwd)) ==> entry@.cwd == Some(Some(cwd@)),
        entry.cwd is None ==> entry@.cwd is None,
        entry.secrets matches Some(s) ==> entry@.secrets == Some(s@),
        extension@.config == extension.config@,
        extension@.command == crate::text::texts(extension.command@),
        extension@.enable == extension.enable,
        extension@.require == extension.require,
        extension@.secrets == extension.secrets@,
        started@.name == started.name@,
        started@.command == started.command@,
        started@.args == crate::text::texts(started.args@),
        started@.config == started.config@,
        started@.secrets == started.secrets@,
        started@.require == started.require,
        started.role matches Some(role) ==> started@.role == Some(role@),
        started.cwd matches Some(cwd) ==> started@.cwd == Some(cwd@),
        builtin@.0 == builtin.name@,
        builtin@.1.config == builtin.config@,
        builtin@.1.command == crate::text::texts(builtin.command@),
        builtin@.1.enable == builtin.enable,
        builtin@.1.require == builtin.require,
        builtin@.1.secrets == builtin.secrets@,
{
}

/// A hit, an answer that arrives and a reply stand for the parts of the same names.
pub proof fn answers_stand_for_what_they_hold(
    hit: SkillHit,
    searched: SearchedSkill,
    reply: SkillReply,
    answer: SkillAnswer,
    state: StreamState,
    i: int,
)
    ensures
        hit@.name == hit.name@,
        hit@.description == hit.description@,
        hit@.count == hit.hit_count,
        searched@.name == searched.name@,
        searched@.description == searched.description@,
        searched@.lower_name == searched.lower_name@,
        searched@.lower_description == searched.lower_description@,
        searched@.lower_body == searched.lower_body@,
        reply.outcome matches Ok(value) ==> reply@.outcome == Ok::<crate::cbor::Cbor, Seq<char>>(value@),
        reply.outcome matches Err(message) ==> reply@.outcome == Err::<crate::cbor::Cbor, Seq<char>>(message@),
        answer matches SkillAnswer::Load(name) ==> answer@ == crate::skill_tool::Answer::Load(name@),
        answer matches SkillAnswer::Reply(said) ==> answer@ == crate::skill_tool::Answer::Reply(said@),
        state@.split.text == state.text@,
        state@.split.thinking == state.thinking@,
        state@.split.pending == state.pending_content@,
        state@.split.inside == state.in_think_tag,
        state@.calls.len() == state.tool_calls@.len(),
        0 <= i < state.tool_calls@.len() ==> state@.calls[i] == (state.tool_calls@[i].0, state.tool_calls@[i].1@),
        state@.input_tokens == state.input_tokens,
        state@.cached_tokens == state.cached_tokens,
        state@.output_tokens == state.output_tokens,
        state@.stop == state.stop_reason,
{
}

/// An extension of the user's own is started with the configuration that the user set.
pub proof fn extensions_of_the_user_keep_their_configuration(
    settings: &HarnessSettings,
    builtins: Vec<BuiltinExtension>,
    none: &Vec<ExtensionCliOverride>,
    r: Result<ResolvedExtensions, ResolveExtensionsError>,
    i: int,
)
    requires
        call_ensures(resolve_extensions_with_cli_overrides_and_diagnostics, (settings, builtins, none), r),
        none@.len() == 0,
        r is Ok,
        keys_differ(settings.extensions@),
        0 <= i < settings.extensions@.len(),
        lookup(crate::settings::builtins_view(builtins@), settings.extensions@[i].0) is None,
        settings.extensions@[i].1.enable != Some(false),
        settings.extensions@[i].1.command matches Some(command) && command.len() > 0,
        settings.extensions@[i].1.config is Some,
    ensures
        exists|j: int|
            0 <= j < r->Ok_0.extensions@.len() && (#[trigger] r->Ok_0.extensions@[j]).name@ == settings.extensions@[i].0
                && Some(r->Ok_0.extensions@[j].config@) == settings.extensions@[i].1.config,
{
    let b = crate::settings::builtins_view(builtins@);
    let users = settings.extensions@;
    assert(crate::settings::switches_view(none@) =~= Seq::empty());
    crate::resolve_laws::extensions_of_the_user_start_as_they_are_set(b, users, i);
    let spawns = crate::settings::resolved(b, users, Seq::empty())->Ok_0.0;
    let ready = r->Ok_0;
    assert(spawns == crate::settings::configs_view(ready.extensions@));
    let j = choose|j: int|
        0 <= j < spawns.len() && (#[trigger] spawns[j]).name == users[i].0 && Some(spawns[j].config) == users[i].1.config;
    assert(spawns[j] == ready.extensions@[j]@);
    assert(ready.extensions@[j].name@ == users[i].0);
}

/// An effort that is written down is read back.
pub proof fn written_efforts_are_read_back(effort: Effort, s: &'static str, r: Option<Effort>)
    requires
        call_ensures(Effort::as_str, (effort,), s),
        call_ensures(parse_effort, (s,), r),
    ensures
        r == Some(effort),
{
    crate::models::effort_names_read_back(effort);
}

/// The effort that is used is one that the model allows, and the requested one where the
/// model allows that.
pub proof fn used_efforts_are_allowed(requested: Effort, allowed: &Vec<Effort>, r: Effort)
    requires
        call_ensures(clamp_effort, (requested, allowed), r),
    ensures
        allowed@.len() > 0 ==> allowed@.contains(r),
        allowed@.contains(requested) ==> r == requested,
        allowed@.len() == 0 ==> r == Effort::Off,
{
    crate::model_laws::efforts_that_are_not_allowed_are_off(requested, allowed@);
    if allowed@.len() > 0 {
        crate::models::clamped_is_allowed(requested, allowed@);
    }
}

/// The model to begin with is the one of the settings, where that is available.
pub proof fn models_of_the_settings_come_first(
    available: &Vec<String>,
    default_model: &Option<String>,
    last_model: &Option<String>,
    r: String,
    i: int,
)
    requires
        call_ensures(select_initial_model, (available, default_model, last_model), r),
    ensures
        *default_model matches Some(m) ==> 0 <= i < available@.len() ==> available@[i]@ == m@ ==> r@ == m@,
        available@.len() == 0 ==> r@.len() == 0,
        *default_model is None ==> (*last_model matches Some(m) ==> 0 <= i < available@.len() ==> available@[i]@ == m@
            ==> r@ == m@),
        *default_model is None && *last_model is None && available@.len() > 0 ==> r@ == available@[0]@,
{
    let names = crate::text::texts(available@);
    crate::model_laws::the_first_model_is_available(
        names,
        crate::session::option_text(*default_model),
        crate::session::option_text(*last_model),
    );
    if 0 <= i < available@.len() {
        assert(names[i] == available@[i]@);
        assert(names.contains(names[i]));
    }
    if available@.len() > 0 {
        assert(names[0] == available@[0]@);
    }
}

/// A JSON value that was made a structured value and then JSON again is what it was.
pub proof fn json_survives_the_way_there_and_back(v: &JsonValue, c: &CborValue, back: JsonValue)
    requires
        call_ensures(json_to_cbor, (v,), *c),
        call_ensures(cbor_to_json, (c,), back),
        crate::value_laws::tidy(v@),
    ensures
        back@ == v@,
{
    crate::value_laws::json_comes_back(v@);
}

/// What is told of a string is the string.
pub proof fn strings_are_told_as_they_are(v: &CborValue, r: String, reply: String)
    requires
        call_ensures(cbor_to_text, (v,), r),
        call_ensures(cbor_tool_response_text, (v,), reply),
    ensures
        *v matches CborValue::Text(s) ==> r@ == s@ && reply@ == s@,
        *v is Null ==> r@.len() == 0 && reply@.len() == 0,
{
}

/// The body that is left of a skill's file is the one that is parted from its front matter.
pub proof fn front_matter_is_stripped(content: &str, parted: (TextMap<String>, String), stripped: String)
    requires
        call_ensures(parse_frontmatter, (content,), parted),
        call_ensures(strip_frontmatter, (content,), stripped),
    ensures
        parted.1@ == stripped@,
{
}

/// A path that was joined of a directory and a name ends in that name.
pub proof fn joined_paths_come_apart(dir: &str, name: &str, joined: String, path: &str, last: Option<String>)
    requires
        crate::data_laws::is_component(name@),
        dir@.len() > 0,
        dir@.last() != '/',
        call_ensures(join_path, (dir, name), joined),
        path@ == joined@,
        call_ensures(name_of, (path,), last),
    ensures
        last matches Some(n) && n@ == name@,
{
    crate::data_laws::files_are_named_by_their_last_component(dir@, name@);
}

} // verus!

//! What the records of the library stand for: each part of a record is the part of that
//! name in its meaning.
use vstd::prelude::*;
use crate::cbor::{Cbor, CborValue};
use crate::context::{ContextItem, Item, MessageItem, Status, ToolCallItem, ToolResultItem, ToolResultStatus};
use crate::discovery::{AgentsFile, DiscoveredAgentsFile, DiscoveredSkill, DiscoveredSkillSource, SkillSource};
use crate::event::{
    Event, EventView, SessionPromptCreated, ToolDefinition, ToolError, ToolNameMaybe, ToolRequest, ToolResult,
};
use crate::harness::{
    ConnectionEntry, Effect, ExtensionEntry, PendingInvocation, PromptSubmission, ToolProvider, TurnState,
};
use crate::json::{Json, JsonValue};
use crate::session::{
    Block, ContentBlock, ConversationMessage, Entry, Outcome, SessionEntry, SessionTree, ToolActivityOutcome,
};
use crate::state::{EffectView, SubmissionView, Turn};

verus! {

/// Structured values stand for what they hold, item by item and entry by entry.
pub proof fn values_stand_for_what_they_hold(v: CborValue, i: int)
    ensures
        v matches CborValue::Text(s) ==> v@ == Cbor::Text(s@),
        v matches CborValue::Bool(b) ==> v@ == Cbor::Bool(b),
        v matches CborValue::Integer(n) ==> v@ == Cbor::Integer(n as int),
        v matches CborValue::Bytes(b) ==> v@ == Cbor::Bytes(b@),
        v matches CborValue::Null ==> v@ == Cbor::Null,
        v matches CborValue::Array(items) ==> (v@ matches Cbor::Array(held) && held.len() == items@.len() && (0 <= i
            < items@.len() ==> held[i] == items@[i]@)),
        v matches CborValue::Dict(entries) ==> (v@ matches Cbor::Dict(held) && held.len() == entries@.len() && (0 <= i
            < entries@.len() ==> held[i] == (entries@[i].0@, entries@[i].1@))),
{
}

/// JSON values stand for what they hold, item by item and field by field.
pub proof fn json_stands_for_what_it_holds(v: JsonValue, i: int)
    ensures
        v matches JsonValue::Text(s) ==> v@ == Json::Text(s@),
        v matches JsonValue::Bool(b) ==> v@ == Json::Bool(b),
        v matches JsonValue::Integer(n) ==> v@ == Json::Integer(n as int),
        v matches JsonValue::Null ==> v@ == Json::Null,
        v matches JsonValue::Array(items) ==> (v@ matches Json::Array(held) && held.len() == items@.len() && (0 <= i
            < items@.len() ==> held[i] == items@[i]@)),
        v matches JsonValue::Object(entries) ==> (v@ matches Json::Object(held) && held.len() == entries@.len() && (0 <= i
            < entries@.len() ==> held[i] == (entries@[i].0@, entries@[i].1@))),
{
}

/// A request, a result and a failure are about the call and the tool that they name.
pub proof fn events_are_about_the_call_they_name(request: ToolRequest, result: ToolResult, error: ToolError)
    ensures
        Event::ToolRequest(request)@ == (EventView::Request {
            call_id: request.call_id@,
            tool_name: request.tool_name@,
            arguments: request.arguments@,
        }),
        Event::ToolResult(result)@ == (EventView::Result {
            call_id: result.call_id@,
            tool_name: result.tool_name@,
            result: result.result@,
        }),
        Event::ToolError(error)@ matches EventView::Error { call_id, tool_name, message, details } && call_id
            == error.call_id@ && tool_name == error.tool_name@ && message == error.message@ && (error.details matches Some(
            d,
        ) ==> details == Some(d@)) && (error.details is None ==> details is None),
{
}

/// Events of sessions are about the session that they name, and say what they say.
pub proof fn events_are_about_the_session_they_name(e: Event)
    ensures
        e matches Event::UiPromptSubmitted { session_id, text } ==> e@ == (EventView::PromptSubmitted {
            session_id: session_id@,
            text: text@,
        }),
        e matches Event::SessionPromptQueued { session_id, text } ==> e@ == (EventView::Queued {
            session_id: session_id@,
            text: text@,
        }),
        e matches Event::SessionStarted { session_id, reason } ==> e@ == (EventView::Started {
            session_id: session_id@,
            reason,
        }),
        e matches Event::SessionShutdown { session_id } ==> e@ == (EventView::Shutdown { session_id: session_id@ }),
        e matches Event::HarnessInfo { message, level } ==> e@ == (EventView::Info { message: message@, level }),
        e matches Event::HarnessModelSelected { model, context_window } ==> e@ == (EventView::ModelSelected {
            model: model@,
            context_window,
        }),
        e matches Event::HarnessContextUsageChanged { input_tokens, cached_tokens, percent_used } ==> e@
            == (EventView::ContextUsage { input_tokens, cached_tokens, percent_used }),
        e matches Event::HarnessEffortChanged { level } ==> e@ == EventView::EffortChanged(level),
        e matches Event::HarnessEffortsAvailable { levels } ==> e@ == EventView::EffortsAvailable(levels@),
        e matches Event::LifecycleConfigure { config } ==> e@ == EventView::Configure(config@),
        e is AgentResponseFinished ==> e@ == EventView::Passed(e),
        e is ToolRegister ==> e@ == EventView::Passed(e),
        e is UiModelSelect ==> e@ == EventView::Passed(e),
        e is Ack ==> e@ == EventView::Passed(e),
{
}

/// A prompt for the agent holds its messages, its tools and its settings.
pub proof fn prompts_stand_for_what_they_hold(p: SessionPromptCreated, i: int)
    ensures
        p@.session_prompt_id == p.session_prompt_id@,
        p@.session_id == p.session_id@,
        p@.system_prompt == p.system_prompt@,
        p@.messages.len() == p.messages@.len(),
        0 <= i < p.messages@.len() ==> p@.messages[i] == p.messages@[i]@,
        p@.tools.len() == p.tools@.len(),
        0 <= i < p.tools@.len() ==> p@.tools[i] == p.tools@[i]@,
        p.model matches Some(m) ==> p@.model == Some(m@),
        p.model is None ==> p@.model is None,
        p@.effort == p.effort,
        p@.thinking_summary == p.thinking_summary,
{
}

/// A tool is told with its own name, description and parameters.
pub proof fn tools_stand_for_themselves(t: ToolDefinition, name: ToolNameMaybe)
    ensures
        t@.name == t.name@,
        t.description matches Some(d) ==> t@.description == Some(d@),
        t.description is None ==> t@.description is None,
        t.parameters matches Some(p) ==> t@.parameters == Some(p@),
        t.parameters is None ==> t@.parameters is None,
        name matches ToolNameMaybe::Valid(s) ==> name.raw() == s@,
        name matches ToolNameMaybe::Invalid(s) ==> name.raw() == s@,
{
}

/// An entry of a history is of whom it is, says what it says and is about the call that it
/// names.
pub proof fn entries_stand_for_what_they_hold(e: SessionEntry)
    ensures
        e matches SessionEntry::UserMessage { text } ==> e@ == Entry::User(text@),
        e matches SessionEntry::AgentMessage { text, thinking } ==> (e@ matches Entry::Agent { text: said, thinking: thought }
            && said == text@ && (thinking matches Some(t) ==> thought == Some(t@)) && (thinking is None ==> thought is None)),
        e matches SessionEntry::ToolActivity(record) ==> (e@ matches Entry::Tool { call_id, tool_name, outcome } && call_id
            == record.call_id@ && tool_name == record.tool_name@ && outcome == record.outcome@),
{
}

/// The outcome of a call is a request with its arguments, a result with its value, or a
/// failure with its message.
pub proof fn outcomes_stand_for_what_they_hold(o: ToolActivityOutcome)
    ensures
        o matches ToolActivityOutcome::Requested { arguments } ==> o@ == Outcome::Requested(arguments@),
        o matches ToolActivityOutcome::Result { result } ==> o@ == Outcome::Result(result@),
        o matches ToolActivityOutcome::Error { message, details } ==> (o@ matches Outcome::Error { message: said, details: more }
            && said == message@ && (details matches Some(d) ==> more == Some(d@)) && (details is None ==> more is None)),
{
}

/// A block of a conversation is a text, a call under its id, or the answer to the call
/// whose id it names.
pub proof fn blocks_stand_for_what_they_hold(b: ContentBlock)
    ensures
        b matches ContentBlock::Text { text } ==> b@ == Block::Text(text@),
        b matches ContentBlock::ToolUse { id, name, input } ==> b@ == (Block::ToolUse {
            id: id@,
            name: name@,
            input: input@,
        }),
        b matches ContentBlock::ToolResult { tool_use_id, content, is_error } ==> b@ == (Block::ToolResult {
            tool_use_id: tool_use_id@,
            content: content@,
            is_error,
        }),
{
}

/// A message is of its role and holds its blocks in order.
pub proof fn messages_stand_for_what_they_hold(m: ConversationMessage, i: int)
    ensures
        m@.role == m.role,
        m@.content.len() == m.content@.len(),
        0 <= i < m.content@.len() ==> m@.content[i] == m.content@[i]@,
{
}

/// A tree of a session has its nodes in order, each with its parent and its entry, and
/// its head.
pub proof fn trees_stand_for_what_they_hold(t: SessionTree, i: int)
    ensures
        t@.nodes.len() == t.nodes@.len(),
        0 <= i < t.nodes@.len() ==> t@.nodes[i].entry == t.nodes@[i].entry@,
        0 <= i < t.nodes@.len() ==> (t.nodes@[i].parent_id matches Some(p) ==> t@.nodes[i].parent == Some(p as int)),
        0 <= i < t.nodes@.len() ==> (t.nodes@[i].parent_id is None ==> t@.nodes[i].parent is None),
        t.head matches Some(h) ==> t@.head == Some(h as int),
        t.head is None ==> t@.head is None,
{
}

/// An item of a context is about the call whose id it has, under its own name and with its
/// own arguments or outcome.
pub proof fn items_stand_for_what_they_hold(message: MessageItem, call: ToolCallItem, result: ToolResultItem, i: int)
    ensures
        ContextItem::Message(message)@ matches Item::Message { role, content, phase } && role == message.role && phase
            == message.phase && content.len() == message.content@.len() && (0 <= i < content.len() ==> content[i]
            == message.content@[i]->text@),
        ContextItem::ToolCall(call)@ == (Item::ToolCall {
            call_id: call.call_id@,
            name: call.name@,
            tool_type: call.tool_type,
            arguments: call.arguments@,
        }),
        ContextItem::ToolResult(result)@ matches Item::ToolResult(r) && r.call_id == result.call_id@ && r.tool_type
            == result.tool_type && r.status == result.status@ && r.output.raw == result.output.raw@ && r.output.body
            == result.output.body@,
        result.status matches ToolResultStatus::Error { message } ==> result.status@ == Status::Error(message@),
        result.status matches ToolResultStatus::Cancelled { reason } ==> result.status@ == Status::Cancelled(reason@),
        result.status is Success ==> result.status@ == Status::Success,
{
}

/// The parts of a running harness are known by their own ids, names and settings.
pub proof fn parts_of_the_harness_stand_for_themselves(
    connection: ConnectionEntry,
    tool: ToolProvider,
    extension: ExtensionEntry,
    waiting: PendingInvocation,
)
    ensures
        connection@.id == connection.id@,
        connection@.name == connection.name@,
        connection@.kind == connection.kind,
        connection@.origin == connection.origin,
        connection@.selectors.len() == connection.selectors@.len(),
        tool@.provider == tool.connection_id@,
        tool@.name == tool.tool.name@,
        tool@.side_effects == tool.tool.side_effects,
        extension@.name == extension.name@,
        extension@.connection_id == extension.connection_id@,
        extension@.instance_id == extension.instance_id,
        extension@.kind == extension.kind,
        extension@.pid == extension.pid,
        extension@.state == extension.state,
        extension@.last_acked == extension.last_acked,
        extension@.restart_attempt == extension.restart_attempt,
        extension.supervised_config matches Some(c) ==> extension@.supervised == Some(c@),
        waiting@.session == waiting.session_id@,
        waiting@.id == waiting.call.id@,
        waiting@.name == waiting.call.name.raw(),
        waiting@.arguments == waiting.call.arguments@,
        waiting@.kind == waiting.kind,
{
}

/// A turn is in the session that it names, and waits for those that it names.
pub proof fn turns_stand_for_what_they_hold(t: TurnState, submission: PromptSubmission, i: int)
    ensures
        t is Idle ==> t@ is Idle,
        t matches TurnState::AgentThinking { session_id } ==> t@ == (Turn::Thinking { session: session_id@ }),
        t matches TurnState::ToolsRunning { session_id, remaining_calls } ==> (t@ matches Turn::Running { session, remaining }
            && session == session_id@ && remaining.len() == remaining_calls@.len() && (0 <= i < remaining.len()
            ==> remaining[i] == remaining_calls@[i]@)),
        t matches TurnState::InitializingSession { session_id, waiting_on } ==> (t@ matches Turn::Initializing {
            session,
            waiting_on: left,
        } && session == session_id@ && left.len() == waiting_on@.len() && (0 <= i < left.len() ==> left[i]
            == waiting_on@[i]@)),
        submission is Dispatched ==> submission@ is Dispatched,
        submission is Queued ==> submission@ is Queued,
        submission matches PromptSubmission::Rejected { reason } ==> submission@ == SubmissionView::Rejected(reason@),
{
}

/// What is to be done outside goes to whom it names, and is about what it names.
pub proof fn effects_stand_for_what_they_hold(e: Effect)
    ensures
        e matches Effect::Send { to, event } ==> e@ == (EffectView::Send { to: to@, event: event@ }),
        e matches Effect::Route { to, seq } ==> e@ == (EffectView::Route { to: to@, seq: seq as int }),
        e matches Effect::Replay { to, seq } ==> e@ == (EffectView::Replay { to: to@, seq: seq as int }),
        e matches Effect::ReplayKept { to, index } ==> e@ == (EffectView::ReplayKept { to: to@, index: index as int }),
        e matches Effect::KeepEntry { session, node } ==> e@ == (EffectView::KeepEntry {
            session: session@,
            node: node as int,
        }),
        e matches Effect::KeepHead { session, node } ==> e@ == (EffectView::KeepHead {
            session: session@,
            node: node as int,
        }),
        e matches Effect::Respawn { index } ==> e@ == (EffectView::Respawn { index: index as int }),
        e matches Effect::Remember { text } ==> e@ == (EffectView::Remember { text: text@ }),
        e matches Effect::OpenSession { session } ==> e@ == (EffectView::OpenSession { session: session@ }),
        e matches Effect::Publish { seq, session } ==> (e@ matches EffectView::Publish { seq: at, session: kept } && at
            == seq && (session matches Some(id) ==> kept == Some(id@)) && (session is None ==> kept is None)),
{
}

/// What an extension announced is known with its source and its content.
pub proof fn announcements_stand_for_what_they_hold(skill: DiscoveredSkill, file: DiscoveredAgentsFile)
    ensures
        skill@.source_id == skill.source_id@,
        skill@.description == skill.description@,
        skill@.add_to_prompt == skill.add_to_prompt,
        skill.source matches DiscoveredSkillSource::File(path) ==> skill@.source == SkillSource::File(path@),
        skill.source matches DiscoveredSkillSource::BuiltIn { content } ==> skill@.source == SkillSource::BuiltIn(content@),
        file@ == (AgentsFile { source_id: file.source_id@, file_path: file.file_path@, content: file.content@ }),
{
}

} // verus!

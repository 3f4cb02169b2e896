//! What holds of conversations: every entry of a history is said once and in its
//! place, by the right side, and results answer the calls that they belong to.
use vstd::prelude::*;
use vstd::string::*;
use crate::cbor::{cbor_text, Cbor};
use crate::session::{conversation, Block, ConversationRole, Entry, Message, Outcome};

verus! {

/// The side that an entry is said by, and the block that it is said with.
pub open spec fn said(entry: Entry) -> (ConversationRole, Block) {
    match entry {
        Entry::User(text) => (ConversationRole::User, Block::Text(text)),
        Entry::Agent { text, thinking: _ } => (ConversationRole::Assistant, Block::Text(text)),
        Entry::Tool { call_id, tool_name, outcome } => match outcome {
            Outcome::Requested(arguments) => (
                ConversationRole::Assistant,
                Block::ToolUse { id: call_id, name: tool_name, input: arguments },
            ),
            Outcome::Result(result) => (
                ConversationRole::User,
                Block::ToolResult { tool_use_id: call_id, content: cbor_text(result), is_error: false },
            ),
            Outcome::Error { message, details: _ } => (
                ConversationRole::User,
                Block::ToolResult { tool_use_id: call_id, content: message, is_error: true },
            ),
        },
    }
}

/// The blocks of messages in a row, each with the side that says it.
pub open spec fn in_a_row(messages: Seq<Message>) -> Seq<(ConversationRole, Block)>
    decreases messages.len(),
{
    if messages.len() == 0 {
        Seq::empty()
    } else {
        in_a_row(messages.drop_last()) + messages.last().content.map_values(
            |b: Block| (messages.last().role, b),
        )
    }
}

/// Nothing of a history is lost, said twice or moved: the blocks of its conversation
/// are those of its entries, one for one.
pub proof fn entries_are_said_once_in_order(entries: Seq<Entry>)
    ensures
        in_a_row(conversation(entries)) == entries.map_values(|e: Entry| said(e)),
    decreases entries.len(),
{
    let all = conversation(entries);
    if entries.len() == 0 {
        assert(in_a_row(all) =~= entries.map_values(|e: Entry| said(e)));
    } else {
        let init = entries.drop_last();
        let before = conversation(init);
        let entry = entries.last();
        entries_are_said_once_in_order(init);
        assert(entries.map_values(|e: Entry| said(e)) =~= init.map_values(|e: Entry| said(e)).push(said(entry)));
        if all.len() == before.len() {
            let old_last = before.last();
            let new_last = all.last();
            assert(all.drop_last() =~= before.drop_last());
            assert(new_last.content.map_values(|b: Block| (new_last.role, b)) =~= old_last.content.map_values(
                |b: Block| (old_last.role, b),
            ).push(said(entry)));
        } else {
            assert(all.drop_last() =~= before);
            let last = all.last();
            assert(last.content.map_values(|b: Block| (last.role, b)) =~= seq![said(entry)]);
        }
        assert(in_a_row(all) =~= in_a_row(before).push(said(entry)));
    }
}

/// Whether a message of the user's side has one block, and one of the agent goes on
/// with nothing but tool calls and does not begin with one behind another of the agent.
pub open spec fn well_cut(messages: Seq<Message>, m: int) -> bool {
    let content = messages[m].content;
    &&& content.len() > 0
    &&& messages[m].role == ConversationRole::User ==> content.len() == 1
    &&& forall|k: int| 0 < k < content.len() ==> (#[trigger] content[k]) is ToolUse
    &&& m > 0 && messages[m].role == ConversationRole::Assistant && messages[m - 1].role
        == ConversationRole::Assistant ==> !(content[0] is ToolUse)
}

/// What the user's side says stands alone in its message, and tool calls join the
/// message of the agent that they follow.
pub proof fn messages_begin_where_the_side_or_the_text_changes(entries: Seq<Entry>, m: int)
    requires
        0 <= m < conversation(entries).len(),
    ensures
        well_cut(conversation(entries), m),
    decreases entries.len(),
{
    let before = conversation(entries.drop_last());
    let all = conversation(entries);
    if m < before.len() {
        messages_begin_where_the_side_or_the_text_changes(entries.drop_last(), m);
        if m > 0 {
            assert(all[m - 1].role == before[m - 1].role);
        }
        if all.len() == before.len() && m == before.len() - 1 {
            let content = all[m].content;
            assert forall|k: int| 0 < k < content.len() implies (#[trigger] content[k]) is ToolUse by {
                if k < before[m].content.len() {
                    assert(content[k] == before[m].content[k]);
                }
            }
            assert(content[0] == before[m].content[0]);
        } else {
            assert(all[m] == before[m]);
        }
    } else if m > 0 {
        assert(all[m - 1] == before[m - 1]);
    }
}

/// Messages stay: further entries add messages, or blocks to the last one.
pub proof fn messages_stay(entries: Seq<Entry>, more: Seq<Entry>, m: int)
    requires
        0 <= m < conversation(entries).len(),
    ensures
        m < conversation(entries + more).len(),
        conversation(entries + more)[m].role == conversation(entries)[m].role,
        conversation(entries)[m].content.len() <= conversation(entries + more)[m].content.len(),
        conversation(entries + more)[m].content.take(conversation(entries)[m].content.len() as int)
            == conversation(entries)[m].content,
    decreases more.len(),
{
    let base = conversation(entries)[m].content;
    if more.len() == 0 {
        assert(entries + more =~= entries);
        assert(base.take(base.len() as int) =~= base);
    } else {
        messages_stay(entries, more.drop_last(), m);
        let all = entries + more;
        assert(all.drop_last() =~= entries + more.drop_last());
        let before = conversation(all.drop_last());
        let after = conversation(all);
        if after.len() == before.len() && m == before.len() - 1 {
            assert(after[m].content.take(base.len() as int) =~= before[m].content.take(base.len() as int));
        } else {
            assert(after[m] == before[m]);
        }
    }
}

/// A result ends its conversation with a message of its own, which names the call that
/// the result is of and holds the text of its value.
pub proof fn results_name_their_calls(entries: Seq<Entry>, call_id: Seq<char>, tool_name: Seq<char>, value: Cbor)
    ensures
        ({
            let result = Entry::Tool { call_id, tool_name, outcome: Outcome::Result(value) };
            let after = conversation(entries.push(result));
            &&& after.len() == conversation(entries).len() + 1
            &&& after.drop_last() == conversation(entries)
            &&& after.last().role == ConversationRole::User
            &&& after.last().content == seq![
                Block::ToolResult { tool_use_id: call_id, content: cbor_text(value), is_error: false },
            ]
        }),
{
    let result = Entry::Tool { call_id, tool_name, outcome: Outcome::Result(value) };
    assert(entries.push(result).drop_last() =~= entries);
    assert(conversation(entries.push(result)).drop_last() =~= conversation(entries));
}

/// A failure ends its conversation with a message of its own, which names the call
/// that failed, holds why, and is marked as an error.
pub proof fn failures_name_their_calls(
    entries: Seq<Entry>,
    call_id: Seq<char>,
    tool_name: Seq<char>,
    message: Seq<char>,
    details: Option<Cbor>,
)
    ensures
        ({
            let failure = Entry::Tool { call_id, tool_name, outcome: Outcome::Error { message, details } };
            let after = conversation(entries.push(failure));
            &&& after.len() == conversation(entries).len() + 1
            &&& after.drop_last() == conversation(entries)
            &&& after.last().role == ConversationRole::User
            &&& after.last().content == seq![
                Block::ToolResult { tool_use_id: call_id, content: message, is_error: true },
            ]
        }),
{
    let failure = Entry::Tool { call_id, tool_name, outcome: Outcome::Error { message, details } };
    assert(entries.push(failure).drop_last() =~= entries);
    assert(conversation(entries.push(failure)).drop_last() =~= conversation(entries));
}

/// A request ends its conversation with a block of the agent that has the id of the
/// call, the name of the tool and the arguments.
pub proof fn requests_are_said_by_the_agent(
    entries: Seq<Entry>,
    call_id: Seq<char>,
    tool_name: Seq<char>,
    arguments: Cbor,
)
    ensures
        ({
            let request = Entry::Tool { call_id, tool_name, outcome: Outcome::Requested(arguments) };
            let after = conversation(entries.push(request));
            &&& after.len() > 0
            &&& after.last().role == ConversationRole::Assistant
            &&& after.last().content.len() > 0
            &&& after.last().content.last() == (Block::ToolUse { id: call_id, name: tool_name, input: arguments })
        }),
{
    let request = Entry::Tool { call_id, tool_name, outcome: Outcome::Requested(arguments) };
    assert(entries.push(request).drop_last() =~= entries);
}

/// Where the outcome of a call follows its request, the block that asks for the call
/// stands in an earlier message than the block that answers it, and the two have the
/// same id.
pub proof fn answers_follow_their_requests(entries: Seq<Entry>, i: int, j: int)
    requires
        0 <= i < j < entries.len(),
        entries[i] matches Entry::Tool { call_id: asked, tool_name: _, outcome: first } && first is Requested && (
        entries[j] matches Entry::Tool { call_id: answered, tool_name: _, outcome: second } && !(second is Requested)
            && asked == answered),
    ensures
        exists|a: int, x: int, b: int|
            0 <= a < b < conversation(entries).len() && 0 <= x < conversation(entries)[a].content.len()
                && (#[trigger] conversation(entries)[a].content[x]) is ToolUse
                && (#[trigger] conversation(entries)[b].content[0]) is ToolResult
                && conversation(entries)[a].content[x]->id == conversation(entries)[b].content[0]->tool_use_id
                && conversation(entries)[a].content[x]->id == entries[i]->call_id,
{
    let asked = entries.take(i + 1);
    let before = entries.take(j);
    let answered = entries.take(j + 1);
    assert(asked.drop_last() =~= entries.take(i));
    assert(answered.drop_last() =~= before);
    let a = conversation(asked).len() - 1;
    let x = conversation(asked)[a].content.len() - 1;
    assert(before =~= asked + before.skip(i + 1));
    messages_stay(asked, before.skip(i + 1), a);
    assert(entries =~= asked + entries.skip(i + 1));
    messages_stay(asked, entries.skip(i + 1), a);
    let b = conversation(answered).len() - 1;
    assert(b == conversation(before).len());
    assert(entries =~= answered + entries.skip(j + 1));
    messages_stay(answered, entries.skip(j + 1), b);
    let all = conversation(entries);
    let asked_content = conversation(asked)[a].content;
    assert(all[a].content[x] == all[a].content.take(asked_content.len() as int)[x]);
    assert(all[a].content[x] == asked_content[x]);
    let answer_content = conversation(answered)[b].content;
    assert(all[b].content[0] == all[b].content.take(answer_content.len() as int)[0]);
    assert(all[b].content[0] == answer_content[0]);
}

/// What the user and the agent say is in the conversation word for word.
pub proof fn texts_are_said_as_they_are(entries: Seq<Entry>, text: Seq<char>, thinking: Option<Seq<char>>)
    ensures
        conversation(entries.push(Entry::User(text))) == conversation(entries).push(
            Message { role: ConversationRole::User, content: seq![Block::Text(text)] },
        ),
        conversation(entries.push(Entry::Agent { text, thinking })) == conversation(entries).push(
            Message { role: ConversationRole::Assistant, content: seq![Block::Text(text)] },
        ),
{
    assert(entries.push(Entry::User(text)).drop_last() =~= entries);
    assert(entries.push(Entry::Agent { text, thinking }).drop_last() =~= entries);
}

} // verus!

//! What holds of the trees of sessions and of the lines that show them.
use vstd::prelude::*;
use crate::assoc::{lookup, lookup_after_stored};
use crate::cbor::{cbor_text, dict_text};
use crate::order::{sorted_positions, sorted_positions_in_order};
use crate::session::{
    branch_after_append, entry_line, entry_preview, last_agent_text, node_line, path_to, result_preview, session_ids,
    session_list_text, session_summary, session_text, tree_of, with_entry, Entry, Node, Outcome, Tree,
};
use crate::text::{begins, byte_len, cut_bytes, decimal, ends_in, text_less};
use crate::text_laws::{cut_texts_are_beginnings, parts_are_found};

verus! {

proof fn lemma_path(nodes: Seq<Node>, i: int, k: int)
    requires
        0 <= i < nodes.len(),
        forall|n: int| 0 <= n < nodes.len() ==> ((#[trigger] nodes[n]).parent matches Some(p) ==> 0 <= p < n),
    ensures
        path_to(nodes, i).len() > 0,
        path_to(nodes, i).last() == i,
        nodes[path_to(nodes, i)[0]].parent is None,
        0 <= k < path_to(nodes, i).len() ==> 0 <= path_to(nodes, i)[k] < nodes.len(),
        0 < k < path_to(nodes, i).len() ==> nodes[path_to(nodes, i)[k]].parent == Some(path_to(nodes, i)[k - 1]),
    decreases i,
{
    if let Some(p) = nodes[i].parent {
        lemma_path(nodes, p, k);
        lemma_path(nodes, p, k - 1);
    }
}

/// The current branch runs from a node without a parent to the head, from each node to
/// one whose parent it is.
pub proof fn branches_run_from_the_root_to_the_head(tree: Tree, head: int, k: int)
    requires
        tree.head == Some(head),
        tree.wf(),
        forall|n: int| 0 <= n < tree.nodes.len() ==> ((#[trigger] tree.nodes[n]).parent matches Some(p) ==> 0 <= p < n),
    ensures
        tree.path().last() == head,
        tree.nodes[tree.path()[0]].parent is None,
        0 < k < tree.path().len() ==> tree.nodes[tree.path()[k]].parent == Some(tree.path()[k - 1]),
        tree.branch().len() == tree.path().len(),
        0 <= k < tree.path().len() ==> tree.branch()[k] == tree.nodes[tree.path()[k]].entry,
        tree.branch().last() == tree.nodes[head].entry,
{
    lemma_path(tree.nodes, head, k);
}

/// A session without a head has an empty branch.
pub proof fn sessions_begin_empty()
    ensures
        Tree::empty().branch().len() == 0,
        Tree::empty().wf(),
{
}

/// An appended entry becomes the head, its parent is the head before, and every node
/// stays.
pub proof fn appended_entries_become_the_head(tree: Tree, entry: Entry, i: int)
    ensures
        tree.appended(entry).nodes.len() == tree.nodes.len() + 1,
        tree.appended(entry).head == Some(tree.nodes.len() as int),
        tree.appended(entry).nodes.last() == (Node { parent: tree.head, entry }),
        0 <= i < tree.nodes.len() ==> tree.appended(entry).nodes[i] == tree.nodes[i],
{
}

/// An entry goes to the session that it is for, which begins where there is none, and to
/// no other.
pub proof fn entries_go_to_their_session(
    sessions: Seq<(Seq<char>, Tree)>,
    id: Seq<char>,
    entry: Entry,
    other: Seq<char>,
)
    requires
        tree_of(sessions, id).wf(),
    ensures
        tree_of(with_entry(sessions, id, entry), id).branch() == tree_of(sessions, id).branch().push(entry),
        other != id ==> lookup(with_entry(sessions, id, entry), other) == lookup(sessions, other),
        lookup(sessions, id) is None ==> tree_of(with_entry(sessions, id, entry), id).branch() == seq![entry],
{
    branch_after_append(tree_of(sessions, id), entry);
    lookup_after_stored(sessions, id, tree_of(sessions, id).appended(entry), id);
    lookup_after_stored(sessions, id, tree_of(sessions, id).appended(entry), other);
    if lookup(sessions, id) is None {
        assert(Tree::empty().branch().push(entry) =~= seq![entry]);
    }
}

/// The line of an entry ends with what was said, and names the tool that it is about.
pub proof fn lines_tell_their_entries(
    text: Seq<char>,
    thinking: Option<Seq<char>>,
    call_id: Seq<char>,
    tool_name: Seq<char>,
    outcome: Outcome,
)
    ensures
        entry_line(Entry::User(text)) == "user: "@ + text,
        entry_line(Entry::Agent { text, thinking }) == "agent: "@ + text,
        ends_in(entry_line(Entry::User(text)), text),
        ends_in(entry_line(Entry::Agent { text, thinking }), text),
        outcome is Requested && tool_name != "skill"@ ==> entry_line(Entry::Tool { call_id, tool_name, outcome })
            == "tool.request "@ + tool_name,
        outcome matches Outcome::Error { message, .. } ==> ends_in(
            entry_line(Entry::Tool { call_id, tool_name, outcome }),
            message,
        ) && begins(entry_line(Entry::Tool { call_id, tool_name, outcome }), "tool.error "@ + tool_name),
        outcome matches Outcome::Result(result) ==> begins(
            entry_line(Entry::Tool { call_id, tool_name, outcome }),
            "tool.result "@ + tool_name,
        ) && (byte_len(cbor_text(result)) <= 80 ==> ends_in(
            entry_line(Entry::Tool { call_id, tool_name, outcome }),
            cbor_text(result),
        )),
{
    parts_are_found("user: "@, text, Seq::empty());
    parts_are_found("agent: "@, text, Seq::empty());
    match outcome {
        Outcome::Error { message, .. } => {
            parts_are_found("tool.error "@ + tool_name + " -> "@, message, Seq::empty());
            parts_are_found(Seq::empty(), "tool.error "@ + tool_name, " -> "@ + message);
            assert("tool.error "@ + tool_name + (" -> "@ + message) =~= entry_line(
                Entry::Tool { call_id, tool_name, outcome },
            ));
        },
        Outcome::Result(result) => {
            let shown = result_preview(cbor_text(result));
            parts_are_found("tool.result "@ + tool_name + " -> "@, shown, Seq::empty());
            parts_are_found(Seq::empty(), "tool.result "@ + tool_name, " -> "@ + shown);
            assert("tool.result "@ + tool_name + (" -> "@ + shown) =~= entry_line(
                Entry::Tool { call_id, tool_name, outcome },
            ));
        },
        _ => {},
    }
}

/// The line of a request for a skill names the skill.
pub proof fn lines_of_skill_requests_name_the_skill(call_id: Seq<char>, arguments: crate::cbor::Cbor, name: Seq<char>)
    requires
        dict_text(arguments, "name"@) == Some(name),
        name.len() > 0,
    ensures
        entry_line(Entry::Tool { call_id, tool_name: "skill"@, outcome: Outcome::Requested(arguments) })
            == "tool.request skill "@ + name,
{
}

/// A long result is shown by its beginning, of at most eighty bytes, and three dots.
pub proof fn long_results_are_cut(text: Seq<char>)
    ensures
        byte_len(text) <= 80 ==> result_preview(text) == text,
        byte_len(text) > 80 ==> exists|start: Seq<char>|
            result_preview(text) == #[trigger] (start + "..."@) && begins(text, start) && byte_len(start) <= 80,
{
    let start = cut_bytes(text, 80);
    cut_texts_are_beginnings(text, 80);
    if byte_len(text) > 80 {
        assert(result_preview(text) == start + "..."@);
    }
}

/// A preview is one line of at most sixty characters and, where the line is longer, an
/// ellipsis.
pub proof fn previews_are_short_lines(entry: Entry, i: int)
    ensures
        entry_preview(entry).len() <= 61,
        0 <= i < entry_preview(entry).len() ==> entry_preview(entry)[i] != '\n',
        0 <= i < 60 && i < entry_line(entry).len() ==> entry_preview(entry)[i] == (if entry_line(entry)[i] == '\n' {
            ' '
        } else {
            entry_line(entry)[i]
        }),
        entry_line(entry).len() <= 60 ==> entry_preview(entry).len() == entry_line(entry).len(),
{
    reveal_strlit("\u{2026}");
    assert("\u{2026}"@.len() == 1 && "\u{2026}"@[0] != '\n');
}

/// The line of a node tells its number, whether it is the head, its parent and its entry.
pub proof fn node_lines_tell_the_node(tree: Tree, i: int)
    requires
        0 <= i < tree.nodes.len(),
    ensures
        ends_in(node_line(tree, i), entry_preview(tree.nodes[i].entry)),
        tree.head == Some(i) && (tree.nodes[i].parent matches Some(p)) && decimal(i as nat).len() == 1 ==> begins(
            node_line(tree, i),
            "  "@ + (seq![' ', ' '] + decimal(i as nat)) + " "@ + "*"@,
        ),
        tree.head != Some(i) && decimal(i as nat).len() == 1 ==> begins(
            node_line(tree, i),
            "  "@ + (seq![' ', ' '] + decimal(i as nat)) + " "@ + " "@,
        ),
{
    let number = crate::text::right_aligned(decimal(i as nat), 3);
    let marker = if tree.head == Some(i) {
        "*"@
    } else {
        " "@
    };
    let parent = match tree.nodes[i].parent {
        Some(p) => "<- "@ + decimal(p as nat),
        None => "(root)"@,
    };
    let aligned = crate::text::right_aligned(parent, 8);
    let preview = entry_preview(tree.nodes[i].entry);
    let front = "  "@ + number + " "@ + marker;
    parts_are_found(front + " "@ + aligned + "  "@, preview, Seq::empty());
    parts_are_found(Seq::empty(), front, " "@ + aligned + "  "@ + preview);
    assert(front + (" "@ + aligned + "  "@ + preview) =~= node_line(tree, i));
    if decimal(i as nat).len() == 1 {
        assert(number =~= seq![' ', ' '] + decimal(i as nat));
    }
}

/// A session is shown by one numbered line for each entry of its branch; one that is not
/// there is said to be missing.
pub proof fn sessions_are_shown_entry_by_entry(sessions: Seq<(Seq<char>, Tree)>, id: Seq<char>, i: int)
    ensures
        lookup(sessions, id) matches Some(tree) ==> session_text(sessions, id).len() == tree.branch().len() && (0 <= i
            < tree.branch().len() ==> session_text(sessions, id)[i] == decimal((i + 1) as nat) + ": "@ + entry_line(
            tree.branch()[i],
        )),
        lookup(sessions, id) is None ==> session_text(sessions, id) == seq!["session "@ + id + " not found"@],
{
}

/// What the agent said last is what the last entry of the agent holds.
pub proof fn the_last_word_of_the_agent_is_found(entries: Seq<Entry>, entry: Entry)
    ensures
        last_agent_text(Seq::empty()) is None,
        entry matches Entry::Agent { text, .. } ==> last_agent_text(entries.push(entry)) == Some(text),
        !(entry is Agent) ==> last_agent_text(entries.push(entry)) == last_agent_text(entries),
{
    assert(entries.push(entry).drop_last() =~= entries);
}

/// Every session is listed once, by ascending id, with the number of its entries and what
/// the agent said last.
pub proof fn all_sessions_are_listed(sessions: Seq<(Seq<char>, Tree)>, i: int, j: int)
    requires
        sessions.len() > 0,
    ensures
        session_list_text(sessions).len() == sessions.len(),
        0 <= i < sessions.len() ==> session_list_text(sessions).contains(
            sessions[i].0 + " ("@ + decimal(sessions[i].1.branch().len()) + " entries)"@ + (match last_agent_text(
                sessions[i].1.branch(),
            ) {
                Some(text) => ": "@ + text,
                None => Seq::empty(),
            }),
        ),
        0 <= i < j < sessions.len() ==> {
            let at = sorted_positions(session_ids(sessions));
            &&& session_list_text(sessions)[i] == session_summary(sessions[at[i]].0, sessions[at[i]].1)
            &&& !text_less(sessions[at[j]].0, sessions[at[i]].0)
        },
{
    let ids = session_ids(sessions);
    let at = sorted_positions(ids);
    sorted_positions_in_order(ids);
    if 0 <= i < sessions.len() {
        assert(at.contains(i));
        let k = choose|k: int| 0 <= k < at.len() && at[k] == i;
        assert(session_list_text(sessions)[k] == session_summary(sessions[i].0, sessions[i].1));
    }
    if 0 <= i < j < sessions.len() {
        assert(ids[at[i]] == sessions[at[i]].0);
        assert(ids[at[j]] == sessions[at[j]].0);
        if text_less(ids[at[j]], ids[at[i]]) {
            if text_less(ids[at[i]], ids[at[j]]) {
                crate::order::text_less_transitive(ids[at[i]], ids[at[j]], ids[at[i]]);
            }
            crate::order::text_less_irreflexive(ids[at[i]]);
        }
    }
}

} // verus!

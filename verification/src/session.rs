//! The history of a session: a tree of entries with one current branch.
use vstd::prelude::*;
use vstd::string::*;
use crate::cbor::{cbor_map_text, cbor_text, cbor_to_text, dict_text, Cbor, CborValue};
use crate::assoc::{lemma_found, lemma_missing, lookup, stored, TextMap};
use crate::order::{positions, sort_positions, sorted_positions};
use crate::text::{
    align_right, byte_len, cut_bytes, cut_to_bytes, cuts_evenly, decimal, decimal_text, first_chars,
    longer_than_bytes, replace_char, right_aligned, same, take_chars, texts, with_char_replaced,
};

verus! {

// ---------------------------------------------------------------------------
// Entries
// ---------------------------------------------------------------------------

/// What became of a tool call.
#[derive(Clone, Debug, PartialEq, Eq)]
pub enum ToolActivityOutcome {
    /// The call was requested.
    Requested { arguments: CborValue },
    /// The call returned a value.
    Result { result: CborValue },
    /// The call failed.
    Error { message: String, details: Option<CborValue> },
}

/// One step in the life of a tool call.
#[derive(Clone, Debug, PartialEq, Eq)]
pub struct ToolActivityRecord {
    pub call_id: String,
    pub tool_name: String,
    pub outcome: ToolActivityOutcome,
}

/// One entry of a session's history.
#[derive(Clone, Debug, PartialEq, Eq)]
pub enum SessionEntry {
    /// Text that the user sent.
    UserMessage { text: String },
    /// Text that the agent answered, with its reasoning summary.
    AgentMessage { text: String, thinking: Option<String> },
    /// A step of a tool call.
    ToolActivity(ToolActivityRecord),
}

/// What a `ToolActivityOutcome` holds.
pub enum Outcome {
    Requested(Cbor),
    Result(Cbor),
    Error { message: Seq<char>, details: Option<Cbor> },
}

/// What a `SessionEntry` holds.
pub enum Entry {
    User(Seq<char>),
    Agent { text: Seq<char>, thinking: Option<Seq<char>> },
    Tool { call_id: Seq<char>, tool_name: Seq<char>, outcome: Outcome },
}

/// The view of an optional value.
pub open spec fn option_text(o: Option<String>) -> Option<Seq<char>> {
    match o {
        Some(s) => Some(s@),
        None => None,
    }
}

/// The view of an optional structured value.
pub open spec fn option_cbor(o: Option<CborValue>) -> Option<Cbor> {
    match o {
        Some(v) => Some(v@),
        None => None,
    }
}

impl ToolActivityOutcome {
    pub open spec fn view(&self) -> Outcome {
        match self {
            ToolActivityOutcome::Requested { arguments } => Outcome::Requested(arguments@),
            ToolActivityOutcome::Result { result } => Outcome::Result(result@),
            ToolActivityOutcome::Error { message, details } => Outcome::Error {
                message: message@,
                details: option_cbor(*details),
            },
        }
    }
}

impl SessionEntry {
    pub open spec fn view(&self) -> Entry {
        match self {
            SessionEntry::UserMessage { text } => Entry::User(text@),
            SessionEntry::AgentMessage { text, thinking } => Entry::Agent {
                text: text@,
                thinking: option_text(*thinking),
            },
            SessionEntry::ToolActivity(record) => Entry::Tool {
                call_id: record.call_id@,
                tool_name: record.tool_name@,
                outcome: record.outcome@,
            },
        }
    }
}

// ---------------------------------------------------------------------------
// Trees
// ---------------------------------------------------------------------------

/// One node of a session tree. Its number is its position in the tree.
#[derive(Clone, Debug, PartialEq, Eq)]
pub struct SessionNode {
    /// The node that this one continues.
    pub parent_id: Option<usize>,
    pub entry: SessionEntry,
}

/// The tree of a session's entries.
#[derive(Clone, Debug, PartialEq, Eq)]
pub struct SessionTree {
    pub nodes: Vec<SessionNode>,
    /// The node at the end of the current branch.
    pub head: Option<usize>,
}

/// What a `SessionNode` holds.
pub struct Node {
    pub parent: Option<int>,
    pub entry: Entry,
}

/// What a `SessionTree` holds.
#[verifier::ext_equal]
pub struct Tree {
    pub nodes: Seq<Node>,
    pub head: Option<int>,
}

pub open spec fn option_index(o: Option<usize>) -> Option<int> {
    match o {
        Some(i) => Some(i as int),
        None => None,
    }
}

impl SessionNode {
    pub open spec fn view(&self) -> Node {
        Node { parent: option_index(self.parent_id), entry: self.entry@ }
    }
}

impl View for SessionTree {
    type V = Tree;

    open spec fn view(&self) -> Tree {
        Tree {
            nodes: self.nodes@.map_values(|n: SessionNode| n@),
            head: option_index(self.head),
        }
    }
}

/// The numbers of the nodes from the root to node `i`.
pub open spec fn path_to(nodes: Seq<Node>, i: int) -> Seq<int>
    decreases i,
    when 0 <= i
{
    match nodes[i].parent {
        Some(p) => if 0 <= p < i {
            path_to(nodes, p).push(i)
        } else {
            seq![i]
        },
        None => seq![i],
    }
}

impl Tree {
    /// The tree without entries.
    pub open spec fn empty() -> Tree {
        Tree { nodes: Seq::empty(), head: None }
    }

    /// The head, where there is one, is a node of the tree.
    pub open spec fn wf(self) -> bool {
        match self.head {
            Some(h) => 0 <= h < self.nodes.len(),
            None => true,
        }
    }

    /// The numbers of the nodes on the current branch, from the root on.
    pub open spec fn path(self) -> Seq<int> {
        match self.head {
            Some(h) => if 0 <= h < self.nodes.len() {
                path_to(self.nodes, h)
            } else {
                Seq::empty()
            },
            None => Seq::empty(),
        }
    }

    /// The entries on the current branch, from the root on.
    pub open spec fn branch(self) -> Seq<Entry> {
        self.path().map_values(|i: int| self.nodes[i].entry)
    }

    /// The tree with `entry` after its head, which becomes the new head.
    pub open spec fn appended(self, entry: Entry) -> Tree {
        Tree {
            nodes: self.nodes.push(Node { parent: self.head, entry }),
            head: Some(self.nodes.len() as int),
        }
    }
}

proof fn lemma_path_in_range(nodes: Seq<Node>, i: int)
    requires
        0 <= i < nodes.len(),
    ensures
        path_to(nodes, i).len() > 0,
        forall|k: int| 0 <= k < path_to(nodes, i).len() ==> 0 <= #[trigger] path_to(nodes, i)[k] <= i,
    decreases i,
{
    match nodes[i].parent {
        Some(p) => if 0 <= p < i {
            lemma_path_in_range(nodes, p);
        },
        None => {},
    }
}

proof fn lemma_path_push(nodes: Seq<Node>, node: Node, i: int)
    requires
        0 <= i < nodes.len(),
    ensures
        path_to(nodes.push(node), i) == path_to(nodes, i),
    decreases i,
{
    match nodes[i].parent {
        Some(p) => if 0 <= p < i {
            lemma_path_push(nodes, node, p);
        },
        None => {},
    }
}

/// Appending an entry extends the current branch by that entry and changes
/// nothing before it.
pub proof fn branch_after_append(tree: Tree, entry: Entry)
    requires
        tree.wf(),
    ensures
        tree.appended(entry).wf(),
        tree.appended(entry).branch() == tree.branch().push(entry),
{
    let after = tree.appended(entry);
    let node = Node { parent: tree.head, entry };
    match tree.head {
        Some(h) => {
            lemma_path_push(tree.nodes, node, h);
            lemma_path_in_range(tree.nodes, h);
            assert(after.path() == tree.path().push(tree.nodes.len() as int));
        },
        None => {
            assert(after.path() =~= seq![tree.nodes.len() as int]);
        },
    }
    assert(after.branch() =~= tree.branch().push(entry));
}

impl SessionTree {
    /// A tree without entries.
    pub fn new() -> (r: SessionTree)
        ensures
            r@ == Tree::empty(),
    {
        let r = SessionTree { nodes: Vec::new(), head: None };
        assert(r@ =~= Tree::empty());
        r
    }

    /// Puts `entry` after the head and makes it the new head.
    pub fn append(&mut self, entry: SessionEntry)
        ensures
            final(self)@ == old(self)@.appended(entry@),
    {
        let ghost before = self@;
        let parent_id = self.head;
        self.head = Some(self.nodes.len());
        self.nodes.push(SessionNode { parent_id, entry });
        assert(self@ =~= before.appended(entry@));
    }

    /// The numbers of the nodes on the current branch, from the root on.
    pub fn current_branch(&self) -> (r: Vec<usize>)
        ensures
            r@.map_values(|i: usize| i as int) == self@.path(),
            forall|k: int| 0 <= k < r.len() ==> (#[trigger] r@[k]) < self.nodes.len(),
    {
        let mut up: Vec<usize> = Vec::new();
        match self.head {
            Some(h) => {
                if h < self.nodes.len() {
                    let ghost nodes = self@.nodes;
                    let ghost whole = path_to(nodes, h as int);
                    let mut at: usize = h;
                    let mut more = true;
                    assert(whole =~= path_to(nodes, at as int) + up@.map_values(|i: usize| i as int).reverse());
                    while more
                        invariant
                            nodes == self@.nodes,
                            at < nodes.len(),
                            nodes.len() == self.nodes.len(),
                            forall|k: int| 0 <= k < up.len() ==> (#[trigger] up@[k]) < self.nodes.len(),
                            more ==> whole == path_to(nodes, at as int) + up@.map_values(|i: usize| i as int).reverse(),
                            !more ==> whole == up@.map_values(|i: usize| i as int).reverse(),
                        decreases at, (if more { 1int } else { 0int }),
                    {
                        let ghost up_before = up@;
                        up.push(at);
                        assert(up@.map_values(|i: usize| i as int).reverse() =~= seq![at as int]
                            + up_before.map_values(|i: usize| i as int).reverse());
                        assert(nodes[at as int].parent == option_index(self.nodes@[at as int].parent_id));
                        match self.nodes[at].parent_id {
                            Some(p) => {
                                if p < at {
                                    assert(whole =~= path_to(nodes, p as int) + up@.map_values(
                                        |i: usize| i as int,
                                    ).reverse());
                                    at = p;
                                } else {
                                    more = false;
                                }
                            },
                            None => {
                                more = false;
                            },
                        }
                    }
                }
            },
            None => {},
        }
        let mut r: Vec<usize> = Vec::new();
        let mut left: usize = up.len();
        while left > 0
            invariant
                left <= up.len(),
                r.len() == up.len() - left,
                forall|k: int| 0 <= k < r.len() ==> r@[k] == up@[up.len() - 1 - k],
            decreases left,
        {
            left -= 1;
            r.push(up[left]);
        }
        assert(r@.map_values(|i: usize| i as int) =~= up@.map_values(|i: usize| i as int).reverse());
        r
    }
}

// ---------------------------------------------------------------------------
// Conversations
// ---------------------------------------------------------------------------

/// Who speaks in a conversation.
#[derive(Clone, Copy, Debug, PartialEq, Eq, Structural)]
pub enum ConversationRole {
    User,
    Assistant,
}

/// One part of a conversation message.
#[derive(Clone, Debug, PartialEq, Eq)]
pub enum ContentBlock {
    Text { text: String },
    ToolUse { id: String, name: String, input: CborValue },
    ToolResult { tool_use_id: String, content: String, is_error: bool },
}

/// One message of the conversation handed to the agent.
#[derive(Clone, Debug, PartialEq, Eq)]
pub struct ConversationMessage {
    pub role: ConversationRole,
    pub content: Vec<ContentBlock>,
}

/// What a `ContentBlock` holds.
pub enum Block {
    Text(Seq<char>),
    ToolUse { id: Seq<char>, name: Seq<char>, input: Cbor },
    ToolResult { tool_use_id: Seq<char>, content: Seq<char>, is_error: bool },
}

/// What a `ConversationMessage` holds.
#[verifier::ext_equal]
pub struct Message {
    pub role: ConversationRole,
    pub content: Seq<Block>,
}

impl ContentBlock {
    pub open spec fn view(&self) -> Block {
        match self {
            ContentBlock::Text { text } => Block::Text(text@),
            ContentBlock::ToolUse { id, name, input } => Block::ToolUse {
                id: id@,
                name: name@,
                input: input@,
            },
            ContentBlock::ToolResult { tool_use_id, content, is_error } => Block::ToolResult {
                tool_use_id: tool_use_id@,
                content: content@,
                is_error: *is_error,
            },
        }
    }
}

impl ConversationMessage {
    pub open spec fn view(&self) -> Message {
        Message { role: self.role, content: self.content@.map_values(|b: ContentBlock| b@) }
    }
}

/// The views of a list of messages.
pub open spec fn messages_view(messages: Seq<ConversationMessage>) -> Seq<Message> {
    messages.map_values(|m: ConversationMessage| m@)
}

/// The conversation after one more entry of the history.
///
/// A tool request joins the assistant message before it; everything else is a
/// message of its own. Reasoning summaries are left out.
pub open spec fn conversation_step(messages: Seq<Message>, entry: Entry) -> Seq<Message> {
    match entry {
        Entry::User(text) => messages.push(
            Message { role: ConversationRole::User, content: seq![Block::Text(text)] },
        ),
        Entry::Agent { text, thinking: _ } => messages.push(
            Message { role: ConversationRole::Assistant, content: seq![Block::Text(text)] },
        ),
        Entry::Tool { call_id, tool_name, outcome } => match outcome {
            Outcome::Requested(arguments) => {
                let block = Block::ToolUse { id: call_id, name: tool_name, input: arguments };
                if messages.len() > 0 && messages.last().role == ConversationRole::Assistant {
                    messages.drop_last().push(
                        Message {
                            role: ConversationRole::Assistant,
                            content: messages.last().content.push(block),
                        },
                    )
                } else {
                    messages.push(
                        Message { role: ConversationRole::Assistant, content: seq![block] },
                    )
                }
            },
            Outcome::Result(result) => messages.push(
                Message {
                    role: ConversationRole::User,
                    content: seq![
                        Block::ToolResult {
                            tool_use_id: call_id,
                            content: cbor_text(result),
                            is_error: false,
                        },
                    ],
                },
            ),
            Outcome::Error { message, details: _ } => messages.push(
                Message {
                    role: ConversationRole::User,
                    content: seq![
                        Block::ToolResult {
                            tool_use_id: call_id,
                            content: message,
                            is_error: true,
                        },
                    ],
                },
            ),
        },
    }
}

/// The conversation that a history amounts to.
pub open spec fn conversation(entries: Seq<Entry>) -> Seq<Message>
    decreases entries.len(),
{
    if entries.len() == 0 {
        Seq::empty()
    } else {
        conversation_step(conversation(entries.drop_last()), entries.last())
    }
}

/// Converts the current branch of a session tree into conversation messages.
pub fn assemble_conversation(tree: &SessionTree) -> (r: Vec<ConversationMessage>)
    ensures
        messages_view(r@) == conversation(tree@.branch()),
{
    let path = tree.current_branch();
    let ghost branch = tree@.branch();
    let mut messages: Vec<ConversationMessage> = Vec::new();
    let mut i: usize = 0;
    assert(messages_view(messages@) =~= conversation(branch.take(0)));
    while i < path.len()
        invariant
            branch == tree@.branch(),
            path@.map_values(|i: usize| i as int) == tree@.path(),
            forall|k: int| 0 <= k < path.len() ==> (#[trigger] path@[k]) < tree.nodes.len(),
            i <= path.len(),
            messages_view(messages@) == conversation(branch.take(i as int)),
        decreases path.len() - i,
    {
        let ghost before = messages_view(messages@);
        let at = path[i];
        let entry = &tree.nodes[at].entry;
        proof {
            assert(tree@.path()[i as int] == at as int);
            assert(branch[i as int] == tree@.nodes[at as int].entry);
            assert(tree@.nodes[at as int] == tree.nodes@[at as int]@);
            assert(branch.take(i + 1).drop_last() =~= branch.take(i as int));
        }
        match entry {
            SessionEntry::UserMessage { text } => {
                push_block(&mut messages, ConversationRole::User, ContentBlock::Text { text: text.clone() });
            },
            SessionEntry::AgentMessage { text, thinking: _ } => {
                push_block(&mut messages, ConversationRole::Assistant, ContentBlock::Text { text: text.clone() });
            },
            SessionEntry::ToolActivity(activity) => match &activity.outcome {
                ToolActivityOutcome::Requested { arguments } => {
                    let block = ContentBlock::ToolUse {
                        id: activity.call_id.clone(),
                        name: activity.tool_name.clone(),
                        input: arguments.clone(),
                    };
                    let n = messages.len();
                    if n > 0 && messages[n - 1].role == ConversationRole::Assistant {
                        let ghost all = messages@;
                        let mut last = messages.pop().unwrap();
                        let ghost content = last.content@;
                        last.content.push(block);
                        messages.push(last);
                        proof {
                            assert(before.last() == all.last()@);
                            assert(last@.content =~= before.last().content.push(block@));
                            assert(messages_view(messages@) =~= before.drop_last().push(last@));
                        }
                    } else {
                        proof {
                            if n > 0 {
                                assert(before.last() == messages@.last()@);
                            }
                        }
                        push_block(&mut messages, ConversationRole::Assistant, block);
                    }
                },
                ToolActivityOutcome::Result { result } => {
                    push_block(
                        &mut messages,
                        ConversationRole::User,
                        ContentBlock::ToolResult {
                            tool_use_id: activity.call_id.clone(),
                            content: cbor_to_text(result),
                            is_error: false,
                        },
                    );
                },
                ToolActivityOutcome::Error { message, details: _ } => {
                    push_block(
                        &mut messages,
                        ConversationRole::User,
                        ContentBlock::ToolResult {
                            tool_use_id: activity.call_id.clone(),
                            content: message.clone(),
                            is_error: true,
                        },
                    );
                },
            },
        }
        i += 1;
    }
    assert(path.len() == branch.len());
    assert(branch.take(path.len() as int) =~= branch);
    messages
}

/// Adds a message of one block.
fn push_block(messages: &mut Vec<ConversationMessage>, role: ConversationRole, block: ContentBlock)
    ensures
        messages_view(final(messages)@) == messages_view(old(messages)@).push(
            Message { role, content: seq![block@] },
        ),
{
    let mut content: Vec<ContentBlock> = Vec::new();
    content.push(block);
    let ghost before = messages_view(messages@);
    let message = ConversationMessage { role, content };
    assert(message@.content =~= seq![block@]);
    messages.push(message);
    assert(messages_view(messages@) =~= before.push(Message { role, content: seq![block@] }));
}

/// A conversation that ends with the user's side only grows at its end,
/// whatever entries follow.
pub proof fn conversation_extends(entries: Seq<Entry>, more: Seq<Entry>)
    requires
        conversation(entries).len() > 0 ==> conversation(entries).last().role == ConversationRole::User,
    ensures
        conversation(entries).len() <= conversation(entries + more).len(),
        conversation(entries + more).take(conversation(entries).len() as int) == conversation(entries),
        conversation(entries + more).len() == conversation(entries).len() ==> conversation(entries + more)
            == conversation(entries),
    decreases more.len(),
{
    let base = conversation(entries);
    if more.len() == 0 {
        assert(entries + more =~= entries);
        assert(base.take(base.len() as int) =~= base);
    } else {
        let init = more.drop_last();
        conversation_extends(entries, init);
        let all = entries + more;
        assert(all.drop_last() =~= entries + init);
        assert(all.last() == more.last());
        let before = conversation(entries + init);
        let after = conversation(all);
        assert(after == conversation_step(before, more.last()));
        if before.len() == base.len() {
            assert(before.take(base.len() as int) =~= before);
        }
        assert(after.take(base.len() as int) =~= base);
        if after.len() == base.len() {
            assert(after =~= base);
        }
    }
}

/// Two histories that differ in nothing but reasoning summaries give the same
/// conversation.
pub proof fn conversation_ignores_thinking(a: Seq<Entry>, b: Seq<Entry>)
    requires
        a.len() == b.len(),
        forall|i: int| 0 <= i < a.len() ==> #[trigger] without_thinking(a[i]) == without_thinking(b[i]),
    ensures
        conversation(a) == conversation(b),
    decreases a.len(),
{
    if a.len() > 0 {
        let n = a.len() - 1;
        assert(without_thinking(a[n]) == without_thinking(b[n]));
        assert forall|i: int| 0 <= i < a.drop_last().len() implies #[trigger] without_thinking(
            a.drop_last()[i],
        ) == without_thinking(b.drop_last()[i]) by {
            assert(without_thinking(a[i]) == without_thinking(b[i]));
        }
        conversation_ignores_thinking(a.drop_last(), b.drop_last());
    }
}

/// An entry without its reasoning summary.
pub open spec fn without_thinking(entry: Entry) -> Entry {
    match entry {
        Entry::Agent { text, thinking: _ } => Entry::Agent { text, thinking: None },
        other => other,
    }
}

// ---------------------------------------------------------------------------
// The store of sessions
// ---------------------------------------------------------------------------

/// The sessions that are known, by their ids.
#[derive(Clone)]
pub struct SessionStore {
    pub sessions: TextMap<SessionTree>,
}

/// The tree of session `id`, or the empty one.
pub open spec fn tree_of(sessions: Seq<(Seq<char>, Tree)>, id: Seq<char>) -> Tree {
    match lookup(sessions, id) {
        Some(tree) => tree,
        None => Tree::empty(),
    }
}

/// The sessions with `entry` appended to session `id`, which begins to exist
/// where it did not.
pub open spec fn with_entry(sessions: Seq<(Seq<char>, Tree)>, id: Seq<char>, entry: Entry) -> Seq<
    (Seq<char>, Tree),
> {
    stored(sessions, id, tree_of(sessions, id).appended(entry))
}

impl SessionStore {
    pub open spec fn view(&self) -> Seq<(Seq<char>, Tree)> {
        self.sessions@
    }

    /// A store without sessions.
    pub fn new() -> (r: SessionStore)
        ensures
            r@ == Seq::<(Seq<char>, Tree)>::empty(),
    {
        SessionStore { sessions: TextMap::new() }
    }

    /// The tree of session `id`.
    pub fn session(&self, id: &str) -> (r: Option<&SessionTree>)
        ensures
            match r {
                Some(tree) => lookup(self@, id@) == Some(tree@),
                None => lookup(self@, id@) is None,
            },
    {
        self.sessions.get(id)
    }

    /// Appends `entry` to session `id`.
    pub fn append(&mut self, id: &str, entry: SessionEntry)
        ensures
            final(self)@ == with_entry(old(self)@, id@, entry@),
    {
        let ghost before = self@;
        match self.sessions.position(id) {
            Some(i) => {
                proof {
                    lemma_found(before, id@, before[i as int].1.appended(entry@), i as int);
                }
                self.sessions.entries[i].1.append(entry);
                assert(self@ =~= before.update(i as int, (id@, before[i as int].1.appended(entry@))));
            },
            None => {
                proof {
                    lemma_missing(before, id@, Tree::empty());
                }
                let mut tree = SessionTree::new();
                tree.append(entry);
                self.sessions.insert(id.to_owned(), tree);
            },
        }
    }

    /// Makes `node` the head of session `id`, where the session has that node.
    pub fn set_head(&mut self, id: &str, node: usize) -> (r: bool)
        ensures
            r == (lookup(old(self)@, id@) is Some && node < tree_of(old(self)@, id@).nodes.len()),
            r ==> final(self)@ == stored(
                old(self)@,
                id@,
                Tree { nodes: tree_of(old(self)@, id@).nodes, head: Some(node as int) },
            ),
            !r ==> final(self)@ == old(self)@,
    {
        let ghost before = self@;
        match self.sessions.position(id) {
            Some(i) => {
                let ghost moved = Tree { nodes: before[i as int].1.nodes, head: Some(node as int) };
                proof {
                    lemma_found(before, id@, moved, i as int);
                    assert(before[i as int].1.nodes.len() == self.sessions.entries@[i as int].1.nodes.len());
                }
                if node < self.sessions.entries[i].1.nodes.len() {
                    self.sessions.entries[i].1.head = Some(node);
                    assert(self@ =~= before.update(i as int, (id@, moved)));
                    true
                } else {
                    false
                }
            },
            None => {
                proof {
                    lemma_missing(before, id@, Tree::empty());
                }
                false
            },
        }
    }
}

// ---------------------------------------------------------------------------
// Lines for people
// ---------------------------------------------------------------------------

/// The number of bytes of a tool result that a history line shows.
pub const RESULT_PREVIEW_BYTES: usize = 80;

/// The number of characters that a tree line shows of an entry.
pub const TREE_PREVIEW_CHARS: usize = 60;

/// A text cut to the bytes that a history line shows.
pub open spec fn result_preview(text: Seq<char>) -> Seq<char> {
    if byte_len(text) > RESULT_PREVIEW_BYTES {
        cut_bytes(text, RESULT_PREVIEW_BYTES as nat) + "..."@
    } else {
        text
    }
}

/// Whether a history line can show the entry: a long tool result has a
/// character boundary where it is cut.
pub open spec fn can_be_shown(entry: Entry) -> bool {
    match entry {
        Entry::Tool { call_id: _, tool_name: _, outcome: Outcome::Result(result) } => byte_len(
            cbor_text(result),
        ) > RESULT_PREVIEW_BYTES ==> cuts_evenly(cbor_text(result), RESULT_PREVIEW_BYTES as nat),
        _ => true,
    }
}

/// The line for one entry of a session's history.
pub open spec fn entry_line(entry: Entry) -> Seq<char> {
    match entry {
        Entry::User(text) => "user: "@ + text,
        Entry::Agent { text, thinking: _ } => "agent: "@ + text,
        Entry::Tool { call_id: _, tool_name, outcome } => match outcome {
            Outcome::Requested(arguments) => if tool_name == "skill"@ {
                match dict_text(arguments, "name"@) {
                    Some(name) => if name.len() == 0 {
                        "tool.request skill"@
                    } else {
                        "tool.request skill "@ + name
                    },
                    None => "tool.request skill"@,
                }
            } else {
                "tool.request "@ + tool_name
            },
            Outcome::Result(result) => "tool.result "@ + tool_name + " -> "@ + result_preview(
                cbor_text(result),
            ),
            Outcome::Error { message, details: _ } => "tool.error "@ + tool_name + " -> "@ + message,
        },
    }
}

/// Formats one entry of a session's history.
pub fn format_session_entry(entry: &SessionEntry) -> (r: String)
    requires
        can_be_shown(entry@),
    ensures
        r@ == entry_line(entry@),
{
    match entry {
        SessionEntry::UserMessage { text } => {
            let mut r = "user: ".to_owned();
            r.append(text.as_str());
            r
        },
        SessionEntry::AgentMessage { text, thinking: _ } => {
            let mut r = "agent: ".to_owned();
            r.append(text.as_str());
            r
        },
        SessionEntry::ToolActivity(activity) => match &activity.outcome {
            ToolActivityOutcome::Requested { arguments } => {
                if same(activity.tool_name.as_str(), "skill") {
                    match cbor_map_text(arguments, "name") {
                        Some(name) => {
                            if name.is_empty() {
                                "tool.request skill".to_owned()
                            } else {
                                let mut r = "tool.request skill ".to_owned();
                                r.append(name);
                                r
                            }
                        },
                        None => "tool.request skill".to_owned(),
                    }
                } else {
                    let mut r = "tool.request ".to_owned();
                    r.append(activity.tool_name.as_str());
                    r
                }
            },
            ToolActivityOutcome::Result { result } => {
                let text = cbor_to_text(result);
                let mut r = "tool.result ".to_owned();
                r.append(activity.tool_name.as_str());
                r.append(" -> ");
                if longer_than_bytes(text.as_str(), RESULT_PREVIEW_BYTES) {
                    let mut preview = cut_to_bytes(text.as_str(), RESULT_PREVIEW_BYTES);
                    preview.append("...");
                    r.append(preview.as_str());
                } else {
                    r.append(text.as_str());
                }
                r
            },
            ToolActivityOutcome::Error { message, details: _ } => {
                let mut r = "tool.error ".to_owned();
                r.append(activity.tool_name.as_str());
                r.append(" -> ");
                r.append(message.as_str());
                r
            },
        },
    }
}

/// The one-line preview of an entry in the rendered tree.
pub open spec fn entry_preview(entry: Entry) -> Seq<char> {
    let line = with_char_replaced(entry_line(entry), '\n', ' ');
    if line.len() > TREE_PREVIEW_CHARS {
        first_chars(line, TREE_PREVIEW_CHARS as int) + "\u{2026}"@
    } else {
        line
    }
}

/// Renders the one-line preview of an entry.
pub fn render_entry_preview(entry: &SessionEntry) -> (r: String)
    requires
        can_be_shown(entry@),
    ensures
        r@ == entry_preview(entry@),
{
    let line = replace_char(format_session_entry(entry).as_str(), '\n', ' ');
    if line.as_str().unicode_len() > TREE_PREVIEW_CHARS {
        let mut r = take_chars(line.as_str(), TREE_PREVIEW_CHARS);
        r.append("\u{2026}");
        r
    } else {
        line
    }
}

/// The line of node `i` in the rendered tree: its number, a mark where it is the
/// head, its parent, and a preview.
pub open spec fn node_line(tree: Tree, i: int) -> Seq<char> {
    let marker = if tree.head == Some(i) {
        "*"@
    } else {
        " "@
    };
    let parent = match tree.nodes[i].parent {
        Some(p) => "<- "@ + decimal(p as nat),
        None => "(root)"@,
    };
    "  "@ + right_aligned(decimal(i as nat), 3) + " "@ + marker + " "@ + right_aligned(parent, 8)
        + "  "@ + entry_preview(tree.nodes[i].entry)
}

/// The lines of all nodes of a tree.
pub open spec fn node_lines(tree: Tree) -> Seq<Seq<char>> {
    Seq::new(tree.nodes.len(), |i: int| node_line(tree, i))
}

/// Renders one line per node of a session tree.
pub fn tree_lines(tree: &SessionTree) -> (r: Vec<String>)
    requires
        forall|i: int| 0 <= i < tree@.nodes.len() ==> can_be_shown((#[trigger] tree@.nodes[i]).entry),
    ensures
        texts(r@) == node_lines(tree@),
{
    let mut lines: Vec<String> = Vec::new();
    let mut i: usize = 0;
    while i < tree.nodes.len()
        invariant
            forall|i: int|
                0 <= i < tree@.nodes.len() ==> can_be_shown((#[trigger] tree@.nodes[i]).entry),
            i <= tree.nodes.len(),
            lines.len() == i,
            forall|k: int| 0 <= k < i ==> (#[trigger] lines@[k])@ == node_line(tree@, k),
        decreases tree.nodes.len() - i,
    {
        assert(tree@.nodes[i as int] == tree.nodes@[i as int]@);
        let is_head = match tree.head {
            Some(h) => h == i,
            None => false,
        };
        let parent = match tree.nodes[i].parent_id {
            Some(p) => {
                let mut s = "<- ".to_owned();
                s.append(decimal_text(p as u128).as_str());
                s
            },
            None => "(root)".to_owned(),
        };
        let mut line = "  ".to_owned();
        line.append(align_right(decimal_text(i as u128).as_str(), 3).as_str());
        line.append(" ");
        if is_head {
            line.append("*");
        } else {
            line.append(" ");
        }
        line.append(" ");
        line.append(align_right(parent.as_str(), 8).as_str());
        line.append("  ");
        line.append(render_entry_preview(&tree.nodes[i].entry).as_str());
        lines.push(line);
        i += 1;
    }
    assert(texts(lines@) =~= node_lines(tree@));
    lines
}

/// The lines that show session `id`: its current branch, numbered from one.
pub open spec fn session_text(sessions: Seq<(Seq<char>, Tree)>, id: Seq<char>) -> Seq<Seq<char>> {
    match lookup(sessions, id) {
        Some(tree) => Seq::new(
            tree.branch().len(),
            |i: int| decimal((i + 1) as nat) + ": "@ + entry_line(tree.branch()[i]),
        ),
        None => seq!["session "@ + id + " not found"@],
    }
}

/// Lists the entries on the current branch of session `id`.
pub fn session_lines(store: &SessionStore, id: &str) -> (r: Vec<String>)
    requires
        forall|i: int|
            0 <= i < tree_of(store@, id@).branch().len() ==> can_be_shown(
                #[trigger] tree_of(store@, id@).branch()[i],
            ),
    ensures
        texts(r@) == session_text(store@, id@),
{
    let mut lines: Vec<String> = Vec::new();
    match store.session(id) {
        None => {
            let mut line = "session ".to_owned();
            line.append(id);
            line.append(" not found");
            lines.push(line);
            assert(texts(lines@) =~= session_text(store@, id@));
        },
        Some(tree) => {
            let path = tree.current_branch();
            let ghost branch = tree@.branch();
            let mut i: usize = 0;
            while i < path.len()
                invariant
                    branch == tree@.branch(),
                    path@.map_values(|i: usize| i as int) == tree@.path(),
                    forall|k: int| 0 <= k < path.len() ==> (#[trigger] path@[k]) < tree.nodes.len(),
                    forall|i: int| 0 <= i < branch.len() ==> can_be_shown(#[trigger] branch[i]),
                    i <= path.len(),
                    lines.len() == i,
                    forall|k: int|
                        0 <= k < i ==> (#[trigger] lines@[k])@ == decimal((k + 1) as nat) + ": "@ + entry_line(
                            branch[k],
                        ),
                decreases path.len() - i,
            {
                let at = path[i];
                proof {
                    assert(tree@.path()[i as int] == at as int);
                    assert(branch[i as int] == tree@.nodes[at as int].entry);
                    assert(tree@.nodes[at as int] == tree.nodes@[at as int]@);
                }
                let mut line = decimal_text(i as u128 + 1);
                line.append(": ");
                line.append(format_session_entry(&tree.nodes[at].entry).as_str());
                lines.push(line);
                i += 1;
            }
            assert(path.len() == branch.len());
            assert(texts(lines@) =~= session_text(store@, id@));
        },
    }
    lines
}

/// The last text of the agent in a history.
pub open spec fn last_agent_text(entries: Seq<Entry>) -> Option<Seq<char>>
    decreases entries.len(),
{
    if entries.len() == 0 {
        None
    } else {
        match entries.last() {
            Entry::Agent { text, thinking: _ } => Some(text),
            _ => last_agent_text(entries.drop_last()),
        }
    }
}

/// The last text of the agent on the current branch.
pub fn latest_agent_preview(tree: &SessionTree) -> (r: Option<String>)
    ensures
        option_text(r) == last_agent_text(tree@.branch()),
{
    let path = tree.current_branch();
    let ghost branch = tree@.branch();
    let mut left: usize = path.len();
    assert(branch.take(left as int) =~= branch);
    while left > 0
        invariant
            branch == tree@.branch(),
            path@.map_values(|i: usize| i as int) == tree@.path(),
            forall|k: int| 0 <= k < path.len() ==> (#[trigger] path@[k]) < tree.nodes.len(),
            left <= path.len(),
            last_agent_text(branch) == last_agent_text(branch.take(left as int)),
        decreases left,
    {
        left -= 1;
        let at = path[left];
        proof {
            assert(tree@.path()[left as int] == at as int);
            assert(branch[left as int] == tree@.nodes[at as int].entry);
            assert(tree@.nodes[at as int] == tree.nodes@[at as int]@);
            assert(branch.take(left + 1).drop_last() =~= branch.take(left as int));
        }
        match &tree.nodes[at].entry {
            SessionEntry::AgentMessage { text, thinking: _ } => {
                return Some(text.clone());
            },
            _ => {},
        }
    }
    None
}

/// The line of one session in the list of sessions.
pub open spec fn session_summary(id: Seq<char>, tree: Tree) -> Seq<char> {
    id + " ("@ + decimal(tree.branch().len()) + " entries)"@ + (match last_agent_text(tree.branch()) {
        Some(text) => ": "@ + text,
        None => Seq::empty(),
    })
}

/// The ids of a list of sessions.
pub open spec fn session_ids(sessions: Seq<(Seq<char>, Tree)>) -> Seq<Seq<char>> {
    sessions.map_values(|s: (Seq<char>, Tree)| s.0)
}

/// The lines that list all sessions, by ascending id.
pub open spec fn session_list_text(sessions: Seq<(Seq<char>, Tree)>) -> Seq<Seq<char>> {
    if sessions.len() == 0 {
        seq!["no sessions"@]
    } else {
        sorted_positions(session_ids(sessions)).map_values(
            |i: int| session_summary(sessions[i].0, sessions[i].1),
        )
    }
}

/// Lists all sessions.
pub fn session_list_lines(store: &SessionStore) -> (r: Vec<String>)
    ensures
        texts(r@) == session_list_text(store@),
{
    let sessions = &store.sessions.entries;
    let mut lines: Vec<String> = Vec::new();
    if sessions.len() == 0 {
        lines.push("no sessions".to_owned());
        assert(texts(lines@) =~= session_list_text(store@));
        return lines;
    }
    let mut ids: Vec<String> = Vec::new();
    let mut n: usize = 0;
    while n < sessions.len()
        invariant
            n <= sessions.len(),
            ids.len() == n,
            forall|k: int| 0 <= k < n ==> (#[trigger] ids@[k])@ == sessions@[k].0@,
        decreases sessions.len() - n,
    {
        ids.push(sessions[n].0.clone());
        n += 1;
    }
    assert(texts(ids@) =~= session_ids(store@));
    let order = sort_positions(&ids);
    let mut i: usize = 0;
    while i < order.len()
        invariant
            i <= order.len(),
            sessions@ == store.sessions.entries@,
            forall|k: int| 0 <= k < order.len() ==> (#[trigger] order@[k]) < sessions.len(),
            lines.len() == i,
            forall|k: int|
                0 <= k < i ==> (#[trigger] lines@[k])@ == session_summary(
                    store@[order@[k] as int].0,
                    store@[order@[k] as int].1,
                ),
        decreases order.len() - i,
    {
        let at = order[i];
        let tree = &sessions[at].1;
        let mut line = sessions[at].0.clone();
        line.append(" (");
        let path = tree.current_branch();
        assert(path.len() == tree@.branch().len());
        line.append(decimal_text(path.len() as u128).as_str());
        line.append(" entries)");
        match latest_agent_preview(tree) {
            Some(text) => {
                line.append(": ");
                line.append(text.as_str());
            },
            None => {
                assert(line@ + Seq::<char>::empty() =~= line@);
            },
        }
        assert(store@[at as int] == (sessions@[at as int].0@, tree@));
        lines.push(line);
        i += 1;
    }
    proof {
        let sorted = sorted_positions(session_ids(store@));
        assert forall|k: int| 0 <= k < lines.len() implies texts(lines@)[k] == session_list_text(store@)[k] by {
            assert(positions(order@)[k] == sorted[k]);
        }
        assert(texts(lines@) =~= session_list_text(store@));
    }
    lines
}

} // verus!

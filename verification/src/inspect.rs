//! Sessions and approvals as lines for people.
use vstd::prelude::*;
use vstd::string::*;
use crate::cbor::{cbor_text, cbor_to_text, Cbor, CborValue};
use crate::chat_completions::{message_text, run_together};
use crate::context::{
    items_view, ContextItem, Item, ProviderBackend, ProviderTokenUsage, ResultView, Status, ToolCallItem,
    ToolResultItem, ToolResultStatus,
};
use crate::event::{selectors_view, ConnectionOrigin, EventSelector, Selector};
use crate::order::{positions, sort_positions, sorted_positions};
use crate::paths::{join_path, path_join, state_dir_of, state_dir_or_default};
use crate::session::option_text;
use crate::text::{decimal, decimal_text, join, joined, same, take_chars, texts};

verus! {

// ---------------------------------------------------------------------------
// Errors and places
// ---------------------------------------------------------------------------

/// Why something could not be inspected.
#[derive(Debug, PartialEq, Eq)]
pub enum InspectError {
    Io(String),
    SessionStore(String),
}

impl InspectError {
    /// The error from below.
    pub fn source(&self) -> (r: &str)
        ensures
            r@ == (match self {
                InspectError::Io(source) => source@,
                InspectError::SessionStore(source) => source@,
            }),
    {
        match self {
            InspectError::Io(source) => source.as_str(),
            InspectError::SessionStore(source) => source.as_str(),
        }
    }

    /// What is said of the error.
    pub fn text(&self) -> (r: String)
        ensures
            r@ == (match self {
                InspectError::Io(source) => "I/O error: "@ + source@,
                InspectError::SessionStore(source) => "session store error: "@ + source@,
            }),
    {
        match self {
            InspectError::Io(source) => {
                let mut r = "I/O error: ".to_owned();
                r.append(source.as_str());
                r
            },
            InspectError::SessionStore(source) => {
                let mut r = "session store error: ".to_owned();
                r.append(source.as_str());
                r
            },
        }
    }
}

/// Where sessions lie, below the user's directory for state or the fallback.
pub fn default_sessions_dir(user_dir: Option<String>) -> (r: String)
    ensures
        r@ == path_join(state_dir_of(option_text(user_dir)), "sessions"@),
{
    let dir = state_dir_or_default(user_dir);
    join_path(dir.as_str(), "sessions")
}

// ---------------------------------------------------------------------------
// Entries
// ---------------------------------------------------------------------------

/// One entry of a session.
#[derive(Debug, PartialEq, Eq)]
pub enum SessionEntry {
    UserInput { items: Vec<ContextItem> },
    /// What came before was replaced by these items.
    Compaction { replacement_window: Vec<ContextItem> },
    AssistantResponse {
        provider_response_id: Option<String>,
        backend: Option<ProviderBackend>,
        output_items: Vec<ContextItem>,
        usage: Option<ProviderTokenUsage>,
    },
    ToolResults { items: Vec<ToolResultItem> },
}

/// What is shown of a `SessionEntry`.
pub enum EntryView {
    User(Seq<Item>),
    Compacted(nat),
    Assistant(Seq<Item>),
    Results(Seq<ResultView>),
}

/// The views of a list of results.
pub open spec fn result_views(items: Seq<ToolResultItem>) -> Seq<ResultView> {
    Seq::new(items.len(), |i: int| items[i]@)
}

impl SessionEntry {
    pub open spec fn view(&self) -> EntryView {
        match self {
            SessionEntry::UserInput { items } => EntryView::User(items_view(items@)),
            SessionEntry::Compaction { replacement_window } => EntryView::Compacted(replacement_window@.len()),
            SessionEntry::AssistantResponse { provider_response_id: _, backend: _, output_items, usage: _ } =>
            EntryView::Assistant(items_view(output_items@)),
            SessionEntry::ToolResults { items } => EntryView::Results(result_views(items@)),
        }
    }
}

pub open spec fn entries_of(v: Seq<SessionEntry>) -> Seq<EntryView> {
    Seq::new(v.len(), |i: int| v[i]@)
}

/// The text of a message that has any.
pub open spec fn spoken(item: Item) -> Option<Seq<char>> {
    match item {
        Item::Message { role: _, content, phase: _ } => if run_together(content).len() > 0 {
            Some(run_together(content))
        } else {
            None
        },
        _ => None,
    }
}

/// The text of the first message that has any.
pub open spec fn first_spoken(items: Seq<Item>) -> Option<Seq<char>>
    decreases items.len(),
{
    if items.len() == 0 {
        None
    } else {
        match spoken(items[0]) {
            Some(text) => Some(text),
            None => first_spoken(items.drop_first()),
        }
    }
}

fn spoken_text(item: &ContextItem) -> (r: Option<String>)
    ensures
        option_text(r) == spoken(item@),
{
    match item {
        ContextItem::Message(message) => {
            let text = message_text(message);
            if text.as_str().is_empty() {
                None
            } else {
                Some(text)
            }
        },
        _ => None,
    }
}

/// The text of the first message that has any.
pub fn first_message_text(items: &Vec<ContextItem>) -> (r: Option<String>)
    ensures
        option_text(r) == first_spoken(items_view(items@)),
{
    let ghost all = items_view(items@);
    let mut i: usize = 0;
    assert(all.skip(0) =~= all);
    while i < items.len()
        invariant
            i <= items.len(),
            all == items_view(items@),
            first_spoken(all) == first_spoken(all.skip(i as int)),
        decreases items.len() - i,
    {
        proof {
            assert(all.skip(i as int).drop_first() =~= all.skip(i + 1));
            assert(all.skip(i as int)[0] == items@[i as int]@);
        }
        match spoken_text(&items[i]) {
            Some(text) => {
                return Some(text);
            },
            None => {},
        }
        i += 1;
    }
    None
}

/// Whether an argument of a call is shown.
pub open spec fn is_shown_key(key: Seq<char>) -> bool {
    key == "path"@ || key == "pattern"@ || key == "command"@ || key == "task_name"@
}

/// The first argument that is shown.
pub open spec fn shown_argument(entries: Seq<(Cbor, Cbor)>) -> Option<Seq<char>>
    decreases entries.len(),
{
    if entries.len() == 0 {
        None
    } else {
        match entries[0] {
            (Cbor::Text(key), Cbor::Text(value)) if is_shown_key(key) => Some(value),
            _ => shown_argument(entries.drop_first()),
        }
    }
}

/// A call as it is shown.
pub open spec fn call_shown(name: Seq<char>, arguments: Cbor) -> Seq<char> {
    let args = match arguments {
        Cbor::Dict(entries) => shown_argument(entries),
        _ => None,
    };
    match args {
        Some(args) => if args.len() > 0 {
            "tool.call "@ + name + " "@ + args
        } else {
            "tool.call "@ + name
        },
        None => "tool.call "@ + name,
    }
}

fn find_shown_argument(v: &CborValue) -> (r: Option<String>)
    ensures
        option_text(r) == match v@ {
            Cbor::Dict(entries) => shown_argument(entries),
            _ => None,
        },
{
    match v {
        CborValue::Dict(entries) => {
            let ghost all = v@->Dict_0;
            let mut i: usize = 0;
            assert(all.skip(0) =~= all);
            while i < entries.len()
                invariant
                    i <= entries.len(),
                    *v == CborValue::Dict(*entries),
                    all == v@->Dict_0,
                    shown_argument(all) == shown_argument(all.skip(i as int)),
                decreases entries.len() - i,
            {
                proof {
                    assert(all.skip(i as int).drop_first() =~= all.skip(i + 1));
                    assert(all.skip(i as int)[0] == (entries@[i as int].0@, entries@[i as int].1@));
                }
                match (&entries[i].0, &entries[i].1) {
                    (CborValue::Text(key), CborValue::Text(value)) => {
                        let k = key.as_str();
                        if same(k, "path") || same(k, "pattern") || same(k, "command") || same(k, "task_name") {
                            return Some(value.clone());
                        }
                    },
                    _ => {},
                }
                i += 1;
            }
            None
        },
        _ => None,
    }
}

/// Shows a call.
pub fn tool_call_preview(call: &ToolCallItem) -> (r: String)
    ensures
        r@ == call_shown(call.name@, call.arguments@),
{
    let mut r = "tool.call ".to_owned();
    r.append(call.name.as_str());
    match find_shown_argument(&call.arguments) {
        Some(args) => {
            if !args.as_str().is_empty() {
                r.append(" ");
                r.append(args.as_str());
            }
        },
        None => {},
    }
    r
}

/// What is shown of an item of a response.
pub open spec fn item_shown(item: Item) -> Option<Seq<char>> {
    match item {
        Item::Message { role: _, content: _, phase: _ } => spoken(item),
        Item::ToolCall { call_id: _, name, tool_type: _, arguments } => Some(call_shown(name, arguments)),
        _ => None,
    }
}

/// What is shown of the first `n` items of a response.
pub open spec fn items_shown(items: Seq<Item>, n: nat) -> Seq<Seq<char>>
    decreases n,
{
    if n == 0 || n > items.len() {
        Seq::empty()
    } else {
        let before = items_shown(items, (n - 1) as nat);
        match item_shown(items[n - 1]) {
            Some(text) => before.push(text),
            None => before,
        }
    }
}

/// What is shown of a response.
pub open spec fn response_shown(items: Seq<Item>) -> Option<Seq<char>> {
    let parts = items_shown(items, items.len());
    if parts.len() == 0 {
        None
    } else {
        Some(joined(parts, " "@))
    }
}

/// Shows a response: its messages and its calls, in order.
pub fn assistant_output_preview(items: &Vec<ContextItem>) -> (r: Option<String>)
    ensures
        option_text(r) == response_shown(items_view(items@)),
{
    let ghost all = items_view(items@);
    let mut parts: Vec<String> = Vec::new();
    let mut i: usize = 0;
    assert(texts(parts@) =~= Seq::empty());
    while i < items.len()
        invariant
            i <= items.len(),
            all == items_view(items@),
            texts(parts@) == items_shown(all, i as nat),
        decreases items.len() - i,
    {
        assert(all[i as int] == items@[i as int]@);
        let shown = match &items[i] {
            ContextItem::Message(_) => spoken_text(&items[i]),
            ContextItem::ToolCall(call) => Some(tool_call_preview(call)),
            _ => None,
        };
        match shown {
            Some(text) => {
                let ghost before = texts(parts@);
                let ghost added = text@;
                parts.push(text);
                assert(texts(parts@) =~= before.push(added));
            },
            None => {},
        }
        i += 1;
    }
    if parts.len() == 0 {
        None
    } else {
        Some(join(&parts, " "))
    }
}

/// The longest preview of a result, in characters.
pub const RESULT_PREVIEW_CHARS: usize = 80;

/// The beginning of a text, marked where it is not the whole.
pub open spec fn shortened(text: Seq<char>, n: int) -> Seq<char> {
    if text.len() <= n {
        text
    } else {
        text.take(n) + "..."@
    }
}

/// The beginning of a text, marked where it is not the whole.
pub fn truncate_chars(text: &str, max_chars: usize) -> (r: String)
    ensures
        r@ == shortened(text@, max_chars as int),
{
    let count: usize = text.unicode_len();
    let mut r = take_chars(text, max_chars);
    if count > max_chars {
        r.append("...");
    }
    r
}

/// A result as it is shown.
pub open spec fn result_shown(item: ResultView) -> Seq<char> {
    match item.status {
        Status::Success => "tool.result "@ + item.call_id + " -> "@ + shortened(
            cbor_text(item.output.raw),
            RESULT_PREVIEW_CHARS as int,
        ),
        Status::Error(message) => "tool.error "@ + item.call_id + " -> "@ + message,
        Status::Cancelled(reason) => "tool.cancelled "@ + item.call_id + " -> "@ + reason,
    }
}

/// Shows a result.
pub fn format_tool_result_item(item: &ToolResultItem) -> (r: String)
    ensures
        r@ == result_shown(item@),
{
    match &item.status {
        ToolResultStatus::Success => {
            let mut r = "tool.result ".to_owned();
            r.append(item.call_id.as_str());
            r.append(" -> ");
            let text = cbor_to_text(&item.output.raw);
            let preview = truncate_chars(text.as_str(), RESULT_PREVIEW_CHARS);
            r.append(preview.as_str());
            r
        },
        ToolResultStatus::Error { message } => {
            let mut r = "tool.error ".to_owned();
            r.append(item.call_id.as_str());
            r.append(" -> ");
            r.append(message.as_str());
            r
        },
        ToolResultStatus::Cancelled { reason } => {
            let mut r = "tool.cancelled ".to_owned();
            r.append(item.call_id.as_str());
            r.append(" -> ");
            r.append(reason.as_str());
            r
        },
    }
}

/// An entry as it is shown.
pub open spec fn entry_shown(entry: EntryView) -> Seq<char> {
    match entry {
        EntryView::User(items) => "user: "@ + match first_spoken(items) {
            Some(text) => text,
            None => Seq::empty(),
        },
        EntryView::Compacted(n) => "compacted: "@ + decimal(n) + " item(s)"@,
        EntryView::Assistant(items) => "agent: "@ + match response_shown(items) {
            Some(text) => text,
            None => "(no text)"@,
        },
        EntryView::Results(items) => if items.len() == 0 {
            "tool.result (empty)"@
        } else {
            joined(Seq::new(items.len(), |i: int| result_shown(items[i])), "; "@)
        },
    }
}

/// Shows an entry.
#[must_use]
pub fn format_session_entry(entry: &SessionEntry) -> (r: String)
    ensures
        r@ == entry_shown(entry@),
{
    match entry {
        SessionEntry::UserInput { items } => {
            let mut r = "user: ".to_owned();
            match first_message_text(items) {
                Some(text) => r.append(text.as_str()),
                None => {
                    assert(r@ + Seq::<char>::empty() =~= r@);
                },
            }
            r
        },
        SessionEntry::Compaction { replacement_window } => {
            let mut r = "compacted: ".to_owned();
            let n = decimal_text(replacement_window.len() as u128);
            r.append(n.as_str());
            r.append(" item(s)");
            r
        },
        SessionEntry::AssistantResponse { provider_response_id: _, backend: _, output_items, usage: _ } => {
            let mut r = "agent: ".to_owned();
            match assistant_output_preview(output_items) {
                Some(text) => r.append(text.as_str()),
                None => r.append("(no text)"),
            }
            r
        },
        SessionEntry::ToolResults { items } => {
            if items.len() == 0 {
                return "tool.result (empty)".to_owned();
            }
            let ghost views = result_views(items@);
            let mut lines: Vec<String> = Vec::new();
            let mut i: usize = 0;
            while i < items.len()
                invariant
                    i <= items.len(),
                    views == result_views(items@),
                    lines.len() == i,
                    forall|k: int| 0 <= k < i ==> (#[trigger] lines@[k])@ == result_shown(views[k]),
                decreases items.len() - i,
            {
                lines.push(format_tool_result_item(&items[i]));
                i += 1;
            }
            assert(texts(lines@) =~= Seq::new(views.len(), |k: int| result_shown(views[k])));
            join(&lines, "; ")
        },
    }
}

/// What is shown of the last response that has anything to show.
pub open spec fn last_response_shown(branch: Seq<EntryView>) -> Option<Seq<char>>
    decreases branch.len(),
{
    if branch.len() == 0 {
        None
    } else {
        let here = match branch.last() {
            EntryView::Assistant(items) => response_shown(items),
            _ => None,
        };
        match here {
            Some(text) => Some(text),
            None => last_response_shown(branch.drop_last()),
        }
    }
}

/// Shows the last response of a branch that has anything to show.
#[must_use]
pub fn latest_agent_preview(branch: &Vec<SessionEntry>) -> (r: Option<String>)
    ensures
        option_text(r) == last_response_shown(entries_of(branch@)),
{
    let ghost all = entries_of(branch@);
    let mut n: usize = branch.len();
    assert(all.take(all.len() as int) =~= all);
    while n > 0
        invariant
            n <= branch.len(),
            all == entries_of(branch@),
            last_response_shown(all) == last_response_shown(all.take(n as int)),
        decreases n,
    {
        proof {
            assert(all.take(n as int).drop_last() =~= all.take(n - 1));
            assert(all.take(n as int).last() == branch@[n - 1]@);
        }
        match &branch[n - 1] {
            SessionEntry::AssistantResponse { provider_response_id: _, backend: _, output_items, usage: _ } => {
                match assistant_output_preview(output_items) {
                    Some(text) => {
                        return Some(text);
                    },
                    None => {},
                }
            },
            _ => {},
        }
        n -= 1;
    }
    None
}

/// The lines on a session.
pub open spec fn session_shown(session_id: Seq<char>, branch: Option<Seq<EntryView>>) -> Seq<Seq<char>> {
    match branch {
        None => seq!["session "@ + session_id + " not found"@],
        Some(entries) => Seq::new(
            entries.len(),
            |i: int| decimal((i + 1) as nat) + ": "@ + entry_shown(entries[i]),
        ),
    }
}

/// Shows a session. `branch` holds its entries, where it exists.
pub fn session_lines(session_id: &str, branch: Option<&Vec<SessionEntry>>) -> (r: Vec<String>)
    ensures
        texts(r@) == session_shown(
            session_id@,
            match branch {
                Some(entries) => Some(entries_of(entries@)),
                None => None,
            },
        ),
{
    let mut lines: Vec<String> = Vec::new();
    match branch {
        None => {
            let mut line = "session ".to_owned();
            line.append(session_id);
            line.append(" not found");
            let ghost said = line@;
            lines.push(line);
            assert(texts(lines@) =~= seq![said]);
        },
        Some(entries) => {
            let ghost views = entries_of(entries@);
            let mut i: usize = 0;
            while i < entries.len()
                invariant
                    i <= entries.len(),
                    views == entries_of(entries@),
                    lines.len() == i,
                    forall|k: int|
                        0 <= k < i ==> (#[trigger] lines@[k])@ == decimal((k + 1) as nat) + ": "@ + entry_shown(
                            views[k],
                        ),
                decreases entries.len() - i,
            {
                let mut line = decimal_text(i as u128 + 1);
                line.append(": ");
                let shown = format_session_entry(&entries[i]);
                line.append(shown.as_str());
                lines.push(line);
                i += 1;
            }
            assert(texts(lines@) =~= Seq::new(
                views.len(),
                |k: int| decimal((k + 1) as nat) + ": "@ + entry_shown(views[k]),
            ));
        },
    }
    lines
}

/// One session in a list.
#[derive(Debug, PartialEq, Eq)]
pub struct ListedSession {
    pub session_id: String,
    /// Its entries.
    pub branch: Vec<SessionEntry>,
}

/// A session as it is listed.
pub open spec fn listed(session: ListedSession) -> Seq<char> {
    session.session_id@ + " ("@ + decimal(session.branch@.len()) + " entries)"@ + match last_response_shown(
        entries_of(session.branch@),
    ) {
        Some(text) => ": "@ + text,
        None => Seq::empty(),
    }
}

/// The ids of sessions.
pub open spec fn listed_ids(sessions: Seq<ListedSession>) -> Seq<Seq<char>> {
    Seq::new(sessions.len(), |i: int| sessions[i].session_id@)
}

/// Lists sessions in the order of their ids.
pub fn session_list_lines(sessions: &Vec<ListedSession>) -> (r: Vec<String>)
    ensures
        texts(r@) == if sessions@.len() == 0 {
            seq!["no sessions"@]
        } else {
            sorted_positions(listed_ids(sessions@)).map_values(|i: int| listed(sessions@[i]))
        },
{
    let mut lines: Vec<String> = Vec::new();
    if sessions.len() == 0 {
        lines.push("no sessions".to_owned());
        assert(texts(lines@) =~= seq!["no sessions"@]);
        return lines;
    }
    let mut ids: Vec<String> = Vec::new();
    let mut n: usize = 0;
    while n < sessions.len()
        invariant
            n <= sessions.len(),
            ids.len() == n,
            forall|k: int| 0 <= k < n ==> (#[trigger] ids@[k])@ == sessions@[k].session_id@,
        decreases sessions.len() - n,
    {
        ids.push(sessions[n].session_id.clone());
        n += 1;
    }
    assert(texts(ids@) =~= listed_ids(sessions@));
    let order = sort_positions(&ids);
    let mut i: usize = 0;
    while i < order.len()
        invariant
            i <= order.len(),
            forall|k: int| 0 <= k < order.len() ==> (#[trigger] order@[k]) < sessions.len(),
            lines.len() == i,
            forall|k: int| 0 <= k < i ==> (#[trigger] lines@[k])@ == listed(sessions@[order@[k] as int]),
        decreases order.len() - i,
    {
        let session = &sessions[order[i]];
        let mut line = session.session_id.clone();
        line.append(" (");
        let count = decimal_text(session.branch.len() as u128);
        line.append(count.as_str());
        line.append(" entries)");
        match latest_agent_preview(&session.branch) {
            Some(text) => {
                line.append(": ");
                line.append(text.as_str());
                assert(line@ =~= listed(*session));
            },
            None => {
                assert(line@ + Seq::<char>::empty() =~= line@);
            },
        }
        lines.push(line);
        i += 1;
    }
    proof {
        let at = positions(order@);
        assert(texts(lines@) =~= at.map_values(|k: int| listed(sessions@[k])));
    }
    lines
}

// ---------------------------------------------------------------------------
// Approvals
// ---------------------------------------------------------------------------

/// What a connection may see.
#[derive(Debug, PartialEq, Eq)]
pub struct PolicyApproval {
    pub connection_name: String,
    pub connection_origin: ConnectionOrigin,
    pub selectors: Vec<EventSelector>,
}

/// How a connection came about, in a word.
pub open spec fn origin_word(origin: ConnectionOrigin) -> Seq<char> {
    match origin {
        ConnectionOrigin::InMemory => "InMemory"@,
        ConnectionOrigin::Supervised => "Supervised"@,
        ConnectionOrigin::Socket => "Socket"@,
    }
}

/// A selector as it is shown.
pub open spec fn selector_shown(selector: Selector) -> Seq<char> {
    match selector {
        Selector::Exact(name) => name,
        Selector::Prefix(prefix) => prefix + "*"@,
    }
}

/// An approval as it is shown.
pub open spec fn approval_shown(approval: PolicyApproval) -> Seq<char> {
    let selectors = selectors_view(approval.selectors@);
    approval.connection_name@ + " ["@ + origin_word(approval.connection_origin) + "] -> "@ + joined(
        Seq::new(selectors.len(), |i: int| selector_shown(selectors[i])),
        ", "@,
    )
}

/// The names in a list of approvals.
pub open spec fn approval_names(approvals: Seq<PolicyApproval>) -> Seq<Seq<char>> {
    Seq::new(approvals.len(), |i: int| approvals[i].connection_name@)
}

fn approval_line(approval: &PolicyApproval) -> (r: String)
    ensures
        r@ == approval_shown(*approval),
{
    let ghost selectors = selectors_view(approval.selectors@);
    let mut shown: Vec<String> = Vec::new();
    let mut i: usize = 0;
    while i < approval.selectors.len()
        invariant
            i <= approval.selectors.len(),
            selectors == selectors_view(approval.selectors@),
            shown.len() == i,
            forall|k: int| 0 <= k < i ==> (#[trigger] shown@[k])@ == selector_shown(selectors[k]),
        decreases approval.selectors.len() - i,
    {
        assert(selectors[i as int] == approval.selectors@[i as int]@);
        let text = match &approval.selectors[i] {
            EventSelector::Exact(name) => name.clone(),
            EventSelector::Prefix(prefix) => {
                let mut text = prefix.clone();
                text.append("*");
                text
            },
        };
        shown.push(text);
        i += 1;
    }
    assert(texts(shown@) =~= Seq::new(selectors.len(), |k: int| selector_shown(selectors[k])));
    let mut line = approval.connection_name.clone();
    line.append(" [");
    match approval.connection_origin {
        ConnectionOrigin::InMemory => line.append("InMemory"),
        ConnectionOrigin::Supervised => line.append("Supervised"),
        ConnectionOrigin::Socket => line.append("Socket"),
    }
    line.append("] -> ");
    let list = join(&shown, ", ");
    line.append(list.as_str());
    line
}

/// Lists approvals in the order of the names of the connections.
pub fn policy_lines(approvals: &Vec<PolicyApproval>) -> (r: Vec<String>)
    ensures
        texts(r@) == if approvals@.len() == 0 {
            seq!["no policy approvals"@]
        } else {
            sorted_positions(approval_names(approvals@)).map_values(|i: int| approval_shown(approvals@[i]))
        },
{
    let mut lines: Vec<String> = Vec::new();
    if approvals.len() == 0 {
        lines.push("no policy approvals".to_owned());
        assert(texts(lines@) =~= seq!["no policy approvals"@]);
        return lines;
    }
    let mut names: Vec<String> = Vec::new();
    let mut n: usize = 0;
    while n < approvals.len()
        invariant
            n <= approvals.len(),
            names.len() == n,
            forall|k: int| 0 <= k < n ==> (#[trigger] names@[k])@ == approvals@[k].connection_name@,
        decreases approvals.len() - n,
    {
        names.push(approvals[n].connection_name.clone());
        n += 1;
    }
    assert(texts(names@) =~= approval_names(approvals@));
    let order = sort_positions(&names);
    let mut i: usize = 0;
    while i < order.len()
        invariant
            i <= order.len(),
            forall|k: int| 0 <= k < order.len() ==> (#[trigger] order@[k]) < approvals.len(),
            lines.len() == i,
            forall|k: int| 0 <= k < i ==> (#[trigger] lines@[k])@ == approval_shown(approvals@[order@[k] as int]),
        decreases order.len() - i,
    {
        lines.push(approval_line(&approvals[order[i]]));
        i += 1;
    }
    proof {
        let at = positions(order@);
        assert(texts(lines@) =~= at.map_values(|k: int| approval_shown(approvals@[k])));
    }
    lines
}

} // verus!

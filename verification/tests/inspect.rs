//! Looking at stored sessions.
use tau::cbor::CborValue;
use tau::context::{
    ContentPart, ContextItem, ContextRole, MessageItem, ToolCallItem, ToolResponse, ToolResponseHeader,
    ToolResultItem, ToolResultStatus, ToolType,
};
use tau::event::{ConnectionOrigin, EventSelector};
use tau::inspect::{
    assistant_output_preview, default_sessions_dir, first_message_text, format_session_entry, latest_agent_preview,
    policy_lines, session_lines, session_list_lines, truncate_chars, InspectError, ListedSession, PolicyApproval,
    SessionEntry,
};

fn message(role: ContextRole, text: &str) -> ContextItem {
    ContextItem::Message(MessageItem {
        role,
        content: vec![ContentPart::Text { text: text.to_owned() }],
        phase: None,
    })
}

fn assistant_message(text: &str) -> ContextItem {
    message(ContextRole::Assistant, text)
}

fn answer(output_items: Vec<ContextItem>) -> SessionEntry {
    SessionEntry::AssistantResponse { provider_response_id: None, backend: None, output_items, usage: None }
}

fn asked(text: &str) -> SessionEntry {
    SessionEntry::UserInput { items: vec![message(ContextRole::User, text)] }
}

fn output(raw: CborValue) -> ToolResponse {
    ToolResponse { raw, headers: Vec::<ToolResponseHeader>::new(), body: String::new() }
}

#[test]
fn assistant_preview_represents_multiple_messages_and_tool_calls_in_order() {
    let output_items = vec![
        assistant_message("first"),
        ContextItem::ToolCall(ToolCallItem {
            call_id: "call-1".to_owned(),
            name: "read".to_owned(),
            tool_type: ToolType::Function,
            arguments: CborValue::Dict(vec![(
                CborValue::Text("path".to_owned()),
                CborValue::Text("src/main.rs".to_owned()),
            )]),
        }),
        assistant_message("second"),
    ];

    assert_eq!(
        assistant_output_preview(&output_items).as_deref(),
        Some("first tool.call read src/main.rs second")
    );
    assert_eq!(
        format_session_entry(&answer(output_items)),
        "agent: first tool.call read src/main.rs second"
    );
}

#[test]
fn tool_results_preview_includes_every_result_in_round() {
    let entry = SessionEntry::ToolResults {
        items: vec![
            ToolResultItem {
                call_id: "call-1".to_owned(),
                tool_type: ToolType::Function,
                status: ToolResultStatus::Success,
                output: output(CborValue::Text("ok".to_owned())),
            },
            ToolResultItem {
                call_id: "call-2".to_owned(),
                tool_type: ToolType::Function,
                status: ToolResultStatus::Error { message: "failed".to_owned() },
                output: output(CborValue::Null),
            },
        ],
    };

    assert_eq!(
        format_session_entry(&entry),
        "tool.result call-1 -> ok; tool.error call-2 -> failed"
    );
}

#[test]
fn previews_show_what_there_is() {
    assert_eq!(first_message_text(&vec![ContextItem::CompactionTrigger]), None);
    assert_eq!(assistant_output_preview(&vec![]), None);
    assert_eq!(truncate_chars("αβγδ", 2).chars().take(2).collect::<String>(), "αβ");
    assert_eq!(truncate_chars("αβ", 2), "αβ");
    let branch = vec![asked("hi"), answer(vec![assistant_message("one")]), answer(vec![])];
    assert_eq!(latest_agent_preview(&branch).as_deref(), Some("one"));
    assert_eq!(latest_agent_preview(&vec![asked("hi")]), None);
}

#[test]
fn sessions_are_listed() {
    let lines = session_lines("s-1", Some(&vec![asked("hi"), answer(vec![assistant_message("hello")])]));
    assert!(lines.iter().any(|line| line.contains("user: hi")));
    assert!(lines.iter().any(|line| line.contains("agent: hello")));
    assert!(session_lines("s-2", None).iter().any(|line| line.contains("s-2")));

    let listed = session_list_lines(&vec![ListedSession {
        session_id: "s-1".to_owned(),
        branch: vec![answer(vec![assistant_message("hello")])],
    }]);
    assert!(listed.iter().any(|line| line.contains("s-1") && line.contains("hello")));
    assert!(!session_list_lines(&vec![]).is_empty());
}

#[test]
fn approvals_are_listed() {
    let lines = policy_lines(&vec![PolicyApproval {
        connection_name: "ui".to_owned(),
        connection_origin: ConnectionOrigin::Socket,
        selectors: vec![EventSelector::Prefix("agent.".to_owned())],
    }]);
    assert!(lines.iter().any(|line| line.contains("ui") && line.contains("agent.")));
}

#[test]
fn errors_say_what_failed() {
    assert!(InspectError::Io("gone".to_owned()).text().contains("gone"));
    assert!(InspectError::SessionStore("locked".to_owned()).text().contains("locked"));
    assert_eq!(default_sessions_dir(Some("/home/u/.local/state/tau".to_owned())), "/home/u/.local/state/tau/sessions");
}

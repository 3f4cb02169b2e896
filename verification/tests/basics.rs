//! Texts, dates, paths, values and messages.
use tau::calendar::date_of_seconds;
use tau::cbor::{cbor_map_bool, cbor_map_text, cbor_to_text, CborValue};
use tau::context::{sanitize_provider_text, ContentPart, ContextItem, ContextRole, MessageItem, MessagePhase};
use tau::context::{ContextBlock, PromptContext, ToolResponse, UserInputBlock};
use tau::diff::DiffSummary;
use tau::event::{
    copy_selectors, format_extension_event, format_tool_progress, selector_matches_event, selector_matches_name, Event,
    EventSelector, ExtensionNotice, ProgressUpdate, ToolNameMaybe, ToolProgress,
};
use tau::json::{cbor_to_json, json_to_cbor, JsonValue};
use tau::messages::{EventLogSeq, HarnessInputMessage, HarnessOutputMessage, UnixMicros};
use tau::order::sort_positions;
use tau::paths::{components, equal_paths, extension_stderr_log_path, join_path, name_of, parent_of};
use tau::session::{latest_agent_preview, render_entry_preview, tree_lines, SessionEntry, SessionStore, SessionTree};
use tau::text::{
    align_right, byte_count, count_lines, cut_to_bytes, decimal_text, hex_text, join, lowercase_ascii, replace,
    signed_text, split_parts, take_last_bytes, trim,
};

fn words(words: &[&str]) -> Vec<String> {
    words.iter().map(|word| (*word).to_owned()).collect()
}

fn info(message: &str) -> Event {
    Event::HarnessInfo { message: message.to_owned(), level: tau::event::HarnessInfoLevel::Normal }
}

#[test]
fn numbers_are_written() {
    assert_eq!(decimal_text(0), "0");
    assert_eq!(decimal_text(u128::MAX), u128::MAX.to_string());
    assert_eq!(hex_text(255), "ff");
    assert_eq!(signed_text(i128::MIN), i128::MIN.to_string());
}

#[test]
fn texts_are_cut_at_characters() {
    assert_eq!(cut_to_bytes("aéb", 2), "a");
    assert_eq!(take_last_bytes("aéb", 2), "b");
    assert_eq!(byte_count("aé€"), 6);
    assert_eq!(count_lines("a\nb\n"), 2);
    assert_eq!(trim(" \ta\u{a0}b\n"), "a\u{a0}b");
    assert_eq!(align_right("7", 3), "  7");
    assert_eq!(replace("a-b-c", "-", "+"), "a+b+c");
    assert_eq!(join(&words(&["a", "b"]), ", "), "a, b");
    assert_eq!(split_parts("a//b", '/'), words(&["a", "", "b"]));
    assert_eq!(lowercase_ascii("ÀB"), "Àb");
    assert_eq!(sort_positions(&words(&["b", "a", "c"])), vec![1, 0, 2]);
}

#[test]
fn dates_follow_the_calendar() {
    assert_eq!(date_of_seconds(0), "1970-01-01");
    assert_eq!(date_of_seconds(951_782_400), "2000-02-29");
    assert_eq!(date_of_seconds(1_735_689_599), "2024-12-31");
}

#[test]
fn paths_are_joined_and_parted() {
    assert_eq!(join_path("/a", "b"), "/a/b");
    assert_eq!(join_path("/a/", "/b"), "/b");
    assert_eq!(parent_of("/a/b.txt"), Some("/a".to_owned()));
    assert_eq!(name_of("/a/b.txt"), Some("b.txt".to_owned()));
    assert_eq!(parent_of("a//b/./"), Some("a".to_owned()));
    assert_eq!(name_of("a//b/./"), Some("b".to_owned()));
    assert_eq!(parent_of("b.txt"), Some(String::new()));
    assert_eq!(parent_of("/b.txt"), Some("/".to_owned()));
    assert_eq!(parent_of("//"), None);
    assert_eq!(parent_of(""), None);
    assert_eq!(name_of("a/.."), None);
    assert_eq!(name_of("."), None);
    assert_eq!(name_of("/"), None);
    assert_eq!(components("/a/./b"), words(&["a", "b"]));
    assert!(equal_paths("/a//b", "/a/b"));
    assert!(extension_stderr_log_path("/state", "s1", "shell").contains("shell"));
}

#[test]
fn values_are_read_and_turned() {
    let value = CborValue::Dict(vec![
        (CborValue::Text("name".to_owned()), CborValue::Text("x".to_owned())),
        (CborValue::Text("on".to_owned()), CborValue::Bool(true)),
    ]);
    assert_eq!(cbor_map_text(&value, "name"), Some("x"));
    assert_eq!(cbor_map_bool(&value, "on"), Some(true));
    assert_eq!(cbor_map_text(&value, "on"), None);
    assert_eq!(cbor_to_text(&CborValue::Text("plain".to_owned())), "plain");
    let json = cbor_to_json(&value);
    assert_eq!(
        json,
        JsonValue::Object(vec![
            ("name".to_owned(), JsonValue::Text("x".to_owned())),
            ("on".to_owned(), JsonValue::Bool(true)),
        ])
    );
    assert_eq!(json_to_cbor(&json), value);
}

#[test]
fn selectors_choose_events() {
    let selectors = vec![EventSelector::Exact("tool.result".to_owned()), EventSelector::Prefix("ui.".to_owned())];
    assert!(selector_matches_name(&selectors, "tool.result"));
    assert!(selector_matches_name(&selectors, "ui.detach_request"));
    assert!(!selector_matches_name(&selectors, "tool.error"));
    assert!(!selector_matches_event(&selectors, &info("x")));
    assert_eq!(copy_selectors(&selectors), selectors);
    assert_eq!(info("x").name(), "harness.info");
    assert!(Event::AgentResponseUpdated { session_prompt_id: "p".to_owned(), text: "t".to_owned() }.is_transient());
    assert_eq!(ToolNameMaybe::from_raw("read".to_owned()), ToolNameMaybe::Valid("read".to_owned()));
    assert_eq!(ToolNameMaybe::from_raw(String::new()), ToolNameMaybe::Invalid(String::new()));
}

#[test]
fn progress_and_lifecycle_are_lines() {
    let progress = ToolProgress {
        call_id: "c".to_owned(),
        tool_name: "shell".to_owned(),
        message: Some("running".to_owned()),
        progress: Some(ProgressUpdate { current: Some(1), total: Some(3) }),
    };
    let line = format_tool_progress(&progress);
    assert!(line.starts_with("shell: running"));
    assert!(line.contains('1') && line.contains('3'));
    let notice = ExtensionNotice { instance_id: 1, extension_name: "shell".to_owned(), pid: None };
    assert_eq!(format_extension_event(&Event::ExtensionReady(notice)), "extension shell ready");
}

#[test]
fn responses_of_tools_are_rendered() {
    let value = CborValue::Dict(vec![
        (CborValue::Text("status".to_owned()), CborValue::Integer(0)),
        (CborValue::Text("content".to_owned()), CborValue::Text("body".to_owned())),
    ]);
    let rendered = ToolResponse::from_cbor(&value).render();
    assert!(rendered.contains("status: 0"));
    assert!(rendered.contains("body"));
    assert_eq!(sanitize_provider_text("a\u{1b}b\nc", true), "a\\x1bb\nc");
    assert_eq!(sanitize_provider_text("a\nb\u{7}", false), "a\\nb\\u{7}");
    assert_eq!(MessagePhase::FinalAnswer.as_openai_wire(), "final_answer");
}

#[test]
fn blocks_are_flattened_in_order() {
    let message = |text: &str| {
        ContextItem::Message(MessageItem {
            role: ContextRole::User,
            content: vec![ContentPart::Text { text: text.to_owned() }],
            phase: None,
        })
    };
    let context = PromptContext {
        blocks: vec![
            ContextBlock::UserInput(UserInputBlock { items: vec![message("a"), message("b")] }),
            ContextBlock::UserInput(UserInputBlock { items: vec![message("c")] }),
        ],
    };
    assert_eq!(context.flatten(), vec![message("a"), message("b"), message("c")]);
    assert_eq!(context.flatten_iter(), context.flatten());
    assert_eq!(PromptContext::default().flatten(), vec![]);
}

#[test]
fn messages_carry_events() {
    let message = HarnessOutputMessage::deliver_sequenced(EventLogSeq::new(3), UnixMicros::new(9), info("x"));
    assert_eq!(message.ack_sequence(), Some(EventLogSeq::new(3)));
    assert_eq!(message.delivered_event(), Some(&info("x")));
    let replay = HarnessOutputMessage::deliver_replay(UnixMicros::new(9), info("x"));
    assert_eq!(replay.ack_sequence(), None);
    assert_eq!(HarnessOutputMessage::deliver(info("y")).into_delivered_event(), Some(info("y")));
    let HarnessInputMessage::Emit(emit) = HarnessInputMessage::emit_with_transient(info("x"), true) else {
        panic!("expected an emit");
    };
    assert_eq!(emit.into_parts(), (info("x"), true));
    assert_eq!(EventLogSeq::new(3).next().get(), 4);
    assert_eq!(UnixMicros::from_clock(None).get(), 0);
    assert_eq!(UnixMicros::from_clock(Some(u128::MAX)).get(), u64::MAX);
    assert_eq!(DiffSummary::default().hunks.len(), 0);
}

#[test]
fn sessions_branch() {
    let user = |text: &str| SessionEntry::UserMessage { text: text.to_owned() };
    let mut store = SessionStore::new();
    store.append("s", user("one"));
    store.append("s", SessionEntry::AgentMessage { text: "answer".to_owned(), thinking: None });
    assert!(store.set_head("s", 0));
    assert!(!store.set_head("s", 9));
    store.append("s", user("two"));
    let tree: &SessionTree = store.session("s").expect("session");
    assert_eq!(tree.current_branch(), vec![0, 2]);
    assert_eq!(tree.nodes.len(), 3);
    assert_eq!(tree_lines(tree).len(), 3);
    assert_eq!(latest_agent_preview(tree), None);
    assert_eq!(render_entry_preview(&user("one")), "user: one");
}

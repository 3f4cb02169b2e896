//! What the debug log holds.
use tau::debug_log::{
    compact_debug_string, debug_log_path, event_log_notice, harness_event_entry, log_line, published_event_entry,
    stderr_attached_line, stderr_closed_line, LoggedArrival,
};
use tau::json::{as_array, as_str, as_u64, at, field, JsonValue};

fn object(entries: Vec<(&str, JsonValue)>) -> JsonValue {
    JsonValue::Object(entries.into_iter().map(|(key, value)| (key.to_owned(), value)).collect())
}

fn text(s: &str) -> JsonValue {
    JsonValue::Text(s.to_owned())
}

fn usage() -> JsonValue {
    object(vec![
        ("model", text("openai/gpt-5")),
        ("prompt_sent_tokens", JsonValue::Integer(1000)),
        ("prompt_cached_tokens", JsonValue::Integer(800)),
        ("response_received_tokens", JsonValue::Integer(42)),
    ])
}

fn assert_usage(usage: Option<&JsonValue>) {
    assert_eq!(as_u64(at(usage, "prompt_sent_tokens")), Some(1000));
    assert_eq!(as_u64(at(usage, "prompt_cached_tokens")), Some(800));
    assert_eq!(as_u64(at(usage, "response_received_tokens")), Some(42));
    assert_eq!(as_str(at(usage, "model")), Some("openai/gpt-5"));
}

#[test]
fn tests_published_line_preserves_enriched_token_usage() {
    let event = object(vec![
        ("event", text("provider.response_finished")),
        ("payload", object(vec![("agent_prompt_id", text("sp-0")), ("usage", usage())])),
    ]);
    let line = published_event_entry(Some("conn-1"), "provider.response_finished", &event, 7);
    assert_eq!(as_str(field(&line, "type")), Some("published"));
    assert_eq!(as_str(field(&line, "event_name")), Some("provider.response_finished"));
    assert_eq!(as_str(field(&line, "source")), Some("conn-1"));
    assert_usage(at(at(field(&line, "event"), "payload"), "usage"));
}

#[test]
fn debug_log_published_line_preserves_enriched_token_usage() {
    let event = object(vec![
        ("event", text("agent.response_finished")),
        ("payload", object(vec![("session_prompt_id", text("sp-0")), ("token_usage", usage())])),
    ]);
    let line = published_event_entry(Some("conn-1"), "agent.response_finished", &event, 7);
    assert_eq!(as_str(field(&line, "type")), Some("published"));
    assert_eq!(as_str(field(&line, "event_name")), Some("agent.response_finished"));
    assert_eq!(as_str(field(&line, "source")), Some("conn-1"));
    assert_usage(at(at(field(&line, "event"), "payload"), "token_usage"));
}

#[test]
fn published_line_compacts_long_strings() {
    let long = format!("{}{}{}", "α".repeat(30), "middle", "ω".repeat(30));
    let items = vec![
        object(vec![("item", object(vec![("text", text(&"x".repeat(101)))]))]),
        object(vec![("item", object(vec![("text", text(&long))]))]),
    ];
    let event = object(vec![
        ("event", text("provider.response_updated")),
        ("payload", object(vec![("items", JsonValue::Array(items))])),
    ]);

    let line = published_event_entry(None, "provider.response_updated", &event, 7);
    let items = as_array(at(at(field(&line, "event"), "payload"), "items")).expect("items");
    assert_eq!(
        as_str(at(field(&items[0], "item"), "text")),
        Some("xxxxxxxxxxxxxxxxxxxx┄total 101┄xxxxxxxxxxxxxxxxxxxx")
    );
    assert_eq!(
        as_str(at(field(&items[1], "item"), "text")),
        Some("αααααααααα┄total 126┄ωωωωωωωωωω")
    );
}

#[test]
fn compact_debug_string_keeps_short_strings() {
    assert_eq!(compact_debug_string(&"x".repeat(100)), "x".repeat(100));
}

#[test]
fn transient_from_connection_events_are_not_logged_twice() {
    let arrival = LoggedArrival::FromConnection {
        connection_id: "conn-1".to_owned(),
        name: "provider.response_updated".to_owned(),
        message: object(vec![("text", text("partial"))]),
        transient: true,
    };
    assert!(
        harness_event_entry(&arrival, 7).is_none(),
        "transient streaming events are logged on publish; the raw inbound copy is redundant"
    );
}

#[test]
fn other_arrivals_are_logged() {
    let arrival = LoggedArrival::FromConnection {
        connection_id: "conn-1".to_owned(),
        name: "tool.result".to_owned(),
        message: object(vec![("text", text("whole"))]),
        transient: false,
    };
    let line = harness_event_entry(&arrival, 7).expect("entry");
    assert_eq!(as_str(field(&line, "type")), Some("from_connection"));
    assert_eq!(as_str(field(&line, "source")), Some("conn-1"));

    let gone = LoggedArrival::Disconnected { connection_id: "conn-1".to_owned() };
    let line = harness_event_entry(&gone, 7).expect("entry");
    assert_eq!(as_str(field(&line, "source")), Some("conn-1"));
    let line = harness_event_entry(&LoggedArrival::NewClient, 7).expect("entry");
    assert_eq!(as_str(field(&line, "type")), Some("new_client"));
    assert_eq!(as_u64(field(&line, "recorded_at_micros")), Some(7));
}

#[test]
fn lines_are_json_and_end() {
    let line = log_line(&object(vec![("a", JsonValue::Integer(1)), ("b", JsonValue::Null)]));
    assert_eq!(line, "{\"a\":1,\"b\":null}\n");
    assert_eq!(debug_log_path("/run/tau/debug"), "/run/tau/debug/events.jsonl");
}

#[test]
fn logs_of_extensions_say_when() {
    assert_eq!(stderr_attached_line("shell", 12, "2024-12-31"), "--- shell (pid=12) attached at 2024-12-31 ---\n");
    assert_eq!(stderr_closed_line("shell", "2024-12-31"), "--- shell stderr closed at 2024-12-31 ---\n");
    assert_eq!(event_log_notice("/state", "s1"), "event log: /state/s1/events.jsonl");
}

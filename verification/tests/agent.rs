//! What a chain of prompts is recognised by, and the prompts that wait.
use tau::agent::{
    compute_chain_fingerprint, compute_chain_fingerprint_detail, fingerprint_parts, Agent, AgentTurnState,
    PendingPrompt, PendingPromptSource, PromptMessageClass,
};
use tau::context::{ModelParams, PromptOriginator, ToolChoice, ToolDefinition, ToolType};
use tau::event::{Effort, ThinkingSummary};
use tau::json::JsonValue;

fn tool(name: &str) -> ToolDefinition {
    ToolDefinition {
        name: name.to_owned(),
        model_visible_name: None,
        description: None,
        tool_type: ToolType::Function,
        parameters: None,
        format: None,
    }
}

fn defaults() -> ModelParams {
    ModelParams { effort: Effort::Off, thinking_summary: ThinkingSummary::Off }
}

#[test]
fn fingerprint_changes_when_real_inputs_drift() {
    let base = compute_chain_fingerprint("sys", &vec![tool("a")], &defaults(), ToolChoice::Auto);

    assert_ne!(
        base,
        compute_chain_fingerprint("sys-changed", &vec![tool("a")], &defaults(), ToolChoice::Auto),
        "system_prompt drift must change the fingerprint",
    );
    assert_ne!(
        base,
        compute_chain_fingerprint("sys", &vec![tool("a"), tool("b")], &defaults(), ToolChoice::Auto),
        "tools drift must change the fingerprint",
    );
    let params = ModelParams { effort: Effort::High, ..defaults() };
    assert_ne!(
        base,
        compute_chain_fingerprint("sys", &vec![tool("a")], &params, ToolChoice::Auto),
        "model_params drift must change the fingerprint",
    );
}

#[test]
fn fingerprint_changes_when_tool_choice_drifts() {
    let base = compute_chain_fingerprint("sys", &vec![tool("a")], &defaults(), ToolChoice::Auto);

    assert_ne!(
        base,
        compute_chain_fingerprint("sys", &vec![tool("a")], &defaults(), ToolChoice::Never),
        "tool_choice drift must change the fingerprint because it changes the wire request",
    );
}

#[test]
fn fingerprint_is_stable_across_repeated_calls() {
    let a = compute_chain_fingerprint("sys", &vec![tool("a")], &defaults(), ToolChoice::Auto);
    let b = compute_chain_fingerprint("sys", &vec![tool("a")], &defaults(), ToolChoice::Auto);
    assert_eq!(a, b, "fingerprint must be deterministic");
}

#[test]
fn parts_are_hashed_one_by_one() {
    let detail = fingerprint_parts("sys", "[]", "{}", "auto");
    assert_eq!(detail.parts.system_prompt, *blake3::hash(b"sys").as_bytes());
    assert_eq!(detail.parts.tools, *blake3::hash(b"[]").as_bytes());
    assert_eq!(detail.parts.model_params, *blake3::hash(b"{}").as_bytes());
    assert_eq!(detail.parts.tool_choice, *blake3::hash(b"auto").as_bytes());
}

#[test]
fn the_part_that_drifted_shows() {
    let a = compute_chain_fingerprint_detail("sys", &vec![tool("a")], &defaults(), ToolChoice::Auto);
    let b = compute_chain_fingerprint_detail("sys", &vec![tool("b")], &defaults(), ToolChoice::Auto);
    assert_eq!(a.parts.system_prompt, b.parts.system_prompt);
    assert_ne!(a.parts.tools, b.parts.tools);
    assert_eq!(a.parts.model_params, b.parts.model_params);
    assert_ne!(a.digest, b.digest);
}

#[test]
fn prompts_know_where_they_come_from() {
    let user = PendingPrompt::user("hi".to_owned());
    assert!(!user.is_internal());
    assert!(user.reads("hi"));
    assert!(!user.reads("ho"));

    let internal = PendingPrompt::internal("note".to_owned());
    assert!(internal.is_internal());
    assert_eq!(internal.message_class, PromptMessageClass::Internal);
    assert!(!internal.is_agent_message_received());

    let message = PendingPrompt::agent_message_received("done".to_owned());
    assert!(message.is_agent_message_received());
    assert_eq!(message.source, PendingPromptSource::AgentMessageReceived);
}

#[test]
fn new_agents_are_idle() {
    let agent = Agent::new("a-1".to_owned(), "s-1".to_owned(), PromptOriginator::User, Some(3), None);
    assert_eq!(agent.id, "a-1");
    assert_eq!(agent.session_id, "s-1");
    assert_eq!(agent.head, Some(3));
    assert_eq!(agent.turn_state, AgentTurnState::Idle);
    assert!(agent.pending_prompts.is_empty());
    assert_eq!(agent.tools_total, 0);
}

#[test]
fn fingerprints_follow_numbers_and_deep_values() {
    let with = |value: JsonValue| {
        let tool = ToolDefinition { parameters: Some(value), ..tool("a") };
        compute_chain_fingerprint("sys", &vec![tool], &defaults(), ToolChoice::Auto)
    };
    let float = |text: &str| JsonValue::Float(text.to_owned());
    assert_ne!(with(float("0.1")), with(float("0.2")));
    assert_eq!(with(float("0.1")), with(float("0.10")));
    assert_ne!(with(float("1")), with(JsonValue::Integer(1)));
    let largest = i128::from(u64::MAX);
    assert_ne!(with(JsonValue::Integer(largest)), with(JsonValue::Integer(largest - 1)));
    let deep = |inner: JsonValue| (0..150).fold(inner, |value, _| JsonValue::Array(vec![value]));
    assert_ne!(with(deep(JsonValue::Null)), with(deep(JsonValue::Bool(true))));
    let object = |keys: &[&str]| {
        JsonValue::Object(keys.iter().map(|key| ((*key).to_owned(), JsonValue::Text((*key).to_owned()))).collect())
    };
    assert_eq!(with(object(&["x", "y"])), with(object(&["y", "x"])));
}

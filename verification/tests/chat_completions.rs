//! Requests to chat-completions providers and their answers.
use tau::assoc::TextMap;
use tau::cbor::CborValue;
use tau::chat_completions::{
    append_content_delta, apply_event, apply_line, authorization_header, build_request, context_message,
    convert_tool_definition, effort_wire, ensure_non_empty_end_turn, finish_error, finish_success,
    flush_pending_content, item_of_call, model_efforts, models_for_provider, request_body, request_url, role_wire,
    thinking_for_update, tool_result_text, ChatCompletionsCompat, ChatCompletionsModel, ChatCompletionsProvider,
    LlmError, ProviderStopReason, StreamState, StreamStep, ToolCallAccumulator, DEFAULT_MAX_OUTPUT_TOKENS,
};
use tau::context::{
    AgentPromptCreated, ContentPart, ContextItem, ContextRole, MessageItem, ModelParams, PromptOriginator,
    ProviderBackendKind, ToolChoice, ToolDefinition, ToolResponse, ToolResultStatus, ToolType,
};
use tau::event::{Effort, ThinkingSummary};
use tau::json::{as_array, as_str, as_u64, at, field, JsonValue};

fn provider() -> ChatCompletionsProvider {
    ChatCompletionsProvider {
        base_url: "https://api.openai.com/v1".to_owned(),
        api_key: "key".to_owned(),
        models: vec![ChatCompletionsModel {
            id: "gpt-4o".to_owned(),
            display_name: None,
            context_window: 128_000,
        }],
        max_output_tokens: DEFAULT_MAX_OUTPUT_TOKENS,
        extra_body: TextMap::new(),
        compat: ChatCompletionsCompat::openai_defaults(),
    }
}

fn message(role: ContextRole, text: &str) -> ContextItem {
    ContextItem::Message(MessageItem {
        role,
        content: vec![ContentPart::Text { text: text.to_owned() }],
        phase: None,
    })
}

fn prompt() -> AgentPromptCreated {
    AgentPromptCreated {
        agent_prompt_id: "ap-test".to_owned(),
        agent_id: "agent-test".to_owned(),
        session_id: "session-test".to_owned(),
        system_prompt: String::new(),
        context_items: vec![message(ContextRole::User, "hello")],
        tools: Vec::new(),
        model: None,
        model_params: ModelParams { effort: Effort::Off, thinking_summary: ThinkingSummary::Off },
        tool_choice: ToolChoice::Auto,
        originator: PromptOriginator::User,
        share_user_cache_key: false,
        previous_response_candidate: None,
    }
}

fn object(entries: Vec<(&str, JsonValue)>) -> JsonValue {
    JsonValue::Object(entries.into_iter().map(|(key, value)| (key.to_owned(), value)).collect())
}

fn text(s: &str) -> JsonValue {
    JsonValue::Text(s.to_owned())
}

fn choice(delta: JsonValue, finish: JsonValue) -> JsonValue {
    object(vec![(
        "choices",
        JsonValue::Array(vec![object(vec![("delta", delta), ("finish_reason", finish)])]),
    )])
}

#[test]
fn publishes_configured_models_for_registered_provider() {
    let models = models_for_provider("openai", &provider());

    assert_eq!(models.len(), 1);
    assert_eq!(models[0].id, "openai/gpt-4o");
    assert!(!models[0].supports_compaction);
}

#[test]
fn provider_with_reasoning_effort_publishes_effort_levels() {
    let models = models_for_provider("openai", &provider());

    assert!(models[0].efforts.contains(&Effort::High));
    assert!(models[0].efforts.contains(&Effort::Off));
}

#[test]
fn tool_result_text_uses_structured_status_headers() {
    let output = ToolResponse::from_cbor(&CborValue::Text("body".to_owned()));

    assert_eq!(
        tool_result_text(&ToolResultStatus::Error { message: "failed".to_owned() }, &output),
        "error: failed\n\nbody",
    );
    assert_eq!(
        tool_result_text(&ToolResultStatus::Cancelled { reason: "stopped".to_owned() }, &output),
        "cancelled: stopped\n\n",
    );
}

#[test]
fn chat_request_sets_default_max_tokens_for_generic_providers() {
    let mut provider = provider();
    provider.compat.max_completion_tokens = false;
    let json = build_request(&provider, &provider.models[0], &prompt());

    assert_eq!(as_u64(field(&json, "max_tokens")), Some(DEFAULT_MAX_OUTPUT_TOKENS));
    assert!(field(&json, "max_completion_tokens").is_none());
}

#[test]
fn request_bodies_are_compact() {
    let provider = provider();
    let body = request_body(&provider, &provider.models[0], &prompt());
    assert!(body.starts_with('{') && body.ends_with('}'));
    assert!(body.contains("\"stream\":true"));
    let id = format!("\"model\":\"{}\"", provider.models[0].id);
    assert!(body.contains(&id));
}

#[test]
fn chat_request_uses_max_completion_tokens_when_enabled() {
    let provider = provider();
    let json = build_request(&provider, &provider.models[0], &prompt());

    assert_eq!(as_u64(field(&json, "max_completion_tokens")), Some(DEFAULT_MAX_OUTPUT_TOKENS));
    assert!(field(&json, "max_tokens").is_none());
}

#[test]
fn extra_body_output_token_cap_overrides_automatic_cap() {
    let mut provider = provider();
    provider.compat.max_completion_tokens = false;
    provider.extra_body.insert("max_tokens".to_owned(), JsonValue::Integer(128));
    let json = build_request(&provider, &provider.models[0], &prompt());

    assert_eq!(as_u64(field(&json, "max_tokens")), Some(128));
    assert!(field(&json, "max_completion_tokens").is_none());
}

#[test]
fn length_finish_reason_maps_to_length_stop_reason() {
    let mut state = StreamState::new();
    apply_event(&mut state, &choice(object(vec![]), text("length")));

    assert_eq!(state.stop_reason, ProviderStopReason::Length);
}

#[test]
fn empty_end_turn_is_rejected_before_harness_completion() {
    let state = StreamState::new();

    assert!(matches!(ensure_non_empty_end_turn(state), Err(LlmError::EmptyResponse)));
}

#[test]
fn non_empty_end_turn_is_accepted() {
    let mut state = StreamState::new();
    state.text = "done".to_owned();

    assert!(ensure_non_empty_end_turn(state).is_ok());
}

#[test]
fn tool_call_turn_is_accepted_without_text() {
    let mut state = StreamState::new();
    state.stop_reason = ProviderStopReason::ToolCalls;
    state.tool_calls.push((
        0,
        ToolCallAccumulator {
            id: "call-1".to_owned(),
            name: "shell".to_owned(),
            arguments: "{}".to_owned(),
        },
    ));

    assert!(ensure_non_empty_end_turn(state).is_ok());
}

#[test]
fn requests_hold_the_conversation() {
    let provider = provider();
    let mut prompt = prompt();
    prompt.system_prompt = "be brief".to_owned();
    prompt.model_params.effort = Effort::Low;
    let json = build_request(&provider, &provider.models[0], &prompt);

    assert_eq!(as_str(field(&json, "model")), Some("gpt-4o"));
    assert_eq!(as_str(field(&json, "reasoning_effort")), Some("low"));
    let messages = as_array(field(&json, "messages")).expect("messages");
    assert_eq!(messages.len(), 2);
    assert_eq!(as_str(field(&messages[0], "role")), Some("system"));
    assert_eq!(as_str(field(&messages[0], "content")), Some("be brief"));
    assert_eq!(as_str(field(&messages[1], "role")), Some("user"));
    assert_eq!(as_str(field(&messages[1], "content")), Some("hello"));
}

#[test]
fn addresses_and_headers() {
    assert_eq!(request_url("http://localhost:1/v1"), "http://localhost:1/v1/chat/completions");
    assert_eq!(authorization_header(""), None);
    assert_eq!(authorization_header("key"), Some("Bearer key".to_owned()));
    assert_eq!(effort_wire(Effort::Medium), "medium");
    assert_eq!(role_wire(ContextRole::Assistant), "assistant");
    assert!(context_message(&ContextItem::CompactionTrigger).is_none());
}

#[test]
fn only_function_tools_are_offered() {
    let mut tool = ToolDefinition {
        name: "shell".to_owned(),
        model_visible_name: None,
        description: Some("runs".to_owned()),
        tool_type: ToolType::Function,
        parameters: None,
        format: None,
    };
    let json = convert_tool_definition(&tool).expect("function");
    assert_eq!(as_str(field(&json, "type")), Some("function"));
    assert_eq!(as_str(at(field(&json, "function"), "name")), Some("shell"));
    tool.tool_type = ToolType::Custom;
    assert!(convert_tool_definition(&tool).is_none());
}

#[test]
fn efforts_are_offered_where_they_are_sent() {
    let mut compat = ChatCompletionsCompat::openai_defaults();
    assert!(model_efforts(compat).contains(&Effort::XHigh));
    compat.reasoning_effort = false;
    assert!(!model_efforts(compat).contains(&Effort::High));
}

#[test]
fn streams_are_put_together() {
    let mut state = StreamState::new();
    let first = "data: {\"choices\":[{\"delta\":{\"content\":\"Hel\"}}]}";
    let second = "data: {\"choices\":[{\"delta\":{\"content\":\"lo\"},\"finish_reason\":\"stop\"}]}";
    let usage = "data: {\"choices\":[],\"usage\":{\"prompt_tokens\":9,\"completion_tokens\":2}}";
    assert_eq!(apply_line(&mut state, first), StreamStep::More { changed: true });
    assert_eq!(apply_line(&mut state, ": comment"), StreamStep::More { changed: false });
    assert_eq!(apply_line(&mut state, second), StreamStep::More { changed: true });
    apply_line(&mut state, usage);
    assert_eq!(apply_line(&mut state, "data: [DONE]"), StreamStep::Done);
    assert_eq!(state.text, "Hello");
    assert_eq!(state.stop_reason, ProviderStopReason::EndTurn);
    let counted = state.usage().expect("usage");
    assert_eq!(counted.prompt_sent_tokens, 9);
    assert_eq!(counted.response_received_tokens, 2);
}

#[test]
fn calls_are_put_together_in_order() {
    let call = |index: i128, entries: Vec<(&str, JsonValue)>| {
        let mut all = vec![("index", JsonValue::Integer(index))];
        all.extend(entries);
        object(all)
    };
    let delta = |calls: Vec<JsonValue>| object(vec![("tool_calls", JsonValue::Array(calls))]);
    let mut state = StreamState::new();
    let second = call(1, vec![
        ("id", text("c-1")),
        ("function", object(vec![("name", text("read")), ("arguments", text("{\"path\""))])),
    ]);
    let first = call(0, vec![
        ("id", text("c-0")),
        ("function", object(vec![("name", text("shell")), ("arguments", text("{}"))])),
    ]);
    let rest = call(1, vec![("function", object(vec![("arguments", text(":\"a\"}"))]))]);
    apply_event(&mut state, &choice(delta(vec![second, first]), JsonValue::Null));
    apply_event(&mut state, &choice(delta(vec![rest]), text("tool_calls")));

    assert_eq!(state.stop_reason, ProviderStopReason::ToolCalls);
    assert_eq!(state.tool_calls.len(), 2);
    assert_eq!(state.tool_calls[0].1.name, "shell");
    assert_eq!(state.tool_calls[1].1.arguments, "{\"path\":\"a\"}");
    let items = state.output_items();
    let ContextItem::ToolCall(last) = &items[1] else {
        panic!("expected a tool call");
    };
    assert_eq!(last.call_id, "c-1");
    assert_eq!(
        last.arguments,
        CborValue::Dict(vec![(CborValue::Text("path".to_owned()), CborValue::Text("a".to_owned()))])
    );
}

#[test]
fn calls_whose_arguments_do_not_parse_still_count() {
    let call = ToolCallAccumulator {
        id: "c-0".to_owned(),
        name: "shell".to_owned(),
        arguments: "oops".to_owned(),
    };
    let ContextItem::ToolCall(item) = item_of_call(&call, None) else {
        panic!("expected a tool call");
    };
    assert_eq!(item.name, "shell");
    assert_eq!(item.call_id, "c-0");
}

#[test]
fn reasoning_is_parted_from_the_text() {
    let mut state = StreamState::new();
    append_content_delta(&mut state, "<thi");
    append_content_delta(&mut state, "nk>why</think>so <");
    assert_eq!(thinking_for_update(&state), Some("why"));
    flush_pending_content(&mut state);
    assert_eq!(state.thinking, "why");
    assert_eq!(state.text, "so <");
}

#[test]
fn cuts_of_the_content_do_not_matter() {
    let whole = "a<think>why</think>so </th";
    for cut in 0..whole.len() {
        let (mut one, mut two) = (StreamState::new(), StreamState::new());
        let first = append_content_delta(&mut two, &whole[..cut]);
        let second = append_content_delta(&mut two, &whole[cut..]);
        assert_eq!(append_content_delta(&mut one, whole), first || second);
        assert_eq!((&one.text, &one.thinking), (&two.text, &two.thinking));
        assert_eq!(one.pending_content, two.pending_content);
        assert_eq!(one.in_think_tag, two.in_think_tag);
    }
}

#[test]
fn ends_are_reported() {
    let mut state = StreamState::new();
    state.text = "done".to_owned();
    let good = finish_success("ap-1", PromptOriginator::User, "http://x/v1", &state);
    assert_eq!(good.agent_prompt_id, "ap-1");
    assert_eq!(good.stop_reason, ProviderStopReason::EndTurn);
    assert_eq!(good.output_items.len(), 1);
    let backend = good.backend.expect("backend");
    assert_eq!(backend.kind, ProviderBackendKind::ChatCompletions);
    assert_eq!(backend.base_url, "http://x/v1");

    let bad = finish_error("ap-1", PromptOriginator::User, "http://x/v1", &LlmError::EmptyResponse);
    assert_eq!(bad.stop_reason, ProviderStopReason::Error);
    assert_eq!(LlmError::EmptyResponse.text(), "empty response");
    for error in [
        LlmError::Http("no route".to_owned()),
        LlmError::HttpStatus(429, "no route".to_owned()),
        LlmError::Io("no route".to_owned()),
        LlmError::Json("no route".to_owned()),
    ] {
        assert!(error.text().contains("no route"));
    }
    assert!(LlmError::HttpStatus(429, "x".to_owned()).text().contains("429"));
}

use true_code::message::{Content, Delta, Message, Role, StopReason, ToolCall, ToolResult, Usage};
use true_code::providers::{
    AnthropicEvent, AnthropicStream, Chunk, ChunkChoice, ChunkUsage, OpenAiStream, ProviderError, ToolFragment,
    DEFAULT_MAX_TOKENS,
};
use true_code::wire::{anthropic_body, openai_body, OpenAiMessage, Request, ToolSchema};

fn api_error(status: u16, body: &str) -> ProviderError {
    ProviderError::Api { provider: "openrouter".to_owned(), status, body: body.to_owned() }
}

#[test]
fn a_rejected_key_says_how_to_replace_it() {
    let advice = api_error(401, "invalid key").advice().expect("401 is explainable");

    assert!(advice.contains("truecode auth login openrouter"), "unexpected: {advice}");
}

#[test]
fn a_missing_model_points_at_the_search_command() {
    let advice = api_error(404, "no such model").advice().expect("404 is explainable");

    assert!(advice.contains("truecode models"), "unexpected: {advice}");
}

#[test]
fn running_out_of_credit_is_named_as_such() {
    let advice = api_error(402, "insufficient credits").advice().expect("402 is explainable");

    assert!(advice.contains("out of credit"), "unexpected: {advice}");
}

#[test]
fn a_provider_outage_is_not_blamed_on_the_user() {
    let advice = api_error(503, "upstream").advice().expect("5xx is explainable");

    assert!(advice.contains("not your setup"), "unexpected: {advice}");
}

#[test]
fn a_context_overflow_is_distinguished_from_other_bad_requests() {
    let overflow = api_error(400, "maximum context length exceeded");
    let other = api_error(400, "unsupported parameter foo");

    assert!(overflow.advice().expect("explainable").contains("context window"));
    assert!(other.advice().is_none(), "guessing at an unknown 400 would mislead");
}

#[test]
fn explain_keeps_the_providers_own_words_and_adds_ours() {
    let explained = api_error(401, "invalid api key").explain();

    assert!(explained.contains("invalid api key"));
    assert!(explained.contains("truecode auth"));
}

#[test]
fn an_unexplainable_error_is_shown_as_it_came() {
    let bare = api_error(418, "teapot");
    assert_eq!(bare.explain(), bare.message());
    assert_eq!(bare.message(), "openrouter returned HTTP 418: teapot");
}

#[test]
fn requests_default_to_a_bounded_output_length() {
    let request = Request::new(None, vec![Message::user("hi".to_owned())]);
    assert_eq!(request.max_tokens, DEFAULT_MAX_TOKENS);
}

// The Anthropic stream, event by event.

fn tool_start(index: u32, id: &str, name: &str) -> AnthropicEvent {
    AnthropicEvent::BlockStart { index, tool: Some((id.to_owned(), name.to_owned())) }
}

fn json_delta(index: u32, partial_json: &str) -> AnthropicEvent {
    AnthropicEvent::JsonDelta { index, partial_json: partial_json.to_owned() }
}

#[test]
fn message_start_reports_the_model_and_seeds_input_usage() {
    let mut state = AnthropicStream::new();
    let event = AnthropicEvent::MessageStart {
        model: "sonnet-4-5".to_owned(),
        input_tokens: 120,
        cache_read_tokens: 900,
        cache_write_tokens: 0,
    };

    let delta = state.apply(event).expect("event applies");

    assert!(matches!(delta, Some(Delta::Started { ref model }) if model == "sonnet-4-5"), "{delta:?}");
    assert_eq!(state.usage.input_tokens, 120);
    assert_eq!(state.usage.cache_read_tokens, 900);
}

#[test]
fn text_deltas_become_text_increments() {
    let mut state = AnthropicStream::new();

    let delta = state.apply(AnthropicEvent::TextDelta { index: 0, text: "Hallo".to_owned() }).expect("applies");

    assert!(matches!(delta, Some(Delta::Text { ref text }) if text == "Hallo"), "{delta:?}");
}

#[test]
fn a_tool_call_is_emitted_only_once_its_arguments_are_complete() {
    let mut state = AnthropicStream::new();

    assert!(state.apply(tool_start(1, "toolu_1", "read_file")).expect("applies").is_none());
    for fragment in [r#"{"pa"#, r#"th":"sr"#, r#"c/main.rs"}"#] {
        assert!(
            state.apply(json_delta(1, fragment)).expect("applies").is_none(),
            "a partial argument must never be emitted"
        );
    }

    match state.apply(AnthropicEvent::BlockStop { index: 1 }).expect("applies") {
        Some(Delta::ToolCall(call)) => {
            assert_eq!(call.id, "toolu_1");
            assert_eq!(call.name, "read_file");
            assert_eq!(call.input["path"], "src/main.rs");
        }
        other => panic!("expected a tool call, got {other:?}"),
    }
}

#[test]
fn a_tool_called_without_arguments_yields_an_empty_object() {
    let mut state = AnthropicStream::new();
    state.apply(tool_start(0, "toolu_2", "list_dir")).expect("applies");

    match state.apply(AnthropicEvent::BlockStop { index: 0 }).expect("applies") {
        Some(Delta::ToolCall(call)) => {
            assert_eq!(call.input, serde_json::Value::Object(serde_json::Map::new()))
        }
        other => panic!("expected a tool call, got {other:?}"),
    }
}

#[test]
fn two_tool_calls_in_one_turn_do_not_mix_their_arguments() {
    let mut state = AnthropicStream::new();
    state.apply(tool_start(1, "toolu_a", "read_file")).expect("applies");
    state.apply(tool_start(2, "toolu_b", "grep")).expect("applies");
    state.apply(json_delta(1, r#"{"path":"a.rs"}"#)).expect("applies");
    state.apply(json_delta(2, r#"{"pattern":"fn"}"#)).expect("applies");

    let first = state.apply(AnthropicEvent::BlockStop { index: 1 }).unwrap();
    let second = state.apply(AnthropicEvent::BlockStop { index: 2 }).unwrap();

    match (first, second) {
        (Some(Delta::ToolCall(a)), Some(Delta::ToolCall(b))) => {
            assert_eq!(a.input["path"], "a.rs");
            assert_eq!(b.input["pattern"], "fn");
        }
        other => panic!("expected two tool calls, got {other:?}"),
    }
}

#[test]
fn anthropic_malformed_tool_arguments_are_reported_rather_than_silently_dropped() {
    let mut state = AnthropicStream::new();
    state.apply(tool_start(0, "t", "read_file")).expect("applies");
    state.apply(json_delta(0, "{not json")).expect("applies");

    let error = state.apply(AnthropicEvent::BlockStop { index: 0 }).expect_err("the arguments are malformed");
    assert!(error.contains("read_file"), "the message must name the tool: {error}");
}

#[test]
fn stopping_a_text_block_produces_nothing() {
    let mut state = AnthropicStream::new();
    assert!(state.apply(AnthropicEvent::BlockStop { index: 0 }).expect("applies").is_none());
}

fn completion(state: &mut AnthropicStream, reason: &str, output_tokens: u32) -> (StopReason, Usage) {
    let event = AnthropicEvent::MessageDelta { stop_reason: Some(reason.to_owned()), output_tokens };
    match state.apply(event).expect("applies") {
        Some(Delta::Completed { stop_reason, usage }) => (stop_reason, usage),
        other => panic!("expected a completed delta, got {other:?}"),
    }
}

#[test]
fn message_delta_completes_the_turn_with_the_full_usage() {
    let mut state = AnthropicStream::new();
    state.usage = Usage { input_tokens: 120, ..Usage::default() };

    let (stop_reason, usage) = completion(&mut state, "end_turn", 42);

    assert_eq!(stop_reason, StopReason::EndTurn);
    assert_eq!(usage.input_tokens, 120);
    assert_eq!(usage.output_tokens, 42);
}

#[test]
fn tool_use_is_a_distinct_stop_reason_from_end_turn() {
    let mut state = AnthropicStream::new();
    assert_eq!(completion(&mut state, "tool_use", 10).0, StopReason::ToolUse);
}

#[test]
fn unknown_event_types_are_ignored_not_fatal() {
    let mut state = AnthropicStream::new();
    assert!(state.apply(AnthropicEvent::Ignored).expect("applies").is_none());
}

#[test]
fn max_tokens_is_surfaced_so_truncation_is_visible() {
    let mut state = AnthropicStream::new();
    assert_eq!(completion(&mut state, "max_tokens", 4096).0, StopReason::MaxTokens);
}

// Anthropic request bodies.

fn schema() -> ToolSchema {
    let mut object = serde_json::Map::new();
    object.insert("type".to_owned(), serde_json::Value::String("object".to_owned()));
    ToolSchema {
        name: "read_file".to_owned(),
        description: "Read a file".to_owned(),
        input_schema: serde_json::Value::Object(object),
    }
}

#[test]
fn the_system_prompt_is_sent_as_a_cacheable_block() {
    let request = Request::new(Some("be terse".to_owned()), vec![Message::user("hi".to_owned())]);
    let body = anthropic_body("sonnet-4-5", request);

    assert_eq!(body.system.as_deref(), Some("be terse"));
}

#[test]
fn system_messages_are_not_duplicated_into_the_message_array() {
    let request = Request::new(
        Some("be terse".to_owned()),
        vec![Message::system("ignored".to_owned()), Message::user("hi".to_owned())],
    );
    let body = anthropic_body("sonnet-4-5", request);

    assert_eq!(body.messages.len(), 1);
    assert_eq!(body.messages[0].role, Role::User);
}

#[test]
fn no_tools_key_is_sent_when_no_tools_are_available() {
    let request = Request::new(None, vec![Message::user("hi".to_owned())]);
    let body = anthropic_body("sonnet-4-5", request);
    assert!(body.tools.is_empty(), "an empty tools array confuses some models");
}

#[test]
fn tool_schemas_are_sent_in_the_expected_shape() {
    let mut request = Request::new(None, vec![Message::user("hi".to_owned())]);
    request.tools = vec![schema()];

    let body = anthropic_body("sonnet-4-5", request);

    assert_eq!(body.tools[0].name, "read_file");
    assert_eq!(body.tools[0].input_schema["type"], "object");
}

#[test]
fn tool_results_are_sent_back_with_their_call_id() {
    let request = Request::new(
        None,
        vec![Message::tool_results(vec![ToolResult {
            call_id: "toolu_1".to_owned(),
            output: "fn main() {}".to_owned(),
            is_error: false,
        }])],
    );
    let body = anthropic_body("sonnet-4-5", request);

    match &body.messages[0].content[0] {
        Content::ToolResult(result) => {
            assert_eq!(result.call_id, "toolu_1");
            assert!(!result.is_error);
        }
        other => panic!("expected a tool result, got {other:?}"),
    }
}

// The OpenAI stream, chunk by chunk.

fn chunk(model: &str, choices: Vec<ChunkChoice>, usage: Option<ChunkUsage>) -> Chunk {
    Chunk { model: model.to_owned(), choices, usage }
}

fn content(text: &str) -> ChunkChoice {
    ChunkChoice { content: Some(text.to_owned()), tool_calls: Vec::new(), finish_reason: None }
}

fn finish(reason: &str) -> ChunkChoice {
    ChunkChoice { content: None, tool_calls: Vec::new(), finish_reason: Some(reason.to_owned()) }
}

fn fragment(index: u32, id: Option<&str>, name: Option<&str>, arguments: Option<&str>) -> ToolFragment {
    ToolFragment {
        index,
        id: id.map(str::to_owned),
        name: name.map(str::to_owned),
        arguments: arguments.map(str::to_owned),
    }
}

fn fragments(list: Vec<ToolFragment>) -> ChunkChoice {
    ChunkChoice { content: None, tool_calls: list, finish_reason: None }
}

fn announced() -> OpenAiStream {
    let mut state = OpenAiStream::new();
    state.announced_model = true;
    state
}

#[test]
fn the_first_chunk_announces_the_model_once() {
    let mut state = OpenAiStream::new();

    let first = state.apply(chunk("gpt-4.1-mini", vec![content("a")], None)).expect("applies");
    assert_eq!(first.len(), 2);
    assert!(matches!(&first[0], Delta::Started { model } if model == "gpt-4.1-mini"));
    assert!(matches!(&first[1], Delta::Text { text } if text == "a"));

    let second = state.apply(chunk("gpt-4.1-mini", vec![content("a")], None)).expect("applies");
    assert_eq!(second.len(), 1);
    assert!(matches!(&second[0], Delta::Text { text } if text == "a"));
}

#[test]
fn the_done_sentinel_is_not_treated_as_json() {
    assert!(OpenAiStream::is_done("[DONE]"));
    assert!(!OpenAiStream::is_done(r#"{"choices":[]}"#));
}

#[test]
fn a_tool_call_is_assembled_across_chunks_and_emitted_on_finish() {
    let mut state = announced();

    let opening = fragments(vec![fragment(0, Some("call_1"), Some("read_file"), Some(""))]);
    assert!(state.apply(chunk("", vec![opening], None)).expect("applies").is_empty());

    for piece in [r#"{"pa"#, r#"th":"a.rs"}"#] {
        let data = fragments(vec![fragment(0, None, None, Some(piece))]);
        assert!(
            state.apply(chunk("", vec![data], None)).expect("applies").is_empty(),
            "a partial argument must never be emitted"
        );
    }

    match state.apply(chunk("", vec![finish("tool_calls")], None)).expect("applies").as_slice() {
        [Delta::ToolCall(call)] => {
            assert_eq!(call.id, "call_1");
            assert_eq!(call.name, "read_file");
            assert_eq!(call.input["path"], "a.rs");
        }
        other => panic!("expected one tool call, got {other:?}"),
    }
}

#[test]
fn parallel_tool_calls_are_emitted_in_array_order() {
    let mut state = announced();

    let opening = fragments(vec![
        fragment(1, Some("call_b"), Some("grep"), Some("{}")),
        fragment(0, Some("call_a"), Some("list_dir"), Some("{}")),
    ]);
    state.apply(chunk("", vec![opening], None)).expect("applies");

    match state.apply(chunk("", vec![finish("tool_calls")], None)).expect("applies").as_slice() {
        [Delta::ToolCall(first), Delta::ToolCall(second)] => {
            assert_eq!(first.name, "list_dir", "index 0 must come first");
            assert_eq!(second.name, "grep");
        }
        other => panic!("expected two tool calls, got {other:?}"),
    }
}

#[test]
fn a_tool_call_is_not_emitted_twice_when_usage_follows_the_finish_chunk() {
    let mut state = announced();

    let opening = fragments(vec![fragment(0, Some("call_1"), Some("list_dir"), Some("{}"))]);
    state.apply(chunk("", vec![opening], None)).expect("applies");
    state.apply(chunk("", vec![finish("tool_calls")], None)).expect("applies");

    let usage = ChunkUsage { prompt_tokens: 10, completion_tokens: 2, cached_tokens: None };
    let deltas = state.apply(chunk("", Vec::new(), Some(usage))).expect("applies");

    assert_eq!(deltas.len(), 1, "only the completion delta remains: {deltas:?}");
    assert!(matches!(deltas[0], Delta::Completed { .. }));
}

#[test]
fn cached_tokens_are_split_out_of_the_prompt_total() {
    let mut state = announced();
    let usage = ChunkUsage { prompt_tokens: 1000, completion_tokens: 50, cached_tokens: Some(800) };

    match state.apply(chunk("", vec![finish("stop")], Some(usage))).expect("applies").as_slice() {
        [Delta::Completed { usage, stop_reason }] => {
            assert_eq!(*stop_reason, StopReason::EndTurn);
            assert_eq!(usage.input_tokens, 200, "cached tokens must not be counted twice");
            assert_eq!(usage.cache_read_tokens, 800);
            assert_eq!(usage.output_tokens, 50);
        }
        other => panic!("expected a completed delta, got {other:?}"),
    }
}

#[test]
fn tool_calls_finish_reason_maps_to_tool_use() {
    let mut state = announced();
    let usage = ChunkUsage { prompt_tokens: 10, completion_tokens: 5, cached_tokens: None };

    match state.apply(chunk("", vec![finish("tool_calls")], Some(usage))).expect("applies").as_slice() {
        [Delta::Completed { stop_reason, .. }] => assert_eq!(*stop_reason, StopReason::ToolUse),
        other => panic!("expected a completed delta, got {other:?}"),
    }
}

#[test]
fn empty_content_deltas_produce_no_output() {
    let mut state = announced();
    assert!(state.apply(chunk("", vec![content("")], None)).expect("applies").is_empty());
}

#[test]
fn openai_malformed_tool_arguments_are_reported_rather_than_silently_dropped() {
    let mut state = announced();
    let opening = fragments(vec![fragment(0, Some("c"), Some("grep"), Some("{not json"))]);
    state.apply(chunk("", vec![opening], None)).expect("applies");

    let error = state.apply(chunk("", vec![finish("tool_calls")], None)).expect_err("the arguments are malformed");
    assert!(error.contains("grep"), "the message must name the tool: {error}");
}

// OpenAI request bodies.

#[test]
fn the_system_prompt_is_sent_as_the_first_message() {
    let request = Request::new(Some("be terse".to_owned()), vec![Message::user("hi".to_owned())]);
    let body = openai_body("gpt-4.1-mini", request);

    match &body.messages[0] {
        OpenAiMessage::Chat { role, content, .. } => {
            assert_eq!(*role, Role::System);
            assert_eq!(content, "be terse");
        }
        other => panic!("unexpected: {other:?}"),
    }
    assert!(matches!(&body.messages[1], OpenAiMessage::Chat { role: Role::User, .. }));
}

#[test]
fn tools_are_wrapped_in_the_function_envelope() {
    let request = Request::new(None, vec![Message::user("hi".to_owned())]).with_tools(vec![schema()]);

    let body = openai_body("gpt-4.1-mini", request);

    assert_eq!(body.tools[0].name, "read_file");
    assert_eq!(body.tools[0].input_schema["type"], "object");
}

#[test]
fn tool_results_become_their_own_tool_role_message() {
    let request = Request::new(
        None,
        vec![Message::tool_results(vec![ToolResult {
            call_id: "call_1".to_owned(),
            output: "fn main() {}".to_owned(),
            is_error: false,
        }])],
    );
    let body = openai_body("gpt-4.1-mini", request);

    match &body.messages[0] {
        OpenAiMessage::Tool { tool_call_id, .. } => assert_eq!(tool_call_id, "call_1"),
        other => panic!("unexpected: {other:?}"),
    }
}

#[test]
fn assistant_tool_calls_are_sent_with_stringified_arguments() {
    let mut input = serde_json::Map::new();
    input.insert("path".to_owned(), serde_json::Value::String("a.rs".to_owned()));
    let message = Message {
        role: Role::Assistant,
        content: vec![Content::ToolCall(ToolCall {
            id: "call_1".to_owned(),
            name: "read_file".to_owned(),
            input: serde_json::Value::Object(input),
        })],
    };
    let body = openai_body("gpt-4.1-mini", Request::new(None, vec![message]));

    match &body.messages[0] {
        OpenAiMessage::Chat { tool_calls, .. } => {
            let arguments = &tool_calls[0].arguments;
            assert!(arguments.contains("\"path\""), "unexpected arguments: {arguments}");
        }
        other => panic!("unexpected: {other:?}"),
    }
}

#[test]
fn interleaved_fragments_are_joined_per_block_and_a_stopped_block_is_gone() {
    let mut state = AnthropicStream::new();
    state.apply(tool_start(3, "toolu_c", "edit_file")).expect("applies");
    state.apply(json_delta(3, r#"{"path":"#)).expect("applies");
    state.apply(AnthropicEvent::TextDelta { index: 0, text: "thinking".to_owned() }).expect("applies");
    state.apply(tool_start(4, "toolu_d", "grep")).expect("applies");
    state.apply(json_delta(4, r#"{"pattern":"x"}"#)).expect("applies");
    state.apply(json_delta(3, r#""b.rs"}"#)).expect("applies");

    match state.apply(AnthropicEvent::BlockStop { index: 3 }).expect("applies") {
        Some(Delta::ToolCall(call)) => {
            assert_eq!(call.id, "toolu_c");
            assert_eq!(call.name, "edit_file");
            assert_eq!(call.input["path"], "b.rs");
        }
        other => panic!("expected a tool call, got {other:?}"),
    }
    assert!(
        state.apply(AnthropicEvent::BlockStop { index: 3 }).expect("applies").is_none(),
        "a block answers once"
    );
}

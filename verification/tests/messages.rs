use true_code::agent::{summarise, Turn};
use true_code::message::{Content, Message, Role, ToolCall, ToolResult, Usage};

fn empty_object() -> serde_json::Value {
    serde_json::Value::Object(serde_json::Map::new())
}

fn call(id: &str, name: &str) -> ToolCall {
    ToolCall { id: id.to_owned(), name: name.to_owned(), input: empty_object() }
}

fn text_of(block: &Content) -> Option<&str> {
    match block {
        Content::Text { text } => Some(text.as_str()),
        _ => None,
    }
}

#[test]
fn constructors_assign_the_expected_role() {
    assert_eq!(Message::system("s".to_owned()).role, Role::System);
    assert_eq!(Message::user("u".to_owned()).role, Role::User);
    assert_eq!(Message::assistant("a".to_owned()).role, Role::Assistant);
}

#[test]
fn text_content_joins_every_text_block() {
    let message = Message {
        role: Role::Assistant,
        content: vec![Content::Text { text: "Hal".to_owned() }, Content::Text { text: "lo".to_owned() }],
    };
    assert_eq!(message.text_content(), "Hallo");
}

#[test]
fn text_content_ignores_tool_blocks() {
    let mut input = serde_json::Map::new();
    input.insert("path".to_owned(), serde_json::Value::String("src/lib.rs".to_owned()));
    let message = Message {
        role: Role::Assistant,
        content: vec![
            Content::Text { text: "reading".to_owned() },
            Content::ToolCall(ToolCall {
                id: "call_1".to_owned(),
                name: "read_file".to_owned(),
                input: serde_json::Value::Object(input),
            }),
        ],
    };
    assert_eq!(message.text_content(), "reading");
    assert_eq!(message.tool_calls().len(), 1);
    assert_eq!(message.tool_calls()[0].name, "read_file");
}

#[test]
fn tool_results_are_grouped_into_one_user_message() {
    let message = Message::tool_results(vec![
        ToolResult { call_id: "a".to_owned(), output: "1".to_owned(), is_error: false },
        ToolResult { call_id: "b".to_owned(), output: "2".to_owned(), is_error: true },
    ]);
    assert_eq!(message.role, Role::User);
    assert_eq!(message.content.len(), 2);
}

#[test]
fn usage_accumulates_across_turns() {
    let first = Usage { input_tokens: 10, output_tokens: 5, ..Usage::default() };
    let second = Usage { input_tokens: 1, output_tokens: 2, ..Usage::default() };
    let total = first.saturating_add(second);
    assert_eq!(total.input_tokens, 11);
    assert_eq!(total.output_tokens, 7);
}

#[test]
fn adjacent_text_blocks_are_merged() {
    let mut turn = Turn::new();
    turn.content = vec![Content::Text { text: "Hal".to_owned() }, Content::Text { text: "lo".to_owned() }];
    turn.coalesce_text();

    assert_eq!(turn.content.len(), 1);
    assert_eq!(text_of(&turn.content[0]), Some("Hallo"));
}

#[test]
fn merging_text_does_not_reorder_tool_calls() {
    let mut turn = Turn::new();
    turn.content = vec![
        Content::Text { text: "a".to_owned() },
        Content::ToolCall(call("t1", "grep")),
        Content::Text { text: "b".to_owned() },
        Content::Text { text: "c".to_owned() },
    ];
    turn.coalesce_text();

    assert_eq!(turn.content.len(), 3);
    match &turn.content[1] {
        Content::ToolCall(c) => {
            assert_eq!(c.id, "t1");
            assert_eq!(c.name, "grep");
            assert_eq!(c.input, empty_object());
        }
        other => panic!("expected the tool call, got {other:?}"),
    }
    assert_eq!(text_of(&turn.content[2]), Some("bc"));
}

#[test]
fn tool_calls_are_extracted_in_order() {
    let mut turn = Turn::new();
    turn.content = vec![Content::ToolCall(call("a", "read_file")), Content::ToolCall(call("b", "grep"))];

    let calls = turn.tool_calls();
    assert_eq!(calls.len(), 2);
    assert_eq!(calls[0].name, "read_file");
    assert_eq!(calls[1].name, "grep");
}

#[test]
fn arguments_are_summarised_without_json_noise() {
    let mut input = serde_json::Map::new();
    input.insert("path".to_owned(), serde_json::Value::String("src/lib.rs".to_owned()));
    let summary = summarise(&serde_json::Value::Object(input));
    assert_eq!(summary, "path=src/lib.rs");
}

#[test]
fn summarising_a_non_object_yields_an_empty_line() {
    assert_eq!(summarise(&serde_json::Value::String("scalar".to_owned())), "");
}

#[test]
fn a_handoff_names_each_speaker_and_keeps_only_text() {
    let messages = vec![
        Message::user("fix it".to_owned()),
        Message { role: Role::Assistant, content: vec![Content::Text { text: "done".to_owned() }, Content::ToolCall(call("c", "grep"))] },
    ];

    assert_eq!(true_code::agent::handoff(&messages), "## user\n\nfix it\n## assistant\n\ndone\n");
}

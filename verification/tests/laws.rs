use true_code::agent::{FinishReason, RunState, Step, Turn, MAX_TURNS};
use true_code::approval::Decision;
use true_code::message::{Content, Message, Role, StopReason, ToolCall, ToolResult};
use true_code::providers::{finish_tool, PartialTool};
use true_code::tui::{approval_key, question_key, App, ApprovalKey, Key, KeyOutcome, QuestionKey, Status};
use true_code::wire::{anthropic_body, openai_body, render_message, OpenAiMessage, Request};

fn json(text: &str) -> serde_json::Value {
    serde_json::from_str(text).expect("valid JSON")
}

fn call(id: &str, name: &str, input: &str) -> ToolCall {
    ToolCall { id: id.to_owned(), name: name.to_owned(), input: json(input) }
}

fn turn_with(calls: Vec<ToolCall>) -> Turn {
    let mut turn = Turn::new();
    for c in calls {
        turn.push_call(c);
    }
    turn
}

#[test]
fn an_answer_without_tools_ends_the_run() {
    let mut state = RunState::new();
    let mut turn = Turn::new();
    turn.push_text("done".to_owned());
    match state.after_turn(&turn) {
        Step::Finish(reason) => assert_eq!(reason, FinishReason::Completed),
        Step::RunTools(_) => panic!("nothing to run"),
    }
}

#[test]
fn an_answer_cut_off_is_reported_as_such() {
    let mut state = RunState::new();
    let mut turn = Turn::new();
    turn.push_text("partial".to_owned());
    turn.stop_reason = StopReason::MaxTokens;
    match state.after_turn(&turn) {
        Step::Finish(reason) => assert_eq!(reason, FinishReason::OutputTruncated),
        Step::RunTools(_) => panic!("nothing to run"),
    }
}

#[test]
fn the_third_identical_call_is_a_loop() {
    let mut state = RunState::new();
    for _ in 0..2 {
        match state.after_turn(&turn_with(vec![call("1", "grep", r#"{"pattern":"x"}"#)])) {
            Step::RunTools(calls) => assert_eq!(calls.len(), 1),
            Step::Finish(reason) => panic!("stopped early: {reason:?}"),
        }
    }
    match state.after_turn(&turn_with(vec![call("3", "grep", r#"{"pattern":"x"}"#)])) {
        Step::Finish(reason) => assert_eq!(reason, FinishReason::Loop { tool: "grep".to_owned() }),
        Step::RunTools(_) => panic!("a loop must stop the run"),
    }
}

#[test]
fn different_arguments_are_not_a_loop() {
    let mut state = RunState::new();
    for n in 0..5 {
        let input = format!(r#"{{"pattern":"{n}"}}"#);
        match state.after_turn(&turn_with(vec![call("1", "grep", &input)])) {
            Step::RunTools(calls) => assert_eq!(calls[0].name, "grep"),
            Step::Finish(reason) => panic!("stopped early: {reason:?}"),
        }
    }
}

#[test]
fn the_turn_limit_and_the_budget_stop_a_run_before_its_next_turn() {
    let mut state = RunState::new();
    assert_eq!(state.before_turn(false), None);
    assert_eq!(state.before_turn(true), Some(FinishReason::BudgetExhausted));
    for n in 0..MAX_TURNS {
        let input = format!(r#"{{"n":{n}}}"#);
        let _ = state.after_turn(&turn_with(vec![call("1", "read_file", &input)]));
    }
    assert_eq!(state.before_turn(false), Some(FinishReason::TurnLimit));
    assert_eq!(state.before_turn(true), Some(FinishReason::TurnLimit));
}

#[test]
fn blank_tool_arguments_stand_for_an_empty_object() {
    let pending =
        PartialTool { id: "t1".to_owned(), name: "list_dir".to_owned(), arguments: "  ".to_owned() };
    let call = finish_tool(pending).expect("blank arguments are fine");
    assert_eq!(call.input, json("{}"));
    assert_eq!(call.id, "t1");
}

#[test]
fn arguments_that_are_not_json_are_reported_with_the_tool() {
    let pending =
        PartialTool { id: "t1".to_owned(), name: "grep".to_owned(), arguments: "{\"a\":".to_owned() };
    let error = finish_tool(pending).expect_err("not JSON");
    assert!(error.starts_with("tool `grep` sent arguments that are not valid JSON: "), "{error}");
}

#[test]
fn anthropic_requests_carry_the_system_prompt_apart() {
    let request = Request::new(
        Some("be brief".to_owned()),
        vec![Message::system("ignored".to_owned()), Message::user("hi".to_owned())],
    );
    let body = anthropic_body("model-a", request);
    assert_eq!(body.model, "model-a");
    assert_eq!(body.system.as_deref(), Some("be brief"));
    assert_eq!(body.messages.len(), 1);
    assert_eq!(body.messages[0].role, Role::User);
}

#[test]
fn openai_tool_results_become_messages_of_their_own() {
    let message = Message {
        role: Role::User,
        content: vec![
            Content::ToolResult(ToolResult {
                call_id: "c1".to_owned(),
                output: "ok".to_owned(),
                is_error: false,
            }),
            Content::Text { text: "and".to_owned() },
            Content::Text { text: " more".to_owned() },
        ],
    };
    let wire = render_message(&message);
    assert_eq!(wire.len(), 2);
    match &wire[0] {
        OpenAiMessage::Chat { role, content, tool_calls } => {
            assert_eq!(*role, Role::User);
            assert_eq!(content, "and more");
            assert!(tool_calls.is_empty());
        },
        other => panic!("unexpected: {other:?}"),
    }
    match &wire[1] {
        OpenAiMessage::Tool { tool_call_id, content } => {
            assert_eq!(tool_call_id, "c1");
            assert_eq!(content, "ok");
        },
        other => panic!("unexpected: {other:?}"),
    }
}

#[test]
fn openai_tool_arguments_travel_as_a_json_string() {
    let message = Message {
        role: Role::Assistant,
        content: vec![Content::ToolCall(call("c1", "grep", r#"{"pattern":"x"}"#))],
    };
    let body = openai_body("model-b", Request::new(Some("sys".to_owned()), vec![message]));
    assert_eq!(body.messages.len(), 2);
    match &body.messages[1] {
        OpenAiMessage::Chat { role, content, tool_calls } => {
            assert_eq!(*role, Role::Assistant);
            assert!(content.is_empty());
            assert_eq!(tool_calls[0].arguments, r#"{"pattern":"x"}"#);
            assert_eq!(tool_calls[0].name, "grep");
        },
        other => panic!("unexpected: {other:?}"),
    }
}

#[test]
fn enter_never_approves_a_change() {
    assert_eq!(approval_key(Key::Enter, false), ApprovalKey::Ignore);
    assert_eq!(approval_key(Key::Char('y'), false), ApprovalKey::Decide(Decision::Approve));
    assert_eq!(approval_key(Key::Char('A'), false), ApprovalKey::Decide(Decision::ApproveToolForSession));
    assert_eq!(approval_key(Key::Char('n'), false), ApprovalKey::Decide(Decision::Deny));
    assert_eq!(approval_key(Key::Esc, false), ApprovalKey::Decide(Decision::Abort));
    assert_eq!(approval_key(Key::Char('c'), true), ApprovalKey::Quit);
    assert_eq!(approval_key(Key::PageDown, false), ApprovalKey::ScrollDown(10));
}

#[test]
fn a_question_is_answered_or_skipped_with_one_key() {
    assert_eq!(question_key(Key::Esc, 3), QuestionKey::Skip);
    assert_eq!(question_key(Key::Char('1'), 3), QuestionKey::Answer(0));
    assert_eq!(question_key(Key::Char('3'), 3), QuestionKey::Answer(2));
    assert_eq!(question_key(Key::Char('4'), 3), QuestionKey::Ignore);
    assert_eq!(question_key(Key::Char('0'), 3), QuestionKey::Ignore);
}

#[test]
fn enter_sends_the_prompt_and_marks_the_turn_running() {
    let mut app = App::new("m".to_owned(), 100);
    for ch in "hello".chars() {
        assert_eq!(app.handle_key(Key::Char(ch), false), KeyOutcome::Nothing);
    }
    assert_eq!(app.handle_key(Key::Enter, false), KeyOutcome::Send("hello".to_owned()));
    assert_eq!(app.status, Status::Working);
    assert_eq!(app.handle_key(Key::Enter, false), KeyOutcome::Nothing);
    assert_eq!(app.handle_key(Key::Esc, false), KeyOutcome::CancelRun);
    assert_eq!(app.status, Status::Idle);
    assert_eq!(app.handle_key(Key::Char('c'), true), KeyOutcome::Nothing);
    assert!(app.should_quit);
}

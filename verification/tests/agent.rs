use true_code::agent::{FinishReason, SYSTEM_PROMPT};
use true_code::approval::{Admission, ApprovalRequest, ApproveAll, Approver, Decision, DenyAll, SessionApprovals};
use true_code::constraints::Violation;
use true_code::commands::UserCommand;
use true_code::diff::FileDiff;
use true_code::effect::{Effect, Risk};
use true_code::evidence::Verdict;
use true_code::learn::{extract_json, Question, Record, QUESTION_PROMPT};

const VALID: &str = r#"{"concept":"error propagation","question":"What breaks without the ? operator here?",
        "options":["Nothing","The error is swallowed","It will not compile"],"correct":1,
        "explanation":"unwrap would panic instead of returning the error to the caller."}"#;

fn question(options: &[&str], correct: usize, explanation: &str) -> Question {
    Question {
        concept: "x".to_owned(),
        question: "q".to_owned(),
        options: options.iter().map(|o| (*o).to_owned()).collect(),
        correct,
        explanation: explanation.to_owned(),
    }
}

fn write_request() -> ApprovalRequest {
    ApprovalRequest {
        violations: Vec::new(),
        tool: "write_file".to_owned(),
        effect: Effect::Write(FileDiff::new("src/lib.rs", Some("a\n"), "b\n")),
    }
}

fn command(body: &str) -> UserCommand {
    UserCommand {
        name: "t".to_owned(),
        description: String::new(),
        argument_hint: String::new(),
        body: body.to_owned(),
    }
}

#[test]
fn a_write_request_summarises_the_file_and_the_line_counts() {
    assert_eq!(write_request().summary(), "modify src/lib.rs  +1 −1");
}

#[test]
fn a_command_request_summarises_the_command() {
    let request = ApprovalRequest {
        tool: "shell".to_owned(),
        effect: Effect::Execute { command: "cargo test".to_owned(), risk: Risk::Normal },
        violations: Vec::new(),
    };
    assert_eq!(request.summary(), "run `cargo test`");
}

#[test]
fn dollar_arguments_takes_everything_typed() {
    assert_eq!(
        command("Look at $ARGUMENTS now").expand("the auth module"),
        "Look at the auth module now"
    );
}

#[test]
fn numbered_placeholders_take_one_word_each() {
    assert_eq!(command("$1 then $2").expand("first second"), "first then second");
}

#[test]
fn a_placeholder_with_no_argument_becomes_empty_rather_than_literal() {
    assert_eq!(command("$1|$2").expand("only"), "only|");
}

#[test]
fn arguments_are_appended_when_the_body_has_nowhere_to_put_them() {
    assert_eq!(
        command("Review the diff.").expand("focus on errors"),
        "Review the diff.\n\nfocus on errors"
    );
}

#[test]
fn a_body_with_no_placeholders_is_unchanged_when_nothing_was_typed() {
    assert_eq!(command("Review the diff.").expand("   "), "Review the diff.");
}

#[test]
fn the_summary_shows_the_argument_hint_when_there_is_one() {
    let shown = UserCommand {
        name: "review".to_owned(),
        description: "Review the diff".to_owned(),
        argument_hint: "[focus]".to_owned(),
        body: String::new(),
    }
    .summary();

    assert!(shown.contains("/review [focus]"), "unexpected: {shown}");
    assert!(shown.contains("Review the diff"), "unexpected: {shown}");
}

#[test]
fn a_fenced_code_block_is_tolerated() {
    let raw = format!("Here you go:\n```json\n{VALID}\n```\nHope that helps!");

    assert_eq!(extract_json(&raw).as_deref(), Some(VALID));
    let parsed = Question {
        concept: "error propagation".to_owned(),
        question: "What breaks without the ? operator here?".to_owned(),
        options: vec![
            "Nothing".to_owned(),
            "The error is swallowed".to_owned(),
            "It will not compile".to_owned(),
        ],
        correct: 1,
        explanation: "unwrap would panic instead of returning the error to the caller.".to_owned(),
    };
    assert!(parsed.validate().is_ok());
}

#[test]
fn a_correct_index_outside_the_options_is_rejected() {
    let raw = r#"{"concept":"x","question":"q","options":["a","b"],"correct":5,
            "explanation":"e"}"#;
    assert!(extract_json(raw).is_some());
    assert!(question(&["a", "b"], 5, "e").validate().is_err());
}

#[test]
fn a_question_with_one_option_is_rejected() {
    let raw = r#"{"concept":"x","question":"q","options":["a"],"correct":0,
            "explanation":"e"}"#;
    assert!(extract_json(raw).is_some());
    assert!(question(&["a"], 0, "e").validate().is_err());
}

#[test]
fn an_empty_explanation_is_rejected() {
    let raw = r#"{"concept":"x","question":"q","options":["a","b"],"correct":0,
            "explanation":"  "}"#;
    assert!(extract_json(raw).is_some());
    assert!(question(&["a", "b"], 0, "  ").validate().is_err());
}

#[test]
fn an_answer_with_no_json_is_reported_rather_than_guessed_at() {
    assert!(extract_json("I could not think of a good question.").is_none());
}

#[test]
fn a_concept_answered_correctly_twice_looks_solid() {
    assert!(Record { seen: 2, correct: 2 }.looks_solid());
    assert!(!Record { seen: 1, correct: 1 }.looks_solid(), "once is not evidence");
    assert!(!Record { seen: 3, correct: 2 }.looks_solid());
}

#[test]
fn the_generation_prompt_forbids_the_easy_useless_question() {
    assert!(QUESTION_PROMPT.contains("Never about syntax or naming"));
    assert!(QUESTION_PROMPT.contains("THIS codebase"));
}

#[test]
fn every_finish_reason_explains_itself_to_the_user() {
    for reason in [
        FinishReason::Completed,
        FinishReason::TurnLimit,
        FinishReason::BudgetExhausted,
        FinishReason::Loop { tool: "grep".to_owned() },
        FinishReason::OutputTruncated,
    ] {
        assert!(!reason.message().is_empty(), "{reason:?} has no message");
    }
}

#[test]
fn the_turn_limit_message_suggests_what_to_do_next() {
    let message = FinishReason::TurnLimit.message();
    assert!(message.contains("narrowing"), "unexpected message: {message}");
}

#[test]
fn the_loop_message_names_the_offending_tool() {
    let message = FinishReason::Loop { tool: "grep".to_owned() }.message();
    assert!(message.contains("grep"), "unexpected message: {message}");
}

#[test]
fn the_system_prompt_contains_nothing_dynamic() {
    assert!(!SYSTEM_PROMPT.contains("{}"));
    assert!(!SYSTEM_PROMPT.contains("2026"));
}

#[test]
fn the_system_prompt_states_the_read_only_limitation() {
    assert!(SYSTEM_PROMPT.contains("read-only"));
}

#[test]
fn the_unverified_verdict_says_what_to_do_about_it() {
    let advice = Verdict::Unverified.advice().expect("there is advice");
    assert!(advice.contains("truecode verify"), "unexpected advice: {advice}");
    assert!(advice.contains("--permission-mode full"));
}

#[test]
fn only_a_failure_or_a_missing_check_is_treated_as_alarming() {
    assert!(Verdict::Failing.is_alarming());
    assert!(Verdict::Unverified.is_alarming());
    assert!(!Verdict::Verified.is_alarming());
    assert!(!Verdict::Partial.is_alarming());
}

#[test]
fn the_default_approver_refuses() {
    assert_eq!(DenyAll.approve(&write_request()), Decision::Deny);
}

#[test]
fn the_opt_in_approver_accepts() {
    assert_eq!(ApproveAll.approve(&write_request()), Decision::Approve);
}

#[test]
fn the_opt_in_approver_still_refuses_a_change_that_breaks_a_rule() {
    let mut request = write_request();
    request.violations.push(Violation {
        description: "No unwrap()".to_owned(),
        evidence: "src/lib.rs: a.unwrap();".to_owned(),
    });

    assert_eq!(
        ApproveAll.approve(&request),
        Decision::Deny,
        "--yes must not mean 'ignore the rules I wrote down'"
    );
}

fn request_for(tool: &str, before: &str, after: &str, broken: bool) -> ApprovalRequest {
    let mut violations = Vec::new();
    if broken {
        violations.push(Violation { description: "No unwrap()".to_owned(), evidence: "a.unwrap()".to_owned() });
    }
    ApprovalRequest { violations, tool: tool.to_owned(), effect: Effect::Write(FileDiff::new("src/lib.rs", Some(before), after)) }
}

#[test]
fn a_tool_approved_for_the_session_is_not_asked_about_again() {
    let mut approvals = SessionApprovals::new();
    assert!(approvals.must_ask(&request_for("write_file", "a\n", "b\n", false)));

    assert_eq!(approvals.settle("write_file", Decision::ApproveToolForSession), Admission::Run);

    assert!(!approvals.must_ask(&request_for("write_file", "a\n", "c\n", false)));
    assert!(approvals.must_ask(&request_for("patch", "a\n", "c\n", false)), "only the approved tool");
    assert!(approvals.must_ask(&request_for("write_file", "a\n", "c\n", true)), "a broken rule is always asked about");
}

#[test]
fn a_write_that_changes_nothing_is_not_asked_about() {
    let approvals = SessionApprovals::new();
    assert!(!approvals.must_ask(&request_for("write_file", "a\n", "a\n", true)));
}

#[test]
fn each_decision_settles_the_call() {
    let mut approvals = SessionApprovals::new();
    assert_eq!(approvals.settle("shell", Decision::Approve), Admission::Run);
    assert_eq!(approvals.settle("shell", Decision::Deny), Admission::Declined);
    assert_eq!(approvals.settle("shell", Decision::Abort), Admission::Abort);
    assert!(!approvals.covers("shell"), "a one-off approval is not remembered");
}

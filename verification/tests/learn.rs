use true_code::commands::parse;
use true_code::hooks::{judge, Event, Hook, HookRound, HookRun, HookSet, Hooks, Outcome};
use true_code::learn::{extract_json, Profile, Question, Record};

const VALID: &str = r#"{"concept":"error propagation","question":"What breaks without the ? operator here?",
        "options":["Nothing","The error is swallowed","It will not compile"],"correct":1,
        "explanation":"unwrap would panic instead of returning the error to the caller."}"#;

#[test]
fn a_well_formed_question_parses() {
    let json = extract_json(VALID).expect("the answer holds an object");
    assert_eq!(json, VALID.trim());
    let question = Question {
        concept: "error propagation".to_owned(),
        question: "What breaks without the ? operator here?".to_owned(),
        options: vec!["Nothing".to_owned(), "The error is swallowed".to_owned(), "It will not compile".to_owned()],
        correct: 1,
        explanation: "unwrap would panic instead of returning the error to the caller.".to_owned(),
    };
    assert!(question.validate().is_ok());

    assert_eq!(question.concept, "error propagation");
    assert_eq!(question.options.len(), 3);
    assert!(question.is_correct(1));
    assert!(!question.is_correct(0));
}

#[test]
fn the_profile_counts_attempts_per_concept() {
    let mut profile = Profile::new();
    profile.record("Error Propagation", true);
    profile.record("error propagation", false);

    let record = profile.get("error propagation").expect("it is recorded");
    assert_eq!(record, Record { seen: 2, correct: 1 });
    assert_eq!(profile.concepts().len(), 1, "case and spacing must not split one concept into two");
}

#[test]
fn a_concept_missed_at_least_half_the_time_needs_revisiting() {
    assert!(Record { seen: 2, correct: 1 }.needs_revisiting());
    assert!(Record { seen: 1, correct: 0 }.needs_revisiting());
    assert!(!Record { seen: 3, correct: 2 }.needs_revisiting());
    assert!(!Record::default().needs_revisiting(), "never seen is not weak");
}

#[test]
fn weak_spots_come_back_worst_first() {
    let mut profile = Profile::new();
    profile.record("ownership", false);
    profile.record("ownership", false);
    profile.record("lifetimes", true);
    profile.record("lifetimes", false);

    let weak = profile.weak_spots();

    assert_eq!(weak[0].0, "ownership", "the one they never got comes first");
    assert_eq!(weak.len(), 2);
}

#[test]
fn a_fresh_profile_adds_nothing_to_the_prompt() {
    assert!(Profile::new().prompt_section().is_empty(), "it must cost no tokens");
}

#[test]
fn past_difficulty_is_what_the_prompt_carries() {
    let mut profile = Profile::new();
    profile.record("ownership", false);

    let prompt = profile.prompt_section();

    assert!(prompt.contains("ownership"));
    assert!(prompt.contains("explain it more fully"));
}

#[test]
fn frontmatter_is_read_and_kept_out_of_the_prompt() {
    let command = parse("review", "---\ndescription: Review the diff\nargument-hint: [focus]\n---\nReview it.");

    assert_eq!(command.name, "review");
    assert_eq!(command.description, "Review the diff");
    assert_eq!(command.argument_hint, "[focus]");
    assert_eq!(command.body, "Review it.");
}

#[test]
fn a_file_without_frontmatter_is_all_prompt() {
    let command = parse("plain", "Just the prompt.");

    assert_eq!(command.body, "Just the prompt.");
    assert!(command.description.is_empty());
}

#[test]
fn an_unknown_frontmatter_key_is_ignored_rather_than_refused() {
    let command = parse("x", "---\nmodel: something-else\ndescription: Hi\n---\nBody.");

    assert_eq!(command.description, "Hi");
    assert_eq!(command.body, "Body.");
}

fn hook(event: Event, matches: Option<&str>, command: &str) -> Hook {
    Hook { event, matches: matches.map(str::to_owned), command: command.to_owned() }
}

fn hooks(list: Vec<Hook>) -> HookSet {
    HookSet::compile(Hooks { hooks: list }).expect("compiles")
}

/// Runs the hooks that apply, each `exit N` command ending with code N.
fn run(set: &HookSet, event: Event, tool: &str) -> Vec<Outcome> {
    let mut round = HookRound::new(set.matching(event, tool));
    while let Some(i) = round.next() {
        let hook = set.hook(i);
        let code: i32 = hook.command.trim_start_matches("exit ").parse().expect("an exit code");
        let outcome = judge(
            hook,
            HookRun::Exited { success: code == 0, code: Some(code), stdout: String::new(), stderr: String::new() },
        );
        round.record(outcome);
    }
    round.into_outcomes()
}

#[test]
fn an_invalid_pattern_is_caught_at_load_rather_than_mid_run() {
    let broken = Hooks { hooks: vec![hook(Event::PreTool, Some("["), "x")] };

    assert!(HookSet::compile(broken).is_err());
}

#[test]
fn a_hook_only_runs_for_a_tool_its_pattern_matches() {
    let set = hooks(vec![hook(Event::PreTool, Some("write_file"), "exit 0")]);

    assert_eq!(run(&set, Event::PreTool, "read_file").len(), 0);
    assert_eq!(run(&set, Event::PreTool, "write_file").len(), 1);
}

#[test]
fn a_hook_with_no_pattern_runs_for_every_tool() {
    let set = hooks(vec![hook(Event::PreTool, None, "exit 0")]);

    assert_eq!(run(&set, Event::PreTool, "anything"), [Outcome::Passed]);
}

#[test]
fn exit_code_two_refuses_the_call() {
    let set = hooks(vec![hook(Event::PreTool, None, "exit 2")]);

    let outcomes = run(&set, Event::PreTool, "write_file");

    assert!(matches!(outcomes[0], Outcome::Refused(_)), "got {outcomes:?}");
}

#[test]
fn any_other_failure_is_reported_but_does_not_block() {
    let set = hooks(vec![hook(Event::PreTool, None, "exit 1")]);

    let outcomes = run(&set, Event::PreTool, "write_file");

    assert!(matches!(outcomes[0], Outcome::Failed(_)), "got {outcomes:?}");
}

#[test]
fn exit_code_two_after_the_fact_is_a_failure_not_a_refusal() {
    let set = hooks(vec![hook(Event::PostTool, None, "exit 2")]);

    let outcomes = run(&set, Event::PostTool, "write_file");

    assert!(matches!(outcomes[0], Outcome::Failed(_)), "got {outcomes:?}");
}

#[test]
fn a_refusal_stops_the_hooks_behind_it() {
    let set = hooks(vec![hook(Event::PreTool, None, "exit 2"), hook(Event::PreTool, None, "exit 0")]);

    assert_eq!(run(&set, Event::PreTool, "write_file").len(), 1);
}

#[test]
fn a_stop_hook_ignores_the_tool_pattern() {
    let set = hooks(vec![hook(Event::Stop, Some("never_matches"), "exit 0")]);

    assert_eq!(run(&set, Event::Stop, ""), [Outcome::Passed]);
}

#[test]
fn past_difficulty_reaches_the_question_prompt() {
    let mut profile = Profile::new();
    profile.record("ownership", false);
    profile.record("ownership", false);

    let section = profile.prompt_section();

    assert!(section.contains("ownership"));
    assert!(section.contains("explain it more fully"));
}

fn magic_numbers() -> Question {
    Question {
        concept: "magic numbers".to_owned(),
        question: "Why does the constant matter here?".to_owned(),
        options: vec!["It does not".to_owned(), "It is the documented contract".to_owned(), "It is faster".to_owned()],
        correct: 1,
        explanation: "Callers depend on the returned value, so changing it is a breaking change.".to_owned(),
    }
}

#[test]
fn a_right_answer_still_gets_the_explanation() {
    let feedback = magic_numbers().feedback(1);

    assert!(feedback.contains("Right."));
    assert!(feedback.contains("breaking change"), "the explanation comes either way");
}

#[test]
fn a_wrong_answer_is_told_the_right_one() {
    let feedback = magic_numbers().feedback(0);

    assert!(feedback.contains("Not quite."));
    assert!(feedback.contains("documented contract"), "unexpected feedback: {feedback}");
}

#[test]
fn a_full_record_has_no_room_for_another_answer() {
    let mut profile = Profile::new();
    assert!(profile.has_room("ownership", true));
    profile.record("Ownership ", true);
    assert!(profile.has_room("ownership", true));
    let full = Profile::from_entries(vec![("ownership".to_owned(), Record { seen: u32::MAX, correct: 3 })]);
    assert!(!full.has_room(" Ownership", false));
}

#[test]
fn weak_spots_are_ordered_by_how_often_they_were_missed() {
    let profile = Profile::from_entries(vec![
        ("x".to_owned(), Record { seen: 10, correct: 2 }),
        ("y".to_owned(), Record { seen: 2, correct: 1 }),
    ]);

    assert_eq!(
        profile.weak_spots(),
        vec![("x".to_owned(), Record { seen: 10, correct: 2 }), ("y".to_owned(), Record { seen: 2, correct: 1 })]
    );
}

#[test]
fn equally_missed_weak_spots_keep_their_key_order() {
    let profile = Profile::from_entries(vec![
        ("b".to_owned(), Record { seen: 2, correct: 0 }),
        ("a".to_owned(), Record { seen: 3, correct: 1 }),
    ]);

    let names: Vec<String> = profile.weak_spots().into_iter().map(|(name, _)| name).collect();
    assert_eq!(names, vec!["a".to_owned(), "b".to_owned()]);
}

use true_code::secrets::{vendor, Vendor};
use true_code::setup::{SetupScreen, SetupStep, Stage};
use true_code::config::remember_choice;
use true_code::message::{Delta, Role, StopReason, Usage};
use true_code::tui::{format_tokens, rules_label, status_label, App, Key, KeyOutcome, Status};
use true_code::agent::FinishReason;

fn test_app() -> App {
    App::new("test/model".to_owned(), 1_000)
}

#[test]
fn streaming_text_accumulates_into_one_entry() {
    let mut app = test_app();
    app.apply(Delta::Started { model: "test/model".to_owned() }, None);
    app.apply(Delta::Text { text: "Hal".to_owned() }, None);
    app.apply(Delta::Text { text: "lo".to_owned() }, None);

    assert_eq!(app.entries.len(), 1);
    assert_eq!(app.entries[0].text, "Hallo");
    assert_eq!(app.status, Status::Working);
}

#[test]
fn text_before_the_start_event_is_not_dropped() {
    let mut app = test_app();
    app.apply(Delta::Text { text: "orphan".to_owned() }, None);
    assert_eq!(app.entries[0].text, "orphan");
}

#[test]
fn completing_a_turn_accumulates_usage_and_cost() {
    let mut app = test_app();
    app.apply(Delta::Started { model: "test/model".to_owned() }, None);
    app.apply(
        Delta::Completed {
            stop_reason: StopReason::EndTurn,
            usage: Usage { input_tokens: 1_000, output_tokens: 1_000, ..Usage::default() },
        },
        None,
    );

    assert_eq!(app.status, Status::Idle);
    assert_eq!(app.usage.output_tokens, 1_000);
    assert_eq!(app.usage.input_tokens, 1_000);
}

#[test]
fn exceeding_the_budget_stops_the_session_instead_of_spending_on() {
    let mut app = test_app();
    app.apply(
        Delta::Completed {
            stop_reason: StopReason::EndTurn,
            usage: Usage { output_tokens: 1_000_000, ..Usage::default() },
        },
        Some("Budget of $1.00 reached — session stopped.".to_owned()),
    );

    assert_eq!(app.status, Status::BudgetExhausted);
    assert!(app.notice.is_some());
    assert!(app.submit().is_none(), "no further turn may be started");
}

#[test]
fn truncated_answers_are_flagged_to_the_user() {
    let mut app = test_app();
    app.apply(Delta::Completed { stop_reason: StopReason::MaxTokens, usage: Usage::default() }, None);
    assert!(app.notice.expect("a notice is set").contains("cut off"));
}

#[test]
fn submit_ignores_blank_input() {
    let mut app = test_app();
    app.input = "   ".to_owned();
    assert!(app.submit().is_none());
    assert!(app.entries.is_empty());
}

#[test]
fn submit_moves_the_prompt_into_the_transcript() {
    let mut app = test_app();
    for ch in "hi".chars() {
        app.insert_char(ch);
    }
    assert_eq!(app.submit().as_deref(), Some("hi"));
    assert!(app.input.is_empty());
    assert_eq!(app.entries[0].role, Role::User);
}

#[test]
fn submit_is_refused_while_a_turn_is_in_flight() {
    let mut app = test_app();
    app.status = Status::Working;
    app.input = "second prompt".to_owned();
    assert!(app.submit().is_none());
}

#[test]
fn editing_handles_multi_byte_characters() {
    let mut app = test_app();
    for ch in "äöü".chars() {
        app.insert_char(ch);
    }
    app.backspace();
    assert_eq!(app.input, "äö");

    app.cursor_left();
    app.insert_char('x');
    assert_eq!(app.input, "äxö");
}

#[test]
fn backspace_on_empty_input_is_a_no_op() {
    let mut app = test_app();
    app.backspace();
    assert!(app.input.is_empty());
    assert_eq!(app.cursor, 0);
}

#[test]
fn aborting_only_affects_a_running_turn() {
    let mut app = test_app();
    app.abort();
    assert!(app.notice.is_none(), "nothing was running");

    app.status = Status::Working;
    app.abort();
    assert_eq!(app.status, Status::Idle);
}

#[test]
fn scrolling_down_never_goes_below_the_bottom() {
    let mut app = test_app();
    app.scroll_down(5);
    assert_eq!(app.scroll, 0);
}

#[test]
fn the_cursor_counts_bytes_and_stops_at_either_end() {
    let mut app = test_app();
    for ch in "a→b".chars() {
        app.insert_char(ch);
    }
    assert_eq!(app.cursor, 5);
    app.cursor_right();
    assert_eq!(app.cursor, 5);
    app.cursor_left();
    assert_eq!(app.cursor, 4);
    app.cursor_left();
    assert_eq!(app.cursor, 1);
    app.cursor_left();
    app.cursor_left();
    assert_eq!(app.cursor, 0);
    app.cursor_right();
    assert_eq!(app.cursor, 1);
}

#[test]
fn scrolling_up_stops_at_the_largest_offset() {
    let mut app = test_app();
    app.scroll_up(u16::MAX - 1);
    app.scroll_up(10);
    assert_eq!(app.scroll, u16::MAX);
}

#[test]
fn an_error_is_shown_and_the_session_goes_on() {
    let mut app = test_app();
    app.status = Status::Working;
    app.report_error("network down".to_owned());
    assert_eq!(app.status, Status::Idle);
    assert_eq!(app.notice.as_deref(), Some("network down"));
}

#[test]
fn the_submitted_prompt_is_trimmed() {
    let mut app = test_app();
    app.input = "  fix it \n".to_owned();
    assert_eq!(app.submit().as_deref(), Some("fix it"));
    assert_eq!(app.entries[0].text, "fix it");
}

#[test]
fn thousands_are_rounded_to_the_nearest_tenth() {
    assert_eq!(format_tokens(1_000), "1.0k");
    assert_eq!(format_tokens(1_049), "1.0k");
    assert_eq!(format_tokens(1_051), "1.1k");
    assert_eq!(format_tokens(999_960), "1000.0k");
}

#[test]
fn the_rule_count_is_shown_only_when_there_are_rules() {
    assert_eq!(rules_label(0), "");
    assert_eq!(rules_label(1), " · 1 rule");
    assert_eq!(rules_label(3), " · 3 rules");
}

#[test]
fn a_spent_budget_has_its_own_label() {
    assert_eq!(status_label(Status::BudgetExhausted), "budget reached");
}

#[test]
fn remembering_a_provider_keeps_every_other_line() {
    let existing = "model = \"old\"\n[budget]\nsession_limit_usd = 2.0\nprovider=\"x\"\n";
    assert_eq!(
        remember_choice(existing, "openai", "openai/gpt-4.1-mini"),
        "provider = \"openai\"\nmodel = \"openai/gpt-4.1-mini\"\n[budget]\nsession_limit_usd = 2.0\n"
    );
    assert_eq!(remember_choice("", "anthropic", "m"), "provider = \"anthropic\"\nmodel = \"m\"\n");
}

fn vendors() -> Vec<Vendor> {
    ["anthropic", "openai", "openrouter"].iter().filter_map(|id| vendor(id)).collect()
}

#[test]
fn the_setup_screen_moves_within_the_list_and_settles_on_a_trimmed_key() {
    let vendors = vendors();
    let mut screen = SetupScreen::new();
    assert!(matches!(screen.press(&vendors, Key::Up), SetupStep::Continue));
    assert_eq!(screen.selected, 0, "the list does not wrap");
    for _ in 0..5 {
        screen.press(&vendors, Key::Down);
    }
    assert_eq!(screen.selected, 2, "the list stops at its end");
    screen.press(&vendors, Key::Enter);
    assert_eq!(screen.stage, Stage::Entering);
    for c in [' ', 's', 'k', '\u{7}', ' '] {
        screen.press(&vendors, Key::Char(c));
    }
    assert_eq!(screen.key, " sk ", "control characters are not typed");
    match screen.press(&vendors, Key::Enter) {
        SetupStep::Done(chosen) => {
            assert_eq!(chosen.vendor.id, "openrouter");
            assert_eq!(chosen.key, "sk");
        }
        other => panic!("expected a choice, got {other:?}"),
    }
}

#[test]
fn backspace_on_an_empty_key_goes_back_to_the_list() {
    let vendors = vendors();
    let mut screen = SetupScreen::new();
    screen.press(&vendors, Key::Enter);
    screen.press(&vendors, Key::Char('x'));
    screen.press(&vendors, Key::Backspace);
    assert_eq!(screen.key, "");
    assert_eq!(screen.stage, Stage::Entering);
    screen.press(&vendors, Key::Backspace);
    assert_eq!(screen.stage, Stage::Choosing);
    assert!(matches!(screen.press(&vendors, Key::Esc), SetupStep::Cancelled));
}

#[test]
fn a_blank_key_is_not_accepted() {
    let vendors = vendors();
    let mut screen = SetupScreen::new();
    screen.press(&vendors, Key::Enter);
    screen.press(&vendors, Key::Char(' '));
    assert!(matches!(screen.press(&vendors, Key::Enter), SetupStep::Continue));
}

#[test]
fn pasted_text_is_inserted_at_the_cursor_without_control_characters() {
    let mut app = test_app();
    app.input = "ad".to_owned();
    app.cursor = 1;

    app.paste("b\nc\t");

    assert_eq!(app.input, "abcd");
    assert_eq!(app.cursor, 3);
}

#[test]
fn a_completed_turn_within_budget_keeps_the_session_working() {
    let mut app = test_app();
    app.turn_completed(Usage { input_tokens: 10, output_tokens: 5, ..Usage::default() }, None);
    app.turn_completed(Usage { input_tokens: 1, output_tokens: 2, ..Usage::default() }, None);

    assert_eq!(app.status, Status::Working);
    assert_eq!(app.usage.input_tokens, 11);
    assert_eq!(app.usage.output_tokens, 7);
    assert!(app.notice.is_none());
}

#[test]
fn a_turn_that_spends_the_budget_stops_the_session_with_its_notice() {
    let mut app = test_app();
    app.turn_completed(Usage::default(), Some("Budget of $1.00 reached — session stopped.".to_owned()));

    assert_eq!(app.status, Status::BudgetExhausted);
    assert_eq!(app.notice.as_deref(), Some("Budget of $1.00 reached — session stopped."));

    app.run_finished(&FinishReason::BudgetExhausted);
    assert_eq!(app.status, Status::BudgetExhausted, "a stopped session stays stopped");
}

#[test]
fn a_finished_run_returns_to_idle_and_tells_why_it_stopped_early() {
    let mut app = test_app();
    app.turn_completed(Usage::default(), None);
    app.run_finished(&FinishReason::Completed);
    assert_eq!(app.status, Status::Idle);
    assert!(app.notice.is_none(), "a completed run needs no notice");

    app.run_finished(&FinishReason::TurnLimit);
    assert_eq!(app.status, Status::Idle);
    assert!(app.notice.is_some());
}

#[test]
fn a_note_from_the_harness_joins_the_transcript() {
    let mut app = test_app();
    app.note("checkpoint saved".to_owned());

    assert_eq!(app.entries.len(), 1);
    assert_eq!(app.entries[0].role, Role::System);
    assert_eq!(app.entries[0].text, "checkpoint saved");
}

#[test]
fn typing_moves_the_cursor_past_each_character() {
    let mut app = test_app();
    assert_eq!(app.handle_key(Key::Char('a'), false), KeyOutcome::Nothing);
    assert_eq!(app.handle_key(Key::Char('é'), false), KeyOutcome::Nothing);

    assert_eq!(app.input, "aé");
    assert_eq!(app.cursor, 3, "the cursor counts bytes, and é takes two");
}

#[test]
fn backspace_deletes_the_character_before_the_cursor() {
    let mut app = test_app();
    for ch in "aéb".chars() {
        app.handle_key(Key::Char(ch), false);
    }
    app.handle_key(Key::Left, false);
    assert_eq!(app.cursor, 3);

    assert_eq!(app.handle_key(Key::Backspace, false), KeyOutcome::Nothing);
    assert_eq!(app.input, "ab");
    assert_eq!(app.cursor, 1);

    app.handle_key(Key::Left, false);
    app.handle_key(Key::Backspace, false);
    assert_eq!(app.input, "ab", "nothing to delete at the start");
    assert_eq!(app.cursor, 0);
}

#[test]
fn left_and_right_move_by_one_character_and_stop_at_the_ends() {
    let mut app = test_app();
    for ch in "ü!".chars() {
        app.handle_key(Key::Char(ch), false);
    }
    assert_eq!(app.cursor, 3);

    app.handle_key(Key::Right, false);
    assert_eq!(app.cursor, 3, "nothing to the right of the end");
    app.handle_key(Key::Left, false);
    assert_eq!(app.cursor, 2);
    app.handle_key(Key::Left, false);
    assert_eq!(app.cursor, 0);
    app.handle_key(Key::Left, false);
    assert_eq!(app.cursor, 0);
    app.handle_key(Key::Right, false);
    assert_eq!(app.cursor, 2);
    assert_eq!(app.input, "ü!");
}

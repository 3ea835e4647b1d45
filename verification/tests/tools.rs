use true_code::permission::{Access, PermissionMode};
use true_code::checks::{classify, CheckKind};
use true_code::constraints::Violation;
use true_code::diff::{ChangeKind, FileDiff};
use true_code::edit::{Patch, WriteFile};
use true_code::fs::number_lines;
use true_code::path::normalise_lexically;
use true_code::shell::{parse_exit_code, refuse_if_catastrophic, refused, Shell};
use true_code::tools::truncate_to;

fn numbered_lines(count: usize) -> String {
    let mut out = String::new();
    for n in 0..count {
        out.push_str(&format!("line {n}\n"));
    }
    out
}

#[test]
fn a_violation_summarises_the_rule_and_the_evidence() {
    let violation = Violation {
        description: "No unwrap()".to_owned(),
        evidence: "src/lib.rs: a.unwrap();".to_owned(),
    };
    assert_eq!(violation.summary(), "No unwrap() — src/lib.rs: a.unwrap();");
}

#[test]
fn a_new_file_is_reported_as_a_creation() {
    let diff = FileDiff::new("src/new.rs", None, "fn main() {}\n");

    assert_eq!(diff.kind, ChangeKind::Create);
    assert_eq!(diff.added, 1);
    assert_eq!(diff.removed, 0);
    assert!(diff.text.contains("+fn main() {}"));
}

#[test]
fn a_changed_line_shows_both_sides() {
    let diff = FileDiff::new("a.rs", Some("let x = 1;\n"), "let x = 2;\n");

    assert_eq!(diff.kind, ChangeKind::Modify);
    assert!(diff.text.contains("-let x = 1;"), "unexpected diff: {}", diff.text);
    assert!(diff.text.contains("+let x = 2;"));
    assert_eq!((diff.added, diff.removed), (1, 1));
}

#[test]
fn unchanged_context_is_marked_with_a_space() {
    let before = "one\ntwo\nthree\n";
    let after = "one\nTWO\nthree\n";
    let diff = FileDiff::new("a.txt", Some(before), after);

    assert!(diff.text.contains(" one"), "context must be shown: {}", diff.text);
    assert!(diff.text.contains(" three"));
}

#[test]
fn an_identical_write_produces_an_empty_diff() {
    let diff = FileDiff::new("a.rs", Some("same\n"), "same\n");

    assert!(diff.is_empty(), "a no-op write must not ask for confirmation");
}

#[test]
fn distant_changes_are_separated_rather_than_dumping_the_whole_file() {
    let before = numbered_lines(100);
    let after = before.replace("line 1\n", "LINE 1\n").replace("line 90\n", "LINE 90\n");

    let diff = FileDiff::new("big.txt", Some(&before), &after);

    assert!(diff.text.contains('…'), "far-apart hunks must be separated: {}", diff.text);
    assert!(!diff.text.contains("line 50"), "untouched regions must be omitted");
}

#[test]
fn a_huge_diff_is_truncated_with_a_marker() {
    let before = String::new();
    let after = numbered_lines(5_000);

    let diff = FileDiff::new("huge.txt", Some(&before), &after);

    assert!(diff.text.contains("truncated"), "an unreadable prompt is not a prompt");
    assert_eq!(diff.added, 5_000, "the counts stay exact even when the text is cut");
}

#[test]
fn a_file_without_a_trailing_newline_still_renders_one_line_per_row() {
    let diff = FileDiff::new("a.txt", Some("no newline"), "still none");

    assert!(diff.text.ends_with('\n'), "unexpected diff: {:?}", diff.text);
    assert_eq!(diff.text.lines().count(), 2);
}

#[test]
fn the_summary_names_the_action_and_the_counts() {
    let diff = FileDiff::new("src/lib.rs", Some("a\n"), "a\nb\n");
    assert_eq!(diff.summary(), "modify src/lib.rs  +1 −0");

    let created = FileDiff::new("src/new.rs", None, "a\n");
    assert_eq!(created.summary(), "create src/new.rs  +1 −0");
}

#[test]
fn both_editing_tools_declare_themselves_mutating() {
    assert!(!WriteFile.is_read_only());
    assert!(!Patch.is_read_only());
}

#[test]
fn an_empty_line_range_says_so_instead_of_returning_nothing() {
    assert!(number_lines("a\nb\n", Some(50), Some(60)).contains("no lines"));
}

#[test]
fn short_output_is_left_alone() {
    assert_eq!(truncate_to("hello".to_owned(), 100), "hello");
}

#[test]
fn long_output_is_truncated_and_says_so() {
    let truncated = truncate_to("x".repeat(100), 10);
    assert!(truncated.starts_with("xxxxxxxxxx"));
    assert!(truncated.contains("truncated"), "the model must know it saw a fragment");
    assert!(truncated.contains("100 bytes"));
}

#[test]
fn truncation_never_splits_a_multi_byte_character() {
    let truncated = truncate_to("→".repeat(20), 10);
    assert!(truncated.contains("truncated"));
}

#[test]
fn lexical_normalisation_collapses_parent_components() {
    assert_eq!(normalise_lexically("a/b/../c"), "a/c");
    assert_eq!(normalise_lexically("a/./b"), "a/b");
}

#[test]
fn output_from_somewhere_else_yields_no_exit_code() {
    assert_eq!(parse_exit_code("tests: 47 passed"), None);
    assert_eq!(parse_exit_code(""), None);
}

#[test]
fn a_malformed_exit_line_is_not_guessed_at() {
    assert_eq!(parse_exit_code("exit code: not-a-number"), None);
}

#[test]
fn every_refused_pattern_has_a_stated_reason() {
    for (pattern, reason) in refused() {
        assert!(!pattern.is_empty());
        assert!(!reason.is_empty(), "`{pattern}` is refused without saying why");
    }
}

#[test]
fn refusal_takes_precedence_over_risk_classification() {
    for (refused, _) in refused() {
        assert!(
            refuse_if_catastrophic(refused).is_err(),
            "`{refused}` must be refused regardless of the risk list"
        );
    }
}

#[test]
fn the_shell_tool_declares_itself_mutating() {
    assert!(!Shell.is_read_only());
}

#[test]
fn test_commands_are_recognised() {
    assert_eq!(classify("cargo test --workspace"), CheckKind::Test);
    assert_eq!(classify("pytest -q"), CheckKind::Test);
    assert_eq!(classify("npm test"), CheckKind::Test);
}

#[test]
fn a_lint_that_mentions_tests_is_still_a_lint() {
    assert_eq!(classify("cargo clippy --tests -- -D warnings"), CheckKind::Lint);
}

#[test]
fn build_commands_are_recognised() {
    assert_eq!(classify("cargo build --release"), CheckKind::Build);
    assert_eq!(classify("go build ./..."), CheckKind::Build);
}

#[test]
fn an_unrelated_command_proves_nothing() {
    assert_eq!(classify("cat README.md"), CheckKind::Other);
    assert_eq!(classify("git status"), CheckKind::Other);
    assert_eq!(classify("ls -la"), CheckKind::Other);
}

#[test]
fn classification_ignores_case() {
    assert_eq!(classify("CARGO TEST"), CheckKind::Test);
}

#[test]
fn every_kind_has_a_label() {
    for kind in [CheckKind::Build, CheckKind::Test, CheckKind::Lint, CheckKind::Other] {
        assert!(!kind.label().is_empty());
    }
}

#[test]
fn each_mode_reads_back_from_its_name() {
    for mode in [PermissionMode::ReadOnly, PermissionMode::Write, PermissionMode::Full] {
        assert_eq!(PermissionMode::parse(mode.label()), Some(mode));
    }
    assert_eq!(PermissionMode::parse("read-only"), Some(PermissionMode::ReadOnly));
    assert_eq!(PermissionMode::parse("everything"), None);
}

#[test]
fn read_only_mode_offers_nothing_that_changes_the_workspace() {
    assert!(PermissionMode::ReadOnly.offers(Access::Read));
    assert!(!PermissionMode::ReadOnly.offers(Access::Edit));
    assert!(!PermissionMode::ReadOnly.offers(Access::Execute));
    assert!(PermissionMode::Write.offers(Access::Edit));
    assert!(!PermissionMode::Write.offers(Access::Execute), "shell is unavailable below full mode");
    assert!(PermissionMode::Full.offers(Access::Execute));
}

use true_code::constraints::Violation;
use true_code::evidence::{run_exit_code, Proof, Verdict, EXIT_INCOMPLETE};

fn changed_only() -> Proof {
    let mut proof = Proof::default();
    proof.record_change("src/lib.rs".to_owned());
    proof
}

#[test]
fn a_change_with_no_checks_is_unverified() {
    assert_eq!(changed_only().verdict(), Verdict::Unverified);
}

#[test]
fn passing_tests_earn_a_verified_verdict() {
    let mut proof = changed_only();
    proof.record_check("cargo test --workspace".to_owned(), 0);

    assert_eq!(proof.verdict(), Verdict::Verified);
}

#[test]
fn a_build_alone_is_only_partly_verified() {
    let mut proof = changed_only();
    proof.record_check("cargo build".to_owned(), 0);

    assert_eq!(proof.verdict(), Verdict::Partial);
    assert!(Verdict::Partial.advice().expect("advice").contains("behaviour is unproven"));
}

#[test]
fn a_failing_check_outranks_everything_else() {
    let mut proof = changed_only();
    proof.record_check("cargo build".to_owned(), 0);
    proof.record_check("cargo test".to_owned(), 1);

    assert_eq!(
        proof.verdict(),
        Verdict::Failing,
        "a run that broke the tests must not be summarised by what went well"
    );
}

#[test]
fn a_failing_lint_is_still_a_failure() {
    let mut proof = changed_only();
    proof.record_check("cargo test".to_owned(), 0);
    proof.record_check("cargo clippy -- -D warnings".to_owned(), 101);

    assert_eq!(proof.verdict(), Verdict::Failing);
}

#[test]
fn a_run_that_changed_nothing_and_checked_nothing_shows_nothing() {
    assert_eq!(Proof::default().verdict(), Verdict::NothingToShow);
    assert!(Proof::default().render().is_empty(), "an empty panel is noise");
}

#[test]
fn checks_without_changes_still_count_as_verification() {
    let mut proof = Proof::default();
    proof.record_check("cargo test".to_owned(), 0);

    assert_eq!(proof.verdict(), Verdict::Verified);
}

#[test]
fn a_command_that_proves_nothing_is_not_listed() {
    let mut proof = changed_only();
    proof.record_check("git status".to_owned(), 0);

    assert!(proof.checks.is_empty(), "padding invites skimming past the line that matters");
    assert_eq!(proof.verdict(), Verdict::Unverified, "and it earns no credit");
}

#[test]
fn repeated_edits_to_one_file_are_listed_once() {
    let mut proof = Proof::default();
    proof.record_change("src/lib.rs".to_owned());
    proof.record_change("src/lib.rs".to_owned());
    proof.record_change("src/main.rs".to_owned());

    assert_eq!(proof.changed, vec!["src/lib.rs".to_owned(), "src/main.rs".to_owned()]);
}

#[test]
fn the_panel_states_plainly_that_nothing_ran() {
    let rendered = changed_only().render();

    assert!(rendered.contains("checks    none ran"), "unexpected panel:\n{rendered}");
    assert!(rendered.contains("UNVERIFIED"));
}

#[test]
fn the_panel_shows_each_check_with_its_exit_code() {
    let mut proof = changed_only();
    proof.record_check("cargo test --workspace".to_owned(), 0);
    proof.record_check("cargo clippy".to_owned(), 101);

    let rendered = proof.render();

    assert!(rendered.contains("cargo test --workspace  (exit 0)"), "panel:\n{rendered}");
    assert!(rendered.contains("FAIL"), "a failure must be visible at a glance");
    assert!(rendered.contains("exit 101"));
}

#[test]
fn broken_rules_appear_in_the_panel() {
    let mut proof = changed_only();
    proof.record_violation(Violation {
        description: "No unwrap()".to_owned(),
        evidence: "src/lib.rs: a.unwrap();".to_owned(),
    });

    assert!(proof.render().contains("rule      broken: No unwrap()"));
}

#[test]
fn only_writes_and_observed_exit_codes_count_as_evidence() {
    let mut proof = Proof::default();
    proof.observe("read_file", Some("src/lib.rs".to_owned()), None, "1  fn main() {}");
    assert!(proof.is_empty(), "reading changes nothing");

    proof.observe("patch", Some("src/lib.rs".to_owned()), None, "Replaced 1 occurrence in src/lib.rs.");
    assert_eq!(proof.changed, vec!["src/lib.rs".to_owned()]);

    proof.observe("shell", None, Some("cargo test".to_owned()), "all tests passed");
    assert!(proof.checks.is_empty(), "without an exit code there is nothing observed");

    proof.observe("shell", None, Some("cargo test".to_owned()), "$ cargo test\nexit code: 101\n");
    assert_eq!(proof.checks.len(), 1);
    assert_eq!(proof.checks[0].exit_code, 101);
    assert_eq!(proof.verdict(), Verdict::Failing);
}

#[test]
fn an_alarming_verdict_is_not_reported_as_success() {
    assert_eq!(run_exit_code(0, Verdict::Unverified), EXIT_INCOMPLETE);
    assert_eq!(run_exit_code(0, Verdict::Failing), EXIT_INCOMPLETE);
    assert_eq!(run_exit_code(0, Verdict::Verified), 0);
    assert_eq!(run_exit_code(0, Verdict::NothingToShow), 0);
    assert_eq!(run_exit_code(1, Verdict::Verified), 1, "a failed run keeps its own code");
}

#[test]
fn the_panel_reads_as_the_readme_shows_it() {
    let mut proof = Proof::default();
    proof.record_change("src/auth.rs".to_owned());
    proof.record_check("cargo test --workspace".to_owned(), 0);
    proof.record_check("cargo clippy -- -D warnings".to_owned(), 0);

    assert_eq!(
        proof.render(),
        "proof\n  changed   src/auth.rs\n  ok  test  cargo test --workspace  (exit 0)\n  ok  lint  cargo clippy -- -D warnings  (exit 0)\n  verdict   verified\n"
    );
}

#[test]
fn an_unchecked_change_says_no_checks_ran() {
    let rendered = changed_only().render();

    assert!(rendered.starts_with("proof\n  changed   src/lib.rs\n  checks    none ran\n  verdict   UNVERIFIED\n"));
}

#[test]
fn a_failing_check_row_is_marked_and_keeps_its_exit_code() {
    let mut proof = changed_only();
    proof.record_check("cargo test".to_owned(), 101);

    assert!(proof.render().contains("\n  FAIL  test  cargo test  (exit 101)\n"));
}

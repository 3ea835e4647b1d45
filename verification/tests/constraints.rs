use true_code::constraints::{Ledger, RawConstraint};
use true_code::diff::FileDiff;

fn rule(description: &str) -> RawConstraint {
    RawConstraint {
        description: description.to_owned(),
        forbid_added: None,
        forbid_files: Vec::new(),
        forbid_command: None,
        in_files: Vec::new(),
        except_files: Vec::new(),
    }
}

fn strings(items: &[&str]) -> Vec<String> {
    items.iter().map(|s| (*s).to_owned()).collect()
}

fn ledger(rules: Vec<RawConstraint>, reminders: &[&str]) -> Ledger {
    Ledger::compile(rules, strings(reminders)).expect("compiles")
}

fn diff_adding(path: &str, line: &str) -> FileDiff {
    FileDiff::new(path, Some("existing\n"), &format!("existing\n{line}\n"))
}

fn no_unwrap(description: &str) -> RawConstraint {
    RawConstraint { forbid_added: Some(r"\.unwrap\(\)".to_owned()), ..rule(description) }
}

#[test]
fn a_forbidden_pattern_in_an_added_line_is_caught() {
    let ledger = ledger(vec![no_unwrap("No unwrap() in production code")], &[]);

    let violations = ledger.check_diff(&diff_adding("src/lib.rs", "let x = y.unwrap();"));

    assert_eq!(violations.len(), 1);
    assert!(violations[0].evidence.contains("y.unwrap()"), "the evidence must be specific");
}

#[test]
fn a_forbidden_pattern_in_an_unchanged_line_is_not_a_violation() {
    let ledger = ledger(vec![no_unwrap("No unwrap()")], &[]);

    let diff = FileDiff::new("src/lib.rs", Some("let x = y.unwrap();\n"), "let x = y.unwrap();\n// a note\n");

    assert!(ledger.check_diff(&diff).is_empty(), "only what the change adds is judged");
}

#[test]
fn a_removed_line_never_violates_a_rule() {
    let ledger = ledger(vec![no_unwrap("No unwrap()")], &[]);

    let diff = FileDiff::new("src/lib.rs", Some("let x = y.unwrap();\n"), "");

    assert!(ledger.check_diff(&diff).is_empty(), "deleting the offender is a fix, not a fault");
}

#[test]
fn a_rule_can_be_scoped_to_certain_files() {
    let ledger = ledger(
        vec![RawConstraint {
            forbid_added: Some(r"^\s*[a-z0-9_-]+ = ".to_owned()),
            in_files: strings(&["**/Cargo.toml"]),
            ..rule("No new dependencies")
        }],
        &[],
    );

    assert_eq!(ledger.check_diff(&diff_adding("Cargo.toml", "serde = \"1\"")).len(), 1);
    assert!(
        ledger.check_diff(&diff_adding("src/lib.rs", "let x = 1;")).is_empty(),
        "the rule must not fire outside its scope"
    );
}

#[test]
fn a_scoped_rule_can_carve_out_exceptions() {
    let ledger = ledger(
        vec![RawConstraint {
            in_files: strings(&["**/*.rs"]),
            except_files: strings(&["**/tests/**"]),
            ..no_unwrap("No unwrap() outside tests")
        }],
        &[],
    );

    assert_eq!(ledger.check_diff(&diff_adding("src/lib.rs", "a.unwrap();")).len(), 1);
    assert!(ledger.check_diff(&diff_adding("crates/x/tests/it.rs", "a.unwrap();")).is_empty(), "tests are exempt");
}

#[test]
fn a_forbidden_path_is_caught_whatever_the_change_contains() {
    let ledger = ledger(
        vec![RawConstraint { forbid_files: strings(&[".github/workflows/**"]), ..rule("Do not touch CI") }],
        &[],
    );

    let violations = ledger.check_diff(&diff_adding(".github/workflows/ci.yml", "  - run: x"));

    assert_eq!(violations.len(), 1);
    assert!(violations[0].evidence.contains("ci.yml"));
}

#[test]
fn a_forbidden_command_is_caught() {
    let ledger = ledger(
        vec![RawConstraint { forbid_command: Some("cargo publish|npm publish".to_owned()), ..rule("Never publish") }],
        &[],
    );

    assert_eq!(ledger.check_command("cargo publish --dry-run").len(), 1);
    assert!(ledger.check_command("cargo test").is_empty());
}

#[test]
fn a_file_rule_does_not_fire_on_a_command_and_vice_versa() {
    let ledger = ledger(vec![RawConstraint { forbid_files: strings(&[".github/**"]), ..rule("Do not touch CI") }], &[]);

    assert!(ledger.check_command("ls .github").is_empty(), "a path rule is not a command rule");
}

#[test]
fn every_broken_rule_is_reported_not_just_the_first() {
    let ledger = ledger(
        vec![
            no_unwrap("No unwrap()"),
            RawConstraint { forbid_files: strings(&["**/parser.rs"]), ..rule("Do not touch the parser") },
        ],
        &[],
    );

    let violations = ledger.check_diff(&diff_adding("src/parser.rs", "a.unwrap();"));

    assert_eq!(violations.len(), 2, "the user must see the whole picture, not one line of it");
}

#[test]
fn the_prompt_separates_checked_rules_from_unchecked_notes() {
    let ledger = ledger(vec![no_unwrap("No unwrap()")], &["Prefer small commits"]);

    let prompt = ledger.prompt_section();

    assert!(prompt.contains("checked automatically"), "unexpected prompt: {prompt}");
    assert!(prompt.contains("not checked automatically"), "honesty about what is a wish");
    assert!(prompt.contains("No unwrap()"));
    assert!(prompt.contains("Prefer small commits"));
}

#[test]
fn the_prompt_tells_the_model_to_stop_rather_than_work_around_a_rule() {
    let ledger = ledger(
        vec![RawConstraint { forbid_added: Some("x".to_owned()), ..rule("No new dependencies") }],
        &[],
    );

    assert!(ledger.prompt_section().contains("Do not work around it"));
}

#[test]
fn a_malformed_pattern_names_the_rule_and_the_field() {
    let error = Ledger::compile(
        vec![RawConstraint { forbid_added: Some("(".to_owned()), ..rule("Broken") }],
        Vec::new(),
    )
    .err()
    .expect("the regex is invalid");
    let message = error.message();

    assert!(message.contains("Broken"), "unexpected message: {message}");
    assert!(message.contains("forbid_added"));
}

#[test]
fn a_project_without_a_ledger_has_no_rules() {
    let ledger = Ledger::new();

    assert!(ledger.is_empty());
    assert!(ledger.prompt_section().is_empty(), "an empty ledger costs no tokens");
}

use true_code::edit::Patch;
use true_code::effect::Risk;
use true_code::fs::{number_lines, Glob, ListDir, ReadFile};
use true_code::search::{Grep, GrepScan};
use true_code::shell::{classify, parse_exit_code, refuse_if_catastrophic, render_output};
use true_code::tools::{required_arg, ToolContext, ToolError};

const LIB: &str = "fn one() {}\nfn two() {}\n";
const MAIN: &str = "fn main() {\n    todo!()\n}\n";

fn patch(before: Option<&str>, old: &str, new: &str, every: bool) -> Result<(String, String, usize), ToolError> {
    Patch::compute("src/lib.rs", before.map(str::to_owned), old, new, every)
}

#[test]
fn patch_replaces_a_unique_snippet() {
    let (_, after, _) = patch(Some(LIB), "fn one() {}", "fn uno() {}", false).expect("the patch applies");

    assert_eq!(after, "fn uno() {}\nfn two() {}\n");
}

#[test]
fn patch_refuses_an_ambiguous_match_and_says_how_to_fix_it() {
    let error = Patch::compute("src/dup.rs", Some("same\nsame\n".to_owned()), "same", "other", false)
        .expect_err("the match is ambiguous");

    let message = error.message();
    assert!(message.contains("2 times"), "unexpected message: {message}");
    assert!(message.contains("replace_all"), "the model must be told the way out");
}

#[test]
fn patch_replaces_every_occurrence_when_asked() {
    let (_, after, count) = Patch::compute("src/dup.rs", Some("same\nsame\n".to_owned()), "same", "other", true)
        .expect("the patch applies");

    assert_eq!(after, "other\nother\n");
    let output = Patch::report(count, "src/dup.rs");
    assert!(output.contains('2'), "the count is reported: {output}");
}

#[test]
fn patch_reports_a_missing_snippet_with_guidance() {
    let error = patch(Some(LIB), "fn nowhere() {}", "x", false).expect_err("the snippet is absent");

    let message = error.message();
    assert!(message.contains("does not appear"), "unexpected message: {message}");
    assert!(message.contains("Read the file first"));
}

#[test]
fn patch_can_delete_a_snippet() {
    let (_, after, _) = patch(Some(LIB), "fn one() {}\n", "", false).expect("the patch applies");

    assert_eq!(after, "fn two() {}\n");
}

#[test]
fn patch_rejects_an_empty_old_string() {
    let error = patch(Some(LIB), "", "x", false).expect_err("an empty match is meaningless");

    assert!(matches!(error, ToolError::InvalidInput { .. }));
}

#[test]
fn patch_refuses_to_create_a_missing_file() {
    let error = Patch::compute("src/absent.rs", None, "a", "b", false).expect_err("the file does not exist");

    assert!(error.message().contains("write_file"), "point at the right tool");
}

#[test]
fn read_file_returns_numbered_lines() {
    let output = number_lines(MAIN, None, None);

    assert!(output.contains("     1  fn main() {"), "unexpected output: {output}");
    assert!(output.contains("     2      todo!()"));
}

#[test]
fn read_file_honours_a_line_range() {
    let output = number_lines(MAIN, Some(2), Some(2));

    assert!(output.contains("todo!()"));
    assert!(!output.contains("fn main"), "lines outside the range must not appear");
}

#[test]
fn read_file_rejects_binary_content() {
    assert!(matches!(ReadFile::not_text("logo.bin"), ToolError::InvalidInput { .. }));
}

#[test]
fn read_file_requires_a_path() {
    let error = required_arg("read_file", "path", None).expect_err("path is required");
    assert!(matches!(error, ToolError::InvalidInput { .. }));
}

#[test]
fn read_file_truncates_oversized_content() {
    let ctx = ToolContext::new("/work").with_max_output_bytes(64);

    let output = ReadFile::render(&ctx, &"line\n".repeat(500), None, None);

    assert!(output.contains("truncated"));
}

#[test]
fn list_dir_marks_directories_and_skips_ignored_ones() {
    let ctx = ToolContext::new("/work");
    let entries = vec![ListDir::entry_name("src", true), ListDir::entry_name(".gitignore", false)];

    let output = ListDir::finish(&ctx, ".", &entries);

    assert!(output.contains("src/"), "directories are marked: {output}");
    assert!(!output.contains("target"), "ignored directories must not appear: {output}");
}

#[test]
fn glob_finds_files_and_respects_gitignore() {
    let ctx = ToolContext::new("/work");
    let matcher = Glob::compile("**/*.rs").expect("the pattern is valid");
    let files = vec!["src/main.rs".to_owned(), "src/lib.rs".to_owned(), ".gitignore".to_owned()];

    let output = Glob::finish(&ctx, "**/*.rs", &matcher, &files);

    assert!(output.contains("src/main.rs"), "unexpected output: {output}");
    assert!(output.contains("src/lib.rs"));
    assert!(!output.contains(".gitignore"));
}

#[test]
fn glob_reports_no_matches_rather_than_an_empty_string() {
    let ctx = ToolContext::new("/work");
    let matcher = Glob::compile("**/*.py").expect("the pattern is valid");
    let files = vec!["src/main.rs".to_owned(), "src/lib.rs".to_owned()];

    let output = Glob::finish(&ctx, "**/*.py", &matcher, &files);

    assert!(output.contains("No files match"));
}

#[test]
fn glob_rejects_a_malformed_pattern() {
    let error = Glob::compile("[").err().expect("the pattern is malformed");
    assert!(matches!(error, ToolError::InvalidInput { .. }));
}

/// The files a walk of the project yields (ignored ones are never walked).
fn searchable() -> Vec<(&'static str, &'static str)> {
    vec![("src/lib.rs", "pub fn handle_event() {}\n"), ("src/main.rs", "fn main() {\n    handle_event();\n}\n")]
}

fn grep(pattern: &str, case_sensitive: bool, files: &[(&str, &str)]) -> String {
    let ctx = ToolContext::new("/work");
    let re = Grep::compile(pattern, case_sensitive).expect("the pattern is valid");
    let mut scan = GrepScan::new();
    for (shown, content) in files {
        if scan.is_done() {
            break;
        }
        scan.scan(&re, shown, content);
    }
    scan.finish(pattern, &ctx)
}

#[test]
fn grep_reports_file_and_line_for_each_match() {
    let output = grep("fn handle_event", false, &searchable());

    assert!(output.contains("src/lib.rs:1:"), "unexpected output: {output}");
    assert!(output.contains("pub fn handle_event"));
}

#[test]
fn grep_is_case_insensitive_by_default() {
    let output = grep("HANDLE_EVENT", false, &searchable());
    assert!(output.contains("src/lib.rs"), "unexpected output: {output}");
}

#[test]
fn grep_honours_an_explicit_case_sensitive_flag() {
    let output = grep("HANDLE_EVENT", true, &searchable());
    assert!(output.contains("No matches"), "unexpected output: {output}");
}

#[test]
fn grep_rejects_a_malformed_regex() {
    let error = Grep::compile("fn (", false).err().expect("the regex is malformed");
    assert!(matches!(error, ToolError::InvalidInput { .. }));
}

#[test]
fn grep_says_so_when_nothing_matches() {
    let output = grep("zzzz_not_present", false, &searchable());
    assert!(output.contains("No matches"));
}

#[test]
fn a_successful_command_reports_its_output_and_exit_code() {
    let output = render_output("echo hello", Some(0), "hello\n", "");

    assert!(output.contains("hello"), "unexpected output: {output}");
    assert!(output.contains("exit code: 0"));
}

#[test]
fn a_failing_command_is_returned_as_output_not_as_an_error() {
    let output = render_output("exit 3", Some(3), "", "");
    assert!(output.contains("exit code: 3"), "unexpected output: {output}");
}

#[test]
fn catastrophic_commands_are_refused_before_they_run() {
    let error = refuse_if_catastrophic("rm -rf / --no-preserve-root").expect_err("this is never run");

    let message = error.message();
    assert!(message.contains("Refused"), "unexpected message: {message}");
    assert!(message.contains("Run it yourself"), "the user keeps the option");
}

#[test]
fn refusal_is_case_insensitive() {
    let error = refuse_if_catastrophic("SHUTDOWN /s").expect_err("this is never run");
    assert!(error.message().contains("Refused"));
}

#[test]
fn a_refused_command_is_rejected_at_preview_time_too() {
    let error = refuse_if_catastrophic("mkfs.ext4 /dev/sda").expect_err("this is never previewed as runnable");
    assert!(error.message().contains("Refused"));
}

#[test]
fn an_ordinary_command_previews_as_normal_risk() {
    assert!(refuse_if_catastrophic("cargo test").is_ok());
    assert_eq!(classify("cargo test"), Risk::Normal);
}

#[test]
fn a_dangerous_but_legitimate_command_previews_as_high_risk() {
    assert!(refuse_if_catastrophic("git push --force origin main").is_ok());
    match classify("git push --force origin main") {
        Risk::High { reason } => assert!(reason.contains("remote"), "unexpected reason: {reason}"),
        other => panic!("expected a high-risk effect, got {other:?}"),
    }
}

#[test]
fn the_exit_code_can_be_read_back_out_of_the_rendered_output() {
    let output = render_output("exit 7", Some(7), "", "");
    assert_eq!(parse_exit_code(&output), Some(7));
}

#[test]
fn a_successful_command_reports_exit_zero_to_the_parser() {
    let output = render_output("echo hello", Some(0), "hello\n", "");
    assert_eq!(parse_exit_code(&output), Some(0));
}

use true_code::config::{apply_layer, Layer, Settings};
use true_code::mcp::{qualified_name, render_blocks, Block, McpConfig, ServerConfig, StartupFailure};
use true_code::providers::{truncate_body, MAX_ERROR_BODY};
use true_code::secrets::{resolve, SecretError, Source};
use true_code::tui::{format_tokens, status_label, Status};
use true_code::which::{candidates, resolve as resolve_command};

#[test]
fn the_environment_is_preferred_over_the_keyring() {
    let found = resolve(Some("from-env".to_owned()), Some("from-keyring".to_owned()));

    assert_eq!(found, Some(("from-env".to_owned(), Source::Environment)));
}

#[test]
fn the_keyring_is_used_when_the_environment_is_unset() {
    let found = resolve(None, Some("from-keyring".to_owned()));

    assert_eq!(found, Some(("from-keyring".to_owned(), Source::Keyring)));
}

#[test]
fn a_blank_value_counts_as_unset_in_either_source() {
    assert_eq!(
        resolve(Some("   ".to_owned()), Some("real".to_owned())),
        Some(("real".to_owned(), Source::Keyring))
    );
    assert_eq!(resolve(Some(String::new()), None), None);
}

#[test]
fn no_key_anywhere_yields_nothing() {
    assert_eq!(resolve(None, None), None);
}

#[test]
fn a_keyring_failure_points_at_the_environment_instead() {
    let error = SecretError::Keyring {
        env_var: "ANTHROPIC_API_KEY".to_owned(),
        detail: "no backend".to_owned(),
    };

    assert!(error.message().contains("set ANTHROPIC_API_KEY instead"));
}

#[test]
fn both_sources_describe_themselves() {
    assert_eq!(Source::Environment.label(), "environment");
    assert_eq!(Source::Keyring.label(), "system keyring");
}

#[test]
fn a_startup_failure_names_the_server_and_the_cause() {
    let failure =
        StartupFailure { server: "files".to_owned(), detail: "no such command".to_owned() };

    let shown = failure.message();

    assert!(shown.contains("files"), "unexpected: {shown}");
    assert!(shown.contains("no such command"), "unexpected: {shown}");
}

#[test]
fn tool_names_are_namespaced_by_the_users_name_for_the_server() {
    assert_eq!(qualified_name("files", "search"), "mcp__files__search");
    assert_ne!(qualified_name("a", "search"), qualified_name("b", "search"));
}

#[test]
fn an_empty_result_renders_as_empty_rather_than_panicking() {
    assert_eq!(render_blocks(&Vec::new()), "");
}

fn resolve_on(command: &str, windows: bool, dirs: Option<Vec<String>>, found: Vec<bool>) -> String {
    let tried = candidates(command, windows, &dirs, &None);
    resolve_command(command, &tried, &found)
}

#[test]
fn a_command_with_an_extension_is_left_alone() {
    let dirs = Some(vec!["C:\\Program Files\\nodejs".to_owned()]);
    assert!(candidates("npx.cmd", true, &dirs, &None).is_empty());
    assert_eq!(resolve_on("npx.cmd", true, dirs, vec![true; 4]), "npx.cmd");
}

#[test]
fn a_path_is_left_alone() {
    let dirs = Some(vec!["C:\\tools".to_owned()]);
    assert_eq!(resolve_on("./tools/server", true, dirs.clone(), vec![true; 4]), "./tools/server");
    assert_eq!(resolve_on("C:\\tools\\server", true, dirs, vec![true; 4]), "C:\\tools\\server");
}

#[test]
fn an_unknown_command_is_returned_unchanged() {
    let dirs = Some(vec!["C:\\Windows\\System32".to_owned(), "C:\\bin".to_owned()]);
    assert_eq!(
        resolve_on("definitely-not-installed-8c1a", true, dirs, vec![false; 8]),
        "definitely-not-installed-8c1a"
    );
}

#[test]
fn unix_resolution_is_left_to_the_operating_system() {
    let dirs = Some(vec!["/usr/bin".to_owned(), "/bin".to_owned()]);
    assert!(candidates("sh", false, &dirs, &None).is_empty());
    assert_eq!(resolve_on("sh", false, dirs, vec![true; 8]), "sh");
}

#[test]
fn a_windows_command_resolves_to_something_that_exists() {
    // `cmd.exe` sits in System32; the lookup tries `.COM` first and finds
    // `.EXE` second.
    let dirs = Some(vec!["C:\\Windows\\System32".to_owned()]);
    let resolved = resolve_on("cmd", true, dirs, vec![false, true, false, false]);

    assert!(
        resolved.to_lowercase().ends_with(".exe"),
        "expected an executable with an extension, got {resolved}"
    );
    assert_eq!(resolved, "C:\\Windows\\System32\\cmd.EXE");
}

#[test]
fn short_error_bodies_are_passed_through_unchanged() {
    assert_eq!(truncate_body("bad request"), "bad request");
}

#[test]
fn lib_truncation_never_splits_a_multi_byte_character() {
    let body = "ä".repeat(MAX_ERROR_BODY);
    let truncated = truncate_body(&body);
    assert!(truncated.contains("bytes total"));
}

#[test]
fn token_counts_stay_readable_at_every_magnitude() {
    assert_eq!(format_tokens(0), "0");
    assert_eq!(format_tokens(999), "999");
    assert_eq!(format_tokens(12_400), "12.4k");
}

#[test]
fn every_status_has_a_label_that_names_its_exit() {
    assert!(status_label(Status::Working).contains("Esc"));
    assert_eq!(status_label(Status::Idle), "ready");
}

fn server(command: &str, args: &[&str], env: &[(&str, &str)], enabled: bool) -> ServerConfig {
    ServerConfig {
        command: command.to_owned(),
        args: args.iter().map(|a| (*a).to_owned()).collect(),
        env: env.iter().map(|(k, v)| ((*k).to_owned(), (*v).to_owned())).collect(),
        enabled,
    }
}

#[test]
fn servers_are_enabled_unless_turned_off() {
    let config = McpConfig {
        servers: vec![
            ("db".to_owned(), server("b", &[], &[], false)),
            ("files".to_owned(), server("a", &[], &[], true)),
        ],
    };

    let running: Vec<&str> = config.enabled().into_iter().map(|i| config.servers[i].0.as_str()).collect();

    assert_eq!(running, ["files"]);
    assert!(true_code::mcp::enabled_by_default(), "a server with no `enabled` key runs");
}

#[test]
fn text_blocks_are_joined_in_order() {
    let blocks = vec![Block::Text("first".to_owned()), Block::Text("second".to_owned())];
    assert_eq!(render_blocks(&blocks), "first\nsecond");
}

#[test]
fn a_missing_key_names_both_ways_to_supply_one() {
    let error = SecretError::Missing { provider: "openrouter".to_owned(), env_var: "OPENROUTER_API_KEY".to_owned() };

    let message = error.message();
    assert!(message.contains("truecode auth login openrouter"), "unexpected: {message}");
    assert!(message.contains("OPENROUTER_API_KEY"), "unexpected: {message}");
}

#[test]
fn a_layer_replaces_only_the_settings_it_gives() {
    let base = Settings { provider: "openrouter".to_owned(), model: "m".to_owned(), budget: 5u32, system_prompt: None };
    let layer = Layer { provider: None, model: Some("openai/gpt-5".to_owned()), budget: None, system_prompt: None };

    let merged = apply_layer(base, layer);

    assert_eq!(merged.model, "openai/gpt-5");
    assert_eq!(merged.provider, "openrouter");
    assert_eq!(merged.budget, 5);
    assert_eq!(merged.system_prompt, None);
}

#[test]
fn long_error_bodies_are_truncated_with_a_hint() {
    let body = "x".repeat(MAX_ERROR_BODY + 500);
    let truncated = truncate_body(&body);
    assert!(truncated.len() < body.len());
    assert!(truncated.contains("bytes total"));
}

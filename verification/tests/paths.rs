use true_code::checks::{detect, profiles, CheckKind};
use true_code::path::{display_relative, resolve_in_workspace, tried_paths, PathError};

const OUTER: &str = "/work";
const ROOT: &str = "/work/project";

/// A small file tree: the workspace with `src/lib.rs`, and `secret.txt`
/// beside it, outside. `links` maps a path to where its symlink points.
fn canonicalize(path: &str, links: &[(&str, &str)]) -> Option<String> {
    let existing = ["/", "/work", "/work/project", "/work/project/src", "/work/project/src/lib.rs", "/work/secret.txt"];
    let mut current = String::new();
    for part in path.split('/') {
        match part {
            "" | "." => {}
            ".." => {
                let cut = current.rfind('/').unwrap_or(0);
                current.truncate(cut);
            }
            name => {
                current.push('/');
                current.push_str(name);
                if let Some((_, target)) = links.iter().find(|(from, _)| *from == current) {
                    current = (*target).to_owned();
                }
                if !existing.contains(&current.as_str()) {
                    return None;
                }
            }
        }
    }
    Some(if current.is_empty() { "/".to_owned() } else { current })
}

fn resolve_with(candidate: &str, links: &[(&str, &str)]) -> Result<String, PathError> {
    let root = canonicalize(ROOT, links);
    let base = root.clone().expect("the workspace exists");
    let joined = if candidate.starts_with('/') { candidate.to_owned() } else { format!("{base}/{candidate}") };
    let canon: Vec<Option<String>> = tried_paths(&joined).iter().map(|p| canonicalize(p, links)).collect();
    resolve_in_workspace(ROOT, candidate, root, &canon)
}

fn resolve(candidate: &str) -> Result<String, PathError> {
    resolve_with(candidate, &[])
}

#[test]
fn a_relative_path_inside_the_workspace_resolves() {
    let resolved = resolve("src/lib.rs").expect("path is inside");
    assert!(resolved.ends_with("lib.rs"));
}

#[test]
fn parent_traversal_that_stays_inside_is_allowed() {
    let resolved = resolve("src/../src/lib.rs").expect("path is inside");
    assert!(resolved.ends_with("lib.rs"));
}

#[test]
fn parent_traversal_that_escapes_is_refused() {
    let error = resolve("../secret.txt").expect_err("path escapes");
    assert!(matches!(error, PathError::OutsideWorkspace(_)));
}

#[test]
fn deep_traversal_to_a_home_directory_is_refused() {
    let error = resolve("../../../../../../.ssh/id_rsa").expect_err("path escapes");
    assert!(matches!(error, PathError::OutsideWorkspace(_)));
}

#[test]
fn an_absolute_path_outside_the_workspace_is_refused() {
    let error = resolve(&format!("{OUTER}/secret.txt")).expect_err("path escapes");
    assert!(matches!(error, PathError::OutsideWorkspace(_)));
}

#[test]
fn an_absolute_path_inside_the_workspace_is_allowed() {
    assert!(resolve(&format!("{ROOT}/src/lib.rs")).is_ok());
}

#[test]
fn a_file_that_does_not_exist_yet_still_resolves_inside() {
    let resolved = resolve("src/new_module.rs").expect("path is inside");
    assert!(resolved.ends_with("new_module.rs"));
}

#[test]
fn a_missing_file_in_an_escaping_directory_is_still_refused() {
    let error = resolve("../elsewhere/new.rs").expect_err("path escapes");
    assert!(matches!(error, PathError::OutsideWorkspace(_)));
}

#[test]
fn an_empty_path_is_refused() {
    assert_eq!(resolve("   "), Err(PathError::Empty));
}

#[test]
fn the_workspace_root_itself_resolves() {
    assert!(resolve(".").is_ok());
}

#[test]
fn a_symlink_pointing_out_of_the_workspace_is_refused() {
    let error = resolve_with("innocent.txt", &[("/work/project/innocent.txt", "/work/secret.txt")])
        .expect_err("symlink escapes");
    assert!(matches!(error, PathError::OutsideWorkspace(_)));
}

#[test]
fn display_paths_are_relative_and_use_forward_slashes() {
    assert_eq!(display_relative("/work/project/src/a.rs", ROOT), "src/a.rs");
}

#[test]
fn a_rust_project_is_detected_by_its_manifest() {
    let profile = detect(&vec!["Cargo.toml".to_owned()]).expect("a Rust project is recognised");

    assert_eq!(profile.name, "Rust");
    assert!(profile.checks.iter().any(|check| check.kind == CheckKind::Test));
}

#[test]
fn an_unknown_project_yields_no_profile() {
    assert!(detect(&Vec::new()).is_none(), "guessing would produce commands that do not exist");
}

#[test]
fn the_first_matching_profile_wins() {
    let names = vec!["package.json".to_owned(), "Cargo.toml".to_owned()];

    assert_eq!(detect(&names).expect("detected").name, "Rust");
}

#[test]
fn every_profile_offers_a_test_command() {
    for profile in profiles() {
        assert!(
            profile.checks.iter().any(|check| check.kind == CheckKind::Test),
            "{} has no way to prove behaviour",
            profile.name
        );
    }
}

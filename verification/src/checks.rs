//! Which commands count as evidence that a change works, and which checks a
//! project offers.
use vstd::prelude::*;
use crate::text::contains;

verus! {

/// What kind of evidence a command produces.
#[derive(Debug, Clone, Copy, PartialEq, Eq, Structural)]
pub enum CheckKind {
    /// Compiles the project.
    Build,
    /// Runs the tests.
    Test,
    /// Runs a linter or type checker.
    Lint,
    /// Proves nothing about the change.
    Other,
}

/// The label of a kind.
pub open spec fn kind_label(k: CheckKind) -> Seq<char> {
    match k {
        CheckKind::Build => "build"@,
        CheckKind::Test => "test"@,
        CheckKind::Lint => "lint"@,
        CheckKind::Other => "ran"@,
    }
}

impl CheckKind {
    /// A short label for the proof panel.
    pub fn label(self) -> (r: &'static str)
        ensures
            r@ == kind_label(self),
    {
        match self {
            CheckKind::Build => "build",
            CheckKind::Test => "test",
            CheckKind::Lint => "lint",
            CheckKind::Other => "ran",
        }
    }
}

/// A command a project offers as a check.
#[derive(Debug, Clone, Copy, PartialEq, Eq)]
pub struct Check {
    pub kind: CheckKind,
    pub command: &'static str,
}

/// The checks of one kind of project, recognised by a marker file.
#[derive(Debug, Clone)]
pub struct Profile {
    pub name: &'static str,
    pub marker: &'static str,
    pub checks: Vec<Check>,
}

/// The known project kinds as values: name, marker, and checks.
pub open spec fn profiles_spec() -> Seq<(Seq<char>, Seq<char>, Seq<(CheckKind, Seq<char>)>)> {
    seq![
        ("Rust"@, "Cargo.toml"@, seq![
            (CheckKind::Build, "cargo build --workspace"@),
            (CheckKind::Test, "cargo test --workspace"@),
            (CheckKind::Lint, "cargo clippy --workspace -- -D warnings"@),
        ]),
        ("Go"@, "go.mod"@, seq![
            (CheckKind::Build, "go build ./..."@),
            (CheckKind::Test, "go test ./..."@),
            (CheckKind::Lint, "go vet ./..."@),
        ]),
        ("Python"@, "pyproject.toml"@, seq![
            (CheckKind::Test, "pytest"@),
            (CheckKind::Lint, "ruff check ."@),
        ]),
        ("Node"@, "package.json"@, seq![(CheckKind::Test, "npm test"@)]),
    ]
}

/// A profile as a value.
pub open spec fn profile_view(p: Profile) -> (Seq<char>, Seq<char>, Seq<(CheckKind, Seq<char>)>) {
    (p.name@, p.marker@, p.checks@.map_values(|c: Check| (c.kind, c.command@)))
}

/// The known project kinds, in order of precedence.
pub fn profiles() -> (r: Vec<Profile>)
    ensures
        r@.map_values(|p: Profile| profile_view(p)) == profiles_spec(),
{
    let rust = Profile {
        name: "Rust",
        marker: "Cargo.toml",
        checks: vec![
            Check { kind: CheckKind::Build, command: "cargo build --workspace" },
            Check { kind: CheckKind::Test, command: "cargo test --workspace" },
            Check { kind: CheckKind::Lint, command: "cargo clippy --workspace -- -D warnings" },
        ],
    };
    let go = Profile {
        name: "Go",
        marker: "go.mod",
        checks: vec![
            Check { kind: CheckKind::Build, command: "go build ./..." },
            Check { kind: CheckKind::Test, command: "go test ./..." },
            Check { kind: CheckKind::Lint, command: "go vet ./..." },
        ],
    };
    let python = Profile {
        name: "Python",
        marker: "pyproject.toml",
        checks: vec![
            Check { kind: CheckKind::Test, command: "pytest" },
            Check { kind: CheckKind::Lint, command: "ruff check ." },
        ],
    };
    let node = Profile {
        name: "Node",
        marker: "package.json",
        checks: vec![Check { kind: CheckKind::Test, command: "npm test" }],
    };
    proof {
        assert(profile_view(rust) =~= profiles_spec()[0]);
        assert(profile_view(go) =~= profiles_spec()[1]);
        assert(profile_view(python) =~= profiles_spec()[2]);
        assert(profile_view(node) =~= profiles_spec()[3]);
    }
    let r = vec![rust, go, python, node];
    proof {
        assert(r@.map_values(|p: Profile| profile_view(p)) =~= profiles_spec());
    }
    r
}

/// Whether `name` is among `names`.
pub open spec fn listed(names: Seq<Seq<char>>, name: Seq<char>) -> bool {
    exists|i: int| 0 <= i < names.len() && names[i] == name
}

/// The first profile, in order of precedence, whose marker is among `existing`.
pub open spec fn detected(existing: Seq<Seq<char>>, from: int) -> Option<int>
    decreases profiles_spec().len() - from,
{
    if from < 0 || from >= profiles_spec().len() {
        None
    } else if listed(existing, profiles_spec()[from].1) {
        Some(from)
    } else {
        detected(existing, from + 1)
    }
}

/// Whether `name` is among `names`, executable.
fn is_listed(names: &Vec<String>, name: &str) -> (r: bool)
    ensures
        r == listed(names@.map_values(|s: String| s@), name@),
{
    let ghost nv = names@.map_values(|s: String| s@);
    let mut i: usize = 0;
    while i < names.len()
        invariant
            i <= names.len(),
            nv == names@.map_values(|s: String| s@),
            forall|j: int| 0 <= j < i ==> nv[j] != name@,
        decreases names.len() - i,
    {
        if crate::text::str_eq(names[i].as_str(), name) {
            proof {
                assert(nv[i as int] == name@);
            }
            return true;
        }
        i += 1;
    }
    false
}

/// The project's profile: the first, in order of precedence, whose marker
/// file is among the names `existing` in the project root.
pub fn detect(existing: &Vec<String>) -> (r: Option<Profile>)
    ensures
        match detected(existing@.map_values(|s: String| s@), 0) {
            None => r is None,
            Some(i) => r matches Some(p) && profile_view(p) == profiles_spec()[i],
        },
{
    let mut all = profiles();
    let ghost ev = existing@.map_values(|s: String| s@);
    let mut i: usize = 0;
    while i < all.len()
        invariant
            i <= all.len(),
            all@.map_values(|p: Profile| profile_view(p)) == profiles_spec(),
            ev == existing@.map_values(|s: String| s@),
            detected(ev, 0) == detected(ev, i as int),
        decreases all.len() - i,
    {
        proof {
            assert(all@.map_values(|p: Profile| profile_view(p))[i as int] == profile_view(
                all@[i as int],
            ));
        }
        if is_listed(existing, all[i].marker) {
            let found = all.remove(i);
            return Some(found);
        }
        i += 1;
    }
    None
}

/// Patterns of commands that lint.
pub open spec fn lint_patterns() -> Seq<Seq<char>> {
    seq!["clippy"@, "lint"@, "go vet"@, "ruff"@, "eslint"@, "fmt --check"@, "mypy"@]
}

/// Patterns of commands that test.
pub open spec fn test_patterns() -> Seq<Seq<char>> {
    seq!["test"@, "pytest"@, "jest"@, "vitest"@, "spec"@]
}

/// Patterns of commands that build.
pub open spec fn build_patterns() -> Seq<Seq<char>> {
    seq!["build"@, "compile"@, "cargo check"@, "tsc"@, "make"@]
}

/// Whether any pattern occurs in `text`.
pub open spec fn any_occurs(patterns: Seq<Seq<char>>, text: Seq<char>) -> bool {
    exists|i: int| 0 <= i < patterns.len() && contains(text, #[trigger] patterns[i])
}

/// The kind of evidence a command line produces, judged on its lowercase
/// form: a lint pattern wins over a test pattern, which wins over a build
/// pattern; anything else proves nothing.
pub open spec fn kind_of(lowered: Seq<char>) -> CheckKind {
    if any_occurs(lint_patterns(), lowered) {
        CheckKind::Lint
    } else if any_occurs(test_patterns(), lowered) {
        CheckKind::Test
    } else if any_occurs(build_patterns(), lowered) {
        CheckKind::Build
    } else {
        CheckKind::Other
    }
}

/// Whether any of `patterns` occurs in `text`, executable.
fn any_in(patterns: &Vec<&'static str>, text: &str) -> (r: bool)
    ensures
        r == any_occurs(patterns@.map_values(|p: &str| p@), text@),
{
    let ghost pv = patterns@.map_values(|p: &str| p@);
    let mut i: usize = 0;
    while i < patterns.len()
        invariant
            i <= patterns.len(),
            pv == patterns@.map_values(|p: &str| p@),
            forall|j: int| 0 <= j < i ==> !contains(text@, #[trigger] pv[j]),
        decreases patterns.len() - i,
    {
        if crate::text::str_contains(text, patterns[i]) {
            proof {
                assert(contains(text@, pv[i as int]));
            }
            return true;
        }
        i += 1;
    }
    false
}

/// Classifies a command by the evidence it produces.
pub fn classify(command: &str) -> (r: CheckKind)
    ensures
        r == kind_of(crate::text::lowercase(command@)),
{
    let lowered = crate::text::to_lowercase(command);
    let low = lowered.as_str();
    let lint = vec!["clippy", "lint", "go vet", "ruff", "eslint", "fmt --check", "mypy"];
    let test = vec!["test", "pytest", "jest", "vitest", "spec"];
    let build = vec!["build", "compile", "cargo check", "tsc", "make"];
    proof {
        assert(lint@.map_values(|p: &str| p@) =~= lint_patterns());
        assert(test@.map_values(|p: &str| p@) =~= test_patterns());
        assert(build@.map_values(|p: &str| p@) =~= build_patterns());
    }
    if any_in(&lint, low) {
        CheckKind::Lint
    } else if any_in(&test, low) {
        CheckKind::Test
    } else if any_in(&build, low) {
        CheckKind::Build
    } else {
        CheckKind::Other
    }
}


/// Which kind a command is: any lint pattern makes it a lint; otherwise any
/// test pattern makes it a test, whatever build pattern it also holds (so
/// `make test` is a test); otherwise any build pattern makes it a build;
/// otherwise it proves nothing.
pub proof fn lemma_classification_precedence(lowered: Seq<char>)
    ensures
        forall|i: int|
            0 <= i < lint_patterns().len() && contains(lowered, #[trigger] lint_patterns()[i]) ==> kind_of(lowered)
                == CheckKind::Lint,
        forall|i: int|
            0 <= i < test_patterns().len() && contains(lowered, #[trigger] test_patterns()[i]) && !any_occurs(
                lint_patterns(),
                lowered,
            ) ==> kind_of(lowered) == CheckKind::Test,
        forall|i: int|
            0 <= i < build_patterns().len() && contains(lowered, #[trigger] build_patterns()[i]) && !any_occurs(
                lint_patterns(),
                lowered,
            ) && !any_occurs(test_patterns(), lowered) ==> kind_of(lowered) == CheckKind::Build,
        !any_occurs(lint_patterns(), lowered) && !any_occurs(test_patterns(), lowered) && !any_occurs(
            build_patterns(),
            lowered,
        ) ==> kind_of(lowered) == CheckKind::Other,
        contains(lowered, "test"@) && !any_occurs(lint_patterns(), lowered) ==> kind_of(lowered)
            == CheckKind::Test,
        contains(lowered, "make"@) && !any_occurs(lint_patterns(), lowered) && !any_occurs(test_patterns(), lowered)
            ==> kind_of(lowered) == CheckKind::Build,
{
    assert(test_patterns()[0] == "test"@);
    assert(build_patterns()[4] == "make"@);
}

} // verus!

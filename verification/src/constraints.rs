//! The user's rules for a project, and how a change or a command is judged
//! against them.
use vstd::prelude::*;
use crate::diff::FileDiff;
use crate::patterns::{
    GlobMatcher, Pattern, REGEX_DEFAULT_SIZE_LIMIT, glob_set_matches, globset_build_error,
    regex_build_error, regex_matches, string_views,
};
use crate::text::{push_str, trim};

verus! {

/// Where the rules live, relative to the project root.
pub const CONSTRAINTS_FILE: &'static str = ".truecode/constraints.toml";

/// A rule as written in the file.
#[derive(Debug, Clone)]
pub struct RawConstraint {
    pub description: String,
    pub forbid_added: Option<String>,
    pub forbid_files: Vec<String>,
    pub forbid_command: Option<String>,
    pub in_files: Vec<String>,
    pub except_files: Vec<String>,
}

/// Why the rules could not be loaded.
#[derive(Debug)]
pub enum ConstraintError {
    /// The file is not valid TOML for a ledger; the parser's message.
    Parse(String),
    /// A pattern of a rule does not compile.
    Pattern { description: String, field: String, detail: String },
    /// The file could not be read; the system's message.
    Read(String),
}

/// The text of a constraint error.
pub open spec fn constraint_error_text(e: ConstraintError) -> Seq<char> {
    match e {
        ConstraintError::Parse(m) => ".truecode/constraints.toml is invalid: "@ + m@,
        ConstraintError::Pattern { description, field, detail } => "constraint `"@ + description@
            + "` has an invalid "@ + field@ + ": "@ + detail@,
        ConstraintError::Read(m) => "cannot read .truecode/constraints.toml: "@ + m@,
    }
}

impl ConstraintError {
    /// The message shown to the user.
    pub fn message(&self) -> (r: String)
        ensures
            r@ == constraint_error_text(*self),
    {
        match self {
            ConstraintError::Parse(m) => {
                let mut out = String::from_str(".truecode/constraints.toml is invalid: ");
                push_str(&mut out, m.as_str());
                out
            },
            ConstraintError::Pattern { description, field, detail } => {
                let mut out = String::from_str("constraint `");
                push_str(&mut out, description.as_str());
                push_str(&mut out, "` has an invalid ");
                push_str(&mut out, field.as_str());
                push_str(&mut out, ": ");
                push_str(&mut out, detail.as_str());
                out
            },
            ConstraintError::Read(m) => {
                let mut out = String::from_str("cannot read .truecode/constraints.toml: ");
                push_str(&mut out, m.as_str());
                out
            },
        }
    }
}

/// A compiled rule.
pub struct Constraint {
    pub description: String,
    added: Option<Pattern>,
    files: Option<GlobMatcher>,
    command: Option<Pattern>,
    scope: Option<GlobMatcher>,
    except: Option<GlobMatcher>,
}

/// A compiled rule as values: the texts its patterns were compiled from.
pub struct ConstraintView {
    pub description: Seq<char>,
    pub added: Option<Seq<char>>,
    pub files: Option<Seq<Seq<char>>>,
    pub command: Option<Seq<char>>,
    pub scope: Option<Seq<Seq<char>>>,
    pub except: Option<Seq<Seq<char>>>,
}

/// The source of an optional regex.
pub open spec fn regex_view(p: Option<Pattern>) -> Option<Seq<char>> {
    match p {
        Some(p) => Some(p.source()),
        None => None,
    }
}

/// The patterns of an optional glob set.
pub open spec fn globs_view(g: Option<GlobMatcher>) -> Option<Seq<Seq<char>>> {
    match g {
        Some(g) => Some(g.patterns()),
        None => None,
    }
}

impl Constraint {
    /// The patterns of a rule match case-sensitively, as `Regex::new` builds them.
    pub closed spec fn wf(&self) -> bool {
        &&& (self.added matches Some(p) ==> !p.ignores_case())
        &&& (self.command matches Some(p) ==> !p.ignores_case())
    }
}

impl View for Constraint {
    type V = ConstraintView;

    closed spec fn view(&self) -> ConstraintView {
        ConstraintView {
            description: self.description@,
            added: regex_view(self.added),
            files: globs_view(self.files),
            command: regex_view(self.command),
            scope: globs_view(self.scope),
            except: globs_view(self.except),
        }
    }
}

/// A rule that a change or a command breaks, with the evidence.
#[derive(Debug, Clone, PartialEq, Eq)]
pub struct Violation {
    pub description: String,
    pub evidence: String,
}

/// A violation as values.
pub open spec fn violation_view(v: Violation) -> (Seq<char>, Seq<char>) {
    (v.description@, v.evidence@)
}

/// The one-line summary of a violation.
pub open spec fn violation_summary(description: Seq<char>, evidence: Seq<char>) -> Seq<char> {
    description + " — "@ + evidence
}

impl Violation {
    /// A one-line summary: the rule, then the evidence.
    pub fn summary(&self) -> (r: String)
        ensures
            r@ == violation_summary(self.description@, self.evidence@),
    {
        let mut out = String::from_str(self.description.as_str());
        push_str(&mut out, " — ");
        push_str(&mut out, self.evidence.as_str());
        out
    }
}

/// What compiling an optional regex field decides: its source when it
/// compiles, the error text otherwise.
pub open spec fn regex_field(source: Option<Seq<char>>) -> Result<Option<Seq<char>>, Seq<char>> {
    match source {
        None => Ok(None),
        Some(s) => match regex_build_error(s, false, REGEX_DEFAULT_SIZE_LIMIT as nat) {
            None => Ok(Some(s)),
            Some(e) => Err(e),
        },
    }
}

/// What compiling a glob list field decides: nothing for an empty list, the
/// patterns when they compile, the error text otherwise.
pub open spec fn globs_field(patterns: Seq<Seq<char>>) -> Result<Option<Seq<Seq<char>>>, Seq<char>> {
    if patterns.len() == 0 {
        Ok(None)
    } else {
        match globset_build_error(patterns) {
            None => Ok(Some(patterns)),
            Some(e) => Err(e.1),
        }
    }
}

/// What compiling a rule decides: the compiled rule, or the first field (in
/// the order `forbid_added`, `forbid_command`, `forbid_files`, `in_files`,
/// `except_files`) that fails, with the reason.
pub open spec fn compiled(raw: RawConstraint) -> Result<ConstraintView, (Seq<char>, Seq<char>)> {
    let added = regex_field(match raw.forbid_added {
        Some(s) => Some(s@),
        None => None,
    });
    let command = regex_field(match raw.forbid_command {
        Some(s) => Some(s@),
        None => None,
    });
    let files = globs_field(string_views(raw.forbid_files@));
    let scope = globs_field(string_views(raw.in_files@));
    let except = globs_field(string_views(raw.except_files@));
    if added is Err {
        Err(("forbid_added"@, added->Err_0))
    } else if command is Err {
        Err(("forbid_command"@, command->Err_0))
    } else if files is Err {
        Err(("forbid_files"@, files->Err_0))
    } else if scope is Err {
        Err(("in_files"@, scope->Err_0))
    } else if except is Err {
        Err(("except_files"@, except->Err_0))
    } else {
        Ok(
            ConstraintView {
                description: raw.description@,
                added: added->Ok_0,
                files: files->Ok_0,
                command: command->Ok_0,
                scope: scope->Ok_0,
                except: except->Ok_0,
            },
        )
    }
}

/// Compiles an optional regex field.
fn compile_regex_field(description: &String, field: &str, source: &Option<String>) -> (r: Result<
    Option<Pattern>,
    ConstraintError,
>)
    ensures
        match r {
            Ok(p) => regex_field(
                match source {
                    Some(s) => Some(s@),
                    None => None,
                },
            ) == Ok::<Option<Seq<char>>, Seq<char>>(regex_view(p)) && (p matches Some(pp) ==> !pp.ignores_case()),
            Err(e) => exists|msg: Seq<char>|
                regex_field(
                    match source {
                        Some(s) => Some(s@),
                        None => None,
                    },
                ) == Err::<Option<Seq<char>>, Seq<char>>(msg) && (e matches ConstraintError::Pattern { description: d, field: f, detail } && d@ == description@ && f@ == field@ && detail@ == msg),
        },
{
    match source {
        None => Ok(None),
        Some(s) => match Pattern::compile(s.as_str(), false, REGEX_DEFAULT_SIZE_LIMIT) {
            Ok(p) => Ok(Some(p)),
            Err(msg) => Err(
                ConstraintError::Pattern {
                    description: description.clone(),
                    field: String::from_str(field),
                    detail: msg,
                },
            ),
        },
    }
}

/// Compiles a glob list field.
fn compile_globs_field(description: &String, field: &str, patterns: &Vec<String>) -> (r: Result<
    Option<GlobMatcher>,
    ConstraintError,
>)
    ensures
        match r {
            Ok(g) => globs_field(string_views(patterns@)) == Ok::<
                Option<Seq<Seq<char>>>,
                Seq<char>,
            >(globs_view(g)),
            Err(e) => exists|msg: Seq<char>|
                globs_field(string_views(patterns@)) == Err::<Option<Seq<Seq<char>>>, Seq<char>>(
                    msg,
                ) && (e matches ConstraintError::Pattern { description: d, field: f, detail } && d@ == description@ && f@ == field@ && detail@ == msg),
        },
{
    if patterns.len() == 0 {
        return Ok(None);
    }
    match GlobMatcher::compile(patterns) {
        Ok(g) => Ok(Some(g)),
        Err((_, msg)) => Err(
            ConstraintError::Pattern {
                description: description.clone(),
                field: String::from_str(field),
                detail: msg,
            },
        ),
    }
}

impl Constraint {
    /// Compiles a rule as written into one that can be checked.
    pub fn compile(raw: RawConstraint) -> (r: Result<Constraint, ConstraintError>)
        ensures
            match r {
                Ok(c) => compiled(raw) == Ok::<ConstraintView, (Seq<char>, Seq<char>)>(c@) && c.wf(),
                Err(e) => exists|failed: (Seq<char>, Seq<char>)|
                    compiled(raw) == Err::<ConstraintView, (Seq<char>, Seq<char>)>(failed) && (e matches ConstraintError::Pattern { description, field, detail } && description@ == raw.description@ && field@ == failed.0 && detail@ == failed.1),
            },
    {
        let added = compile_regex_field(&raw.description, "forbid_added", &raw.forbid_added)?;
        let command = compile_regex_field(&raw.description, "forbid_command", &raw.forbid_command)?;
        let files = compile_globs_field(&raw.description, "forbid_files", &raw.forbid_files)?;
        let scope = compile_globs_field(&raw.description, "in_files", &raw.in_files)?;
        let except = compile_globs_field(&raw.description, "except_files", &raw.except_files)?;
        Ok(Constraint { description: raw.description, added, files, command, scope, except })
    }
}

/// Whether a rule applies to a path: not excepted, and in scope when it has one.
pub open spec fn applies_to(c: ConstraintView, path: Seq<char>) -> bool {
    !(c.except matches Some(ex) && glob_set_matches(ex, path)) && (c.scope is None || (c.scope matches Some(sc) && glob_set_matches(sc, path)))
}

/// The first of `ls` that `source` matches.
pub open spec fn first_matching(source: Seq<char>, ls: Seq<Seq<char>>, from: int) -> Option<int>
    decreases ls.len() - from,
{
    if from < 0 || from >= ls.len() {
        None
    } else if regex_matches(source, false, ls[from]) {
        Some(from)
    } else {
        first_matching(source, ls, from + 1)
    }
}

/// What a rule says of a change to `path` that adds `added` lines: a forbidden
/// file is broken by any change to it; a forbidden pattern by the first added
/// line that matches it, where the rule applies.
pub open spec fn diff_violation(c: ConstraintView, path: Seq<char>, added: Seq<Seq<char>>) -> Option<
    (Seq<char>, Seq<char>),
> {
    if c.files matches Some(fs) && glob_set_matches(fs, path) {
        Some((c.description, "changes "@ + path))
    } else if c.added is None || !applies_to(c, path) {
        None
    } else {
        match first_matching(c.added->Some_0, added, 0) {
            None => None,
            Some(i) => Some((c.description, path + ": "@ + trim(added[i]))),
        }
    }
}

/// What a rule says of running `command`.
pub open spec fn command_violation(c: ConstraintView, command: Seq<char>) -> Option<
    (Seq<char>, Seq<char>),
> {
    if c.command matches Some(src) && regex_matches(src, false, command) {
        Some((c.description, "runs `"@ + command + "`"@))
    } else {
        None
    }
}

/// An optional violation as values.
pub open spec fn opt_violation_view(v: Option<Violation>) -> Option<(Seq<char>, Seq<char>)> {
    match v {
        Some(v) => Some(violation_view(v)),
        None => None,
    }
}

impl Constraint {
    fn applies(&self, path: &str) -> (r: bool)
        ensures
            r == applies_to(self@, path@),
    {
        match &self.except {
            Some(set) => {
                if set.is_match(path) {
                    return false;
                }
            },
            None => {},
        }
        match &self.scope {
            Some(set) => set.is_match(path),
            None => true,
        }
    }

    /// What this rule says of a change.
    pub fn check_diff(&self, diff: &FileDiff) -> (r: Option<Violation>)
        requires
            self.wf(),
        ensures
            opt_violation_view(r) == diff_violation(
                self@,
                diff.path@,
                diff.added_lines@.map_values(|l: String| l@),
            ),
    {
        match &self.files {
            Some(set) => {
                if set.is_match(diff.path.as_str()) {
                    let mut evidence = String::from_str("changes ");
                    push_str(&mut evidence, diff.path.as_str());
                    return Some(Violation { description: self.description.clone(), evidence });
                }
            },
            None => {},
        }
        let pattern = match &self.added {
            Some(p) => p,
            None => {
                return None;
            },
        };
        if !self.applies(diff.path.as_str()) {
            return None;
        }
        proof {
            assert(self@.added == Some(pattern.source()));
        }
        let ghost lv = diff.added_lines@.map_values(|l: String| l@);
        let mut i: usize = 0;
        while i < diff.added_lines.len()
            invariant
                i <= diff.added_lines.len(),
                lv == diff.added_lines@.map_values(|l: String| l@),
                first_matching(pattern.source(), lv, 0) == first_matching(
                    pattern.source(),
                    lv,
                    i as int,
                ),
                pattern.ignores_case() == false,
                !(self@.files matches Some(fs) && glob_set_matches(fs, diff.path@)),
                self@.added == Some(pattern.source()),
                applies_to(self@, diff.path@),
            decreases diff.added_lines.len() - i,
        {
            proof {
                assert(lv[i as int] == diff.added_lines@[i as int]@);
            }
            if pattern.is_match(diff.added_lines[i].as_str()) {
                let mut evidence = String::from_str(diff.path.as_str());
                push_str(&mut evidence, ": ");
                push_str(&mut evidence, crate::text::trim_str(diff.added_lines[i].as_str()).as_str());
                return Some(Violation { description: self.description.clone(), evidence });
            }
            i += 1;
        }
        None
    }

    /// What this rule says of running a command.
    pub fn check_command(&self, command: &str) -> (r: Option<Violation>)
        requires
            self.wf(),
        ensures
            opt_violation_view(r) == command_violation(self@, command@),
    {
        match &self.command {
            Some(p) => {
                if p.is_match(command) {
                    let mut evidence = String::from_str("runs `");
                    push_str(&mut evidence, command);
                    push_str(&mut evidence, "`");
                    Some(Violation { description: self.description.clone(), evidence })
                } else {
                    None
                }
            },
            None => None,
        }
    }
}


/// The rules of a project and the reminders that are not checked.
pub struct Ledger {
    constraints: Vec<Constraint>,
    reminders: Vec<String>,
}

/// What the rules say of a change, rule by rule, skipping those it keeps.
pub open spec fn diff_violations(
    rules: Seq<ConstraintView>,
    path: Seq<char>,
    added: Seq<Seq<char>>,
) -> Seq<(Seq<char>, Seq<char>)>
    decreases rules.len(),
{
    if rules.len() == 0 {
        seq![]
    } else {
        let before = diff_violations(rules.drop_last(), path, added);
        match diff_violation(rules.last(), path, added) {
            Some(v) => before.push(v),
            None => before,
        }
    }
}

/// What the rules say of a command, rule by rule, skipping those it keeps.
pub open spec fn command_violations(rules: Seq<ConstraintView>, command: Seq<char>) -> Seq<
    (Seq<char>, Seq<char>),
>
    decreases rules.len(),
{
    if rules.len() == 0 {
        seq![]
    } else {
        let before = command_violations(rules.drop_last(), command);
        match command_violation(rules.last(), command) {
            Some(v) => before.push(v),
            None => before,
        }
    }
}

/// Violations as values.
pub open spec fn violations_view(v: Seq<Violation>) -> Seq<(Seq<char>, Seq<char>)> {
    v.map_values(|x: Violation| violation_view(x))
}

/// Items listed one per line, indented with a dash.
pub open spec fn bullets(items: Seq<Seq<char>>) -> Seq<char>
    decreases items.len(),
{
    if items.len() == 0 {
        seq![]
    } else {
        bullets(items.drop_last()) + "  - "@ + items.last() + seq!['\n']
    }
}

/// The system-prompt section for a ledger: nothing when it is empty,
/// otherwise the checked rules and the unchecked reminders, each under its
/// heading, and the instruction to stop rather than work around a rule.
pub open spec fn prompt_text(rules: Seq<Seq<char>>, notes: Seq<Seq<char>>) -> Seq<char> {
    if rules.len() == 0 && notes.len() == 0 {
        seq![]
    } else {
        "\n\nThe user has set rules for this project."@ + (if rules.len() > 0 {
            "\nThese are checked automatically before any change is applied, and a violation is shown to the user:\n"@
                + bullets(rules)
        } else {
            seq![]
        }) + (if notes.len() > 0 {
            "\nThese are not checked automatically. Following them is on you:\n"@ + bullets(notes)
        } else {
            seq![]
        }) + "\nIf a rule makes the task impossible, say so and stop. Do not work around it."@
    }
}

/// Appends the bullet list of `items` to `out`.
fn push_bullets(out: &mut String, texts: &Vec<&str>)
    ensures
        final(out)@ == old(out)@ + bullets(texts@.map_values(|t: &str| t@)),
{
    let ghost items = texts@.map_values(|t: &str| t@);
    let mut i: usize = 0;
    proof {
        assert(items.take(0) =~= seq![]);
    }
    while i < texts.len()
        invariant
            i <= texts.len(),
            texts@.map_values(|t: &str| t@) == items,
            out@ == old(out)@ + bullets(items.take(i as int)),
        decreases texts.len() - i,
    {
        proof {
            assert(items.take(i + 1).drop_last() =~= items.take(i as int));
            assert(items.take(i + 1).last() == texts@[i as int]@);
        }
        push_str(out, "  - ");
        push_str(out, texts[i]);
        push_str(out, "\n");
        proof {
            reveal_strlit("\n");
            assert(out@ =~= old(out)@ + bullets(items.take(i + 1)));
        }
        i += 1;
    }
    proof {
        assert(items.take(texts.len() as int) =~= items);
    }
}

impl Ledger {
    /// The compiled rules, as values.
    pub closed spec fn rules(&self) -> Seq<ConstraintView> {
        self.constraints@.map_values(|c: Constraint| c@)
    }

    /// The reminders.
    pub closed spec fn notes(&self) -> Seq<Seq<char>> {
        string_views(self.reminders@)
    }

    /// Every rule is well formed.
    pub closed spec fn wf(&self) -> bool {
        forall|i: int| 0 <= i < self.constraints@.len() ==> #[trigger] self.constraints@[i].wf()
    }

    /// A ledger with no rules and no reminders.
    pub fn new() -> (r: Self)
        ensures
            r.wf(),
            r.rules().len() == 0,
            r.notes().len() == 0,
    {
        Ledger { constraints: Vec::new(), reminders: Vec::new() }
    }

    /// Compiles the rules as written, in order, and keeps the reminders. The
    /// first rule that does not compile is reported.
    pub fn compile(raw: Vec<RawConstraint>, reminders: Vec<String>) -> (r: Result<Self, ConstraintError>)
        ensures
            match r {
                Ok(l) => l.wf() && l.notes() == string_views(reminders@) && l.rules().len()
                    == raw@.len() && forall|i: int|
                    0 <= i < raw@.len() ==> compiled(#[trigger] raw@[i]) == Ok::<
                        ConstraintView,
                        (Seq<char>, Seq<char>),
                    >(l.rules()[i]),
                Err(e) => exists|i: int|
                    0 <= i < raw@.len() && (forall|j: int| 0 <= j < i ==> compiled(#[trigger] raw@[j]) is Ok) && compiled(#[trigger] raw@[i]) is Err && (e matches ConstraintError::Pattern { description, field, detail } && description@ == raw@[i].description@ && field@ == compiled(raw@[i])->Err_0.0 && detail@ == compiled(raw@[i])->Err_0.1),
            },
    {
        let ghost orig = raw@;
        let n = raw.len();
        let mut rest = raw;
        let mut constraints: Vec<Constraint> = Vec::new();
        let mut i: usize = 0;
        proof {
            assert(orig.skip(0) =~= orig);
        }
        while rest.len() > 0
            invariant
                i <= orig.len(),
                orig == raw@,
                orig.len() == n,
                rest@ == orig.skip(i as int),
                constraints@.len() == i,
                forall|j: int| 0 <= j < i ==> #[trigger] constraints@[j].wf(),
                forall|j: int|
                    0 <= j < i ==> compiled(#[trigger] orig[j]) == Ok::<
                        ConstraintView,
                        (Seq<char>, Seq<char>),
                    >(constraints@[j]@),
            decreases rest.len(),
        {
            let one = rest.remove(0);
            proof {
                assert(one == orig[i as int]);
                assert(rest@ =~= orig.skip(i + 1));
            }
            let c = match Constraint::compile(one) {
                Ok(c) => c,
                Err(e) => {
                    proof {
                        assert(compiled(orig[i as int]) is Err);
                        assert(forall|j: int| 0 <= j < i ==> compiled(#[trigger] orig[j]) is Ok);
                    }
                    return Err(e);
                },
            };
            constraints.push(c);
            i += 1;
        }
        proof {
            assert(i == orig.len());
        }
        let l = Ledger { constraints, reminders };
        proof {
            assert forall|j: int| 0 <= j < orig.len() implies compiled(#[trigger] orig[j]) == Ok::<
                ConstraintView,
                (Seq<char>, Seq<char>),
            >(l.rules()[j]) by {
                assert(l.rules()[j] == l.constraints@[j]@);
            }
        }
        Ok(l)
    }

    /// Whether the ledger holds neither rules nor reminders.
    pub fn is_empty(&self) -> (r: bool)
        ensures
            r == (self.rules().len() == 0 && self.notes().len() == 0),
    {
        self.constraints.len() == 0 && self.reminders.len() == 0
    }

    /// The rules.
    pub fn constraints(&self) -> (r: &Vec<Constraint>)
        ensures
            r@.map_values(|c: Constraint| c@) == self.rules(),
    {
        &self.constraints
    }

    /// The reminders.
    pub fn reminders(&self) -> (r: &Vec<String>)
        ensures
            string_views(r@) == self.notes(),
    {
        &self.reminders
    }

    /// Every rule that a change breaks, in the order of the rules.
    pub fn check_diff(&self, diff: &FileDiff) -> (r: Vec<Violation>)
        requires
            self.wf(),
        ensures
            violations_view(r@) == diff_violations(
                self.rules(),
                diff.path@,
                diff.added_lines@.map_values(|l: String| l@),
            ),
    {
        let ghost rules = self.rules();
        let ghost added = diff.added_lines@.map_values(|l: String| l@);
        let mut out: Vec<Violation> = Vec::new();
        let mut i: usize = 0;
        proof {
            assert(rules.take(0) =~= seq![]);
            assert(violations_view(out@) =~= seq![]);
        }
        while i < self.constraints.len()
            invariant
                i <= self.constraints.len(),
                self.wf(),
                rules == self.rules(),
                added == diff.added_lines@.map_values(|l: String| l@),
                violations_view(out@) == diff_violations(rules.take(i as int), diff.path@, added),
            decreases self.constraints.len() - i,
        {
            proof {
                assert(rules.take(i + 1).drop_last() =~= rules.take(i as int));
                assert(rules.take(i + 1).last() == self.constraints@[i as int]@);
                assert(self.constraints@[i as int].wf());
            }
            let ghost before = violations_view(out@);
            match self.constraints[i].check_diff(diff) {
                Some(v) => {
                    out.push(v);
                    proof {
                        assert(violations_view(out@) =~= before.push(violation_view(v)));
                    }
                },
                None => {},
            }
            i += 1;
        }
        proof {
            assert(rules.take(self.constraints.len() as int) =~= rules);
        }
        out
    }

    /// Every rule that running a command breaks, in the order of the rules.
    pub fn check_command(&self, command: &str) -> (r: Vec<Violation>)
        requires
            self.wf(),
        ensures
            violations_view(r@) == command_violations(self.rules(), command@),
    {
        let ghost rules = self.rules();
        let mut out: Vec<Violation> = Vec::new();
        let mut i: usize = 0;
        proof {
            assert(rules.take(0) =~= seq![]);
            assert(violations_view(out@) =~= seq![]);
        }
        while i < self.constraints.len()
            invariant
                i <= self.constraints.len(),
                self.wf(),
                rules == self.rules(),
                violations_view(out@) == command_violations(rules.take(i as int), command@),
            decreases self.constraints.len() - i,
        {
            proof {
                assert(rules.take(i + 1).drop_last() =~= rules.take(i as int));
                assert(rules.take(i + 1).last() == self.constraints@[i as int]@);
                assert(self.constraints@[i as int].wf());
            }
            let ghost before = violations_view(out@);
            match self.constraints[i].check_command(command) {
                Some(v) => {
                    out.push(v);
                    proof {
                        assert(violations_view(out@) =~= before.push(violation_view(v)));
                    }
                },
                None => {},
            }
            i += 1;
        }
        proof {
            assert(rules.take(self.constraints.len() as int) =~= rules);
        }
        out
    }

    /// The rules as a section of the system prompt; empty for an empty ledger.
    pub fn prompt_section(&self) -> (r: String)
        ensures
            r@ == prompt_text(
                self.rules().map_values(|c: ConstraintView| c.description),
                self.notes(),
            ),
            r@.len() == 0 <==> (self.rules().len() == 0 && self.notes().len() == 0),
    {
        let ghost descs = self.rules().map_values(|c: ConstraintView| c.description);
        if self.constraints.len() == 0 && self.reminders.len() == 0 {
            return String::new();
        }
        let mut out = String::from_str("\n\nThe user has set rules for this project.");
        if self.constraints.len() > 0 {
            push_str(
                &mut out,
                "\nThese are checked automatically before any change is applied, and a violation is shown to the user:\n",
            );
            let mut texts: Vec<&str> = Vec::new();
            let mut i: usize = 0;
            while i < self.constraints.len()
                invariant
                    i <= self.constraints.len(),
                    descs == self.rules().map_values(|c: ConstraintView| c.description),
                    texts@.map_values(|t: &str| t@) == descs.take(i as int),
                decreases self.constraints.len() - i,
            {
                let ghost before = texts@.map_values(|t: &str| t@);
                texts.push(self.constraints[i].description.as_str());
                proof {
                    assert(texts@.map_values(|t: &str| t@) =~= before.push(
                        self.constraints@[i as int].description@,
                    ));
                    assert(descs.take(i + 1) =~= descs.take(i as int).push(
                        self.constraints@[i as int]@.description,
                    ));
                }
                i += 1;
            }
            proof {
                assert(descs.take(self.constraints.len() as int) =~= descs);
            }
            push_bullets(&mut out, &texts);
        }
        if self.reminders.len() > 0 {
            push_str(&mut out, "\nThese are not checked automatically. Following them is on you:\n");
            let mut texts: Vec<&str> = Vec::new();
            let mut i: usize = 0;
            while i < self.reminders.len()
                invariant
                    i <= self.reminders.len(),
                    texts@.map_values(|t: &str| t@) == self.notes().take(i as int),
                decreases self.reminders.len() - i,
            {
                let ghost before = texts@.map_values(|t: &str| t@);
                texts.push(self.reminders[i].as_str());
                proof {
                    assert(texts@.map_values(|t: &str| t@) =~= before.push(self.reminders@[i as int]@));
                    assert(self.notes().take(i + 1) =~= self.notes().take(i as int).push(
                        self.reminders@[i as int]@,
                    ));
                }
                i += 1;
            }
            proof {
                assert(self.notes().take(self.reminders.len() as int) =~= self.notes());
            }
            push_bullets(&mut out, &texts);
        }
        push_str(&mut out, "\nIf a rule makes the task impossible, say so and stop. Do not work around it.");
        proof {
            assert(out@ =~= prompt_text(descs, self.notes()));
        }
        out
    }
}


/// `first_matching` finds the earliest line from `from` on that matches.
proof fn lemma_first_matching(source: Seq<char>, ls: Seq<Seq<char>>, from: int)
    requires
        0 <= from,
    ensures
        match first_matching(source, ls, from) {
            Some(j) => from <= j < ls.len() && regex_matches(source, false, ls[j]) && forall|i: int|
                from <= i < j ==> !regex_matches(source, false, #[trigger] ls[i]),
            None => forall|i: int| from <= i < ls.len() ==> !regex_matches(source, false, #[trigger] ls[i]),
        },
    decreases ls.len() - from,
{
    if from < ls.len() && !regex_matches(source, false, ls[from]) {
        lemma_first_matching(source, ls, from + 1);
    }
}

/// A rule that forbids a pattern in added lines, and applies to a path it
/// does not forbid outright, is broken by a change exactly when some added
/// line matches the pattern; the evidence is the path and the earliest such
/// line, trimmed.
pub proof fn lemma_any_matching_line_breaks_the_rule(
    c: ConstraintView,
    path: Seq<char>,
    added: Seq<Seq<char>>,
    src: Seq<char>,
)
    requires
        !(c.files matches Some(fs) && glob_set_matches(fs, path)),
        c.added == Some(src),
        applies_to(c, path),
    ensures
        (exists|k: int| 0 <= k < added.len() && regex_matches(src, false, #[trigger] added[k]))
            <==> diff_violation(c, path, added) is Some,
        forall|j: int|
            0 <= j < added.len() && regex_matches(src, false, #[trigger] added[j]) && (forall|i: int|
                0 <= i < j ==> !regex_matches(src, false, #[trigger] added[i])) ==> diff_violation(
                c,
                path,
                added,
            ) == Some((c.description, path + ": "@ + trim(added[j]))),
{
    lemma_first_matching(src, added, 0);
    match first_matching(src, added, 0) {
        Some(f) => {
            assert forall|j: int|
                0 <= j < added.len() && regex_matches(src, false, #[trigger] added[j]) && (forall|i: int|
                    0 <= i < j ==> !regex_matches(src, false, #[trigger] added[i])) implies j == f by {
                if j < f {
                    assert(!regex_matches(src, false, added[j]));
                }
                if f < j {
                    assert(!regex_matches(src, false, added[f]));
                }
            }
        },
        None => {},
    }
}

/// A rule that forbids a path is broken by any change to it; a rule with no
/// forbidden pattern, or that does not apply to the path, is not broken
/// otherwise.
pub proof fn lemma_rule_without_lines_to_judge(c: ConstraintView, path: Seq<char>, added: Seq<Seq<char>>)
    ensures
        (c.files matches Some(fs) && glob_set_matches(fs, path)) ==> diff_violation(c, path, added) == Some(
            (c.description, "changes "@ + path),
        ),
        (!(c.files matches Some(fs) && glob_set_matches(fs, path)) && (c.added is None || !applies_to(
            c,
            path,
        ))) ==> diff_violation(c, path, added) is None,
{
}

} // verus!

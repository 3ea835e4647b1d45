//! The proof panel: what changed, what was checked, and what that shows.
use vstd::prelude::*;
use crate::checks::{CheckKind, kind_label, kind_of};
use crate::constraints::{Violation, violation_summary};
use crate::text::{decimal, int_decimal, pad_right, push_str};

verus! {

/// A check that ran, and how it ended.
#[derive(Debug, Clone, PartialEq, Eq)]
pub struct Observed {
    /// The command line.
    pub command: String,
    /// What kind of evidence it is.
    pub kind: CheckKind,
    /// Its exit code.
    pub exit_code: i32,
}

impl Observed {
    /// Whether the check succeeded.
    pub fn passed(&self) -> (r: bool)
        ensures
            r == (self.exit_code == 0),
    {
        self.exit_code == 0
    }
}

/// What the evidence adds up to.
#[derive(Debug, Clone, Copy, PartialEq, Eq, Structural)]
pub enum Verdict {
    /// Nothing changed and nothing was checked.
    NothingToShow,
    /// A check failed.
    Failing,
    /// The tests ran and everything passed.
    Verified,
    /// Checks passed, but none of them ran the tests.
    Partial,
    /// Files changed and nothing checked them.
    Unverified,
}

/// The label of a verdict.
pub open spec fn verdict_label(v: Verdict) -> Seq<char> {
    match v {
        Verdict::NothingToShow => "nothing to show"@,
        Verdict::Failing => "FAILING"@,
        Verdict::Verified => "verified"@,
        Verdict::Partial => "partly verified"@,
        Verdict::Unverified => "UNVERIFIED"@,
    }
}

/// The advice that goes with a verdict.
pub open spec fn verdict_advice(v: Verdict) -> Option<Seq<char>> {
    match v {
        Verdict::Failing => Some("A check failed. The change is applied but not working."@),
        Verdict::Unverified => Some(
            "Nothing here has been checked. Run `truecode verify`, or use --permission-mode full so the agent can run the tests itself."@,
        ),
        Verdict::Partial => Some("Nothing ran the tests, so behaviour is unproven."@),
        Verdict::NothingToShow => None,
        Verdict::Verified => None,
    }
}

impl Verdict {
    /// The label shown in the panel.
    pub fn label(self) -> (r: &'static str)
        ensures
            r@ == verdict_label(self),
    {
        match self {
            Verdict::NothingToShow => "nothing to show",
            Verdict::Failing => "FAILING",
            Verdict::Verified => "verified",
            Verdict::Partial => "partly verified",
            Verdict::Unverified => "UNVERIFIED",
        }
    }

    /// Whether the verdict should stand out.
    pub fn is_alarming(self) -> (r: bool)
        ensures
            r == (self == Verdict::Failing || self == Verdict::Unverified),
    {
        match self {
            Verdict::Failing => true,
            Verdict::Unverified => true,
            _ => false,
        }
    }

    /// What to do about the verdict, where there is something to do.
    pub fn advice(self) -> (r: Option<&'static str>)
        ensures
            match r {
                Some(a) => verdict_advice(self) == Some(a@),
                None => verdict_advice(self) is None,
            },
    {
        match self {
            Verdict::Failing => Some("A check failed. The change is applied but not working."),
            Verdict::Unverified => Some(
                "Nothing here has been checked. Run `truecode verify`, or use --permission-mode full so the agent can run the tests itself.",
            ),
            Verdict::Partial => Some("Nothing ran the tests, so behaviour is unproven."),
            Verdict::NothingToShow => None,
            Verdict::Verified => None,
        }
    }
}

/// A check as values: command, kind, exit code.
pub open spec fn observed_view(o: Observed) -> (Seq<char>, CheckKind, i32) {
    (o.command@, o.kind, o.exit_code)
}

/// The verdict on a set of checks and changes: a failure outranks
/// everything; passing tests verify; other passing checks verify in part;
/// changes with no check are unverified; and no changes and no checks leave
/// nothing to show.
pub open spec fn verdict_of(checks: Seq<(Seq<char>, CheckKind, i32)>, changed: nat) -> Verdict {
    if exists|i: int| 0 <= i < checks.len() && #[trigger] checks[i].2 != 0 {
        Verdict::Failing
    } else if exists|i: int| 0 <= i < checks.len() && #[trigger] checks[i].1 == CheckKind::Test {
        Verdict::Verified
    } else if checks.len() > 0 {
        Verdict::Partial
    } else if changed == 0 {
        Verdict::NothingToShow
    } else {
        Verdict::Unverified
    }
}

/// A failure is never outranked: checks observed later, and files changed
/// later, leave a failing verdict failing.
pub proof fn lemma_failure_stays(
    checks: Seq<(Seq<char>, CheckKind, i32)>,
    later: Seq<(Seq<char>, CheckKind, i32)>,
    changed: nat,
    changed_later: nat,
)
    requires
        verdict_of(checks, changed) == Verdict::Failing,
    ensures
        verdict_of(checks + later, changed_later) == Verdict::Failing,
{
    let i = choose|i: int| 0 <= i < checks.len() && #[trigger] checks[i].2 != 0;
    assert((checks + later)[i] == checks[i]);
}

/// Only an observed exit code earns a better verdict than "unverified": with
/// changes and no check, the verdict is unverified; with no failure, a
/// passing test is what makes it verified.
pub proof fn lemma_only_checks_verify(checks: Seq<(Seq<char>, CheckKind, i32)>, changed: nat)
    ensures
        checks.len() == 0 && changed > 0 ==> verdict_of(checks, changed) == Verdict::Unverified,
        verdict_of(checks, changed) == Verdict::Verified ==> exists|i: int|
            0 <= i < checks.len() && #[trigger] checks[i].1 == CheckKind::Test && checks[i].2 == 0,
{
    if verdict_of(checks, changed) == Verdict::Verified {
        let i = choose|i: int| 0 <= i < checks.len() && #[trigger] checks[i].1 == CheckKind::Test;
        assert(checks[i].2 == 0);
    }
}

/// The tools whose successful calls change files.
pub open spec fn changes_files(tool: Seq<char>) -> bool {
    tool == "write_file"@ || tool == "patch"@
}

/// The tool whose successful calls run commands.
pub open spec fn runs_commands(tool: Seq<char>) -> bool {
    tool == "shell"@
}

/// The changed files after `path` changed: listed once, in first-change order.
pub open spec fn with_change(changed: Seq<Seq<char>>, path: Seq<char>) -> Seq<Seq<char>> {
    if changed.contains(path) {
        changed
    } else {
        changed.push(path)
    }
}

/// The checks after `command` ran and ended with `code`: kept only when it
/// proves something.
pub open spec fn with_check(
    checks: Seq<(Seq<char>, CheckKind, i32)>,
    command: Seq<char>,
    code: i32,
) -> Seq<(Seq<char>, CheckKind, i32)> {
    let kind = kind_of(crate::text::lowercase(command));
    if kind == CheckKind::Other {
        checks
    } else {
        checks.push((command, kind, code))
    }
}

/// The exit code of a headless run that a guard rail stopped, or whose
/// verdict is alarming: distinct from success, so that a script can tell
/// "answered" from "gave up" or "not shown to work".
pub const EXIT_INCOMPLETE: i32 = 2;

/// The exit code of a headless run: what the run itself ended with, except
/// that a run that otherwise succeeded with an alarming verdict does not
/// report success.
pub fn run_exit_code(observed: i32, verdict: Verdict) -> (r: i32)
    ensures
        r == (if observed == 0 && (verdict == Verdict::Failing || verdict == Verdict::Unverified) {
            EXIT_INCOMPLETE
        } else {
            observed
        }),
{
    if observed == 0 && verdict.is_alarming() {
        EXIT_INCOMPLETE
    } else {
        observed
    }
}

/// What one run did and what it observed.
#[derive(Debug, Clone, PartialEq, Eq)]
pub struct Proof {
    /// Files changed, in the order first changed, each once.
    pub changed: Vec<String>,
    /// Checks that ran and count as evidence.
    pub checks: Vec<Observed>,
    /// Rules broken.
    pub violations: Vec<Violation>,
}

impl Default for Proof {
    fn default() -> (r: Self)
        ensures
            r.changed@.len() == 0,
            r.checks@.len() == 0,
            r.violations@.len() == 0,
    {
        Proof { changed: Vec::new(), checks: Vec::new(), violations: Vec::new() }
    }
}

/// The changed paths as values.
pub open spec fn changed_view(v: Seq<String>) -> Seq<Seq<char>> {
    v.map_values(|s: String| s@)
}

/// The checks as values.
pub open spec fn checks_view(v: Seq<Observed>) -> Seq<(Seq<char>, CheckKind, i32)> {
    v.map_values(|o: Observed| observed_view(o))
}

/// The line for one check: its mark, its kind's label padded to four, the
/// command and the exit code, as in `  ok  test  cargo test  (exit 0)` or
/// `  FAIL  test  cargo test  (exit 101)`.
pub open spec fn check_line(c: (Seq<char>, CheckKind, i32)) -> Seq<char> {
    "  "@ + (if c.2 == 0 {
        "ok"@
    } else {
        "FAIL"@
    }) + "  "@ + pad_right(kind_label(c.1), 4) + "  "@ + c.0 + "  (exit "@ + int_decimal(
        c.2 as int,
    ) + ")"@ + seq!['\n']
}

/// Lines of a list, each made by `f`.
pub open spec fn each_line<A>(items: Seq<A>, f: spec_fn(A) -> Seq<char>) -> Seq<char>
    decreases items.len(),
{
    if items.len() == 0 {
        seq![]
    } else {
        each_line(items.drop_last(), f) + f(items.last())
    }
}

/// The part of the panel that lists the changed files.
pub open spec fn changed_part(changed: Seq<Seq<char>>) -> Seq<char> {
    if changed.len() == 0 {
        "  changed   nothing\n"@
    } else if changed.len() == 1 {
        "  changed   "@ + changed[0] + seq!['\n']
    } else {
        "  changed   "@ + decimal(changed.len()) + " files\n"@ + each_line(
            changed,
            |p: Seq<char>| "              "@ + p + seq!['\n'],
        )
    }
}

/// The part of the panel that lists the checks.
pub open spec fn checks_part(checks: Seq<(Seq<char>, CheckKind, i32)>) -> Seq<char> {
    if checks.len() == 0 {
        "  checks    none ran\n"@
    } else {
        each_line(checks, |c: (Seq<char>, CheckKind, i32)| check_line(c))
    }
}

/// One broken rule.
pub open spec fn rule_line(v: (Seq<char>, Seq<char>)) -> Seq<char> {
    "  rule      broken: "@ + violation_summary(v.0, v.1) + seq!['\n']
}

/// The part of the panel that lists the broken rules.
pub open spec fn rules_part(violations: Seq<(Seq<char>, Seq<char>)>) -> Seq<char> {
    each_line(violations, |v: (Seq<char>, Seq<char>)| rule_line(v))
}

/// The verdict line and its advice.
pub open spec fn verdict_part(verdict: Verdict) -> Seq<char> {
    "  verdict   "@ + verdict_label(verdict) + seq!['\n'] + match verdict_advice(verdict) {
        Some(a) => "            "@ + a + seq!['\n'],
        None => seq![],
    }
}

/// The rendered panel.
pub open spec fn panel(
    changed: Seq<Seq<char>>,
    checks: Seq<(Seq<char>, CheckKind, i32)>,
    violations: Seq<(Seq<char>, Seq<char>)>,
) -> Seq<char> {
    if changed.len() == 0 && checks.len() == 0 && violations.len() == 0 {
        seq![]
    } else {
        "proof\n"@ + changed_part(changed) + checks_part(checks) + rules_part(violations)
            + verdict_part(verdict_of(checks, changed.len()))
    }
}

/// A text occurs in any text built around it.
proof fn lemma_contains_middle(pre: Seq<char>, mid: Seq<char>, post: Seq<char>)
    ensures
        crate::text::contains(pre + mid + post, mid),
{
    let s = pre + mid + post;
    assert(s.subrange(pre.len() as int, (pre.len() + mid.len()) as int) =~= mid);
    assert(crate::text::occurs_at(s, mid, pre.len() as int));
}

/// Every line of a list occurs in it: the text before and after it.
proof fn lemma_each_line_holds<A>(items: Seq<A>, f: spec_fn(A) -> Seq<char>, k: int) -> (r: (
    Seq<char>,
    Seq<char>,
))
    requires
        0 <= k < items.len(),
    ensures
        each_line(items, f) == r.0 + f(items[k]) + r.1,
    decreases items.len(),
{
    let last = items.len() - 1;
    if k == last {
        let pre = each_line(items.drop_last(), f);
        assert(each_line(items, f) =~= pre + f(items[k]) + Seq::<char>::empty());
        (pre, Seq::<char>::empty())
    } else {
        let (pre, post) = lemma_each_line_holds(items.drop_last(), f, k);
        assert(items.drop_last()[k] == items[k]);
        assert(each_line(items, f) =~= pre + f(items[k]) + (post + f(items.last())));
        (pre, post + f(items.last()))
    }
}

/// Each changed path occurs in a text that holds the changed part.
proof fn lemma_changed_shown(pre: Seq<char>, changed: Seq<Seq<char>>, post: Seq<char>, k: int)
    requires
        0 <= k < changed.len(),
    ensures
        crate::text::contains(pre + changed_part(changed) + post, changed[k]),
{
    let cp = changed_part(changed);
    let line = "  changed   "@;
    if changed.len() == 1 {
        assert(cp =~= line + changed[0] + seq!['\n']);
        assert(pre + cp + post =~= (pre + line) + changed[0] + (seq!['\n'] + post));
        lemma_contains_middle(pre + line, changed[0], seq!['\n'] + post);
    } else {
        let f = |q: Seq<char>| "              "@ + q + seq!['\n'];
        let first = "  changed   "@ + decimal(changed.len()) + " files\n"@;
        assert(cp == first + each_line(changed, f));
        let (a, b) = lemma_each_line_holds(changed, f, k);
        let before = pre + first + a + "              "@;
        let after = seq!['\n'] + b + post;
        assert(pre + cp + post =~= before + changed[k] + after);
        lemma_contains_middle(before, changed[k], after);
    }
}

/// Each check's line occurs in a text that holds the checks part.
proof fn lemma_check_shown(pre: Seq<char>, checks: Seq<(Seq<char>, CheckKind, i32)>, post: Seq<char>, k: int)
    requires
        0 <= k < checks.len(),
    ensures
        crate::text::contains(pre + checks_part(checks) + post, check_line(checks[k])),
{
    let f = |c: (Seq<char>, CheckKind, i32)| check_line(c);
    assert(checks_part(checks) == each_line(checks, f));
    let (a, b) = lemma_each_line_holds(checks, f, k);
    assert(pre + checks_part(checks) + post =~= (pre + a) + check_line(checks[k]) + (b + post));
    lemma_contains_middle(pre + a, check_line(checks[k]), b + post);
}

/// Each broken rule's line occurs in a text that holds the rules part.
proof fn lemma_rule_shown(pre: Seq<char>, violations: Seq<(Seq<char>, Seq<char>)>, post: Seq<char>, k: int)
    requires
        0 <= k < violations.len(),
    ensures
        crate::text::contains(pre + rules_part(violations) + post, rule_line(violations[k])),
{
    let f = |v: (Seq<char>, Seq<char>)| rule_line(v);
    let (a, b) = lemma_each_line_holds(violations, f, k);
    assert(pre + rules_part(violations) + post =~= (pre + a) + rule_line(violations[k]) + (b + post));
    lemma_contains_middle(pre + a, rule_line(violations[k]), b + post);
}

/// The verdict line occurs in a text that ends with the verdict part.
proof fn lemma_verdict_shown(pre: Seq<char>, verdict: Verdict)
    ensures
        crate::text::contains(pre + verdict_part(verdict), "  verdict   "@ + verdict_label(verdict) + seq!['\n']),
{
    let vline = "  verdict   "@ + verdict_label(verdict) + seq!['\n'];
    let vp = verdict_part(verdict);
    let advice = vp.skip(vline.len() as int);
    assert(vp =~= vline + advice);
    assert(pre + vp =~= pre + vline + advice);
    lemma_contains_middle(pre, vline, advice);
}

/// The panel shows all it was given: it is empty exactly when nothing was
/// recorded; otherwise it begins with `proof`, states the verdict, says
/// plainly when no check ran, and holds every changed path, every check's
/// line and every broken rule's line.
pub proof fn lemma_panel_shows_everything(
    changed: Seq<Seq<char>>,
    checks: Seq<(Seq<char>, CheckKind, i32)>,
    violations: Seq<(Seq<char>, Seq<char>)>,
)
    ensures
        (panel(changed, checks, violations).len() == 0) == (changed.len() == 0 && checks.len() == 0
            && violations.len() == 0),
        panel(changed, checks, violations).len() > 0 ==> {
            let p = panel(changed, checks, violations);
            &&& crate::text::starts_with(p, "proof\n"@)
            &&& crate::text::contains(
                p,
                "  verdict   "@ + verdict_label(verdict_of(checks, changed.len())) + seq!['\n'],
            )
            &&& (checks.len() == 0 ==> crate::text::contains(p, "  checks    none ran\n"@))
            &&& forall|k: int| 0 <= k < changed.len() ==> crate::text::contains(p, #[trigger] changed[k])
            &&& forall|k: int| 0 <= k < checks.len() ==> crate::text::contains(p, check_line(#[trigger] checks[k]))
            &&& forall|k: int|
                0 <= k < violations.len() ==> crate::text::contains(p, rule_line(#[trigger] violations[k]))
        },
{
    reveal_strlit("proof\n");
    if !(changed.len() == 0 && checks.len() == 0 && violations.len() == 0) {
        let p = panel(changed, checks, violations);
        let head = "proof\n"@;
        let cp = changed_part(changed);
        let kp = checks_part(checks);
        let rp = rules_part(violations);
        let vp = verdict_part(verdict_of(checks, changed.len()));
        assert(p == head + cp + kp + rp + vp);
        assert(p.subrange(0, head.len() as int) =~= head);
        lemma_verdict_shown(head + cp + kp + rp, verdict_of(checks, changed.len()));
        if checks.len() == 0 {
            assert(p =~= (head + cp) + kp + (rp + vp));
            lemma_contains_middle(head + cp, kp, rp + vp);
        }
        assert forall|k: int| 0 <= k < changed.len() implies crate::text::contains(p, #[trigger] changed[k]) by {
            assert(p =~= head + cp + (kp + rp + vp));
            lemma_changed_shown(head, changed, kp + rp + vp, k);
        }
        assert forall|k: int| 0 <= k < checks.len() implies crate::text::contains(p, check_line(#[trigger] checks[k])) by {
            assert(p =~= (head + cp) + kp + (rp + vp));
            lemma_check_shown(head + cp, checks, rp + vp, k);
        }
        assert forall|k: int| 0 <= k < violations.len() implies crate::text::contains(p, rule_line(#[trigger] violations[k])) by {
            assert(p =~= (head + cp + kp) + rp + vp);
            lemma_rule_shown(head + cp + kp, violations, vp, k);
        }
    }
}

fn push_changed(out: &mut String, changed: &Vec<String>)
    ensures
        final(out)@ == old(out)@ + changed_part(changed_view(changed@)),
{
    let ghost chv = changed_view(changed@);
    if changed.len() == 0 {
        push_str(out, "  changed   nothing\n");
    } else if changed.len() == 1 {
        push_str(out, "  changed   ");
        push_str(out, changed[0].as_str());
        push_str(out, "\n");
        proof {
            reveal_strlit("\n");
            assert(out@ =~= old(out)@ + changed_part(chv));
        }
    } else {
        push_str(out, "  changed   ");
        push_str(out, crate::text::usize_to_string(changed.len()).as_str());
        push_str(out, " files\n");
        let ghost start = out@;
        let mut i: usize = 0;
        proof {
            assert(chv.take(0) =~= seq![]);
            assert(out@ =~= start + each_line(
                chv.take(0),
                |p: Seq<char>| "              "@ + p + seq!['\n'],
            ));
        }
        while i < changed.len()
            invariant
                i <= changed.len(),
                chv == changed_view(changed@),
                out@ == start + each_line(
                    chv.take(i as int),
                    |p: Seq<char>| "              "@ + p + seq!['\n'],
                ),
            decreases changed.len() - i,
        {
            proof {
                assert(chv.take(i + 1).drop_last() =~= chv.take(i as int));
                assert(chv.take(i + 1).last() == changed@[i as int]@);
            }
            push_str(out, "              ");
            push_str(out, changed[i].as_str());
            push_str(out, "\n");
            proof {
                reveal_strlit("\n");
                assert(out@ =~= start + each_line(
                    chv.take(i + 1),
                    |p: Seq<char>| "              "@ + p + seq!['\n'],
                ));
            }
            i += 1;
        }
        proof {
            assert(chv.take(changed.len() as int) =~= chv);
            assert(out@ =~= old(out)@ + changed_part(chv));
        }
    }
}

fn push_check_line(out: &mut String, check: &Observed)
    ensures
        final(out)@ == old(out)@ + check_line(observed_view(*check)),
{
    push_str(out, "  ");
    if check.passed() {
        push_str(out, "ok");
    } else {
        push_str(out, "FAIL");
    }
    push_str(out, "  ");
    let mut label: Vec<char> = Vec::new();
    crate::text::push_padded_right(&mut label, &crate::text::to_chars(check.kind.label()), 4);
    push_str(out, crate::text::from_chars(&label).as_str());
    push_str(out, "  ");
    push_str(out, check.command.as_str());
    push_str(out, "  (exit ");
    push_str(out, crate::text::from_chars(&crate::text::i64_decimal(check.exit_code as i64)).as_str());
    push_str(out, ")\n");
    proof {
        reveal_strlit(")\n");
        reveal_strlit(")");
        assert(")\n"@ =~= ")"@ + seq!['\n']);
        assert(label@ =~= pad_right(kind_label(check.kind), 4));
        assert(out@ =~= old(out)@ + check_line(observed_view(*check)));
    }
}

fn push_checks(out: &mut String, checks: &Vec<Observed>)
    ensures
        final(out)@ == old(out)@ + checks_part(checks_view(checks@)),
{
    let ghost ckv = checks_view(checks@);
    if checks.len() == 0 {
        push_str(out, "  checks    none ran\n");
        return;
    }
    let mut i: usize = 0;
    proof {
        assert(ckv.take(0) =~= seq![]);
        assert(out@ =~= old(out)@ + each_line(
            ckv.take(0),
            |c: (Seq<char>, CheckKind, i32)| check_line(c),
        ));
    }
    while i < checks.len()
        invariant
            i <= checks.len(),
            ckv == checks_view(checks@),
            out@ == old(out)@ + each_line(
                ckv.take(i as int),
                |c: (Seq<char>, CheckKind, i32)| check_line(c),
            ),
        decreases checks.len() - i,
    {
        proof {
            assert(ckv.take(i + 1).drop_last() =~= ckv.take(i as int));
            assert(ckv.take(i + 1).last() == observed_view(checks@[i as int]));
        }
        let ghost before = out@;
        push_check_line(out, &checks[i]);
        proof {
            assert(out@ =~= old(out)@ + each_line(
                ckv.take(i + 1),
                |c: (Seq<char>, CheckKind, i32)| check_line(c),
            ));
        }
        i += 1;
    }
    proof {
        assert(ckv.take(checks.len() as int) =~= ckv);
    }
}

fn push_rules(out: &mut String, violations: &Vec<Violation>)
    ensures
        final(out)@ == old(out)@ + rules_part(
            violations@.map_values(|v: Violation| (v.description@, v.evidence@)),
        ),
{
    let ghost vv = violations@.map_values(|v: Violation| (v.description@, v.evidence@));
    let mut i: usize = 0;
    proof {
        assert(vv.take(0) =~= seq![]);
        assert(out@ =~= old(out)@ + each_line(
            vv.take(0),
            |v: (Seq<char>, Seq<char>)| rule_line(v),
        ));
    }
    while i < violations.len()
        invariant
            i <= violations.len(),
            vv == violations@.map_values(|v: Violation| (v.description@, v.evidence@)),
            out@ == old(out)@ + each_line(vv.take(i as int), |v: (Seq<char>, Seq<char>)| rule_line(v)),
        decreases violations.len() - i,
    {
        proof {
            assert(vv.take(i + 1).drop_last() =~= vv.take(i as int));
            assert(vv.take(i + 1).last() == (
                violations@[i as int].description@,
                violations@[i as int].evidence@,
            ));
        }
        push_str(out, "  rule      broken: ");
        push_str(out, violations[i].summary().as_str());
        push_str(out, "\n");
        proof {
            reveal_strlit("\n");
            assert(out@ =~= old(out)@ + each_line(
                vv.take(i + 1),
                |v: (Seq<char>, Seq<char>)| rule_line(v),
            ));
        }
        i += 1;
    }
    proof {
        assert(vv.take(violations.len() as int) =~= vv);
    }
}

fn push_verdict(out: &mut String, verdict: Verdict)
    ensures
        final(out)@ == old(out)@ + verdict_part(verdict),
{
    push_str(out, "  verdict   ");
    push_str(out, verdict.label());
    push_str(out, "\n");
    match verdict.advice() {
        Some(advice) => {
            push_str(out, "            ");
            push_str(out, advice);
            push_str(out, "\n");
        },
        None => {},
    }
    proof {
        reveal_strlit("\n");
        assert(out@ =~= old(out)@ + verdict_part(verdict));
    }
}

impl Proof {
    /// The violations as values.
    pub open spec fn violations_spec(&self) -> Seq<(Seq<char>, Seq<char>)> {
        self.violations@.map_values(|v: Violation| (v.description@, v.evidence@))
    }

    /// Records a changed file; a file already recorded is not listed twice.
    pub fn record_change(&mut self, path: String)
        ensures
            final(self).checks@ == old(self).checks@,
            final(self).violations@ == old(self).violations@,
            changed_view(old(self).changed@).contains(path@) ==> changed_view(final(self).changed@)
                == changed_view(old(self).changed@),
            !changed_view(old(self).changed@).contains(path@) ==> changed_view(
                final(self).changed@,
            ) == changed_view(old(self).changed@).push(path@),
    {
        let ghost cv = changed_view(self.changed@);
        let mut i: usize = 0;
        while i < self.changed.len()
            invariant
                i <= self.changed.len(),
                cv == changed_view(self.changed@),
                forall|j: int| 0 <= j < i ==> cv[j] != path@,
            decreases self.changed.len() - i,
        {
            if crate::text::str_eq(self.changed[i].as_str(), path.as_str()) {
                proof {
                    assert(cv[i as int] == path@);
                }
                return;
            }
            i += 1;
        }
        let ghost before = self.changed@;
        self.changed.push(path);
        proof {
            assert(changed_view(self.changed@) =~= changed_view(before).push(path@));
        }
    }

    /// Records a command that ran; one that proves nothing is not kept.
    pub fn record_check(&mut self, command: String, exit_code: i32)
        ensures
            final(self).changed@ == old(self).changed@,
            final(self).violations@ == old(self).violations@,
            kind_of(crate::text::lowercase(command@)) == CheckKind::Other ==> final(self).checks@
                == old(self).checks@,
            kind_of(crate::text::lowercase(command@)) != CheckKind::Other ==> checks_view(
                final(self).checks@,
            ) == checks_view(old(self).checks@).push(
                (command@, kind_of(crate::text::lowercase(command@)), exit_code),
            ),
    {
        let kind = crate::checks::classify(command.as_str());
        if kind == CheckKind::Other {
            return;
        }
        let ghost before = self.checks@;
        self.checks.push(Observed { command, kind, exit_code });
        proof {
            assert(checks_view(self.checks@) =~= checks_view(before).push(
                (command@, kind, exit_code),
            ));
        }
    }

    /// Records what a successful tool call shows. A call of `write_file` or
    /// `patch` changed the file shown as `path`; a call of `shell` ran
    /// `command`, and counts only with the exit code read back out of its
    /// `output`. Nothing else is evidence.
    pub fn observe(&mut self, tool: &str, path: Option<String>, command: Option<String>, output: &str)
        ensures
            final(self).violations@ == old(self).violations@,
            (changes_files(tool@) && path is Some) ==> checks_view(final(self).checks@) == checks_view(
                old(self).checks@,
            ) && changed_view(final(self).changed@) == with_change(
                changed_view(old(self).changed@),
                path->0@,
            ),
            (runs_commands(tool@) && command is Some && crate::shell::exit_code_of(output@) is Some)
                ==> changed_view(final(self).changed@) == changed_view(old(self).changed@)
                && checks_view(final(self).checks@) == with_check(
                checks_view(old(self).checks@),
                command->0@,
                crate::shell::exit_code_of(output@)->0,
            ),
            !((changes_files(tool@) && path is Some) || (runs_commands(tool@) && command is Some
                && crate::shell::exit_code_of(output@) is Some)) ==> final(self).changed@ == old(
                self,
            ).changed@ && final(self).checks@ == old(self).checks@,
    {
        proof {
            reveal_strlit("write_file");
            reveal_strlit("patch");
            reveal_strlit("shell");
            assert("shell"@.len() != "write_file"@.len());
            assert("shell"@[0] != "patch"@[0]);
        }
        let writes = crate::text::str_eq(tool, "write_file") || crate::text::str_eq(tool, "patch");
        if writes {
            match path {
                Some(p) => {
                    self.record_change(p);
                    return;
                },
                None => {
                    return;
                },
            }
        }
        if crate::text::str_eq(tool, "shell") {
            match command {
                Some(c) => match crate::shell::parse_exit_code(output) {
                    Some(code) => {
                        self.record_check(c, code);
                    },
                    None => {},
                },
                None => {},
            }
        }
    }

    /// Records a broken rule.
    pub fn record_violation(&mut self, violation: Violation)
        ensures
            final(self).changed@ == old(self).changed@,
            final(self).checks@ == old(self).checks@,
            final(self).violations@ == old(self).violations@.push(violation),
    {
        self.violations.push(violation);
    }

    /// Whether nothing was recorded.
    pub fn is_empty(&self) -> (r: bool)
        ensures
            r == (self.changed@.len() == 0 && self.checks@.len() == 0 && self.violations@.len()
                == 0),
    {
        self.changed.len() == 0 && self.checks.len() == 0 && self.violations.len() == 0
    }

    /// The verdict on what was recorded.
    pub fn verdict(&self) -> (r: Verdict)
        ensures
            r == verdict_of(checks_view(self.checks@), self.changed@.len()),
    {
        let ghost cv = checks_view(self.checks@);
        let mut i: usize = 0;
        while i < self.checks.len()
            invariant
                i <= self.checks.len(),
                cv == checks_view(self.checks@),
                forall|j: int| 0 <= j < i ==> #[trigger] cv[j].2 == 0,
            decreases self.checks.len() - i,
        {
            if !self.checks[i].passed() {
                proof {
                    assert(cv[i as int].2 != 0);
                }
                return Verdict::Failing;
            }
            i += 1;
        }
        let mut k: usize = 0;
        while k < self.checks.len()
            invariant
                k <= self.checks.len(),
                cv == checks_view(self.checks@),
                forall|j: int| 0 <= j < self.checks@.len() ==> #[trigger] cv[j].2 == 0,
                forall|j: int| 0 <= j < k ==> #[trigger] cv[j].1 != CheckKind::Test,
            decreases self.checks.len() - k,
        {
            if self.checks[k].kind == CheckKind::Test {
                proof {
                    assert(cv[k as int].1 == CheckKind::Test);
                }
                return Verdict::Verified;
            }
            k += 1;
        }
        if self.checks.len() > 0 {
            return Verdict::Partial;
        }
        if self.changed.len() == 0 {
            return Verdict::NothingToShow;
        }
        Verdict::Unverified
    }

    /// The panel shown after a run; empty when nothing was recorded.
    pub fn render(&self) -> (r: String)
        ensures
            r@ == panel(changed_view(self.changed@), checks_view(self.checks@), self.violations_spec()),
            r@.len() == 0 <==> (self.changed@.len() == 0 && self.checks@.len() == 0
                && self.violations@.len() == 0),
    {
        if self.is_empty() {
            return String::new();
        }
        let mut out = String::from_str("proof\n");
        push_changed(&mut out, &self.changed);
        push_checks(&mut out, &self.checks);
        push_rules(&mut out, &self.violations);
        let verdict = self.verdict();
        push_verdict(&mut out, verdict);
        proof {
            reveal_strlit("proof\n");
            assert(out@ =~= panel(
                changed_view(self.changed@),
                checks_view(self.checks@),
                self.violations_spec(),
            ));
            assert(out@.len() > 0);
        }
        out
    }
}

} // verus!

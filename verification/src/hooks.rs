//! User hooks: commands run around tool calls, and what their results mean.
use vstd::prelude::*;
use crate::patterns::{Pattern, REGEX_DEFAULT_SIZE_LIMIT, regex_build_error, regex_matches};
use crate::text::{decimal, push_str, trim};

verus! {

/// The hook list, inside the project directory.
pub const HOOKS_FILE: &'static str = "hooks.toml";

/// Seconds a hook may run.
pub const HOOK_TIMEOUT_SECONDS: u64 = 60;

/// The exit code by which a pre-tool hook refuses the call.
pub const REFUSE: i32 = 2;

/// When a hook runs.
#[derive(Debug, Clone, Copy, PartialEq, Eq, Structural)]
pub enum Event {
    /// Before a tool call; it may refuse the call.
    PreTool,
    /// After a tool call.
    PostTool,
    /// When the run ends.
    Stop,
}

/// A command to run on an event, for the tools `matches` names.
#[derive(Debug, Clone)]
pub struct Hook {
    pub event: Event,
    pub matches: Option<String>,
    pub command: String,
}

/// The hook list as written.
#[derive(Debug, Clone)]
pub struct Hooks {
    pub hooks: Vec<Hook>,
}

/// Why the hooks could not be loaded.
#[derive(Debug)]
pub enum HookError {
    Read { path: String, source: String },
    Parse { path: String, source: String },
    Pattern { command: String, source: String },
}

/// The text of a hook error.
pub open spec fn hook_error_text(e: HookError) -> Seq<char> {
    match e {
        HookError::Read { path, source } => "cannot read "@ + path@ + ": "@ + source@,
        HookError::Parse { path, source } => path@ + " is not a valid hook list: "@ + source@,
        HookError::Pattern { command, source } => "hook for `"@ + command@
            + "` has an invalid `matches` pattern: "@ + source@,
    }
}

impl HookError {
    /// The message shown to the user.
    pub fn message(&self) -> (r: String)
        ensures
            r@ == hook_error_text(*self),
    {
        match self {
            HookError::Read { path, source } => {
                let mut out = String::from_str("cannot read ");
                push_str(&mut out, path.as_str());
                push_str(&mut out, ": ");
                push_str(&mut out, source.as_str());
                out
            },
            HookError::Parse { path, source } => {
                let mut out = String::from_str(path.as_str());
                push_str(&mut out, " is not a valid hook list: ");
                push_str(&mut out, source.as_str());
                out
            },
            HookError::Pattern { command, source } => {
                let mut out = String::from_str("hook for `");
                push_str(&mut out, command.as_str());
                push_str(&mut out, "` has an invalid `matches` pattern: ");
                push_str(&mut out, source.as_str());
                out
            },
        }
    }
}

/// What a hook's run means for the call.
#[derive(Debug, Clone, PartialEq, Eq)]
pub enum Outcome {
    /// It succeeded.
    Passed,
    /// A pre-tool hook refused the call, for this reason.
    Refused(String),
    /// It failed; reported, but nothing is blocked.
    Failed(String),
}

/// How a hook's process ended, as the caller observed it.
#[derive(Debug, Clone)]
pub enum HookRun {
    /// The process could not be started; the system's message.
    CouldNotStart(String),
    /// It ran past the timeout and was killed.
    TimedOut,
    /// It exited; `code` is `None` when a signal ended it.
    Exited { success: bool, code: Option<i32>, stdout: String, stderr: String },
}

/// An outcome as values.
pub enum OutcomeView {
    Passed,
    Refused(Seq<char>),
    Failed(Seq<char>),
}

/// The value of an outcome.
pub open spec fn outcome_view(o: Outcome) -> OutcomeView {
    match o {
        Outcome::Passed => OutcomeView::Passed,
        Outcome::Refused(r) => OutcomeView::Refused(r@),
        Outcome::Failed(r) => OutcomeView::Failed(r@),
    }
}

/// What a hook's run means: success passes; exit code 2 from a pre-tool hook
/// refuses, with what it printed (stderr first) or a note naming it; any
/// other ending fails with a note.
pub open spec fn judged(hook_event: Event, command: Seq<char>, run: HookRun) -> OutcomeView {
    match run {
        HookRun::CouldNotStart(err) => OutcomeView::Failed(
            "hook `"@ + command + "` could not start: "@ + err@,
        ),
        HookRun::TimedOut => OutcomeView::Failed(
            "hook `"@ + command + "` was killed after "@ + decimal(HOOK_TIMEOUT_SECONDS as nat)
                + " seconds"@,
        ),
        HookRun::Exited { success, code, stdout, stderr } => if success {
            OutcomeView::Passed
        } else {
            let reason = if trim(stderr@).len() == 0 {
                trim(stdout@)
            } else {
                trim(stderr@)
            };
            if code == Some(REFUSE) && hook_event == Event::PreTool {
                OutcomeView::Refused(
                    if reason.len() == 0 {
                        "refused by the hook `"@ + command + "`"@
                    } else {
                        reason
                    },
                )
            } else {
                OutcomeView::Failed("hook `"@ + command + "` failed: "@ + reason)
            }
        },
    }
}

/// Judges how a hook's run ended.
pub fn judge(hook: &Hook, run: HookRun) -> (r: Outcome)
    ensures
        outcome_view(r) == judged(hook.event, hook.command@, run),
        r is Refused ==> hook.event == Event::PreTool,
{
    match run {
        HookRun::CouldNotStart(err) => {
            let mut out = String::from_str("hook `");
            push_str(&mut out, hook.command.as_str());
            push_str(&mut out, "` could not start: ");
            push_str(&mut out, err.as_str());
            Outcome::Failed(out)
        },
        HookRun::TimedOut => {
            let mut out = String::from_str("hook `");
            push_str(&mut out, hook.command.as_str());
            push_str(&mut out, "` was killed after ");
            push_str(&mut out, crate::text::usize_to_string(HOOK_TIMEOUT_SECONDS as usize).as_str());
            push_str(&mut out, " seconds");
            Outcome::Failed(out)
        },
        HookRun::Exited { success, code, stdout, stderr } => {
            if success {
                return Outcome::Passed;
            }
            let err = crate::text::trim_str(stderr.as_str());
            let reason = if err.as_str().is_empty() {
                crate::text::trim_str(stdout.as_str())
            } else {
                err
            };
            let refuses = match code {
                Some(c) => c == REFUSE,
                None => false,
            };
            if refuses && hook.event == Event::PreTool {
                if reason.as_str().is_empty() {
                    let mut out = String::from_str("refused by the hook `");
                    push_str(&mut out, hook.command.as_str());
                    push_str(&mut out, "`");
                    return Outcome::Refused(out);
                }
                return Outcome::Refused(reason);
            }
            let mut out = String::from_str("hook `");
            push_str(&mut out, hook.command.as_str());
            push_str(&mut out, "` failed: ");
            push_str(&mut out, reason.as_str());
            Outcome::Failed(out)
        },
    }
}

/// The compiled hooks of a project.
pub struct HookSet {
    entries: Vec<(Hook, Option<Pattern>)>,
}

/// Whether a hook runs for `event` on `tool`: its event matches, and a
/// stop hook always runs while the others run where their pattern (if any)
/// matches the tool's name.
pub open spec fn runs_for(hook_event: Event, pattern: Option<Seq<char>>, event: Event, tool: Seq<char>) -> bool {
    hook_event == event && (event == Event::Stop || pattern is None || (pattern matches Some(p)
        && regex_matches(p, false, tool)))
}

impl HookSet {
    /// The hooks, each with the source of its compiled pattern.
    pub closed spec fn entries_spec(&self) -> Seq<(Event, Option<Seq<char>>, Seq<char>)> {
        self.entries@.map_values(
            |e: (Hook, Option<Pattern>)|
                (e.0.event, match e.1 {
                    Some(p) => Some(p.source()),
                    None => None,
                }, e.0.command@),
        )
    }

    /// Patterns match case-sensitively, as `Regex::new` builds them, and each
    /// is the hook's own `matches`.
    pub closed spec fn wf(&self) -> bool {
        forall|i: int|
            0 <= i < self.entries@.len() ==> (#[trigger] self.entries@[i].1 matches Some(p)
                ==> !p.ignores_case())
    }

    /// No hooks.
    pub fn new() -> (r: Self)
        ensures
            r.wf(),
            r.entries_spec().len() == 0,
    {
        HookSet { entries: Vec::new() }
    }

    /// Compiles the patterns of the hooks, in order; the first that does not
    /// compile is reported with its hook's command.
    pub fn compile(hooks: Hooks) -> (r: Result<Self, HookError>)
        ensures
            match r {
                Ok(set) => set.wf() && set.entries_spec().len() == hooks.hooks@.len() && forall|i: int|
                    0 <= i < hooks.hooks@.len() ==> (#[trigger] set.entries_spec()[i]).0
                        == hooks.hooks@[i].event && set.entries_spec()[i].2 == hooks.hooks@[i].command@
                        && set.entries_spec()[i].1 == match hooks.hooks@[i].matches {
                        Some(m) => Some(m@),
                        None => None,
                    },
                Err(e) => exists|i: int|
                    0 <= i < hooks.hooks@.len() && ((#[trigger] hooks.hooks@[i]).matches matches Some(m)
                        && regex_build_error(m@, false, REGEX_DEFAULT_SIZE_LIMIT as nat) is Some
                        && (e matches HookError::Pattern { command, source } && command@
                        == hooks.hooks@[i].command@ && Some(source@) == regex_build_error(
                        m@,
                        false,
                        REGEX_DEFAULT_SIZE_LIMIT as nat,
                    ))),
            },
    {
        let ghost orig = hooks.hooks@;
        let n = hooks.hooks.len();
        let mut rest = hooks.hooks;
        let mut entries: Vec<(Hook, Option<Pattern>)> = Vec::new();
        let mut i: usize = 0;
        proof {
            assert(orig.skip(0) =~= orig);
        }
        while rest.len() > 0
            invariant
                i <= n,
                orig.len() == n,
                orig == hooks.hooks@,
                rest@ == orig.skip(i as int),
                entries@.len() == i,
                forall|j: int|
                    0 <= j < i ==> (#[trigger] entries@[j]).0 == orig[j] && (entries@[j].1 matches Some(
                        p,
                    ) ==> (!p.ignores_case() && (orig[j].matches matches Some(m) && p.source() == m@)))
                        && (entries@[j].1 is None ==> orig[j].matches is None),
            decreases rest.len(),
        {
            let hook = rest.remove(0);
            proof {
                assert(hook == orig[i as int]);
                assert(rest@ =~= orig.skip(i + 1));
            }
            let pattern = match &hook.matches {
                Some(m) => match Pattern::compile(m.as_str(), false, REGEX_DEFAULT_SIZE_LIMIT) {
                    Ok(p) => Some(p),
                    Err(msg) => {
                        let e = HookError::Pattern { command: hook.command.clone(), source: msg };
                        proof {
                            assert(orig[i as int].matches is Some);
                        }
                        return Err(e);
                    },
                },
                None => None,
            };
            entries.push((hook, pattern));
            i += 1;
        }
        let set = HookSet { entries };
        proof {
            assert forall|j: int| 0 <= j < orig.len() implies (#[trigger] set.entries_spec()[j]).0
                == orig[j].event && set.entries_spec()[j].2 == orig[j].command@
                && set.entries_spec()[j].1 == match orig[j].matches {
                Some(m) => Some(m@),
                None => None,
            } by {
                assert(set.entries@[j].0 == orig[j]);
            }
        }
        Ok(set)
    }

    /// How many hooks there are.
    pub fn len(&self) -> (r: usize)
        ensures
            r == self.entries_spec().len(),
    {
        self.entries.len()
    }

    /// Whether there are none.
    pub fn is_empty(&self) -> (r: bool)
        ensures
            r == (self.entries_spec().len() == 0),
    {
        self.entries.len() == 0
    }

    /// The hook at `i`.
    pub fn hook(&self, i: usize) -> (r: &Hook)
        requires
            i < self.entries_spec().len(),
        ensures
            r.event == self.entries_spec()[i as int].0,
            r.command@ == self.entries_spec()[i as int].2,
    {
        &self.entries[i].0
    }

    /// The positions of the hooks that run for `event` on `tool`, in order.
    pub fn matching(&self, event: Event, tool: &str) -> (r: Vec<usize>)
        requires
            self.wf(),
        ensures
            forall|k: int| 0 <= k < r@.len() ==> #[trigger] r@[k] < self.entries_spec().len(),
            forall|k: int, l: int| 0 <= k < l < r@.len() ==> #[trigger] r@[k] < #[trigger] r@[l],
            forall|j: int|
                0 <= j < self.entries_spec().len() ==> (r@.contains(j as usize) <==> runs_for(
                    self.entries_spec()[j].0,
                    self.entries_spec()[j].1,
                    event,
                    tool@,
                )),
    {
        let ghost es = self.entries_spec();
        let mut out: Vec<usize> = Vec::new();
        let mut i: usize = 0;
        while i < self.entries.len()
            invariant
                i <= self.entries.len(),
                es == self.entries_spec(),
                self.wf(),
                forall|k: int| 0 <= k < out@.len() ==> #[trigger] out@[k] < i,
                forall|k: int, l: int| 0 <= k < l < out@.len() ==> #[trigger] out@[k] < #[trigger] out@[l],
                forall|j: int|
                    0 <= j < i ==> (out@.contains(j as usize) <==> runs_for(es[j].0, es[j].1, event, tool@)),
            decreases self.entries.len() - i,
        {
            let entry = &self.entries[i];
            let runs = entry.0.event == event && (event == Event::Stop || match &entry.1 {
                None => true,
                Some(p) => p.is_match(tool),
            });
            proof {
                assert(es[i as int].0 == entry.0.event);
                assert(es[i as int].1 == match entry.1 {
                    Some(p) => Some(p.source()),
                    None => None,
                });
                if entry.1 is Some {
                    assert(self.entries@[i as int].1 matches Some(p) ==> !p.ignores_case());
                }
                assert(runs == runs_for(es[i as int].0, es[i as int].1, event, tool@));
            }
            let ghost before = out@;
            if runs {
                out.push(i);
            }
            proof {
                assert forall|j: int| 0 <= j < i + 1 implies (out@.contains(j as usize) <==> runs_for(
                    es[j].0,
                    es[j].1,
                    event,
                    tool@,
                )) by {
                    if j < i {
                        if out@.contains(j as usize) {
                            let k = choose|k: int| 0 <= k < out@.len() && out@[k] == j as usize;
                            if runs {
                                assert(k < before.len());
                            }
                            assert(before.contains(j as usize)) by {
                                assert(before[k] == j as usize);
                            }
                        }
                        if before.contains(j as usize) {
                            let k = choose|k: int| 0 <= k < before.len() && before[k] == j as usize;
                            assert(out@[k] == j as usize);
                        }
                    } else {
                        if runs {
                            assert(out@[out@.len() - 1] == i);
                        } else {
                            assert(!before.contains(i));
                        }
                    }
                }
            }
            i += 1;
        }
        out
    }
}

/// The hooks of one event, run in order until one refuses.
pub struct HookRound {
    queue: Vec<usize>,
    outcomes: Vec<Outcome>,
}

impl HookRound {
    /// The hooks still to run.
    pub closed spec fn queue_spec(&self) -> Seq<usize> {
        self.queue@
    }

    /// The outcomes so far.
    pub closed spec fn outcomes_spec(&self) -> Seq<Outcome> {
        self.outcomes@
    }

    /// Only the last outcome may be a refusal, and nothing runs after one.
    pub closed spec fn wf(&self) -> bool {
        &&& forall|k: int| 0 <= k < self.outcomes@.len() - 1 ==> !(#[trigger] self.outcomes@[k] is Refused)
        &&& (self.outcomes@.len() > 0 && self.outcomes@.last() is Refused ==> self.queue@.len() == 0)
    }

    /// A round over the given hooks.
    pub fn new(queue: Vec<usize>) -> (r: Self)
        ensures
            r.wf(),
            r.queue_spec() == queue@,
            r.outcomes_spec().len() == 0,
    {
        HookRound { queue, outcomes: Vec::new() }
    }

    /// The next hook to run, if any.
    pub fn next(&self) -> (r: Option<usize>)
        ensures
            match r {
                Some(i) => self.queue_spec().len() > 0 && i == self.queue_spec()[0],
                None => self.queue_spec().len() == 0,
            },
    {
        if self.queue.len() > 0 {
            Some(self.queue[0])
        } else {
            None
        }
    }

    /// Records the outcome of the next hook. A refusal ends the round.
    pub fn record(&mut self, outcome: Outcome)
        requires
            old(self).wf(),
            old(self).queue_spec().len() > 0,
        ensures
            final(self).wf(),
            final(self).outcomes_spec() == old(self).outcomes_spec().push(outcome),
            outcome is Refused ==> final(self).queue_spec().len() == 0,
            !(outcome is Refused) ==> final(self).queue_spec() == old(self).queue_spec().drop_first(),
    {
        let refused = match &outcome {
            Outcome::Refused(_) => true,
            _ => false,
        };
        self.outcomes.push(outcome);
        if refused {
            self.queue = Vec::new();
        } else {
            self.queue.remove(0);
            proof {
                assert(self.queue@ =~= old(self).queue@.drop_first());
            }
        }
    }

    /// The outcomes, once the round is over.
    pub fn into_outcomes(self) -> (r: Vec<Outcome>)
        ensures
            r@ == self.outcomes_spec(),
    {
        self.outcomes
    }
}

} // verus!

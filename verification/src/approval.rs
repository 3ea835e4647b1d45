//! Asking before anything changes.
use vstd::prelude::*;
use crate::constraints::Violation;
use crate::effect::{Effect, effect_summary};
use crate::text::str_eq;

verus! {

/// The answer to an approval request.
#[derive(Debug, Clone, Copy, PartialEq, Eq, Structural)]
pub enum Decision {
    /// Run this call.
    Approve,
    /// Run this call and every later call of the same tool this session.
    ApproveToolForSession,
    /// Do not run it; the model is told and may try something else.
    Deny,
    /// Stop the whole run.
    Abort,
}

/// A tool call waiting for approval.
#[derive(Debug, Clone, PartialEq, Eq)]
pub struct ApprovalRequest {
    /// The tool to run.
    pub tool: String,
    /// What it would do.
    pub effect: Effect,
    /// The user's rules it would break.
    pub violations: Vec<Violation>,
}

impl ApprovalRequest {
    /// A one-line summary of the effect.
    pub fn summary(&self) -> (r: String)
        ensures
            r@ == effect_summary(self.effect),
    {
        self.effect.summary()
    }

    /// Whether the call would break one of the user's rules.
    pub fn breaks_a_rule(&self) -> (r: bool)
        ensures
            r == (self.violations@.len() > 0),
    {
        self.violations.len() > 0
    }
}

/// Decides whether a tool call may run.
pub trait Approver {
    /// The decision for one request.
    fn approve(&self, request: &ApprovalRequest) -> Decision;
}

/// Refuses everything: the default for a run without a person to ask.
#[derive(Debug, Default, Clone, Copy)]
pub struct DenyAll;

impl Approver for DenyAll {
    fn approve(&self, request: &ApprovalRequest) -> (d: Decision)
        ensures
            d == Decision::Deny,
    {
        Decision::Deny
    }
}

/// Approves every call that breaks no rule of the user's, and refuses the
/// rest: approving everything never means ignoring the rules written down.
#[derive(Debug, Default, Clone, Copy)]
pub struct ApproveAll;

impl Approver for ApproveAll {
    fn approve(&self, request: &ApprovalRequest) -> (d: Decision)
        ensures
            d == (if request.violations@.len() > 0 {
                Decision::Deny
            } else {
                Decision::Approve
            }),
    {
        if request.breaks_a_rule() {
            Decision::Deny
        } else {
            Decision::Approve
        }
    }
}


/// Whether a request is a write that changes nothing.
pub open spec fn changes_nothing(e: Effect) -> bool {
    e matches Effect::Write(d) && d.added == 0 && d.removed == 0
}

/// Whether the user is asked about a request, given the tools approved for
/// the session: not for a write that changes nothing, and not for an approved
/// tool whose call breaks none of the user's rules.
pub open spec fn asks(approved: Seq<Seq<char>>, request: ApprovalRequest) -> bool {
    !changes_nothing(request.effect) && !(approved.contains(request.tool@)
        && request.violations@.len() == 0)
}

/// What a decision means for the call.
#[derive(Debug, Clone, Copy, PartialEq, Eq, Structural)]
pub enum Admission {
    /// The call runs.
    Run,
    /// The call does not run; the model is told the user declined.
    Declined,
    /// The whole run stops.
    Abort,
}

/// The tools the user approved for the rest of the session.
#[derive(Debug, Clone)]
pub struct SessionApprovals {
    tools: Vec<String>,
}

impl SessionApprovals {
    /// The tools approved so far, by name.
    pub closed spec fn tools(&self) -> Seq<Seq<char>> {
        self.tools@.map_values(|t: String| t@)
    }

    /// Nothing approved yet.
    pub fn new() -> (r: Self)
        ensures
            r.tools().len() == 0,
    {
        SessionApprovals { tools: Vec::new() }
    }

    /// Whether `tool` was approved for the session.
    pub fn covers(&self, tool: &str) -> (r: bool)
        ensures
            r == self.tools().contains(tool@),
    {
        let mut i: usize = 0;
        while i < self.tools.len()
            invariant
                i <= self.tools.len(),
                forall|j: int| 0 <= j < i ==> self.tools()[j] != tool@,
            decreases self.tools.len() - i,
        {
            if str_eq(self.tools[i].as_str(), tool) {
                proof {
                    assert(self.tools()[i as int] == tool@);
                }
                return true;
            }
            i += 1;
        }
        false
    }

    /// Whether the user must be asked about a change.
    pub fn must_ask(&self, request: &ApprovalRequest) -> (r: bool)
        ensures
            r == asks(self.tools(), *request),
    {
        let nothing = match &request.effect {
            Effect::Write(d) => d.is_empty(),
            _ => false,
        };
        !nothing && !(self.covers(request.tool.as_str()) && !request.breaks_a_rule())
    }

    /// What the user's decision about `tool` means. Approving for the session
    /// remembers the tool; no other decision changes what is remembered.
    pub fn settle(&mut self, tool: &str, decision: Decision) -> (r: Admission)
        ensures
            r == match decision {
                Decision::Approve | Decision::ApproveToolForSession => Admission::Run,
                Decision::Deny => Admission::Declined,
                Decision::Abort => Admission::Abort,
            },
            decision == Decision::ApproveToolForSession ==> final(self).tools() == old(self).tools().push(
                tool@,
            ),
            decision != Decision::ApproveToolForSession ==> final(self).tools() == old(self).tools(),
    {
        match decision {
            Decision::Approve => Admission::Run,
            Decision::ApproveToolForSession => {
                let ghost before = self.tools@;
                self.tools.push(String::from_str(tool));
                proof {
                    assert(self.tools() =~= before.map_values(|t: String| t@).push(tool@));
                }
                Admission::Run
            },
            Decision::Deny => Admission::Declined,
            Decision::Abort => Admission::Abort,
        }
    }
}

/// Approving a tool for the session stops the asking for that tool's calls
/// that break no rule; a call that breaks a rule and changes something is
/// asked about whatever was approved.
pub proof fn lemma_session_approval_stops_asking(
    approved: Seq<Seq<char>>,
    tool: Seq<char>,
    request: ApprovalRequest,
)
    ensures
        request.tool@ == tool && request.violations@.len() == 0 ==> !asks(approved.push(tool), request),
        request.violations@.len() > 0 && !changes_nothing(request.effect) ==> asks(approved, request),
{
    let after = approved.push(tool);
    assert(after[after.len() - 1] == tool);
}

} // verus!

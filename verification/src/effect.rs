//! What a mutating tool would do, shown before it is allowed to.
use vstd::prelude::*;
use crate::diff::{FileDiff, diff_summary};
use crate::text::push_str;

verus! {

/// How dangerous a command looks.
#[derive(Debug, Clone, PartialEq, Eq)]
pub enum Risk {
    /// Nothing on the high-risk list.
    Normal,
    /// Matches the high-risk list, for the stated reason.
    High { reason: String },
}

/// The effect a tool call would have.
#[derive(Debug, Clone, PartialEq, Eq)]
pub enum Effect {
    /// Writes a file, with the diff of the change.
    Write(FileDiff),
    /// Runs a command.
    Execute { command: String, risk: Risk },
    /// Changes nothing.
    ReadOnly,
}

/// The one-line summary of an effect.
pub open spec fn effect_summary(e: Effect) -> Seq<char> {
    match e {
        Effect::Write(d) => diff_summary(d.kind, d.path@, d.added as nat, d.removed as nat),
        Effect::Execute { command, .. } => "run `"@ + command@ + "`"@,
        Effect::ReadOnly => "no change"@,
    }
}

impl Effect {
    /// A one-line summary: the diff's summary, or the command to run.
    pub fn summary(&self) -> (r: String)
        ensures
            r@ == effect_summary(*self),
    {
        match self {
            Effect::Write(d) => d.summary(),
            Effect::Execute { command, .. } => {
                let mut out = String::from_str("run `");
                push_str(&mut out, command.as_str());
                push_str(&mut out, "`");
                out
            },
            Effect::ReadOnly => String::from_str("no change"),
        }
    }
}

} // verus!

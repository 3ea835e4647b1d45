//! What the agent may do: the permission modes and the tools each one offers.
use vstd::prelude::*;
use crate::text::str_eq;

verus! {

/// What the agent may do in a session.
#[derive(Debug, Clone, Copy, PartialEq, Eq, Structural)]
pub enum PermissionMode {
    /// Reading and searching only.
    ReadOnly,
    /// Reading, creating and editing files.
    Write,
    /// All of that, and shell commands.
    Full,
}

/// What a tool does to the workspace.
#[derive(Debug, Clone, Copy, PartialEq, Eq, Structural)]
pub enum Access {
    /// Reads or searches; changes nothing.
    Read,
    /// Creates or edits files.
    Edit,
    /// Runs commands.
    Execute,
}

/// The name of a mode on the command line.
pub open spec fn mode_label(m: PermissionMode) -> Seq<char> {
    match m {
        PermissionMode::ReadOnly => "read-only"@,
        PermissionMode::Write => "write"@,
        PermissionMode::Full => "full"@,
    }
}

/// The mode a command-line name stands for.
pub open spec fn mode_named(text: Seq<char>) -> Option<PermissionMode> {
    if text == "read-only"@ {
        Some(PermissionMode::ReadOnly)
    } else if text == "write"@ {
        Some(PermissionMode::Write)
    } else if text == "full"@ {
        Some(PermissionMode::Full)
    } else {
        None
    }
}

/// Whether a mode offers tools of an access: reading always, editing from
/// `Write` on, commands only in `Full`.
pub open spec fn offered(m: PermissionMode, a: Access) -> bool {
    match a {
        Access::Read => true,
        Access::Edit => m != PermissionMode::ReadOnly,
        Access::Execute => m == PermissionMode::Full,
    }
}

/// The order of the modes, from least to most allowed.
pub open spec fn rank(m: PermissionMode) -> int {
    match m {
        PermissionMode::ReadOnly => 0,
        PermissionMode::Write => 1,
        PermissionMode::Full => 2,
    }
}

impl PermissionMode {
    /// The mode named on the command line, if the name is one.
    pub fn parse(text: &str) -> (r: Option<PermissionMode>)
        ensures
            r == mode_named(text@),
    {
        proof {
            reveal_strlit("read-only");
            reveal_strlit("write");
            reveal_strlit("full");
        }
        if str_eq(text, "read-only") {
            Some(PermissionMode::ReadOnly)
        } else if str_eq(text, "write") {
            Some(PermissionMode::Write)
        } else if str_eq(text, "full") {
            Some(PermissionMode::Full)
        } else {
            None
        }
    }

    /// The name of the mode.
    pub fn label(self) -> (r: &'static str)
        ensures
            r@ == mode_label(self),
    {
        match self {
            PermissionMode::ReadOnly => "read-only",
            PermissionMode::Write => "write",
            PermissionMode::Full => "full",
        }
    }

    /// Whether tools of the given access are offered to the model at all.
    pub fn offers(self, access: Access) -> (r: bool)
        ensures
            r == offered(self, access),
    {
        match access {
            Access::Read => true,
            Access::Edit => self != PermissionMode::ReadOnly,
            Access::Execute => self == PermissionMode::Full,
        }
    }
}

/// Every mode reads back as itself from its name.
pub proof fn lemma_label_round_trip(m: PermissionMode)
    ensures
        mode_named(mode_label(m)) == Some(m),
{
    reveal_strlit("read-only");
    reveal_strlit("write");
    reveal_strlit("full");
    assert("read-only"@.len() == 9 && "write"@.len() == 5 && "full"@.len() == 4);
    assert("write"@ != "read-only"@);
    assert("full"@ != "read-only"@ && "full"@ != "write"@);
}

/// The read-only mode offers nothing that changes the workspace, and a mode
/// that allows more offers at least what a mode that allows less offers.
pub proof fn lemma_modes_only_widen(lower: PermissionMode, higher: PermissionMode, a: Access)
    ensures
        offered(PermissionMode::ReadOnly, a) <==> a == Access::Read,
        rank(lower) <= rank(higher) && offered(lower, a) ==> offered(higher, a),
{
}

} // verus!

//! What every tool shares: its errors, its context, and the bound on how much
//! text one result may put in front of the model.
use vstd::prelude::*;
use crate::path::{PathError, PathErrorView, path_error_text};
use crate::text::{from_chars, push_str, to_chars};

verus! {

/// Default cap on a single tool result, in bytes.
pub const DEFAULT_MAX_OUTPUT_BYTES: usize = 32000;

// ---------------------------------------------------------------------------
// UTF-8 lengths
// ---------------------------------------------------------------------------

/// Bytes that UTF-8 spends on `c`.
pub open spec fn char_width(c: char) -> nat {
    if (c as u32) < 0x80 {
        1
    } else if (c as u32) < 0x800 {
        2
    } else if (c as u32) < 0x10000 {
        3
    } else {
        4
    }
}

/// Bytes of the UTF-8 encoding of `s`, what `str::len` returns.
pub open spec fn utf8_len(s: Seq<char>) -> nat
    decreases s.len(),
{
    if s.len() == 0 {
        0
    } else {
        utf8_len(s.drop_last()) + char_width(s.last())
    }
}

/// Bytes of one character.
pub fn width_of(c: char) -> (w: usize)
    ensures
        w == char_width(c),
{
    let code = c as u32;
    if code < 0x80 {
        1
    } else if code < 0x800 {
        2
    } else if code < 0x10000 {
        3
    } else {
        4
    }
}

/// A prefix never takes more bytes than the whole.
pub proof fn lemma_utf8_len_prefix(s: Seq<char>, k: int)
    requires
        0 <= k <= s.len(),
    ensures
        utf8_len(s.take(k)) <= utf8_len(s),
    decreases s.len() - k,
{
    if k < s.len() {
        lemma_utf8_len_prefix(s, k + 1);
        assert(s.take(k + 1).drop_last() =~= s.take(k));
    } else {
        assert(s.take(k) =~= s);
    }
}

/// No character takes more than four bytes.
proof fn lemma_utf8_len_bound(s: Seq<char>)
    ensures
        utf8_len(s) <= 4 * s.len(),
    decreases s.len(),
{
    if s.len() > 0 {
        lemma_utf8_len_bound(s.drop_last());
    }
}

/// Byte length of a vector of characters. A `u128` holds four bytes for
/// every index a vector can have.
pub fn byte_len(v: &Vec<char>) -> (n: u128)
    ensures
        n == utf8_len(v@),
{
    let mut total: u128 = 0;
    let mut i: usize = 0;
    proof {
        assert(v@.take(0) =~= seq![]);
    }
    while i < v.len()
        invariant
            i <= v.len(),
            total == utf8_len(v@.take(i as int)),
        decreases v.len() - i,
    {
        proof {
            assert(v@.take(i + 1).drop_last() =~= v@.take(i as int));
            lemma_utf8_len_bound(v@.take(i as int));
        }
        total = total + width_of(v[i]) as u128;
        i += 1;
    }
    proof {
        assert(v@.take(v.len() as int) =~= v@);
    }
    total
}

// ---------------------------------------------------------------------------
// Truncation
// ---------------------------------------------------------------------------

/// The longest prefix of `s` that fits in `limit` bytes, in characters: a cut
/// on a character boundary.
pub open spec fn fitting_prefix(s: Seq<char>, limit: nat) -> nat
    decreases s.len(),
{
    if utf8_len(s) <= limit {
        s.len()
    } else {
        fitting_prefix(s.drop_last(), limit)
    }
}

/// The marker appended to a truncated result.
pub open spec fn truncation_marker(shown: nat, total: nat) -> Seq<char> {
    "\n\n[truncated: showed "@ + crate::text::decimal(shown) + " of "@ + crate::text::decimal(total)
        + " bytes — narrow the request to see the rest]"@
}

/// What `truncate_to` returns: the text itself when it fits, otherwise its
/// longest prefix that fits followed by a marker saying how much was shown.
pub open spec fn truncated(s: Seq<char>, limit: nat) -> Seq<char> {
    if utf8_len(s) <= limit {
        s
    } else {
        let k = fitting_prefix(s, limit);
        s.take(k as int) + truncation_marker(utf8_len(s.take(k as int)), utf8_len(s))
    }
}

pub proof fn lemma_fitting_prefix(s: Seq<char>, limit: nat)
    ensures
        fitting_prefix(s, limit) <= s.len(),
        utf8_len(s.take(fitting_prefix(s, limit) as int)) <= limit,
        fitting_prefix(s, limit) < s.len() ==> utf8_len(
            s.take(fitting_prefix(s, limit) as int + 1),
        ) > limit,
    decreases s.len(),
{
    if utf8_len(s) <= limit {
        assert(s.take(s.len() as int) =~= s);
    } else {
        lemma_fitting_prefix(s.drop_last(), limit);
        let k = fitting_prefix(s.drop_last(), limit);
        assert(s.drop_last().take(k as int) =~= s.take(k as int));
        if k + 1 <= s.drop_last().len() {
            assert(s.drop_last().take(k as int + 1) =~= s.take(k as int + 1));
        } else {
            assert(s.take(k as int + 1) =~= s);
        }
    }
}

/// How many characters of `v` fit in `limit` bytes.
pub fn fitting_count(v: &Vec<char>, limit: usize) -> (k: usize)
    ensures
        k == fitting_prefix(v@, limit as nat),
{
    let mut k: usize = 0;
    let mut used: usize = 0;
    proof {
        assert(v@.take(0) =~= seq![]);
        lemma_fitting_prefix(v@, limit as nat);
    }
    while k < v.len() && width_of(v[k]) <= limit - used
        invariant
            k <= v.len(),
            used == utf8_len(v@.take(k as int)),
            used <= limit,
            k <= fitting_prefix(v@, limit as nat),
            fitting_prefix(v@, limit as nat) <= v@.len(),
            utf8_len(v@.take(fitting_prefix(v@, limit as nat) as int)) <= limit,
            fitting_prefix(v@, limit as nat) < v@.len() ==> utf8_len(
                v@.take(fitting_prefix(v@, limit as nat) as int + 1),
            ) > limit,
        decreases v.len() - k,
    {
        proof {
            assert(v@.take(k + 1).drop_last() =~= v@.take(k as int));
        }
        used = used + width_of(v[k]);
        k += 1;
    }
    proof {
        if k < v.len() {
            assert(v@.take(k + 1).drop_last() =~= v@.take(k as int));
            if k < fitting_prefix(v@, limit as nat) {
                lemma_prefix_monotone(v@, k + 1, fitting_prefix(v@, limit as nat) as int);
            }
        }
    }
    k
}

/// Truncates `output` to `limit` bytes on a character boundary and says so.
pub fn truncate_to(output: String, limit: usize) -> (r: String)
    ensures
        r@ == truncated(output@, limit as nat),
{
    let v = to_chars(output.as_str());
    let total = byte_len(&v);
    if total <= limit as u128 {
        return output;
    }
    let k = fitting_count(&v, limit);
    proof {
        lemma_fitting_prefix(v@, limit as nat);
    }
    let used = byte_len(&crate::text::slice_chars(&v, 0, k));
    proof {
        assert(v@.subrange(0, k as int) =~= v@.take(k as int));
    }
    let mut out = from_chars(&crate::text::slice_chars(&v, 0, k));
    push_str(&mut out, "\n\n[truncated: showed ");
    push_str(&mut out, from_chars(&crate::text::u128_decimal(used)).as_str());
    push_str(&mut out, " of ");
    let total_text = from_chars(&crate::text::u128_decimal(total));
    push_str(&mut out, total_text.as_str());
    push_str(&mut out, " bytes — narrow the request to see the rest]");
    proof {
        assert(v@.subrange(0, k as int) =~= v@.take(k as int));
    }
    out
}

/// Byte lengths of prefixes grow with the prefix.
proof fn lemma_prefix_monotone(s: Seq<char>, a: int, b: int)
    requires
        0 <= a <= b <= s.len(),
    ensures
        utf8_len(s.take(a)) <= utf8_len(s.take(b)),
    decreases b - a,
{
    if a < b {
        lemma_prefix_monotone(s, a, b - 1);
        assert(s.take(b).drop_last() =~= s.take(b - 1));
    }
}

// ---------------------------------------------------------------------------
// Errors
// ---------------------------------------------------------------------------

/// Errors a tool can return. Each goes back to the model as text.
#[derive(Debug)]
pub enum ToolError {
    /// The path was refused by the workspace boundary.
    Path(PathError),
    /// The arguments did not match what the tool accepts.
    InvalidInput { tool: String, detail: String },
    /// A filesystem operation failed; `source` is the system's message.
    Io { operation: String, path: String, source: String },
    /// No tool with that name is registered.
    Unknown(String),
}

/// The text of a tool error.
pub open spec fn tool_error_text(e: ToolError) -> Seq<char> {
    match e {
        ToolError::Path(p) => path_error_text(p@),
        ToolError::InvalidInput { tool, detail } => "invalid arguments for `"@ + tool@ + "`: "@
            + detail@,
        ToolError::Io { operation, path, source } => operation@ + " failed for `"@ + path@
            + "`: "@ + source@,
        ToolError::Unknown(name) => "unknown tool `"@ + name@ + "`"@,
    }
}

impl ToolError {
    /// The message the model reads.
    pub fn message(&self) -> (r: String)
        ensures
            r@ == tool_error_text(*self),
    {
        match self {
            ToolError::Path(p) => p.message(),
            ToolError::InvalidInput { tool, detail } => {
                let mut out = String::from_str("invalid arguments for `");
                push_str(&mut out, tool.as_str());
                push_str(&mut out, "`: ");
                push_str(&mut out, detail.as_str());
                out
            },
            ToolError::Io { operation, path, source } => {
                let mut out = String::new();
                push_str(&mut out, operation.as_str());
                push_str(&mut out, " failed for `");
                push_str(&mut out, path.as_str());
                push_str(&mut out, "`: ");
                push_str(&mut out, source.as_str());
                out
            },
            ToolError::Unknown(name) => {
                let mut out = String::from_str("unknown tool `");
                push_str(&mut out, name.as_str());
                push_str(&mut out, "`");
                out
            },
        }
    }
}

/// A required string argument: the value when present, otherwise the error
/// naming the missing key.
pub fn required_arg(tool: &str, key: &str, value: Option<String>) -> (r: Result<String, ToolError>)
    ensures
        match value {
            Some(v) => r matches Ok(s) && s@ == v@,
            None => r matches Err(ToolError::InvalidInput { tool: t, detail }) && t@ == tool@
                && detail@ == "missing required string argument `"@ + key@ + "`"@,
        },
{
    match value {
        Some(v) => Ok(v),
        None => {
            let mut detail = String::from_str("missing required string argument `");
            push_str(&mut detail, key);
            push_str(&mut detail, "`");
            Err(ToolError::InvalidInput { tool: String::from_str(tool), detail })
        },
    }
}

// ---------------------------------------------------------------------------
// Context
// ---------------------------------------------------------------------------

/// Where a tool may operate, and how much it may return.
#[derive(Debug, Clone)]
pub struct ToolContext {
    root: String,
    max_output_bytes: usize,
}

impl ToolContext {
    /// The workspace root, as given.
    pub closed spec fn root_spec(&self) -> Seq<char> {
        self.root@
    }

    /// The cap on one result, in bytes.
    pub closed spec fn cap(&self) -> nat {
        self.max_output_bytes as nat
    }

    /// A context rooted at `root` with the default cap.
    pub fn new(root: &str) -> (r: Self)
        ensures
            r.root_spec() == root@,
            r.cap() == DEFAULT_MAX_OUTPUT_BYTES,
    {
        ToolContext { root: String::from_str(root), max_output_bytes: DEFAULT_MAX_OUTPUT_BYTES }
    }

    /// The same context with another cap.
    pub fn with_max_output_bytes(self, bytes: usize) -> (r: Self)
        ensures
            r.root_spec() == self.root_spec(),
            r.cap() == bytes,
    {
        ToolContext { root: self.root, max_output_bytes: bytes }
    }

    /// The workspace root.
    pub fn root(&self) -> (r: &str)
        ensures
            r@ == self.root_spec(),
    {
        self.root.as_str()
    }

    /// Truncates a result to the cap, with a visible marker.
    pub fn truncate(&self, output: String) -> (r: String)
        ensures
            r@ == truncated(output@, self.cap()),
    {
        truncate_to(output, self.max_output_bytes)
    }

    /// Resolves a model-supplied path inside the workspace, given what
    /// `canonicalize` answered for the root and for each of the paths
    /// `crate::path::tried_paths` lists for the candidate joined to the canonical root.
    pub fn resolve(
        &self,
        candidate: &str,
        canonical_root: Option<String>,
        canon: &Vec<Option<String>>,
    ) -> (r: Result<String, PathError>)
        ensures
            match r {
                Ok(p) => crate::path::resolution(
                    self.root_spec(),
                    candidate@,
                    canonical_root,
                    canon@,
                ) == Ok::<Seq<char>, PathErrorView>(p@),
                Err(e) => crate::path::resolution(
                    self.root_spec(),
                    candidate@,
                    canonical_root,
                    canon@,
                ) == Err::<Seq<char>, PathErrorView>(e@),
            },
    {
        crate::path::resolve_in_workspace(self.root.as_str(), candidate, canonical_root, canon)
    }

    /// A path for display: relative to the root where it lies under it, and
    /// with forward slashes. `canonical_root` is what `canonicalize` answered
    /// for the root; without it the root as given is used.
    pub fn display_path(&self, absolute: &str, canonical_root: Option<String>) -> (r: String)
        ensures
            r@ == crate::path::display_text(
                absolute@,
                match canonical_root {
                    Some(c) => c@,
                    None => self.root_spec(),
                },
            ),
    {
        let root = match canonical_root {
            Some(c) => c,
            None => self.root.clone(),
        };
        crate::path::display_relative(absolute, root.as_str())
    }
}

} // verus!

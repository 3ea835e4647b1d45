//! Content search: what `grep` reports for the files the walk hands it.
use vstd::prelude::*;
use crate::patterns::{Pattern, regex_build_error, regex_matches};
use crate::text::{decimal, from_chars, lines, push_str, to_chars, trim_end};
use crate::tools::{ToolContext, ToolError};

verus! {

/// Maximum number of matching lines returned.
pub const MAX_MATCHES: usize = 200;

/// Files larger than this many bytes are skipped.
pub const MAX_FILE_BYTES: u64 = 2000000;

/// Size limit for a search pattern, so that a pathological one fails to
/// compile instead of hanging the agent.
pub const PATTERN_SIZE_LIMIT: usize = 1048576;

/// Searches file contents by regular expression.
#[derive(Debug, Clone, Copy)]
pub struct Grep;

/// The state of a search as values: what was written, how many lines matched,
/// and whether the cap stopped it.
pub struct ScanView {
    pub out: Seq<char>,
    pub found: nat,
    pub stopped: bool,
}

/// The note written when the cap is reached.
pub open spec fn stop_note() -> Seq<char> {
    "\n[stopped at 200 matches — narrow the pattern]\n"@
}

/// One reported line: where, which line, and the line without trailing
/// whitespace.
pub open spec fn match_line(shown: Seq<char>, number: nat, line: Seq<char>) -> Seq<char> {
    shown + ":"@ + decimal(number) + ": "@ + trim_end(line) + seq!['\n']
}

/// The search after looking at line `number` (counted from one) of a file.
pub open spec fn scan_line(
    st: ScanView,
    source: Seq<char>,
    ci: bool,
    shown: Seq<char>,
    number: nat,
    line: Seq<char>,
) -> ScanView {
    if st.stopped || !regex_matches(source, ci, line) {
        st
    } else {
        let out = st.out + match_line(shown, number, line);
        let found = st.found + 1;
        if found >= MAX_MATCHES {
            ScanView { out: out + stop_note(), found, stopped: true }
        } else {
            ScanView { out, found, stopped: false }
        }
    }
}

/// The search after the first `k` lines of a file.
pub open spec fn scan_lines(
    st: ScanView,
    source: Seq<char>,
    ci: bool,
    shown: Seq<char>,
    ls: Seq<Seq<char>>,
    k: nat,
) -> ScanView
    decreases k,
{
    if k == 0 {
        st
    } else {
        let before = scan_lines(st, source, ci, shown, ls, (k - 1) as nat);
        scan_line(before, source, ci, shown, k, ls[k - 1])
    }
}

/// A search in progress.
pub struct GrepScan {
    out: Vec<char>,
    found: usize,
    stopped: bool,
}

impl View for GrepScan {
    type V = ScanView;

    closed spec fn view(&self) -> ScanView {
        ScanView { out: self.out@, found: self.found as nat, stopped: self.stopped }
    }
}

/// A search never counts past the cap, and stops exactly when it reaches it.
pub open spec fn scan_well_formed(st: ScanView) -> bool {
    st.found <= MAX_MATCHES && (st.stopped <==> st.found == MAX_MATCHES)
}

/// What `grep` answers once the files are scanned.
pub open spec fn grep_answer(st: ScanView, pattern: Seq<char>, cap: nat) -> Seq<char> {
    if st.found == 0 {
        "No matches for `"@ + pattern + "`."@
    } else {
        crate::tools::truncated(st.out, cap)
    }
}

impl GrepScan {
    /// A search that has seen nothing.
    pub fn new() -> (r: Self)
        ensures
            r@ == (ScanView { out: seq![], found: 0, stopped: false }),
    {
        GrepScan { out: Vec::new(), found: 0, stopped: false }
    }

    /// Whether the cap was reached, so that no further file need be read.
    pub fn is_done(&self) -> (r: bool)
        ensures
            r == self@.stopped,
    {
        self.stopped
    }

    /// Scans the lines of one file, shown to the model as `shown`.
    pub fn scan(&mut self, re: &Pattern, shown: &str, content: &str)
        requires
            scan_well_formed(old(self)@),
        ensures
            scan_well_formed(final(self)@),
            final(self)@ == scan_lines(
                old(self)@,
                re.source(),
                re.ignores_case(),
                shown@,
                lines(content@),
                lines(content@).len(),
            ),
    {
        let v = to_chars(content);
        let ls = crate::text::split_lines(&v);
        let ghost lv = lines(content@);
        let shown_v = to_chars(shown);
        let mut i: usize = 0;
        while i < ls.len()
            invariant
                i <= ls.len(),
                ls@.len() == lv.len(),
                forall|j: int| 0 <= j < ls@.len() ==> #[trigger] ls@[j]@ == lv[j],
                shown_v@ == shown@,
                scan_well_formed(self@),
                self@ == scan_lines(
                    old(self)@,
                    re.source(),
                    re.ignores_case(),
                    shown@,
                    lv,
                    i as nat,
                ),
            decreases ls.len() - i,
        {
            if !self.stopped {
                let line = from_chars(&ls[i]);
                if re.is_match(line.as_str()) {
                    crate::text::extend_chars(&mut self.out, &shown_v);
                    self.out.push(':');
                    crate::text::extend_chars(&mut self.out, &crate::text::u64_decimal(i as u64 + 1));
                    self.out.push(':');
                    self.out.push(' ');
                    crate::text::extend_chars(&mut self.out, &crate::text::trim_end_chars(&ls[i]));
                    self.out.push('\n');
                    self.found = self.found + 1;
                    if self.found >= MAX_MATCHES {
                        crate::text::extend_str(
                            &mut self.out,
                            "\n[stopped at 200 matches — narrow the pattern]\n",
                        );
                        self.stopped = true;
                    }
                    proof {
                        reveal_strlit(":");
                        reveal_strlit(": ");
                        assert(self@.out =~= scan_lines(
                            old(self)@,
                            re.source(),
                            re.ignores_case(),
                            shown@,
                            lv,
                            (i + 1) as nat,
                        ).out);
                    }
                }
            }
            i += 1;
        }
    }

    /// The answer to the model.
    pub fn finish(self, pattern: &str, ctx: &ToolContext) -> (r: String)
        ensures
            r@ == grep_answer(self@, pattern@, ctx.cap()),
    {
        if self.found == 0 {
            let mut out = String::from_str("No matches for `");
            push_str(&mut out, pattern);
            push_str(&mut out, "`.");
            return out;
        }
        ctx.truncate(from_chars(&self.out))
    }
}

/// The refusal for a pattern that does not compile.
pub open spec fn bad_pattern(pattern: Seq<char>, error: Seq<char>, e: ToolError) -> bool {
    e matches ToolError::InvalidInput { tool, detail } && tool@ == "grep"@ && detail@ == "`"@
        + pattern + "` is not a valid regular expression: "@ + error
}

impl Grep {
    /// Compiles the search pattern: case-insensitive unless asked otherwise,
    /// and with a bounded size.
    pub fn compile(pattern: &str, case_sensitive: bool) -> (r: Result<Pattern, ToolError>)
        ensures
            match r {
                Ok(p) => regex_build_error(pattern@, !case_sensitive, PATTERN_SIZE_LIMIT as nat) is None
                    && p.source() == pattern@ && p.ignores_case() == !case_sensitive,
                Err(e) => exists|msg: Seq<char>|
                    regex_build_error(pattern@, !case_sensitive, PATTERN_SIZE_LIMIT as nat)
                        == Some(msg) && bad_pattern(pattern@, msg, e),
            },
    {
        match Pattern::compile(pattern, !case_sensitive, PATTERN_SIZE_LIMIT) {
            Ok(p) => Ok(p),
            Err(msg) => {
                let mut detail = String::from_str("`");
                push_str(&mut detail, pattern);
                push_str(&mut detail, "` is not a valid regular expression: ");
                push_str(&mut detail, msg.as_str());
                let e = ToolError::InvalidInput { tool: String::from_str("grep"), detail };
                proof {
                    assert(bad_pattern(pattern@, msg@, e));
                }
                Err(e)
            },
        }
    }

    /// Whether a file of `len` bytes is too large to search.
    pub fn skips(len: u64) -> (r: bool)
        ensures
            r == (len > MAX_FILE_BYTES),
    {
        len > MAX_FILE_BYTES
    }

    /// Searching changes nothing.
    pub fn is_read_only(&self) -> (r: bool)
        ensures
            r,
    {
        true
    }
}

} // verus!

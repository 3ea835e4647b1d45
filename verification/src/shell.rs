//! The shell tool: which commands are refused, which look risky, how a run
//! is reported, and how its exit code is read back.
use vstd::prelude::*;
use crate::effect::Risk;
use crate::text::{
    contains, decimal, from_chars, int_decimal, lines, parse_i32, push_str, starts_with, to_chars,
    trim,
};
use crate::tools::ToolError;

verus! {

/// Runs one shell command in the project directory.
#[derive(Debug, Clone, Copy)]
pub struct Shell;

impl Shell {
    /// `shell` can change anything the command changes.
    pub fn is_read_only(&self) -> (r: bool)
        ensures
            !r,
    {
        false
    }
}

/// Seconds a command may run before it is killed.
pub const TIMEOUT_SECONDS: u64 = 120;

/// Cap on each captured stream, in bytes.
pub const MAX_CAPTURE_BYTES: usize = 30000;

/// Commands refused outright, each with the reason.
pub open spec fn refused_list() -> Seq<(Seq<char>, Seq<char>)> {
    seq![
        ("rm -rf /"@, "deletes the filesystem root"@),
        ("rm -rf /*"@, "deletes the filesystem root"@),
        ("mkfs"@, "formats a filesystem"@),
        ("dd if="@, "writes raw device data"@),
        (":(){"@, "is a fork bomb"@),
        ("shutdown"@, "powers off the machine"@),
        ("reboot"@, "restarts the machine"@),
    ]
}

/// Commands that run only with approval and are flagged, each with the reason.
pub open spec fn high_risk_list() -> Seq<(Seq<char>, Seq<char>)> {
    seq![
        ("rm -r"@, "deletes directories recursively"@),
        ("rm -f"@, "deletes without prompting"@),
        ("git push"@, "publishes to a remote"@),
        ("git reset --hard"@, "discards uncommitted work"@),
        ("git clean"@, "deletes untracked files"@),
        ("drop table"@, "drops a database table"@),
        ("curl"@, "fetches from the network"@),
        ("wget"@, "fetches from the network"@),
        ("npm publish"@, "publishes a package"@),
        ("cargo publish"@, "publishes a crate"@),
        ("sudo"@, "runs with elevated privileges"@),
    ]
}

/// The refused commands.
pub fn refused() -> (r: Vec<(&'static str, &'static str)>)
    ensures
        pair_views(r@) == refused_list(),
{
    let r = vec![
        ("rm -rf /", "deletes the filesystem root"),
        ("rm -rf /*", "deletes the filesystem root"),
        ("mkfs", "formats a filesystem"),
        ("dd if=", "writes raw device data"),
        (":(){", "is a fork bomb"),
        ("shutdown", "powers off the machine"),
        ("reboot", "restarts the machine"),
    ];
    proof {
        assert(pair_views(r@) =~= refused_list());
    }
    r
}

/// The high-risk commands.
pub fn high_risk() -> (r: Vec<(&'static str, &'static str)>)
    ensures
        pair_views(r@) == high_risk_list(),
{
    let r = vec![
        ("rm -r", "deletes directories recursively"),
        ("rm -f", "deletes without prompting"),
        ("git push", "publishes to a remote"),
        ("git reset --hard", "discards uncommitted work"),
        ("git clean", "deletes untracked files"),
        ("drop table", "drops a database table"),
        ("curl", "fetches from the network"),
        ("wget", "fetches from the network"),
        ("npm publish", "publishes a package"),
        ("cargo publish", "publishes a crate"),
        ("sudo", "runs with elevated privileges"),
    ];
    proof {
        assert(pair_views(r@) =~= high_risk_list());
    }
    r
}

/// Pairs of string slices as values.
pub open spec fn pair_views(v: Seq<(&str, &str)>) -> Seq<(Seq<char>, Seq<char>)> {
    v.map_values(|p: (&str, &str)| (p.0@, p.1@))
}

/// The first entry of `list` whose pattern occurs in `text`.
pub open spec fn first_hit(list: Seq<(Seq<char>, Seq<char>)>, text: Seq<char>, from: int) -> Option<int>
    decreases list.len() - from,
{
    if from < 0 || from >= list.len() {
        None
    } else if contains(text, list[from].0) {
        Some(from)
    } else {
        first_hit(list, text, from + 1)
    }
}

/// Index of the first entry of `list` whose pattern occurs in `text`.
fn find_hit(list: &Vec<(&'static str, &'static str)>, text: &str) -> (r: Option<usize>)
    ensures
        match r {
            Some(k) => k < list@.len() && first_hit(pair_views(list@), text@, 0) == Some(k as int),
            None => first_hit(pair_views(list@), text@, 0) is None,
        },
{
    let mut i: usize = 0;
    while i < list.len()
        invariant
            i <= list.len(),
            first_hit(pair_views(list@), text@, 0) == first_hit(pair_views(list@), text@, i as int),
        decreases list.len() - i,
    {
        if crate::text::str_contains(text, list[i].0) {
            return Some(i);
        }
        i += 1;
    }
    None
}

/// The refusal text for a refused pattern.
pub open spec fn refusal_detail(pattern: Seq<char>, reason: Seq<char>) -> Seq<char> {
    "Refused: `"@ + pattern + "` "@ + reason
        + ". true-code will not run this even with approval. Run it yourself if you are sure."@
}

/// Refuses commands that are catastrophic whatever the approval: the first
/// refused pattern that occurs in the lowercased command decides.
pub fn refuse_if_catastrophic(command: &str) -> (r: Result<(), ToolError>)
    ensures
        first_hit(refused_list(), crate::text::lowercase(command@), 0) is None ==> r is Ok,
        first_hit(refused_list(), crate::text::lowercase(command@), 0) matches Some(i) ==> (r matches Err(
            ToolError::InvalidInput { tool, detail },
        ) && tool@ == "shell"@ && detail@ == refusal_detail(
            refused_list()[i].0,
            refused_list()[i].1,
        )),
{
    let lowered = crate::text::to_lowercase(command);
    let list = refused();
    let low = lowered.as_str();
    let hit = find_hit(&list, low);
    proof {
        assert(low@ == crate::text::lowercase(command@));
        assert(pair_views(list@) == refused_list());
    }
    match hit {
        None => {
            proof {
                assert(first_hit(pair_views(list@), low@, 0) is None);
                assert(first_hit(refused_list(), crate::text::lowercase(command@), 0) is None);
            }
            Ok(())
        },
        Some(i) => {
            let (pattern, reason) = list[i];
            proof {
                assert(pair_views(list@)[i as int] == (pattern@, reason@));
                assert(refused_list()[i as int] == (pattern@, reason@));
                assert(first_hit(refused_list(), crate::text::lowercase(command@), 0) == Some(
                    i as int,
                ));
            }
            let mut detail = String::from_str("Refused: `");
            push_str(&mut detail, pattern);
            push_str(&mut detail, "` ");
            push_str(&mut detail, reason);
            push_str(
                &mut detail,
                ". true-code will not run this even with approval. Run it yourself if you are sure.",
            );
            Err(ToolError::InvalidInput { tool: String::from_str("shell"), detail })
        },
    }
}

/// The risk of a command: the first high-risk pattern that occurs in the
/// lowercased command, with its reason, or normal.
pub fn classify(command: &str) -> (r: Risk)
    ensures
        first_hit(high_risk_list(), crate::text::lowercase(command@), 0) is None ==> r
            == Risk::Normal,
        first_hit(high_risk_list(), crate::text::lowercase(command@), 0) matches Some(i) ==> (r matches Risk::High { reason } && reason@ == high_risk_list()[i].1),
{
    let lowered = crate::text::to_lowercase(command);
    let list = high_risk();
    let low = lowered.as_str();
    let hit = find_hit(&list, low);
    proof {
        assert(low@ == crate::text::lowercase(command@));
        assert(pair_views(list@) == high_risk_list());
    }
    match hit {
        None => Risk::Normal,
        Some(i) => {
            proof {
                assert(pair_views(list@)[i as int] == (list@[i as int].0@, list@[i as int].1@));
                assert(high_risk_list()[i as int].1 == list@[i as int].1@);
                assert(first_hit(high_risk_list(), crate::text::lowercase(command@), 0) == Some(
                    i as int,
                ));
            }
            Risk::High { reason: String::from_str(list[i].1) }
        },
    }
}

// ---------------------------------------------------------------------------
// Reporting a run and reading it back
// ---------------------------------------------------------------------------

/// The line that carries the exit code starts with this.
pub open spec fn exit_prefix() -> Seq<char> {
    "exit code: "@
}

/// A captured stream: present when it holds more than whitespace.
pub open spec fn has_text(s: Seq<char>) -> bool {
    !crate::text::is_blank(s)
}

/// What `render_output` reports for a run: the command, the exit code (`-1`
/// when the process was killed by a signal), then each stream that holds
/// text, each cut to `MAX_CAPTURE_BYTES`, or a note that there was none.
pub open spec fn rendered_run(
    command: Seq<char>,
    code: Option<i32>,
    stdout: Seq<char>,
    stderr: Seq<char>,
) -> Seq<char> {
    let n: int = match code {
        Some(c) => c as int,
        None => -1,
    };
    let head = "$ "@ + command + seq!['\n'] + exit_prefix() + int_decimal(n) + seq!['\n'];
    let out_part = if has_text(stdout) {
        "\n--- stdout ---\n"@ + crate::tools::truncated(stdout, MAX_CAPTURE_BYTES as nat)
    } else {
        seq![]
    };
    let err_part = if has_text(stderr) {
        "\n--- stderr ---\n"@ + crate::tools::truncated(stderr, MAX_CAPTURE_BYTES as nat)
    } else {
        seq![]
    };
    let none_part = if !has_text(stdout) && !has_text(stderr) {
        "\n(no output)\n"@
    } else {
        seq![]
    };
    head + out_part + err_part + none_part
}

/// Renders the outcome of a command for the model. `code` is the process's
/// exit code, `None` when a signal ended it.
pub fn render_output(command: &str, code: Option<i32>, stdout: &str, stderr: &str) -> (r: String)
    ensures
        r@ == rendered_run(command@, code, stdout@, stderr@),
{
    let n: i32 = match code {
        Some(c) => c,
        None => -1,
    };
    let mut out = String::from_str("$ ");
    push_str(&mut out, command);
    push_str(&mut out, "\nexit code: ");
    push_str(&mut out, from_chars(&crate::text::i64_decimal(n as i64)).as_str());
    push_str(&mut out, "\n");
    let has_out = !crate::text::str_is_blank(stdout);
    let has_err = !crate::text::str_is_blank(stderr);
    if has_out {
        push_str(&mut out, "\n--- stdout ---\n");
        push_str(&mut out, crate::tools::truncate_to(String::from_str(stdout), MAX_CAPTURE_BYTES).as_str());
    }
    if has_err {
        push_str(&mut out, "\n--- stderr ---\n");
        push_str(&mut out, crate::tools::truncate_to(String::from_str(stderr), MAX_CAPTURE_BYTES).as_str());
    }
    if !has_out && !has_err {
        push_str(&mut out, "\n(no output)\n");
    }
    proof {
        reveal_strlit("\nexit code: ");
        reveal_strlit("exit code: ");
        reveal_strlit("\n");
        assert("\nexit code: "@ =~= seq!['\n'] + exit_prefix());
        assert(out@ =~= rendered_run(command@, code, stdout@, stderr@));
    }
    out
}

/// The first line that starts with `prefix`, from line `from` on.
pub open spec fn first_prefixed(ls: Seq<Seq<char>>, prefix: Seq<char>, from: int) -> Option<int>
    decreases ls.len() - from,
{
    if from < 0 || from >= ls.len() {
        None
    } else if starts_with(ls[from], prefix) {
        Some(from)
    } else {
        first_prefixed(ls, prefix, from + 1)
    }
}

/// What `parse_exit_code` reads: the first line that starts with the exit
/// prefix, the rest of it trimmed and parsed as an `i32`; `None` when no line
/// has the prefix or the first such line does not parse.
pub open spec fn exit_code_of(output: Seq<char>) -> Option<i32> {
    let ls = lines(output);
    match first_prefixed(ls, exit_prefix(), 0) {
        None => None,
        Some(i) => parse_i32(trim(ls[i].skip(exit_prefix().len() as int))),
    }
}

/// Reads the exit code back out of rendered output.
pub fn parse_exit_code(output: &str) -> (r: Option<i32>)
    ensures
        r == exit_code_of(output@),
{
    let v = to_chars(output);
    let ls = crate::text::split_lines(&v);
    let prefix = to_chars("exit code: ");
    let ghost lv = lines(output@);
    let mut i: usize = 0;
    while i < ls.len()
        invariant
            i <= ls.len(),
            ls@.len() == lv.len(),
            forall|j: int| 0 <= j < ls@.len() ==> #[trigger] ls@[j]@ == lv[j],
            prefix@ == exit_prefix(),
            lv == lines(output@),
            first_prefixed(lv, exit_prefix(), 0) == first_prefixed(lv, exit_prefix(), i as int),
        decreases ls.len() - i,
    {
        if crate::text::matches_at(&ls[i], &prefix, 0) {
            let rest = crate::text::slice_chars(&ls[i], prefix.len(), ls[i].len());
            let trimmed = crate::text::trim_chars(&rest);
            proof {
                assert(ls@[i as int]@ == lv[i as int]);
                assert(starts_with(lv[i as int], exit_prefix()));
                assert(first_prefixed(lv, exit_prefix(), i as int) == Some(i as int));
                assert(rest@ =~= lv[i as int].skip(exit_prefix().len() as int));
            }
            let r = crate::text::parse_i32_chars(&trimmed);
            proof {
                assert(trimmed@ == trim(lv[i as int].skip(exit_prefix().len() as int)));
                assert(r == parse_i32(trimmed@));
                assert(exit_code_of(output@) == parse_i32(trim(lv[i as int].skip(exit_prefix().len() as int))));
            }
            return r;
        }
        i += 1;
    }
    None
}

/// Whether `c` is a character of a rendered integer.
proof fn lemma_decimal_not_ws(n: nat)
    ensures
        decimal(n).len() >= 1,
        !crate::text::is_ws(decimal(n)[0]),
        !crate::text::is_ws(decimal(n).last()),
        forall|i: int| 0 <= i < decimal(n).len() ==> decimal(n)[i] != '\n',
{
    crate::text::lemma_decimal_digits(n);
    let d = decimal(n);
    assert(crate::text::is_digit(d[0]));
    assert(crate::text::is_digit(d.last()));
    assert forall|i: int| 0 <= i < d.len() implies d[i] != '\n' by {
        assert(crate::text::is_digit(d[i]));
    }
}

/// A text whose ends are not whitespace is its own trim.
proof fn lemma_trim_of_solid(s: Seq<char>)
    requires
        s.len() > 0,
        !crate::text::is_ws(s[0]),
        !crate::text::is_ws(s.last()),
    ensures
        trim(s) == s,
{
    assert(crate::text::leading_ws(s) == 0);
    assert(s.skip(0) =~= s);
    assert(crate::text::trailing_ws(s) == 0);
    assert(s.take(s.len() as int) =~= s);
}

/// Reading the exit code back out of a rendered run gives the code that was
/// rendered (`-1` for a run ended by a signal), whatever the streams held,
/// as long as the command is one line.
pub proof fn lemma_exit_code_round_trip(
    command: Seq<char>,
    code: Option<i32>,
    stdout: Seq<char>,
    stderr: Seq<char>,
)
    requires
        forall|i: int| 0 <= i < command.len() ==> command[i] != '\n',
    ensures
        exit_code_of(rendered_run(command, code, stdout, stderr)) == Some(
            match code {
                Some(c) => c,
                None => -1i32,
            },
        ),
{
    let n: i32 = match code {
        Some(c) => c,
        None => -1i32,
    };
    let out = rendered_run(command, code, stdout, stderr);
    let first = "$ "@ + command;
    let num = int_decimal(n as int);
    let second = exit_prefix() + num;
    let tail = out.skip(first.len() as int + 1 + second.len() as int + 1);
    reveal_strlit("$ ");
    reveal_strlit("exit code: ");
    // The number has no line break and no surrounding whitespace.
    if n < 0 {
        lemma_decimal_not_ws((-(n as int)) as nat);
    } else {
        lemma_decimal_not_ws(n as nat);
    }
    assert(forall|i: int| 0 <= i < num.len() ==> num[i] != '\n') by {
        if n < 0 {
            let d = decimal((-(n as int)) as nat);
            assert forall|i: int| 0 <= i < num.len() implies num[i] != '\n' by {
                if i > 0 {
                    assert(num[i] == d[i - 1]);
                }
            }
        }
    }
    assert(out =~= first + seq!['\n'] + second + seq!['\n'] + tail);
    // The first line is the command.
    assert(crate::text::first_index_of(out, '\n') == Some(first.len() as int)) by {
        crate::text::lemma_first_index_of(out, '\n');
        assert(out[first.len() as int] == '\n');
        assert forall|j: int| 0 <= j < first.len() implies out[j] != '\n' by {
            if j >= 2 {
                assert(out[j] == command[j - 2]);
            }
        }
    }
    let rest = out.skip(first.len() as int + 1);
    assert(rest =~= second + seq!['\n'] + tail);
    assert(crate::text::first_index_of(rest, '\n') == Some(second.len() as int)) by {
        crate::text::lemma_first_index_of(rest, '\n');
        assert(rest[second.len() as int] == '\n');
        assert forall|j: int| 0 <= j < second.len() implies rest[j] != '\n' by {
            if j >= 11 {
                assert(rest[j] == num[j - 11]);
            }
        }
    }
    let ls = lines(out);
    assert(rest.take(second.len() as int) =~= second);
    assert(out.take(first.len() as int) =~= first);
    assert(ls == seq![crate::text::strip_cr(out.take(first.len() as int))] + lines(rest));
    assert(lines(rest) == seq![crate::text::strip_cr(rest.take(second.len() as int))] + lines(
        rest.skip(second.len() as int + 1),
    ));
    assert(ls[0] == crate::text::strip_cr(first));
    assert(ls[1] == crate::text::strip_cr(second));
    // The second line is the exit code, and the first line is not.
    assert(crate::text::strip_cr(second) == second) by {
        assert(second.last() == num.last());
    }
    assert(!starts_with(ls[0], exit_prefix())) by {
        assert(ls[0][0] == '$');
    }
    assert(starts_with(ls[1], exit_prefix())) by {
        assert(ls[1].subrange(0, 11) =~= exit_prefix());
    }
    assert(first_prefixed(ls, exit_prefix(), 1) == Some(1int));
    assert(first_prefixed(ls, exit_prefix(), 0) == Some(1int));
    assert(ls[1].skip(11) =~= num);
    if n < 0 {
        assert(num[0] == '-');
        assert(num.last() == decimal((-(n as int)) as nat).last());
    }
    lemma_trim_of_solid(num);
    crate::text::lemma_parse_int_decimal(n);
}

} // verus!

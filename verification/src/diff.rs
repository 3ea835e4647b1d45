//! Diff previews of file changes.
//!
//! The line diff itself comes from the `similar` crate. What is counted,
//! rendered and cut from it is decided here.
use vstd::prelude::*;
use crate::text::{decimal, ends_with, from_chars, push_str, to_chars};

verus! {

/// Lines of unchanged context shown around each change.
pub const CONTEXT_LINES: usize = 3;

/// Cap on the rendered diff, in bytes.
pub const MAX_DIFF_BYTES: usize = 12000;

/// Tag of an unchanged line.
pub const EQUAL: u8 = 0;

/// Tag of a removed line.
pub const DELETE: u8 = 1;

/// Tag of an added line.
pub const INSERT: u8 = 2;

/// What `similar::TextDiff::from_lines(before, after).iter_all_changes()`
/// yields: each change as its tag (`EQUAL`, `DELETE` or `INSERT`) and its
/// line, line ending included.
pub uninterp spec fn line_diff(before: Seq<char>, after: Seq<char>) -> Seq<(u8, Seq<char>)>;

/// What `similar::TextDiff::from_lines(before, after).grouped_ops(context)`
/// yields, each group flattened into its changes with `iter_changes`.
pub uninterp spec fn grouped_line_diff(before: Seq<char>, after: Seq<char>, context: nat) -> Seq<
    Seq<(u8, Seq<char>)>,
>;

/// A change list as values.
pub open spec fn changes_view(v: Seq<(u8, String)>) -> Seq<(u8, Seq<char>)> {
    v.map_values(|c: (u8, String)| (c.0, c.1@))
}

/// A list of change groups as values.
pub open spec fn groups_view(v: Seq<Vec<(u8, String)>>) -> Seq<Seq<(u8, Seq<char>)>> {
    v.map_values(|g: Vec<(u8, String)>| changes_view(g@))
}

/// Calls `similar::TextDiff::from_lines` and collects `iter_all_changes`:
/// every line of both texts, tagged, in the order of the diff. The result
/// is named `line_diff`; nothing more of it is claimed.
#[verifier::external_body]
fn all_line_changes(before: &str, after: &str) -> (r: Vec<(u8, String)>)
    ensures
        changes_view(r@) == line_diff(before@, after@),
{
    let diff = similar::TextDiff::from_lines(before, after);
    let tagged = |change: similar::Change<&str>| match change.tag() {
        similar::ChangeTag::Equal => (0u8, change.value().to_owned()),
        similar::ChangeTag::Delete => (1u8, change.value().to_owned()),
        similar::ChangeTag::Insert => (2u8, change.value().to_owned()),
    };
    diff.iter_all_changes().map(tagged).collect()
}

/// Calls `similar::TextDiff::from_lines`, then `grouped_ops(context)`, and
/// for each group collects `iter_changes` of its operations. The result is
/// named `grouped_line_diff`; nothing more of it is claimed.
#[verifier::external_body]
fn grouped_line_changes(before: &str, after: &str, context: usize) -> (r: Vec<Vec<(u8, String)>>)
    ensures
        groups_view(r@) == grouped_line_diff(before@, after@, context as nat),
{
    let diff = similar::TextDiff::from_lines(before, after);
    let tagged = |change: similar::Change<&str>| match change.tag() {
        similar::ChangeTag::Equal => (0u8, change.value().to_owned()),
        similar::ChangeTag::Delete => (1u8, change.value().to_owned()),
        similar::ChangeTag::Insert => (2u8, change.value().to_owned()),
    };
    let groups = diff.grouped_ops(context);
    groups.iter().map(|ops| ops.iter().flat_map(|op| diff.iter_changes(op)).map(tagged).collect()).collect()
}

/// How a change affects a file.
#[derive(Debug, Clone, Copy, PartialEq, Eq, Structural)]
pub enum ChangeKind {
    /// The file does not exist yet.
    Create,
    /// The file exists and its contents change.
    Modify,
}

/// A rendered preview of one file change.
#[derive(Debug, Clone, PartialEq, Eq)]
pub struct FileDiff {
    /// Path shown to the user, relative to the workspace root.
    pub path: String,
    /// Whether the file is created or modified.
    pub kind: ChangeKind,
    /// Unified diff text, possibly truncated.
    pub text: String,
    /// Number of lines added.
    pub added: usize,
    /// Number of lines removed.
    pub removed: usize,
    /// The added lines, without their line endings.
    pub added_lines: Vec<String>,
}

/// How many changes carry `tag`.
pub open spec fn count_tag(cs: Seq<(u8, Seq<char>)>, tag: u8) -> nat
    decreases cs.len(),
{
    if cs.len() == 0 {
        0
    } else {
        count_tag(cs.drop_last(), tag) + if cs.last().0 == tag {
            1nat
        } else {
            0nat
        }
    }
}

/// A line without its line ending (`\n` or `\r\n`).
pub open spec fn without_ending(line: Seq<char>) -> Seq<char> {
    if line.len() > 0 && line.last() == '\n' {
        crate::text::strip_cr(line.drop_last())
    } else {
        line
    }
}

/// The lines the changes add, without their line endings.
pub open spec fn inserted_lines(cs: Seq<(u8, Seq<char>)>) -> Seq<Seq<char>>
    decreases cs.len(),
{
    if cs.len() == 0 {
        seq![]
    } else if cs.last().0 == INSERT {
        inserted_lines(cs.drop_last()).push(without_ending(cs.last().1))
    } else {
        inserted_lines(cs.drop_last())
    }
}

/// The sign that starts a rendered line.
pub open spec fn sign(tag: u8) -> char {
    if tag == DELETE {
        '-'
    } else if tag == INSERT {
        '+'
    } else {
        ' '
    }
}

/// One change as a line of the unified diff: sign, text, and a line ending
/// where the text had none.
pub open spec fn render_change(c: (u8, Seq<char>)) -> Seq<char> {
    let body = seq![sign(c.0)] + c.1;
    if ends_with(c.1, seq!['\n']) {
        body
    } else {
        body.push('\n')
    }
}

/// The changes of one group, rendered one after the other.
pub open spec fn render_changes(cs: Seq<(u8, Seq<char>)>) -> Seq<char>
    decreases cs.len(),
{
    if cs.len() == 0 {
        seq![]
    } else {
        render_changes(cs.drop_last()) + render_change(cs.last())
    }
}

/// All groups, separated by a line holding `…`.
pub open spec fn render_groups(gs: Seq<Seq<(u8, Seq<char>)>>) -> Seq<char>
    decreases gs.len(),
{
    if gs.len() == 0 {
        seq![]
    } else if gs.len() == 1 {
        render_changes(gs[0])
    } else {
        render_groups(gs.drop_last()) + seq!['…', '\n'] + render_changes(gs.last())
    }
}

/// The one-line summary of a diff.
pub open spec fn diff_summary(kind: ChangeKind, path: Seq<char>, added: nat, removed: nat) -> Seq<
    char,
> {
    (if kind == ChangeKind::Create {
        "create"@
    } else {
        "modify"@
    }) + " "@ + path + "  +"@ + decimal(added) + " −"@ + decimal(removed)
}

impl FileDiff {
    /// Builds the diff between the current contents of a file (`None` when it
    /// does not exist) and its proposed contents.
    pub fn new(path: &str, before: Option<&str>, after: &str) -> (r: Self)
        ensures
            r.path@ == path@,
            r.kind == (if before is Some {
                ChangeKind::Modify
            } else {
                ChangeKind::Create
            }),
            ({
                let b = match before {
                    Some(b) => b@,
                    None => Seq::<char>::empty(),
                };
                &&& r.added == count_tag(line_diff(b, after@), INSERT)
                &&& r.removed == count_tag(line_diff(b, after@), DELETE)
                &&& r.added_lines@.map_values(|l: String| l@) == inserted_lines(line_diff(b, after@))
                &&& r.text@ == crate::tools::truncated(
                    render_groups(grouped_line_diff(b, after@, CONTEXT_LINES as nat)),
                    MAX_DIFF_BYTES as nat,
                )
            }),
    {
        let kind = match before {
            Some(_) => ChangeKind::Modify,
            None => ChangeKind::Create,
        };
        let b: &str = match before {
            Some(b) => b,
            None => "",
        };
        proof {
            reveal_strlit("");
            assert(""@ =~= Seq::<char>::empty());
            assert(b@ == match before {
                Some(b) => b@,
                None => Seq::<char>::empty(),
            });
        }
        let changes = all_line_changes(b, after);
        let groups = grouped_line_changes(b, after, CONTEXT_LINES);
        FileDiff::from_changes(path, kind, &changes, &groups)
    }

    /// The diff of a file from the changes `similar` found: every line tagged
    /// (`changes`) and the changes grouped with their context (`groups`).
    /// It counts the added and removed lines, keeps the added ones without
    /// their line endings, and renders the groups, cut to `MAX_DIFF_BYTES`.
    pub fn from_changes(
        path: &str,
        kind: ChangeKind,
        changes: &Vec<(u8, String)>,
        groups: &Vec<Vec<(u8, String)>>,
    ) -> (r: Self)
        ensures
            r.path@ == path@,
            r.kind == kind,
            r.added == count_tag(changes_view(changes@), INSERT),
            r.removed == count_tag(changes_view(changes@), DELETE),
            r.added_lines@.map_values(|l: String| l@) == inserted_lines(changes_view(changes@)),
            r.text@ == crate::tools::truncated(render_groups(groups_view(groups@)), MAX_DIFF_BYTES as nat),
    {
        let ghost cv = changes_view(changes@);
        let mut added: usize = 0;
        let mut removed: usize = 0;
        let mut lines: Vec<String> = Vec::new();
        let mut i: usize = 0;
        proof {
            assert(cv.take(0) =~= seq![]);
            assert(lines@.map_values(|l: String| l@) =~= seq![]);
        }
        while i < changes.len()
            invariant
                i <= changes.len(),
                cv == changes_view(changes@),
                added == count_tag(cv.take(i as int), INSERT),
                removed == count_tag(cv.take(i as int), DELETE),
                added <= i,
                removed <= i,
                lines@.map_values(|l: String| l@) == inserted_lines(cv.take(i as int)),
            decreases changes.len() - i,
        {
            proof {
                assert(cv.take(i + 1).drop_last() =~= cv.take(i as int));
                assert(cv.take(i + 1).last() == cv[i as int]);
            }
            let tag = changes[i].0;
            if tag == INSERT {
                added += 1;
                let text = to_chars(changes[i].1.as_str());
                let line = from_chars(&strip_ending(&text));
                let ghost before_lines = lines@;
                lines.push(line);
                proof {
                    assert(lines@.map_values(|l: String| l@) =~= before_lines.map_values(
                        |l: String| l@,
                    ).push(line@));
                }
            } else if tag == DELETE {
                removed += 1;
            }
            i += 1;
        }
        proof {
            assert(cv.take(changes.len() as int) =~= cv);
        }
        let text = crate::tools::truncate_to(render_all(groups), MAX_DIFF_BYTES);
        FileDiff { path: String::from_str(path), kind, text, added, removed, added_lines: lines }
    }

    /// A one-line summary, such as `modify src/lib.rs  +12 −3`.
    pub fn summary(&self) -> (r: String)
        ensures
            r@ == diff_summary(self.kind, self.path@, self.added as nat, self.removed as nat),
    {
        let mut out = match self.kind {
            ChangeKind::Create => String::from_str("create"),
            ChangeKind::Modify => String::from_str("modify"),
        };
        push_str(&mut out, " ");
        push_str(&mut out, self.path.as_str());
        push_str(&mut out, "  +");
        push_str(&mut out, crate::text::usize_to_string(self.added).as_str());
        push_str(&mut out, " −");
        push_str(&mut out, crate::text::usize_to_string(self.removed).as_str());
        out
    }

    /// Whether the change would leave the file as it is.
    pub fn is_empty(&self) -> (r: bool)
        ensures
            r == (self.added == 0 && self.removed == 0),
    {
        self.added == 0 && self.removed == 0
    }
}

/// A line without its line ending.
fn strip_ending(line: &Vec<char>) -> (r: Vec<char>)
    ensures
        r@ == without_ending(line@),
{
    let mut out = crate::text::slice_chars(line, 0, line.len());
    proof {
        assert(out@ =~= line@);
    }
    if out.len() > 0 && out[out.len() - 1] == '\n' {
        out.pop();
        if out.len() > 0 && out[out.len() - 1] == '\r' {
            out.pop();
        }
    }
    out
}

/// Renders one group of changes.
fn render_group(out: &mut Vec<char>, changes: &Vec<(u8, String)>)
    ensures
        final(out)@ == old(out)@ + render_changes(changes_view(changes@)),
{
    let ghost cv = changes_view(changes@);
    let mut i: usize = 0;
    proof {
        assert(cv.take(0) =~= seq![]);
        assert(old(out)@ + render_changes(cv.take(0)) =~= old(out)@);
    }
    while i < changes.len()
        invariant
            i <= changes.len(),
            cv == changes_view(changes@),
            out@ == old(out)@ + render_changes(cv.take(i as int)),
        decreases changes.len() - i,
    {
        proof {
            assert(cv.take(i + 1).drop_last() =~= cv.take(i as int));
            assert(cv.take(i + 1).last() == cv[i as int]);
        }
        let ghost before = out@;
        let tag = changes[i].0;
        let s = if tag == DELETE {
            '-'
        } else if tag == INSERT {
            '+'
        } else {
            ' '
        };
        out.push(s);
        let value = to_chars(changes[i].1.as_str());
        crate::text::extend_chars(out, &value);
        let nl = vec!['\n'];
        proof {
            assert(nl@ =~= seq!['\n']);
        }
        if !crate::text::ends_with_chars(&value, &nl) {
            out.push('\n');
        }
        proof {
            assert(out@ =~= before + render_change(cv[i as int]));
        }
        i += 1;
    }
    proof {
        assert(cv.take(changes.len() as int) =~= cv);
    }
}

/// Renders all groups.
fn render_all(groups: &Vec<Vec<(u8, String)>>) -> (r: String)
    ensures
        r@ == render_groups(groups_view(groups@)),
{
    let ghost gv = groups_view(groups@);
    let mut out: Vec<char> = Vec::new();
    let mut i: usize = 0;
    proof {
        assert(gv.take(0) =~= seq![]);
    }
    while i < groups.len()
        invariant
            i <= groups.len(),
            gv == groups_view(groups@),
            out@ == render_groups(gv.take(i as int)),
        decreases groups.len() - i,
    {
        proof {
            assert(gv.take(i + 1).drop_last() =~= gv.take(i as int));
            assert(gv.take(i + 1).last() == gv[i as int]);
        }
        let ghost before = out@;
        if i > 0 {
            out.push('…');
            out.push('\n');
        }
        render_group(&mut out, &groups[i]);
        proof {
            if i == 0 {
                assert(gv.take(1) =~= seq![gv[0]]);
                assert(out@ =~= render_groups(gv.take(1)));
            } else {
                assert(out@ =~= render_groups(gv.take(i + 1)));
            }
        }
        i += 1;
    }
    proof {
        assert(gv.take(groups.len() as int) =~= gv);
    }
    from_chars(&out)
}

} // verus!

//! Keeping every path inside the workspace.
//!
//! A path is modelled by its components, as `std::path::Path::components`
//! yields them on Unix: a leading `/` is the root, a leading `.` is kept,
//! empty pieces and later `.` pieces vanish, and `..` stays a component of its
//! own. The filesystem is only consulted by the caller, which hands in what
//! `canonicalize` returned; everything decided from those answers is here.
use vstd::prelude::*;
use crate::text::{pieces, slice_chars, split_on};

verus! {

/// The root component, `/`.
pub open spec fn root_comp() -> Seq<char> {
    seq!['/']
}

/// The current-directory component, `.`.
pub open spec fn cur_comp() -> Seq<char> {
    seq!['.']
}

/// The parent-directory component, `..`.
pub open spec fn parent_comp() -> Seq<char> {
    seq!['.', '.']
}

/// A piece between separators that names something: not empty, not `.`.
pub open spec fn kept_piece(p: Seq<char>) -> bool {
    p.len() > 0 && p != cur_comp()
}

/// The pieces that survive as components.
pub open spec fn kept_pieces(ps: Seq<Seq<char>>) -> Seq<Seq<char>>
    decreases ps.len(),
{
    if ps.len() == 0 {
        seq![]
    } else if kept_piece(ps.last()) {
        kept_pieces(ps.drop_last()).push(ps.last())
    } else {
        kept_pieces(ps.drop_last())
    }
}

/// The components of a path written with `/` separators.
pub open spec fn components(s: Seq<char>) -> Seq<Seq<char>> {
    let ps = pieces(s, '/');
    if s.len() > 0 && s[0] == '/' {
        seq![root_comp()] + kept_pieces(ps.drop_first())
    } else if ps[0] == cur_comp() {
        seq![cur_comp()] + kept_pieces(ps.drop_first())
    } else {
        kept_pieces(ps)
    }
}

/// `sep`-separated concatenation.
pub open spec fn join(ps: Seq<Seq<char>>, sep: char) -> Seq<char>
    decreases ps.len(),
{
    if ps.len() == 0 {
        seq![]
    } else if ps.len() == 1 {
        ps[0]
    } else {
        join(ps.drop_last(), sep).push(sep) + ps.last()
    }
}

/// Concatenation with `sep` between the parts.
pub open spec fn join_with(ps: Seq<Seq<char>>, sep: Seq<char>) -> Seq<char>
    decreases ps.len(),
{
    if ps.len() == 0 {
        seq![]
    } else if ps.len() == 1 {
        ps[0]
    } else {
        join_with(ps.drop_last(), sep) + sep + ps.last()
    }
}

/// The text of a path made of `cs`, as a `PathBuf` built by pushing them.
pub open spec fn render(cs: Seq<Seq<char>>) -> Seq<char> {
    if cs.len() > 0 && cs[0] == root_comp() {
        seq!['/'] + join(cs.drop_first(), '/')
    } else {
        join(cs, '/')
    }
}

/// Lexical normalisation: `..` removes the component before it (never the
/// root, and nothing when there is nothing), `.` is dropped, the rest stays.
pub open spec fn normalise(cs: Seq<Seq<char>>) -> Seq<Seq<char>>
    decreases cs.len(),
{
    if cs.len() == 0 {
        seq![]
    } else {
        let done = normalise(cs.drop_last());
        let c = cs.last();
        if c == parent_comp() {
            if done.len() > 0 && done.last() != root_comp() {
                done.drop_last()
            } else {
                done
            }
        } else if c == cur_comp() {
            done
        } else {
            done.push(c)
        }
    }
}

/// The views of a vector of character vectors.
pub open spec fn views(v: Seq<Vec<char>>) -> Seq<Seq<char>> {
    v.map_values(|x: Vec<char>| x@)
}

/// Whether a component is `.`.
fn is_cur(v: &Vec<char>) -> (r: bool)
    ensures
        r == (v@ == cur_comp()),
{
    let r = v.len() == 1 && v[0] == '.';
    proof {
        if v@.len() == 1 && v@[0] == '.' {
            assert(v@ =~= cur_comp());
        }
    }
    r
}

/// Whether a component is `..`.
fn is_parent(v: &Vec<char>) -> (r: bool)
    ensures
        r == (v@ == parent_comp()),
{
    let r = v.len() == 2 && v[0] == '.' && v[1] == '.';
    proof {
        if v@.len() == 2 && v@[0] == '.' && v@[1] == '.' {
            assert(v@ =~= parent_comp());
        }
    }
    r
}

/// Whether a component is the root.
fn is_root(v: &Vec<char>) -> (r: bool)
    ensures
        r == (v@ == root_comp()),
{
    let r = v.len() == 1 && v[0] == '/';
    proof {
        if v@.len() == 1 && v@[0] == '/' {
            assert(v@ =~= root_comp());
        }
    }
    r
}

/// The components of `s`.
pub fn path_components(s: &Vec<char>) -> (r: Vec<Vec<char>>)
    ensures
        views(r@) == components(s@),
{
    let ps = split_on(s, '/');
    let ghost pv = pieces(s@, '/');
    proof {
        assert(views(ps@) =~= pv);
    }
    let mut out: Vec<Vec<char>> = Vec::new();
    let mut i: usize = 0;
    let rooted = s.len() > 0 && s[0] == '/';
    if rooted {
        out.push(vec!['/']);
        i = 1;
    } else if is_cur(&ps[0]) {
        out.push(vec!['.']);
        i = 1;
    }
    let ghost head = views(out@);
    proof {
        if rooted {
            assert(out@.len() == 1);
            assert(out@[0]@ =~= root_comp());
            assert(head[0] == out@[0]@);
            assert(head =~= seq![root_comp()]);
        } else if i == 1 {
            assert(out@.len() == 1);
            assert(out@[0]@ =~= cur_comp());
            assert(head[0] == out@[0]@);
            assert(head =~= seq![cur_comp()]);
        } else {
            assert(head =~= seq![]);
        }
        assert(pv.skip(i as int) == if i == 1 { pv.drop_first() } else { pv });
        assert(kept_pieces(pv.skip(i as int).take(0)) =~= seq![]);
        assert(views(out@) =~= head + kept_pieces(pv.skip(i as int).take(0)));
    }
    let start = i;
    while i < ps.len()
        invariant
            start <= i <= ps.len(),
            start <= 1,
            views(ps@) == pv,
            pv.len() >= 1,
            views(out@) == head + kept_pieces(pv.skip(start as int).take(i - start)),
        decreases ps.len() - i,
    {
        let ghost rest = pv.skip(start as int);
        proof {
            assert(rest.take(i - start + 1).drop_last() =~= rest.take(i - start));
            assert(rest.take(i - start + 1).last() == ps@[i as int]@);
        }
        let keep = ps[i].len() > 0 && !is_cur(&ps[i]);
        proof {
            assert(keep == kept_piece(ps@[i as int]@));
        }
        if keep {
            let piece = slice_chars(&ps[i], 0, ps[i].len());
            proof {
                assert(piece@ =~= ps@[i as int]@);
            }
            let ghost before = views(out@);
            out.push(piece);
            proof {
                assert(views(out@) =~= before.push(piece@));
                assert(views(out@) =~= head + kept_pieces(rest.take(i - start + 1)));
            }
        } else {
            proof {
                assert(kept_pieces(rest.take(i - start + 1)) == kept_pieces(rest.take(i - start)));
            }
        }
        i += 1;
    }
    proof {
        assert(pv.skip(start as int).take(i - start) =~= pv.skip(start as int));
        if rooted {
            assert(pv.skip(1) =~= pv.drop_first());
        } else if start == 1 {
            assert(pv.skip(1) =~= pv.drop_first());
        } else {
            assert(pv.skip(0) =~= pv);
        }
        if rooted {
            assert(views(out@) =~= seq![root_comp()] + kept_pieces(pv.drop_first()));
        }
        assert(views(out@) =~= components(s@));
    }
    out
}


/// `normalise` over the components of a vector.
pub fn normalise_components(cs: &Vec<Vec<char>>) -> (r: Vec<Vec<char>>)
    ensures
        views(r@) == normalise(views(cs@)),
{
    let ghost cv = views(cs@);
    let mut out: Vec<Vec<char>> = Vec::new();
    let mut i: usize = 0;
    proof {
        assert(cv.take(0) =~= seq![]);
        assert(views(out@) =~= normalise(cv.take(0)));
    }
    while i < cs.len()
        invariant
            i <= cs.len(),
            cv == views(cs@),
            views(out@) == normalise(cv.take(i as int)),
        decreases cs.len() - i,
    {
        proof {
            assert(cv.take(i + 1).drop_last() =~= cv.take(i as int));
            assert(cv.take(i + 1).last() == cs@[i as int]@);
        }
        let ghost before = views(out@);
        if is_parent(&cs[i]) {
            if out.len() > 0 && !is_root(&out[out.len() - 1]) {
                out.pop();
                proof {
                    assert(views(out@) =~= before.drop_last());
                }
            }
        } else if is_cur(&cs[i]) {
        } else {
            let c = slice_chars(&cs[i], 0, cs[i].len());
            proof {
                assert(c@ =~= cs@[i as int]@);
            }
            out.push(c);
            proof {
                assert(views(out@) =~= before.push(cs@[i as int]@));
            }
        }
        i += 1;
    }
    proof {
        assert(cv.take(cs.len() as int) =~= cv);
    }
    out
}

/// Appends `join(ps, sep)` to `out`.
fn push_joined(out: &mut Vec<char>, ps: &Vec<Vec<char>>, from: usize, sep: char)
    requires
        from <= ps.len(),
    ensures
        final(out)@ == old(out)@ + join(views(ps@).skip(from as int), sep),
{
    let ghost pv = views(ps@).skip(from as int);
    let mut i: usize = from;
    proof {
        assert(pv.take(0) =~= seq![]);
        assert(old(out)@ + join(pv.take(0), sep) =~= old(out)@);
    }
    while i < ps.len()
        invariant
            from <= i <= ps.len(),
            pv == views(ps@).skip(from as int),
            out@ == old(out)@ + join(pv.take(i - from), sep),
        decreases ps.len() - i,
    {
        let ghost before = out@;
        proof {
            assert(pv.take(i - from + 1).drop_last() =~= pv.take(i - from));
            assert(pv.take(i - from + 1).last() == ps@[i as int]@);
        }
        if i > from {
            out.push(sep);
        }
        crate::text::extend_chars(out, &ps[i]);
        proof {
            if i > from {
                assert(out@ =~= old(out)@ + join(pv.take(i - from + 1), sep));
            } else {
                assert(pv.take(1) =~= seq![ps@[i as int]@]);
                assert(out@ =~= old(out)@ + join(pv.take(i - from + 1), sep));
            }
        }
        i += 1;
    }
    proof {
        assert(pv.take(ps.len() - from) =~= pv);
    }
}

/// `join` of all components with `sep`.
pub fn join_all(ps: &Vec<Vec<char>>, sep: char) -> (r: Vec<char>)
    ensures
        r@ == join(views(ps@), sep),
{
    let mut out: Vec<char> = Vec::new();
    push_joined(&mut out, ps, 0, sep);
    proof {
        assert(views(ps@).skip(0) =~= views(ps@));
        assert(out@ =~= join(views(ps@), sep));
    }
    out
}

/// The text of the path made of `cs`.
pub fn render_components(cs: &Vec<Vec<char>>) -> (r: Vec<char>)
    ensures
        r@ == render(views(cs@)),
{
    let mut out: Vec<char> = Vec::new();
    if cs.len() > 0 && is_root(&cs[0]) {
        out.push('/');
        push_joined(&mut out, cs, 1, '/');
        proof {
            assert(views(cs@).skip(1) =~= views(cs@).drop_first());
            assert(out@ =~= render(views(cs@)));
        }
    } else {
        push_joined(&mut out, cs, 0, '/');
        proof {
            assert(views(cs@).skip(0) =~= views(cs@));
            assert(out@ =~= render(views(cs@)));
        }
    }
    out
}

/// Lexical normalisation of a path written as text (`a/b/../c` is `a/c`).
pub fn normalise_lexically(path: &str) -> (r: String)
    ensures
        r@ == render(normalise(components(path@))),
{
    let v = crate::text::to_chars(path);
    let cs = path_components(&v);
    let n = normalise_components(&cs);
    let out = render_components(&n);
    crate::text::from_chars(&out)
}

/// A normalised path holds no `.` and no `..` component.
pub proof fn lemma_normalise_is_clean(cs: Seq<Seq<char>>)
    ensures
        forall|i: int|
            0 <= i < normalise(cs).len() ==> #[trigger] normalise(cs)[i] != cur_comp()
                && normalise(cs)[i] != parent_comp(),
    decreases cs.len(),
{
    if cs.len() > 0 {
        lemma_normalise_is_clean(cs.drop_last());
        let done = normalise(cs.drop_last());
        let c = cs.last();
        let r = normalise(cs);
        assert forall|i: int| 0 <= i < r.len() implies #[trigger] r[i] != cur_comp() && r[i]
            != parent_comp() by {
            if c == parent_comp() || c == cur_comp() {
                assert(r[i] == done[i]);
            } else if i < done.len() {
                assert(r[i] == done[i]);
            } else {
                assert(r[i] == c);
            }
        }
    }
}


// ---------------------------------------------------------------------------
// Resolution inside the workspace
// ---------------------------------------------------------------------------

/// Why a path was refused.
#[derive(Debug, Clone, PartialEq, Eq)]
pub enum PathError {
    /// The path resolves outside the workspace root.
    OutsideWorkspace(String),
    /// The workspace root could not be canonicalised.
    UnusableRoot(String),
    /// The path was empty or only whitespace.
    Empty,
}

/// A path error as a mathematical value.
pub enum PathErrorView {
    OutsideWorkspace(Seq<char>),
    UnusableRoot(Seq<char>),
    Empty,
}

impl View for PathError {
    type V = PathErrorView;

    open spec fn view(&self) -> PathErrorView {
        match self {
            PathError::OutsideWorkspace(p) => PathErrorView::OutsideWorkspace(p@),
            PathError::UnusableRoot(p) => PathErrorView::UnusableRoot(p@),
            PathError::Empty => PathErrorView::Empty,
        }
    }
}

/// The text of a path error, as shown to the model.
pub open spec fn path_error_text(e: PathErrorView) -> Seq<char> {
    match e {
        PathErrorView::OutsideWorkspace(p) => "path `"@ + p
            + "` is outside the workspace — true-code only touches the project directory"@,
        PathErrorView::UnusableRoot(p) => "workspace root `"@ + p + "` does not exist or is not readable"@,
        PathErrorView::Empty => "path must not be empty"@,
    }
}

impl PathError {
    /// The message shown to the model.
    pub fn message(&self) -> (r: String)
        ensures
            r@ == path_error_text(self@),
    {
        match self {
            PathError::OutsideWorkspace(p) => {
                let mut out = String::new();
                crate::text::push_str(&mut out, "path `");
                crate::text::push_str(&mut out, p.as_str());
                crate::text::push_str(
                    &mut out,
                    "` is outside the workspace — true-code only touches the project directory",
                );
                out
            },
            PathError::UnusableRoot(p) => {
                let mut out = String::new();
                crate::text::push_str(&mut out, "workspace root `");
                crate::text::push_str(&mut out, p.as_str());
                crate::text::push_str(&mut out, "` does not exist or is not readable");
                out
            },
            PathError::Empty => String::from_str("path must not be empty"),
        }
    }
}

/// `Path::join`: an absolute `candidate` replaces `root`, a relative one is
/// appended after a separator.
pub open spec fn join_path(root: Seq<char>, candidate: Seq<char>) -> Seq<char> {
    if candidate.len() > 0 && candidate[0] == '/' {
        candidate
    } else if root.len() == 0 {
        candidate
    } else if root.last() == '/' {
        root + candidate
    } else {
        root.push('/') + candidate
    }
}

/// `PathBuf::push` of a single name.
pub open spec fn push_name(base: Seq<char>, name: Seq<char>) -> Seq<char> {
    join_path(base, name)
}

/// Pushing several names in order.
pub open spec fn push_names(base: Seq<char>, names: Seq<Seq<char>>) -> Seq<char>
    decreases names.len(),
{
    if names.len() == 0 {
        base
    } else {
        push_name(push_names(base, names.drop_last()), names.last())
    }
}

/// A component that is a file or directory name.
pub open spec fn is_name(c: Seq<char>) -> bool {
    c != root_comp() && c != cur_comp() && c != parent_comp()
}

/// The names among `cs`, in order.
pub open spec fn names_of(cs: Seq<Seq<char>>) -> Seq<Seq<char>>
    decreases cs.len(),
{
    if cs.len() == 0 {
        seq![]
    } else if is_name(cs.last()) {
        names_of(cs.drop_last()).push(cs.last())
    } else {
        names_of(cs.drop_last())
    }
}

/// How many leading components can never be taken away by `Path::parent`.
pub open spec fn fixed_prefix(cs: Seq<Seq<char>>) -> int {
    if cs.len() > 0 && cs[0] == root_comp() {
        1
    } else {
        0
    }
}

/// How many ancestors `Path::parent` reaches from a path with components `cs`.
pub open spec fn ancestor_count(cs: Seq<Seq<char>>) -> int {
    if cs.len() > fixed_prefix(cs) {
        cs.len() - fixed_prefix(cs)
    } else {
        0
    }
}

/// The paths that are tried, in order: the path itself, then each ancestor
/// from the nearest to the farthest.
pub open spec fn tried(path: Seq<char>) -> Seq<Seq<char>> {
    let cs = components(path);
    seq![path] + Seq::new(
        ancestor_count(cs) as nat,
        |j: int| render(cs.take(cs.len() - 1 - j)),
    )
}

/// The first index at or after `j` whose canonical form was found.
pub open spec fn first_found(canon: Seq<Option<String>>, j: int, end: int) -> Option<int>
    decreases end - j,
{
    if j >= end || j >= canon.len() {
        None
    } else if canon[j] is Some {
        Some(j)
    } else {
        first_found(canon, j + 1, end)
    }
}

/// What `canonicalize_deepest_existing` returns, given what `canonicalize`
/// answered for each path of `tried(path)`, in the same order.
pub open spec fn deepest_existing(path: Seq<char>, canon: Seq<Option<String>>) -> Seq<char> {
    let cs = components(path);
    let n = cs.len() as int;
    if canon.len() > 0 && canon[0] is Some {
        canon[0]->Some_0@
    } else {
        match first_found(canon, 1, 1 + ancestor_count(cs)) {
            Some(j) => push_names(canon[j]->Some_0@, names_of(cs.subrange(n - j, n))),
            None => render(normalise(cs)),
        }
    }
}

/// Component-wise prefix, as `Path::starts_with` compares.
pub open spec fn comp_prefix(base: Seq<Seq<char>>, cs: Seq<Seq<char>>) -> bool {
    base.len() <= cs.len() && cs.take(base.len() as int) == base
}

/// What `resolve_in_workspace` decides.
pub open spec fn resolution(
    root: Seq<char>,
    candidate: Seq<char>,
    canonical_root: Option<String>,
    canon: Seq<Option<String>>,
) -> Result<Seq<char>, PathErrorView> {
    if crate::text::is_blank(candidate) {
        Err(PathErrorView::Empty)
    } else {
        match canonical_root {
            None => Err(PathErrorView::UnusableRoot(root)),
            Some(rc) => {
                let resolved = deepest_existing(join_path(rc@, candidate), canon);
                if comp_prefix(components(rc@), components(resolved)) {
                    Ok(resolved)
                } else {
                    Err(PathErrorView::OutsideWorkspace(candidate))
                }
            },
        }
    }
}


/// Whatever the filesystem answered, a path accepted as inside the
/// workspace lies under the canonical root, component by component; and a
/// blank request or an unusable root is never accepted.
pub proof fn lemma_resolved_inside_root(
    root: Seq<char>,
    candidate: Seq<char>,
    canonical_root: Option<String>,
    canon: Seq<Option<String>>,
)
    ensures
        resolution(root, candidate, canonical_root, canon) matches Ok(p) ==> (canonical_root matches Some(
            rc,
        ) && comp_prefix(components(rc@), components(p))),
        crate::text::is_blank(candidate) ==> resolution(root, candidate, canonical_root, canon) is Err,
        canonical_root is None ==> resolution(root, candidate, canonical_root, canon) is Err,
{
}

/// `Path::join` on text.
pub fn join_text(root: &Vec<char>, candidate: &Vec<char>) -> (r: Vec<char>)
    ensures
        r@ == join_path(root@, candidate@),
{
    let mut out: Vec<char> = Vec::new();
    if candidate.len() > 0 && candidate[0] == '/' {
        crate::text::extend_chars(&mut out, candidate);
        proof {
            assert(out@ =~= candidate@);
        }
    } else if root.len() == 0 {
        crate::text::extend_chars(&mut out, candidate);
        proof {
            assert(out@ =~= candidate@);
        }
    } else if root[root.len() - 1] == '/' {
        crate::text::extend_chars(&mut out, root);
        crate::text::extend_chars(&mut out, candidate);
        proof {
            assert(out@ =~= root@ + candidate@);
        }
    } else {
        crate::text::extend_chars(&mut out, root);
        out.push('/');
        crate::text::extend_chars(&mut out, candidate);
        proof {
            assert(out@ =~= root@.push('/') + candidate@);
        }
    }
    out
}

/// The paths to hand to `canonicalize`, in the order given by `tried`.
pub fn tried_paths(path: &str) -> (r: Vec<String>)
    ensures
        r@.len() == tried(path@).len(),
        forall|i: int| 0 <= i < r@.len() ==> #[trigger] r@[i]@ == tried(path@)[i],
{
    let v = crate::text::to_chars(path);
    let cs = path_components(&v);
    let ghost cv = components(path@);
    let fixed: usize = if cs.len() > 0 && is_root(&cs[0]) {
        1
    } else {
        0
    };
    let mut out: Vec<String> = Vec::new();
    out.push(String::from_str(path));
    let mut k: usize = cs.len();
    let ghost count = ancestor_count(cv);
    proof {
        assert(fixed == fixed_prefix(cv));
    }
    while k > fixed
        invariant
            fixed <= k <= cs.len(),
            views(cs@) == cv,
            cv == components(path@),
            fixed == fixed_prefix(cv),
            count == ancestor_count(cv),
            out@.len() == 1 + (cs.len() - k),
            out@[0]@ == path@,
            forall|i: int|
                1 <= i < out@.len() ==> #[trigger] out@[i]@ == render(cv.take(cv.len() - i)),
        decreases k,
    {
        let prefix = take_components(&cs, k - 1);
        let text = render_components(&prefix);
        out.push(crate::text::from_chars(&text));
        k -= 1;
    }
    proof {
        let t = tried(path@);
        assert(out@.len() == t.len());
        assert forall|i: int| 0 <= i < out@.len() implies #[trigger] out@[i]@ == t[i] by {
            if i >= 1 {
                assert(t[i] == render(cv.take(cv.len() - 1 - (i - 1))));
            }
        }
    }
    out
}

/// The first `k` components.
fn take_components(cs: &Vec<Vec<char>>, k: usize) -> (r: Vec<Vec<char>>)
    requires
        k <= cs.len(),
    ensures
        views(r@) == views(cs@).take(k as int),
{
    let mut out: Vec<Vec<char>> = Vec::new();
    let mut i: usize = 0;
    while i < k
        invariant
            i <= k <= cs.len(),
            views(out@) == views(cs@).take(i as int),
        decreases k - i,
    {
        let c = slice_chars(&cs[i], 0, cs[i].len());
        proof {
            assert(c@ =~= cs@[i as int]@);
        }
        let ghost before = views(out@);
        out.push(c);
        proof {
            assert(views(out@) =~= before.push(c@));
            assert(views(out@) =~= views(cs@).take(i + 1));
        }
        i += 1;
    }
    out
}


/// The names among `cs[from..to]`, in order.
fn names_between(cs: &Vec<Vec<char>>, from: usize, to: usize) -> (r: Vec<Vec<char>>)
    requires
        from <= to <= cs.len(),
    ensures
        views(r@) == names_of(views(cs@).subrange(from as int, to as int)),
{
    let ghost cv = views(cs@);
    let mut out: Vec<Vec<char>> = Vec::new();
    let mut i: usize = from;
    proof {
        assert(cv.subrange(from as int, from as int) =~= seq![]);
    }
    while i < to
        invariant
            from <= i <= to <= cs.len(),
            cv == views(cs@),
            views(out@) == names_of(cv.subrange(from as int, i as int)),
        decreases to - i,
    {
        proof {
            assert(cv.subrange(from as int, i + 1).drop_last() =~= cv.subrange(from as int, i as int));
            assert(cv.subrange(from as int, i + 1).last() == cs@[i as int]@);
        }
        if !is_root(&cs[i]) && !is_cur(&cs[i]) && !is_parent(&cs[i]) {
            let c = slice_chars(&cs[i], 0, cs[i].len());
            proof {
                assert(c@ =~= cs@[i as int]@);
            }
            let ghost before = views(out@);
            out.push(c);
            proof {
                assert(views(out@) =~= before.push(c@));
            }
        }
        i += 1;
    }
    out
}

/// What `canonicalize_deepest_existing` returns for `path`, given the answers
/// of `canonicalize` for each of `tried_paths(path)`, in order. A missing
/// answer counts as a failure.
///
/// The path itself is returned canonical when it exists. Otherwise the
/// nearest ancestor that exists is canonicalised and the names below it are
/// appended, which also resolves a symlink higher up. When nothing exists the
/// path is normalised lexically.
pub fn canonicalize_deepest_existing(path: &str, canon: &Vec<Option<String>>) -> (r: String)
    ensures
        r@ == deepest_existing(path@, canon@),
{
    if canon.len() > 0 {
        match &canon[0] {
            Some(found) => {
                return found.clone();
            },
            None => {},
        }
    }
    let v = crate::text::to_chars(path);
    let cs = path_components(&v);
    let ghost cv = components(path@);
    let fixed: usize = if cs.len() > 0 && is_root(&cs[0]) {
        1
    } else {
        0
    };
    let count: usize = if cs.len() > fixed {
        cs.len() - fixed
    } else {
        0
    };
    proof {
        assert(count == ancestor_count(cv));
    }
    let ghost end = count + 1;
    let mut j: usize = 1;
    while j <= count && j < canon.len()
        invariant
            1 <= j <= count + 1,
            count <= cs.len(),
            end == count + 1,
            count == ancestor_count(cv),
            cv == components(path@),
            views(cs@) == cv,
            canon@.len() == 0 || canon@[0] is None,
            first_found(canon@, 1, end) == first_found(canon@, j as int, end),
        decreases count + 1 - j,
    {
        match &canon[j] {
            Some(base) => {
                proof {
                    assert(first_found(canon@, j as int, end) == Some(j as int));
                }
                let names = names_between(&cs, cs.len() - j, cs.len());
                let mut out = crate::text::to_chars(base.as_str());
                let mut i: usize = 0;
                proof {
                    assert(names@.take(0) =~= seq![]);
                    assert(views(names@).take(0) =~= seq![]);
                }
                while i < names.len()
                    invariant
                        i <= names.len(),
                        out@ == push_names(base@, views(names@).take(i as int)),
                    decreases names.len() - i,
                {
                    proof {
                        assert(views(names@).take(i + 1).drop_last() =~= views(names@).take(i as int));
                    }
                    out = join_text(&out, &names[i]);
                    i += 1;
                }
                proof {
                    assert(views(names@).take(names.len() as int) =~= views(names@));
                }
                return crate::text::from_chars(&out);
            },
            None => {},
        }
        j += 1;
    }
    proof {
        assert(first_found(canon@, j as int, end) is None);
    }
    let n = normalise_components(&cs);
    let out = render_components(&n);
    crate::text::from_chars(&out)
}

/// Resolves a path asked for by the model inside the workspace.
///
/// `canonical_root` is what `canonicalize` answered for `root`, and `canon`
/// what it answered for each of `tried_paths(join_path(canonical_root, candidate))`.
/// A blank candidate is refused, an unusable root is reported, and the
/// resolved path is accepted only when it lies under the canonical root,
/// component by component.
pub fn resolve_in_workspace(
    root: &str,
    candidate: &str,
    canonical_root: Option<String>,
    canon: &Vec<Option<String>>,
) -> (r: Result<String, PathError>)
    ensures
        match r {
            Ok(p) => resolution(root@, candidate@, canonical_root, canon@) == Ok::<
                Seq<char>,
                PathErrorView,
            >(p@),
            Err(e) => resolution(root@, candidate@, canonical_root, canon@) == Err::<
                Seq<char>,
                PathErrorView,
            >(e@),
        },
{
    if crate::text::str_is_blank(candidate) {
        return Err(PathError::Empty);
    }
    let rc = match canonical_root {
        Some(rc) => rc,
        None => {
            return Err(PathError::UnusableRoot(String::from_str(root)));
        },
    };
    let rcv = crate::text::to_chars(rc.as_str());
    let cv = crate::text::to_chars(candidate);
    let joined = crate::text::from_chars(&join_text(&rcv, &cv));
    let resolved = canonicalize_deepest_existing(joined.as_str(), canon);
    let root_cs = path_components(&rcv);
    let res_v = crate::text::to_chars(resolved.as_str());
    let res_cs = path_components(&res_v);
    if components_prefix(&root_cs, &res_cs) {
        Ok(resolved)
    } else {
        Err(PathError::OutsideWorkspace(String::from_str(candidate)))
    }
}

/// Whether `base` is a component-wise prefix of `cs`.
fn components_prefix(base: &Vec<Vec<char>>, cs: &Vec<Vec<char>>) -> (r: bool)
    ensures
        r == comp_prefix(views(base@), views(cs@)),
{
    if base.len() > cs.len() {
        return false;
    }
    let mut i: usize = 0;
    while i < base.len()
        invariant
            i <= base.len() <= cs.len(),
            forall|j: int| 0 <= j < i ==> base@[j]@ == cs@[j]@,
        decreases base.len() - i,
    {
        if !crate::text::chars_eq(&base[i], &cs[i]) {
            proof {
                assert(views(cs@).take(base.len() as int)[i as int] != views(base@)[i as int]);
            }
            return false;
        }
        i += 1;
    }
    proof {
        assert(views(cs@).take(base.len() as int) =~= views(base@));
    }
    true
}


/// How a path is shown: relative to `root` when it lies under it, the path
/// itself otherwise, with every backslash turned into a forward slash.
pub open spec fn display_text(absolute: Seq<char>, root: Seq<char>) -> Seq<char> {
    let rc = components(root);
    let ac = components(absolute);
    let shown = if comp_prefix(rc, ac) {
        join(ac.skip(rc.len() as int), '/')
    } else {
        absolute
    };
    crate::text::replace_all(shown, seq!['\\'], seq!['/'])
}

/// `display_text` as an executable function.
pub fn display_relative(absolute: &str, root: &str) -> (r: String)
    ensures
        r@ == display_text(absolute@, root@),
{
    let av = crate::text::to_chars(absolute);
    let rv = crate::text::to_chars(root);
    let ac = path_components(&av);
    let rc = path_components(&rv);
    let shown = if components_prefix(&rc, &ac) {
        let mut out: Vec<char> = Vec::new();
        push_joined(&mut out, &ac, rc.len(), '/');
        proof {
            assert(out@ =~= join(views(ac@).skip(rc.len() as int), '/'));
        }
        out
    } else {
        av
    };
    let back = vec!['\\'];
    let fwd = vec!['/'];
    proof {
        assert(back@ =~= seq!['\\']);
        assert(fwd@ =~= seq!['/']);
    }
    let replaced = crate::text::replace_all_chars(&shown, &back, &fwd);
    crate::text::from_chars(&replaced)
}

} // verus!

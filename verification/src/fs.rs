//! The reading tools: what they render from what the filesystem returned.
use vstd::prelude::*;
use vstd::multiset::Multiset;
use crate::text::{decimal, from_chars, lines, pad_left, push_str, to_chars};
use crate::tools::{ToolContext, ToolError};

verus! {

/// Maximum number of entries a listing returns.
pub const MAX_ENTRIES: usize = 500;

/// Reads a file, optionally a line range.
#[derive(Debug, Clone, Copy)]
pub struct ReadFile;

/// Lists the direct contents of a directory.
#[derive(Debug, Clone, Copy)]
pub struct ListDir;

/// Finds files by glob pattern.
#[derive(Debug, Clone, Copy)]
pub struct Glob;

/// Line `number` of a listing: the number right-aligned in six columns, two
/// spaces, the line, a line ending.
pub open spec fn numbered_line(number: nat, line: Seq<char>) -> Seq<char> {
    pad_left(decimal(number), 6) + "  "@ + line + seq!['\n']
}

/// The numbered lines among the first `k` whose number lies in
/// `[first, last]`.
pub open spec fn numbered_range(ls: Seq<Seq<char>>, k: nat, first: nat, last: nat) -> Seq<char>
    decreases k,
{
    if k == 0 {
        seq![]
    } else {
        numbered_range(ls, (k - 1) as nat, first, last) + if first <= k && k <= last {
            numbered_line(k, ls[k - 1])
        } else {
            seq![]
        }
    }
}

/// What `number_lines` returns: the lines of `text` numbered from one,
/// limited to `[start, end]` (a missing start is one, a start below one is
/// one, a missing end is unbounded), or a note when no line is in range.
pub open spec fn numbered_text(text: Seq<char>, start: Option<u64>, end: Option<u64>) -> Seq<char> {
    let first: nat = match start {
        Some(s) => if s >= 1 {
            s as nat
        } else {
            1
        },
        None => 1,
    };
    let last: nat = match end {
        Some(e) => e as nat,
        None => u64::MAX as nat,
    };
    let ls = lines(text);
    let body = numbered_range(ls, ls.len(), first, last);
    if body.len() == 0 {
        "[the requested range contains no lines]"@
    } else {
        body
    }
}

/// Renders `text` with line numbers, limited to the requested range.
pub fn number_lines(text: &str, start: Option<u64>, end: Option<u64>) -> (r: String)
    ensures
        r@ == numbered_text(text@, start, end),
{
    let first: u64 = match start {
        Some(s) => if s >= 1 {
            s
        } else {
            1
        },
        None => 1,
    };
    let last: u64 = match end {
        Some(e) => e,
        None => u64::MAX,
    };
    let v = to_chars(text);
    let ls = crate::text::split_lines(&v);
    let ghost lv = lines(text@);
    let mut out: Vec<char> = Vec::new();
    let mut i: usize = 0;
    while i < ls.len()
        invariant
            i <= ls.len(),
            ls@.len() == lv.len(),
            forall|j: int| 0 <= j < ls@.len() ==> #[trigger] ls@[j]@ == lv[j],
            out@ == numbered_range(lv, i as nat, first as nat, last as nat),
        decreases ls.len() - i,
    {
        let number = i as u64 + 1;
        if first <= number && number <= last {
            let digits = crate::text::u64_decimal(number);
            crate::text::push_padded_left(&mut out, &digits, 6);
            out.push(' ');
            out.push(' ');
            crate::text::extend_chars(&mut out, &ls[i]);
            out.push('\n');
            proof {
                reveal_strlit("  ");
                assert(out@ =~= numbered_range(lv, (i + 1) as nat, first as nat, last as nat));
            }
        } else {
            proof {
                assert(out@ =~= numbered_range(lv, (i + 1) as nat, first as nat, last as nat));
            }
        }
        i += 1;
    }
    if out.len() == 0 {
        return String::from_str("[the requested range contains no lines]");
    }
    from_chars(&out)
}

impl ReadFile {
    /// The result of reading `text`: numbered, limited to the range, and cut
    /// to the context's cap.
    pub fn render(ctx: &ToolContext, text: &str, start: Option<u64>, end: Option<u64>) -> (r: String)
        ensures
            r@ == crate::tools::truncated(numbered_text(text@, start, end), ctx.cap()),
    {
        ctx.truncate(number_lines(text, start, end))
    }

    /// The refusal for a file that is not UTF-8 text.
    pub fn not_text(requested: &str) -> (r: ToolError)
        ensures
            r matches ToolError::InvalidInput { tool, detail } && tool@ == "read_file"@ && detail@
                == "`"@ + requested@ + "` is not a UTF-8 text file"@,
    {
        let mut detail = String::from_str("`");
        push_str(&mut detail, requested);
        push_str(&mut detail, "` is not a UTF-8 text file");
        ToolError::InvalidInput { tool: String::from_str("read_file"), detail }
    }

    /// Reading changes nothing.
    pub fn is_read_only(&self) -> (r: bool)
        ensures
            r,
    {
        true
    }
}

// ---------------------------------------------------------------------------
// Sorted listings
// ---------------------------------------------------------------------------

/// Lexicographic order of strings by code point, which is the byte order of
/// their UTF-8 encodings and so the order of `String`'s `Ord`.
pub open spec fn text_le(a: Seq<char>, b: Seq<char>) -> bool
    decreases a.len(),
{
    if a.len() == 0 {
        true
    } else if b.len() == 0 {
        false
    } else if a[0] != b[0] {
        a[0] < b[0]
    } else {
        text_le(a.drop_first(), b.drop_first())
    }
}

/// Whether `a` sorts before or equal to `b`.
pub fn text_le_exec(a: &Vec<char>, b: &Vec<char>) -> (r: bool)
    ensures
        r == text_le(a@, b@),
{
    let mut i: usize = 0;
    proof {
        assert(a@.skip(0) =~= a@);
        assert(b@.skip(0) =~= b@);
    }
    while i < a.len() && i < b.len() && a[i] == b[i]
        invariant
            i <= a.len(),
            i <= b.len(),
            forall|j: int| 0 <= j < i ==> a@[j] == b@[j],
            text_le(a@, b@) == text_le(a@.skip(i as int), b@.skip(i as int)),
        decreases a.len() - i,
    {
        proof {
            assert(a@.skip(i as int).drop_first() =~= a@.skip(i + 1));
            assert(b@.skip(i as int).drop_first() =~= b@.skip(i + 1));
        }
        i += 1;
    }
    proof {
        if i < a.len() {
            assert(a@.skip(i as int)[0] == a@[i as int]);
        }
        if i < b.len() {
            assert(b@.skip(i as int)[0] == b@[i as int]);
        }
    }
    if i == a.len() {
        true
    } else if i == b.len() {
        false
    } else {
        a[i] < b[i]
    }
}

/// `text_le` is total.
proof fn lemma_text_le_total(a: Seq<char>, b: Seq<char>)
    ensures
        text_le(a, b) || text_le(b, a),
    decreases a.len(),
{
    if a.len() > 0 && b.len() > 0 && a[0] == b[0] {
        lemma_text_le_total(a.drop_first(), b.drop_first());
    }
}

/// `text_le` is total.
pub proof fn lemma_text_le_total_pub(a: Seq<char>, b: Seq<char>)
    ensures
        text_le(a, b) || text_le(b, a),
        text_le(a, a),
{
    lemma_text_le_total(a, b);
    lemma_text_le_refl(a);
}

/// `text_le` is reflexive.
proof fn lemma_text_le_refl(a: Seq<char>)
    ensures
        text_le(a, a),
    decreases a.len(),
{
    if a.len() > 0 {
        lemma_text_le_refl(a.drop_first());
    }
}

/// `text_le` is antisymmetric.
pub proof fn lemma_text_le_antisym(a: Seq<char>, b: Seq<char>)
    ensures
        text_le(a, b) && text_le(b, a) ==> a == b,
    decreases a.len(),
{
    if text_le(a, b) && text_le(b, a) {
        if a.len() > 0 && b.len() > 0 {
            if a[0] == b[0] {
                lemma_text_le_antisym(a.drop_first(), b.drop_first());
                assert(a =~= seq![a[0]] + a.drop_first());
                assert(b =~= seq![b[0]] + b.drop_first());
            }
        } else {
            assert(a.len() == 0 && b.len() == 0);
            assert(a =~= b);
        }
    }
}

/// `text_le` is transitive.
pub proof fn lemma_text_le_trans_pub(a: Seq<char>, b: Seq<char>, c: Seq<char>)
    requires
        text_le(a, b),
        text_le(b, c),
    ensures
        text_le(a, c),
{
    lemma_text_le_trans(a, b, c);
}

/// The strict order is transitive.
pub proof fn lemma_key_lt_trans(a: Seq<char>, b: Seq<char>, c: Seq<char>)
    requires
        text_le(a, b) && a != b,
        text_le(b, c) && b != c,
    ensures
        text_le(a, c) && a != c,
{
    lemma_text_le_trans(a, b, c);
    if a == c {
        lemma_text_le_antisym(b, c);
    }
}

/// `text_le` is transitive.
proof fn lemma_text_le_trans(a: Seq<char>, b: Seq<char>, c: Seq<char>)
    requires
        text_le(a, b),
        text_le(b, c),
    ensures
        text_le(a, c),
    decreases a.len(),
{
    if a.len() > 0 && b.len() > 0 && c.len() > 0 && a[0] == b[0] && b[0] == c[0] {
        lemma_text_le_trans(a.drop_first(), b.drop_first(), c.drop_first());
    }
}

/// Every entry is ordered before the next.
pub open spec fn sorted(s: Seq<Seq<char>>) -> bool {
    forall|i: int, j: int| 0 <= i < j < s.len() ==> text_le(#[trigger] s[i], #[trigger] s[j])
}

/// Sorts strings by `text_le` (insertion sort).
pub fn sort_texts(v: Vec<String>) -> (r: Vec<String>)
    ensures
        sorted(r@.map_values(|e: String| e@)),
        r@.map_values(|e: String| e@).to_multiset() == v@.map_values(|e: String| e@).to_multiset(),
        r@.len() == v@.len(),
{
    let mut out: Vec<String> = Vec::new();
    let mut i: usize = 0;
    let ghost src = v@.map_values(|e: String| e@);
    proof {
        assert(src.take(0) =~= seq![]);
        assert(out@.map_values(|e: String| e@) =~= seq![]);
    }
    while i < v.len()
        invariant
            i <= v.len(),
            src == v@.map_values(|e: String| e@),
            sorted(out@.map_values(|e: String| e@)),
            out@.map_values(|e: String| e@).to_multiset() == src.take(i as int).to_multiset(),
            out@.len() == i,
        decreases v.len() - i,
    {
        let item = v[i].clone();
        let iv = to_chars(item.as_str());
        // Find the first position whose entry sorts after the new one.
        let mut k: usize = 0;
        let ghost ov = out@.map_values(|e: String| e@);
        while k < out.len() && text_le_exec(&to_chars(out[k].as_str()), &iv)
            invariant
                k <= out.len(),
                ov == out@.map_values(|e: String| e@),
                sorted(ov),
                iv@ == item@,
                forall|j: int| 0 <= j < k ==> text_le(#[trigger] ov[j], iv@),
            decreases out.len() - k,
        {
            k += 1;
        }
        proof {
            if k < out.len() {
                lemma_text_le_total(ov[k as int], iv@);
                assert(text_le(iv@, ov[k as int]));
            }
        }
        out.insert(k, item);
        proof {
            let nv = out@.map_values(|e: String| e@);
            assert(nv =~= ov.insert(k as int, iv@));
            assert forall|a: int, b: int| 0 <= a < b < nv.len() implies text_le(
                #[trigger] nv[a],
                #[trigger] nv[b],
            ) by {
                if a < k && b == k {
                } else if a < k && b > k {
                    assert(nv[b] == ov[b - 1]);
                    if k < ov.len() {
                        lemma_text_le_trans(nv[a], iv@, ov[k as int]);
                        if b - 1 > k {
                            lemma_text_le_trans(nv[a], ov[k as int], ov[b - 1]);
                        }
                    }
                } else if a == k && b > k {
                    assert(nv[b] == ov[b - 1]);
                    if b - 1 > k {
                        lemma_text_le_trans(iv@, ov[k as int], ov[b - 1]);
                    }
                } else if a > k {
                    assert(nv[a] == ov[a - 1]);
                    assert(nv[b] == ov[b - 1]);
                } else {
                    assert(nv[a] == ov[a]);
                    assert(nv[b] == ov[b]);
                }
            }
            assert(src.take(i + 1) =~= src.take(i as int).push(iv@));
            lemma_insert_multiset(ov, k as int, iv@);
            broadcast use vstd::seq_lib::group_to_multiset_ensures;
        }
        i += 1;
    }
    proof {
        assert(src.take(v.len() as int) =~= src);
    }
    out
}

/// Inserting adds one occurrence.
proof fn lemma_insert_multiset(s: Seq<Seq<char>>, k: int, x: Seq<char>)
    requires
        0 <= k <= s.len(),
    ensures
        s.insert(k, x).to_multiset() == s.to_multiset().insert(x),
{
    let a = s.take(k);
    let b = s.skip(k);
    assert(s =~= a + b);
    assert(s.insert(k, x) =~= a + (seq![x] + b));
    vstd::seq_lib::lemma_multiset_commutative(a, b);
    vstd::seq_lib::lemma_multiset_commutative(a, seq![x] + b);
    vstd::seq_lib::lemma_multiset_commutative(seq![x], b);
    assert(seq![x].to_multiset() =~= Multiset::empty().insert(x)) by {
        broadcast use vstd::seq_lib::group_to_multiset_ensures;
        assert(seq![x] =~= Seq::<Seq<char>>::empty().push(x));
    }
}


// ---------------------------------------------------------------------------
// Listings
// ---------------------------------------------------------------------------

/// `sep`-separated concatenation of strings.
pub open spec fn joined(ps: Seq<Seq<char>>) -> Seq<char> {
    crate::path::join(ps, '\n')
}

/// Whether `r` is `ps` in sorted order.
pub open spec fn sorted_version(r: Seq<Seq<char>>, ps: Seq<Seq<char>>) -> bool {
    sorted(r) && r.to_multiset() == ps.to_multiset()
}

/// The first `MAX_ENTRIES` entries.
pub open spec fn capped(ps: Seq<Seq<char>>) -> Seq<Seq<char>> {
    if ps.len() > MAX_ENTRIES {
        ps.take(MAX_ENTRIES as int)
    } else {
        ps
    }
}

/// The first `MAX_ENTRIES` strings of a vector.
fn take_capped(v: &Vec<String>) -> (r: Vec<String>)
    ensures
        r@.map_values(|e: String| e@) == capped(v@.map_values(|e: String| e@)),
{
    let mut out: Vec<String> = Vec::new();
    let mut i: usize = 0;
    let ghost vv = v@.map_values(|e: String| e@);
    while i < v.len() && i < MAX_ENTRIES
        invariant
            i <= v.len(),
            i <= MAX_ENTRIES,
            vv == v@.map_values(|e: String| e@),
            out@.map_values(|e: String| e@) == vv.take(i as int),
        decreases v.len() - i,
    {
        let ghost before = out@.map_values(|e: String| e@);
        out.push(v[i].clone());
        proof {
            assert(out@.map_values(|e: String| e@) =~= before.push(vv[i as int]));
            assert(vv.take(i + 1) =~= vv.take(i as int).push(vv[i as int]));
        }
        i += 1;
    }
    proof {
        if vv.len() <= MAX_ENTRIES {
            assert(vv.take(i as int) =~= vv);
        }
    }
    out
}

/// Joins strings with newlines.
fn join_lines(v: &Vec<String>) -> (r: String)
    ensures
        r@ == joined(v@.map_values(|e: String| e@)),
{
    let mut parts: Vec<Vec<char>> = Vec::new();
    let mut i: usize = 0;
    while i < v.len()
        invariant
            i <= v.len(),
            crate::path::views(parts@) == v@.map_values(|e: String| e@).take(i as int),
        decreases v.len() - i,
    {
        let ghost before = crate::path::views(parts@);
        parts.push(to_chars(v[i].as_str()));
        proof {
            assert(crate::path::views(parts@) =~= before.push(v@[i as int]@));
            assert(v@.map_values(|e: String| e@).take(i + 1) =~= v@.map_values(|e: String| e@).take(
                i as int,
            ).push(v@[i as int]@));
        }
        i += 1;
    }
    proof {
        assert(v@.map_values(|e: String| e@).take(v.len() as int) =~= v@.map_values(
            |e: String| e@,
        ));
    }
    let out = crate::path::join_all(&parts, '\n');
    from_chars(&out)
}

/// What a listing answers: the first `MAX_ENTRIES` entries in sorted order,
/// one per line, cut to the cap; or `empty` when there are none.
pub open spec fn listing_answer(
    r: Seq<char>,
    entries: Seq<Seq<char>>,
    empty: Seq<char>,
    cap: nat,
) -> bool {
    if entries.len() == 0 {
        r == empty
    } else {
        exists|s: Seq<Seq<char>>|
            sorted_version(s, capped(entries)) && r == crate::tools::truncated(joined(s), cap)
    }
}

/// The sorted, capped, joined listing of `entries`.
fn finish_listing(ctx: &ToolContext, entries: &Vec<String>, empty: String) -> (r: String)
    ensures
        listing_answer(r@, entries@.map_values(|e: String| e@), empty@, ctx.cap()),
{
    if entries.len() == 0 {
        return empty;
    }
    let first = take_capped(entries);
    let ordered = sort_texts(first);
    let text = join_lines(&ordered);
    let r = ctx.truncate(text);
    proof {
        let s = ordered@.map_values(|e: String| e@);
        assert(sorted_version(s, capped(entries@.map_values(|e: String| e@))));
    }
    r
}

impl ListDir {
    /// An entry as listed: its shown path, with a `/` after a directory.
    pub fn entry_name(shown: &str, is_dir: bool) -> (r: String)
        ensures
            r@ == (if is_dir {
                shown@.push('/')
            } else {
                shown@
            }),
    {
        let mut out = String::from_str(shown);
        if is_dir {
            crate::text::push_char(&mut out, '/');
        }
        out
    }

    /// The answer for the entries of the directory `requested`.
    pub fn finish(ctx: &ToolContext, requested: &str, entries: &Vec<String>) -> (r: String)
        ensures
            listing_answer(
                r@,
                entries@.map_values(|e: String| e@),
                "`"@ + requested@ + "` is empty."@,
                ctx.cap(),
            ),
    {
        let mut empty = String::from_str("`");
        push_str(&mut empty, requested);
        push_str(&mut empty, "` is empty.");
        finish_listing(ctx, entries, empty)
    }

    /// Listing changes nothing.
    pub fn is_read_only(&self) -> (r: bool)
        ensures
            r,
    {
        true
    }
}

/// The paths among `files` that a glob of `patterns` matches, in order.
pub open spec fn glob_hits(files: Seq<Seq<char>>, patterns: Seq<Seq<char>>) -> Seq<Seq<char>>
    decreases files.len(),
{
    if files.len() == 0 {
        seq![]
    } else if crate::patterns::glob_set_matches(patterns, files.last()) {
        glob_hits(files.drop_last(), patterns).push(files.last())
    } else {
        glob_hits(files.drop_last(), patterns)
    }
}

impl Glob {
    /// Compiles the glob pattern; a malformed one is refused with the reason.
    pub fn compile(pattern: &str) -> (r: Result<crate::patterns::GlobMatcher, ToolError>)
        ensures
            match r {
                Ok(m) => m.patterns() == seq![pattern@],
                Err(e) => exists|failed: (bool, Seq<char>)|
                    crate::patterns::globset_build_error(seq![pattern@]) == Some(failed) && (e matches ToolError::InvalidInput { tool, detail } && tool@ == "glob"@ && detail@
                        == (if failed.0 {
                        "`"@ + pattern@ + "` is not a valid glob: "@ + failed.1
                    } else {
                        failed.1
                    })),
            },
    {
        let mut ps: Vec<String> = Vec::new();
        ps.push(String::from_str(pattern));
        proof {
            assert(crate::patterns::string_views(ps@) =~= seq![pattern@]);
        }
        match crate::patterns::GlobMatcher::compile(&ps) {
            Ok(m) => Ok(m),
            Err((at_glob, msg)) => {
                let detail = if at_glob {
                    let mut d = String::from_str("`");
                    push_str(&mut d, pattern);
                    push_str(&mut d, "` is not a valid glob: ");
                    push_str(&mut d, msg.as_str());
                    d
                } else {
                    msg
                };
                Err(ToolError::InvalidInput { tool: String::from_str("glob"), detail })
            },
        }
    }

    /// The answer for the files of the walk: those the glob matches, capped,
    /// sorted and cut; or a note that nothing matched.
    pub fn finish(
        ctx: &ToolContext,
        pattern: &str,
        matcher: &crate::patterns::GlobMatcher,
        files: &Vec<String>,
    ) -> (r: String)
        ensures
            listing_answer(
                r@,
                glob_hits(files@.map_values(|e: String| e@), matcher.patterns()),
                "No files match `"@ + pattern@ + "`."@,
                ctx.cap(),
            ),
    {
        let mut hits: Vec<String> = Vec::new();
        let mut i: usize = 0;
        let ghost fv = files@.map_values(|e: String| e@);
        proof {
            assert(fv.take(0) =~= seq![]);
        }
        while i < files.len()
            invariant
                i <= files.len(),
                fv == files@.map_values(|e: String| e@),
                hits@.map_values(|e: String| e@) == glob_hits(fv.take(i as int), matcher.patterns()),
            decreases files.len() - i,
        {
            proof {
                assert(fv.take(i + 1).drop_last() =~= fv.take(i as int));
            }
            if matcher.is_match(files[i].as_str()) {
                let ghost before = hits@.map_values(|e: String| e@);
                hits.push(files[i].clone());
                proof {
                    assert(hits@.map_values(|e: String| e@) =~= before.push(fv[i as int]));
                }
            }
            i += 1;
        }
        proof {
            assert(fv.take(files.len() as int) =~= fv);
        }
        let mut empty = String::from_str("No files match `");
        push_str(&mut empty, pattern);
        push_str(&mut empty, "`.");
        finish_listing(ctx, &hits, empty)
    }

    /// Finding files changes nothing.
    pub fn is_read_only(&self) -> (r: bool)
        ensures
            r,
    {
        true
    }
}


/// Lines numbered beyond `last` add nothing.
proof fn lemma_range_stops_at_last(ls: Seq<Seq<char>>, k: nat, first: nat, last: nat)
    requires
        last <= k,
    ensures
        numbered_range(ls, k, first, last) == numbered_range(ls, last, first, last),
    decreases k,
{
    if k > last {
        lemma_range_stops_at_last(ls, (k - 1) as nat, first, last);
    }
}

/// Up to line `k`, a range's end beyond `k` does not matter.
proof fn lemma_range_end_beyond(ls: Seq<Seq<char>>, k: nat, first: nat, l1: nat, l2: nat)
    requires
        k <= l1,
        k <= l2,
    ensures
        numbered_range(ls, k, first, l1) == numbered_range(ls, k, first, l2),
    decreases k,
{
    if k > 0 {
        lemma_range_end_beyond(ls, (k - 1) as nat, first, l1, l2);
    }
}

/// Before the first line of the range there is nothing, and an empty range
/// holds nothing.
proof fn lemma_range_nothing(ls: Seq<Seq<char>>, k: nat, first: nat, last: nat)
    requires
        k < first || last < first,
    ensures
        numbered_range(ls, k, first, last) == Seq::<char>::empty(),
    decreases k,
{
    if k > 0 {
        lemma_range_nothing(ls, (k - 1) as nat, first, last);
        assert(numbered_range(ls, k, first, last) =~= Seq::<char>::empty());
    }
}

/// Reading lines `start` to `end` (one-based, both included, within the
/// file) gives line `start` alone when they are equal, and otherwise what
/// reading `start` to `end - 1` gives followed by line `end`: the end is the
/// number of the last line shown, whatever the start.
pub proof fn lemma_read_range_ends_at_end(text: Seq<char>, start: u64, end: u64)
    requires
        1 <= start <= end,
        end <= lines(text).len(),
    ensures
        numbered_text(text, Some(start), Some(end)) == if start == end {
            numbered_line(end as nat, lines(text)[end - 1])
        } else {
            numbered_text(text, Some(start), Some((end - 1) as u64)) + numbered_line(
                end as nat,
                lines(text)[end - 1],
            )
        },
{
    let ls = lines(text);
    let n = ls.len();
    let f = start as nat;
    let e = end as nat;
    let line = numbered_line(e, ls[e - 1]);
    assert(line.len() > 0) by {
        assert(line.last() == '\n');
    }
    lemma_range_stops_at_last(ls, n, f, e);
    assert(numbered_range(ls, e, f, e) == numbered_range(ls, (e - 1) as nat, f, e) + line);
    if start == end {
        lemma_range_nothing(ls, (e - 1) as nat, f, e);
        assert(numbered_range(ls, e, f, e) =~= line);
    } else {
        let p = (e - 1) as nat;
        lemma_range_end_beyond(ls, p, f, e, p);
        lemma_range_stops_at_last(ls, n, f, p);
        let prev = numbered_range(ls, p, f, p);
        let pline = numbered_line(p, ls[p - 1]);
        assert(pline.last() == '\n');
        assert(prev == numbered_range(ls, (p - 1) as nat, f, p) + pline);
        assert(prev.len() > 0);
    }
}

/// A range whose end comes before its start shows no line, only the note.
pub proof fn lemma_read_range_before_start(text: Seq<char>, start: u64, end: u64)
    requires
        1 <= start,
        end < start,
    ensures
        numbered_text(text, Some(start), Some(end)) == "[the requested range contains no lines]"@,
{
    lemma_range_nothing(lines(text), lines(text).len(), start as nat, end as nat);
}

/// A missing start, or a start of zero, reads from the first line; a
/// missing end reads to the last line, as an end at the last line does.
pub proof fn lemma_read_range_defaults(text: Seq<char>, start: Option<u64>, end: Option<u64>)
    ensures
        numbered_text(text, None, end) == numbered_text(text, Some(1), end),
        numbered_text(text, Some(0), end) == numbered_text(text, Some(1), end),
        lines(text).len() <= u64::MAX ==> numbered_text(text, start, None) == numbered_text(
            text,
            start,
            Some(lines(text).len() as u64),
        ),
{
    let ls = lines(text);
    let n = ls.len();
    if n <= u64::MAX {
        let f: nat = match start {
            Some(s) => if s >= 1 {
                s as nat
            } else {
                1
            },
            None => 1,
        };
        lemma_range_end_beyond(ls, n, f, u64::MAX as nat, n);
    }
}

} // verus!

//! Custom slash commands: prompts kept in `.truecode/commands/*.md`.
use vstd::prelude::*;
use crate::text::{
    contains, digit_char, first_index_of, lines, pad_right, push_str, replace_all, starts_with,
    trim, trim_char, trim_end, trim_start, trim_start_char, words, occurs_at,
};

verus! {

/// The directory of commands, inside the project directory.
pub const COMMANDS_DIR: &'static str = "commands";

/// A prompt the user keeps under a name.
#[derive(Debug, Clone, PartialEq, Eq)]
pub struct UserCommand {
    pub name: String,
    pub description: String,
    pub argument_hint: String,
    pub body: String,
}

/// Why the commands could not be loaded.
#[derive(Debug)]
pub enum CommandError {
    /// A file or the directory could not be read; the system's message.
    Read { path: String, source: String },
}

impl CommandError {
    /// The message shown to the user.
    pub fn message(&self) -> (r: String)
        ensures
            self matches CommandError::Read { path, source } && r@ == "cannot read "@ + path@ + ": "@
                + source@,
    {
        match self {
            CommandError::Read { path, source } => {
                let mut out = String::from_str("cannot read ");
                push_str(&mut out, path.as_str());
                push_str(&mut out, ": ");
                push_str(&mut out, source.as_str());
                out
            },
        }
    }
}

/// The placeholder for the `k`-th word, `$k`.
pub open spec fn placeholder(k: nat) -> Seq<char> {
    seq!['$', digit_char(k)]
}

/// The `k`-th word (counted from one), or nothing.
pub open spec fn nth_word(ws: Seq<Seq<char>>, k: nat) -> Seq<char> {
    if 1 <= k && k <= ws.len() {
        ws[k - 1]
    } else {
        seq![]
    }
}

/// `out` with `$k`, `$k+1`, …, `$9` each replaced by its word.
pub open spec fn fill_numbered(out: Seq<char>, ws: Seq<Seq<char>>, k: nat) -> Seq<char>
    decreases 10 - k,
{
    if k > 9 || k == 0 {
        out
    } else {
        fill_numbered(replace_all(out, placeholder(k), nth_word(ws, k)), ws, k + 1)
    }
}

/// Whether the body says where the arguments go.
pub open spec fn has_placeholder(body: Seq<char>) -> bool {
    contains(body, "$ARGUMENTS"@) || exists|k: nat| 1 <= k <= 9 && contains(body, #[trigger] placeholder(k))
}

/// What a command expands to: `$ARGUMENTS` becomes everything typed, `$1`
/// to `$9` one word each (nothing when there are fewer words), and when the
/// body has no placeholder the arguments are appended after a blank line.
pub open spec fn expansion(body: Seq<char>, arguments: Seq<char>) -> Seq<char> {
    let a = trim(arguments);
    let out = fill_numbered(replace_all(body, "$ARGUMENTS"@, a), words(a), 1);
    if !has_placeholder(body) && a.len() > 0 {
        trim_end(out) + "\n\n"@ + a
    } else {
        out
    }
}

/// Filling placeholders that do not occur changes nothing.
proof fn lemma_fill_absent(out: Seq<char>, ws: Seq<Seq<char>>, k: nat)
    requires
        forall|j: nat| k <= j <= 9 ==> !contains(out, #[trigger] placeholder(j)),
    ensures
        fill_numbered(out, ws, k) == out,
    decreases 10 - k,
{
    if k > 9 || k == 0 {
    } else {
        crate::text::lemma_replace_all_absent(out, placeholder(k), nth_word(ws, k));
        lemma_fill_absent(out, ws, k + 1);
    }
}

/// A body with nowhere to put arguments is sent as written when nothing but
/// whitespace was typed, and otherwise with the typed text, trimmed, after a
/// blank line.
pub proof fn lemma_body_without_placeholders(body: Seq<char>, arguments: Seq<char>)
    requires
        !has_placeholder(body),
    ensures
        expansion(body, arguments) == if trim(arguments).len() == 0 {
            body
        } else {
            trim_end(body) + "\n\n"@ + trim(arguments)
        },
{
    let a = trim(arguments);
    crate::text::lemma_replace_all_absent(body, "$ARGUMENTS"@, a);
    assert forall|j: nat| 1 <= j <= 9 implies !contains(body, #[trigger] placeholder(j)) by {}
    lemma_fill_absent(body, words(a), 1);
}

/// How a command is listed: its invocation, padded to 24 columns and
/// followed by the description when there is one.
pub open spec fn command_summary(name: Seq<char>, hint: Seq<char>, description: Seq<char>) -> Seq<
    char,
> {
    let invocation = if hint.len() == 0 {
        "/"@ + name
    } else {
        "/"@ + name + " "@ + hint
    };
    if description.len() == 0 {
        invocation
    } else {
        pad_right(invocation, 24) + " "@ + description
    }
}

impl UserCommand {
    /// The prompt for this command with the given arguments.
    pub fn expand(&self, arguments: &str) -> (r: String)
        ensures
            r@ == expansion(self.body@, arguments@),
    {
        let a = crate::text::trim_str(arguments);
        let av = crate::text::to_chars(a.as_str());
        let ws = crate::text::split_words(&av);
        let body = crate::text::to_chars(self.body.as_str());
        let all = crate::text::to_chars("$ARGUMENTS");
        let mut uses = crate::text::find_from(&body, &all, 0).is_some();
        proof {
            reveal_strlit("$ARGUMENTS");
            if contains(body@, all@) {
                let j = choose|j: int| occurs_at(body@, all@, j);
                assert(occurs_at(body@, all@, j));
            }
        }
        let mut out = crate::text::replace_all_chars(&body, &all, &av);
        let mut k: u64 = 1;
        proof {
            assert(fill_numbered(out@, words(a@), 1) == fill_numbered(
                replace_all(body@, "$ARGUMENTS"@, a@),
                words(a@),
                1,
            ));
        }
        while k <= 9
            invariant
                1 <= k <= 10,
                ws@.len() == words(a@).len(),
                forall|j: int| 0 <= j < ws@.len() ==> #[trigger] ws@[j]@ == words(a@)[j],
                fill_numbered(out@, words(a@), k as nat) == fill_numbered(
                    replace_all(body@, "$ARGUMENTS"@, a@),
                    words(a@),
                    1,
                ),
                uses == (contains(body@, "$ARGUMENTS"@) || exists|m: nat|
                    1 <= m < k && contains(body@, #[trigger] placeholder(m))),
                all@ == "$ARGUMENTS"@,
            decreases 10 - k,
        {
            let d = crate::text::digit(k);
            let pat = vec!['$', d];
            proof {
                assert(pat@ =~= placeholder(k as nat));
            }
            let empty: Vec<char> = Vec::new();
            let word: &Vec<char> = if ((k - 1) as usize) < ws.len() {
                &ws[(k - 1) as usize]
            } else {
                &empty
            };
            proof {
                assert(word@ == nth_word(words(a@), k as nat));
            }
            let found = crate::text::find_from(&body, &pat, 0).is_some();
            proof {
                if contains(body@, pat@) {
                    let j = choose|j: int| occurs_at(body@, pat@, j);
                    assert(occurs_at(body@, pat@, j));
                }
                if found {
                    assert(contains(body@, placeholder(k as nat)));
                }
            }
            uses = uses || found;
            out = crate::text::replace_all_chars(&out, &pat, word);
            k += 1;
        }
        proof {
            assert(fill_numbered(out@, words(a@), 10) == out@);
            assert(uses == has_placeholder(body@));
        }
        if !uses && av.len() > 0 {
            let mut t = crate::text::trim_end_chars(&out);
            t.push('\n');
            t.push('\n');
            crate::text::extend_chars(&mut t, &av);
            proof {
                reveal_strlit("\n\n");
                assert(t@ =~= trim_end(out@) + "\n\n"@ + a@);
            }
            return crate::text::from_chars(&t);
        }
        crate::text::from_chars(&out)
    }

    /// How the command is listed.
    pub fn summary(&self) -> (r: String)
        ensures
            r@ == command_summary(self.name@, self.argument_hint@, self.description@),
    {
        let mut invocation = String::from_str("/");
        push_str(&mut invocation, self.name.as_str());
        if self.argument_hint.as_str().is_empty() == false {
            push_str(&mut invocation, " ");
            push_str(&mut invocation, self.argument_hint.as_str());
        }
        if self.description.as_str().is_empty() {
            return invocation;
        }
        let mut padded: Vec<char> = Vec::new();
        crate::text::push_padded_right(&mut padded, &crate::text::to_chars(invocation.as_str()), 24);
        let mut out = crate::text::from_chars(&padded);
        push_str(&mut out, " ");
        push_str(&mut out, self.description.as_str());
        out
    }
}

// ---------------------------------------------------------------------------
// Reading a command file
// ---------------------------------------------------------------------------

/// The first occurrence of `pat` in `s` at or after `from`.
pub open spec fn first_occurrence(s: Seq<char>, pat: Seq<char>, from: int) -> Option<int>
    decreases s.len() + 1 - from,
{
    if from < 0 || from > s.len() {
        None
    } else if occurs_at(s, pat, from) {
        Some(from)
    } else {
        first_occurrence(s, pat, from + 1)
    }
}

/// A frontmatter value: trimmed, then stripped of double and single quotes.
pub open spec fn front_value(v: Seq<char>) -> Seq<char> {
    trim_char(trim_char(trim(v), '"'), '\'')
}

/// The description and argument hint after reading the first `k` lines of
/// a frontmatter block; a later line overrides an earlier one.
pub open spec fn front_fields(ls: Seq<Seq<char>>, k: nat) -> (Seq<char>, Seq<char>)
    decreases k,
{
    if k == 0 || k > ls.len() {
        (seq![], seq![])
    } else {
        let before = front_fields(ls, (k - 1) as nat);
        let line = ls[k - 1];
        match first_index_of(line, ':') {
            None => before,
            Some(p) => {
                let key = trim(line.take(p));
                let value = front_value(line.skip(p + 1));
                if key == "description"@ {
                    (value, before.1)
                } else if key == "argument-hint"@ || key == "argument_hint"@ {
                    (before.0, value)
                } else {
                    before
                }
            },
        }
    }
}

/// A command read from the file `name.md` holding `text`: frontmatter between
/// `---` lines gives the description and the argument hint, and the rest,
/// trimmed, is the prompt.
pub open spec fn parsed(text: Seq<char>) -> (Seq<char>, Seq<char>, Seq<char>) {
    if starts_with(text, "---"@) {
        let rest = text.skip(3);
        match first_occurrence(rest, "\n---"@, 0) {
            Some(end) => {
                let ls = lines(rest.take(end));
                let fields = front_fields(ls, ls.len());
                (fields.0, fields.1, trim(trim_start(trim_start_char(rest.skip(end + 4), '-'))))
            },
            None => (seq![], seq![], trim(text)),
        }
    } else {
        (seq![], seq![], trim(text))
    }
}

/// Reads a command called `name` from the text of its file.
pub fn parse(name: &str, text: &str) -> (r: UserCommand)
    ensures
        r.name@ == name@,
        (r.description@, r.argument_hint@, r.body@) == parsed(text@),
{
    let v = crate::text::to_chars(text);
    let dashes = crate::text::to_chars("---");
    proof {
        reveal_strlit("---");
        reveal_strlit("\n---");
    }
    if !crate::text::matches_at(&v, &dashes, 0) {
        return UserCommand {
            name: String::from_str(name),
            description: String::new(),
            argument_hint: String::new(),
            body: crate::text::from_chars(&crate::text::trim_chars(&v)),
        };
    }
    let rest = crate::text::slice_chars(&v, 3, v.len());
    proof {
        assert(rest@ =~= text@.skip(3));
    }
    let marker = crate::text::to_chars("\n---");
    let end = match crate::text::find_from(&rest, &marker, 0) {
        Some(e) => e,
        None => {
            proof {
                assert(first_occurrence(rest@, marker@, 0) is None) by {
                    lemma_first_occurrence_none(rest@, marker@, 0);
                }
            }
            return UserCommand {
                name: String::from_str(name),
                description: String::new(),
                argument_hint: String::new(),
                body: crate::text::from_chars(&crate::text::trim_chars(&v)),
            };
        },
    };
    proof {
        lemma_first_occurrence_some(rest@, marker@, 0, end as int);
    }
    let header = crate::text::slice_chars(&rest, 0, end);
    let ls = crate::text::split_lines(&header);
    let ghost lv = lines(rest@.take(end as int));
    proof {
        assert(header@ =~= rest@.take(end as int));
    }
    let mut description: Vec<char> = Vec::new();
    let mut hint: Vec<char> = Vec::new();
    let mut i: usize = 0;
    while i < ls.len()
        invariant
            i <= ls.len(),
            ls@.len() == lv.len(),
            forall|j: int| 0 <= j < ls@.len() ==> #[trigger] ls@[j]@ == lv[j],
            (description@, hint@) == front_fields(lv, i as nat),
        decreases ls.len() - i,
    {
        let line = &ls[i];
        let colon = crate::text::index_of_char_from(line, ':', 0);
        proof {
            assert(line@ == lv[i as int]);
            assert(line@.skip(0) =~= line@);
            crate::text::lemma_first_index_of(line@, ':');
            if colon < line.len() {
                assert(first_index_of(line@, ':') == Some(colon as int));
            } else {
                assert(first_index_of(line@, ':') is None) by {
                    if first_index_of(line@, ':') is Some {
                        let q = first_index_of(line@, ':')->Some_0;
                        assert(line@[q] == ':');
                    }
                }
            }
        }
        if colon < line.len() {
            let key_raw = crate::text::slice_chars(line, 0, colon);
            let key = crate::text::trim_chars(&key_raw);
            let raw = crate::text::slice_chars(line, colon + 1, line.len());
            let value = crate::text::trim_char_chars(
                &crate::text::trim_char_chars(&crate::text::trim_chars(&raw), '"'),
                '\'',
            );
            proof {
                assert(key_raw@ =~= line@.take(colon as int));
                assert(raw@ =~= line@.skip(colon + 1));
                reveal_strlit("description");
                reveal_strlit("argument-hint");
                reveal_strlit("argument_hint");
            }
            if crate::text::chars_eq(&key, &crate::text::to_chars("description")) {
                description = value;
            } else if crate::text::chars_eq(&key, &crate::text::to_chars("argument-hint"))
                || crate::text::chars_eq(&key, &crate::text::to_chars("argument_hint")) {
                hint = value;
            }
        }
        i += 1;
    }
    let after = crate::text::slice_chars(&rest, end + 4, rest.len());
    let body = crate::text::trim_chars(
        &crate::text::trim_start_chars(&crate::text::trim_start_char_chars(&after, '-')),
    );
    proof {
        assert(after@ =~= rest@.skip(end + 4));
        assert(crate::text::trim(crate::text::trim_start(trim_start_char(after@, '-'))) == body@);
    }
    UserCommand {
        name: String::from_str(name),
        description: crate::text::from_chars(&description),
        argument_hint: crate::text::from_chars(&hint),
        body: crate::text::from_chars(&body),
    }
}

proof fn lemma_first_occurrence_none(s: Seq<char>, pat: Seq<char>, from: int)
    requires
        0 <= from,
        forall|j: int| from <= j ==> !occurs_at(s, pat, j),
    ensures
        first_occurrence(s, pat, from) is None,
    decreases s.len() + 1 - from,
{
    if from <= s.len() {
        lemma_first_occurrence_none(s, pat, from + 1);
    }
}

proof fn lemma_first_occurrence_some(s: Seq<char>, pat: Seq<char>, from: int, i: int)
    requires
        0 <= from <= i,
        occurs_at(s, pat, i),
        forall|j: int| from <= j < i ==> !occurs_at(s, pat, j),
    ensures
        first_occurrence(s, pat, from) == Some(i),
    decreases i - from,
{
    if from < i {
        lemma_first_occurrence_some(s, pat, from + 1, i);
    }
}

} // verus!

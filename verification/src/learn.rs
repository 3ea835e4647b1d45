//! Teaching mode: checking that a question is usable, and remembering which
//! concepts a person has struggled with.
use vstd::prelude::*;
use crate::fs::text_le;
use crate::text::{first_index_of, is_blank, push_str};

verus! {

/// Where the learning profile lives, relative to the project root.
pub const PROFILE_FILE: &'static str = ".truecode/learning.toml";

/// Instructions for writing one question about a change, answered as JSON
/// so that the answer can be graded without another model call.
pub const QUESTION_PROMPT: &'static str = "\
You have just made a change to the user's project. Write ONE multiple-choice \
question that tests whether they understood it.

Rules:
- Ask about THIS change, in THIS codebase. Not about the language in general.
- Ask about consequence or reasoning — what breaks without it, why this approach \
over the obvious alternative. Never about syntax or naming.
- Exactly one option is correct. The wrong options must be plausible to someone \
who skimmed the diff, not obviously silly.
- The explanation is what they keep. Make it worth reading even if they answered \
correctly.
- Name the concept in two or three words, lowercase, e.g. \"error propagation\", \
\"ownership\", \"cache invalidation\".

Answer with JSON only, no prose around it:
{\"concept\":\"…\",\"question\":\"…\",\"options\":[\"…\",\"…\",\"…\"],\"correct\":0,\"explanation\":\"…\"}";

/// A multiple-choice question about a change.
#[derive(Debug, Clone, PartialEq, Eq)]
pub struct Question {
    pub concept: String,
    pub question: String,
    pub options: Vec<String>,
    pub correct: usize,
    pub explanation: String,
}

/// Why teaching could not go ahead.
#[derive(Debug)]
pub enum LearnError {
    /// The model's answer cannot be used as a question.
    Unusable { detail: String },
    /// Reading or writing the profile failed; the system's message.
    Io { operation: String, source: String },
}

/// The text of a learning error.
pub open spec fn learn_error_text(e: LearnError) -> Seq<char> {
    match e {
        LearnError::Unusable { detail } => "could not build a question: "@ + detail@,
        LearnError::Io { operation, source } => operation@
            + " failed for .truecode/learning.toml: "@ + source@,
    }
}

impl LearnError {
    /// The message shown to the user.
    pub fn message(&self) -> (r: String)
        ensures
            r@ == learn_error_text(*self),
    {
        match self {
            LearnError::Unusable { detail } => {
                let mut out = String::from_str("could not build a question: ");
                push_str(&mut out, detail.as_str());
                out
            },
            LearnError::Io { operation, source } => {
                let mut out = String::from_str(operation.as_str());
                push_str(&mut out, " failed for .truecode/learning.toml: ");
                push_str(&mut out, source.as_str());
                out
            },
        }
    }
}

/// Why a question is unusable, if it is: fewer than two options, a correct
/// answer that is not one of them, or an empty question or explanation.
pub open spec fn question_problem(q: Question) -> Option<Seq<char>> {
    if q.options@.len() < 2 {
        Some("fewer than two options"@)
    } else if q.correct >= q.options@.len() {
        Some("the correct answer is not one of the options"@)
    } else if is_blank(q.question@) || is_blank(q.explanation@) {
        Some("the question or explanation is empty"@)
    } else {
        None
    }
}

/// The last index of `c` in `s`.
pub open spec fn last_index_of(s: Seq<char>, c: char) -> Option<int>
    decreases s.len(),
{
    if s.len() == 0 {
        None
    } else if s.last() == c {
        Some(s.len() - 1)
    } else {
        last_index_of(s.drop_last(), c)
    }
}

/// The JSON object in an answer: from the first `{` to the last `}`, when
/// the last comes after the first.
pub open spec fn json_span(raw: Seq<char>) -> Option<Seq<char>> {
    match (first_index_of(raw, '{'), last_index_of(raw, '}')) {
        (Some(start), Some(end)) => if end > start {
            Some(raw.subrange(start, end + 1))
        } else {
            None
        },
        _ => None,
    }
}

proof fn lemma_last_index_of(s: Seq<char>, c: char)
    ensures
        match last_index_of(s, c) {
            Some(i) => 0 <= i < s.len() && s[i] == c && forall|j: int| i < j < s.len() ==> s[j] != c,
            None => forall|j: int| 0 <= j < s.len() ==> s[j] != c,
        },
    decreases s.len(),
{
    if s.len() > 0 && s.last() != c {
        lemma_last_index_of(s.drop_last(), c);
        assert forall|j: int| 0 <= j < s.len() - 1 implies s.drop_last()[j] == s[j] by {}
    }
}

/// Cuts the JSON object out of a model's answer, which may wrap it in prose
/// or a code fence.
pub fn extract_json(raw: &str) -> (r: Option<String>)
    ensures
        match r {
            Some(s) => json_span(raw@) == Some(s@),
            None => json_span(raw@) is None,
        },
{
    let v = crate::text::to_chars(raw);
    let start = crate::text::index_of_char_from(&v, '{', 0);
    proof {
        crate::text::lemma_first_index_of(v@, '{');
        assert(v@.skip(0) =~= v@);
        crate::text::lemma_first_index_of(v@, '{');
    }
    if start == v.len() {
        proof {
            if first_index_of(v@, '{') is Some {
                let k = first_index_of(v@, '{')->Some_0;
                assert(v@[k] == '{');
            }
        }
        return None;
    }
    let mut end = v.len();
    while end > 0 && v[end - 1] != '}'
        invariant
            end <= v.len(),
            forall|j: int| end <= j < v.len() ==> v@[j] != '}',
        decreases end,
    {
        end -= 1;
    }
    proof {
        lemma_last_index_of(v@, '}');
        crate::text::lemma_first_index_of(v@, '{');
        if first_index_of(v@, '{') is Some {
            let k = first_index_of(v@, '{')->Some_0;
            assert(k == start);
        }
        if end > 0 {
            assert(last_index_of(v@, '}') == Some((end - 1) as int));
        } else {
            assert(last_index_of(v@, '}') is None);
        }
    }
    if end == 0 || end - 1 <= start {
        return None;
    }
    let span = crate::text::slice_chars(&v, start, end);
    Some(crate::text::from_chars(&span))
}

impl Question {
    /// Checks that a question can be asked.
    pub fn validate(&self) -> (r: Result<(), LearnError>)
        ensures
            match question_problem(*self) {
                None => r is Ok,
                Some(p) => r matches Err(LearnError::Unusable { detail }) && detail@ == p,
            },
    {
        if self.options.len() < 2 {
            return Err(LearnError::Unusable { detail: String::from_str("fewer than two options") });
        }
        if self.correct >= self.options.len() {
            return Err(
                LearnError::Unusable {
                    detail: String::from_str("the correct answer is not one of the options"),
                },
            );
        }
        if crate::text::str_is_blank(self.question.as_str()) || crate::text::str_is_blank(
            self.explanation.as_str(),
        ) {
            return Err(
                LearnError::Unusable {
                    detail: String::from_str("the question or explanation is empty"),
                },
            );
        }
        Ok(())
    }

    /// Whether `chosen` is the correct option.
    pub fn is_correct(&self, chosen: usize) -> (r: bool)
        ensures
            r == (chosen == self.correct),
    {
        chosen == self.correct
    }

    /// What the person reads after answering: whether they were right, the
    /// right option when they were not, and the explanation either way.
    pub fn feedback(&self, chosen: usize) -> (r: String)
        requires
            self.correct < self.options@.len(),
        ensures
            r@ == answer_feedback(*self, chosen),
    {
        if chosen == self.correct {
            let mut out = String::from_str("Right. ");
            push_str(&mut out, self.explanation.as_str());
            out
        } else {
            let mut out = String::from_str("Not quite. The answer is \"");
            push_str(&mut out, self.options[self.correct].as_str());
            push_str(&mut out, "\". ");
            push_str(&mut out, self.explanation.as_str());
            out
        }
    }
}

/// The feedback on answering `chosen`.
pub open spec fn answer_feedback(q: Question, chosen: usize) -> Seq<char> {
    if chosen == q.correct {
        "Right. "@ + q.explanation@
    } else {
        "Not quite. The answer is \""@ + q.options@[q.correct as int]@ + "\". "@ + q.explanation@
    }
}

/// How a person has done on one concept.
#[derive(Debug, Clone, Copy, PartialEq, Eq, Structural)]
pub struct Record {
    pub seen: u32,
    pub correct: u32,
}

impl Default for Record {
    fn default() -> (r: Self)
        ensures
            r == (Record { seen: 0, correct: 0 }),
    {
        Record { seen: 0, correct: 0 }
    }
}

/// Answered correctly every time, at least twice.
pub open spec fn solid(r: Record) -> bool {
    r.seen >= 2 && r.correct == r.seen
}

/// Missed at least half the time.
pub open spec fn weak(r: Record) -> bool {
    r.seen > 0 && r.correct * 2 <= r.seen
}

impl Record {
    /// Whether the concept looks understood.
    pub fn looks_solid(&self) -> (r: bool)
        ensures
            r == solid(*self),
    {
        self.seen >= 2 && self.correct == self.seen
    }

    /// Whether the concept is worth coming back to.
    pub fn needs_revisiting(&self) -> (r: bool)
        ensures
            r == weak(*self),
    {
        self.seen > 0 && (self.correct as u64) * 2 <= self.seen as u64
    }
}

/// Strict order of keys.
pub open spec fn key_lt(a: Seq<char>, b: Seq<char>) -> bool {
    text_le(a, b) && a != b
}

/// The concepts are in key order, each once: the iteration order of the
/// ordered map the profile is stored as.
pub open spec fn keys_ordered(es: Seq<(Seq<char>, Record)>) -> bool {
    forall|i: int, j: int| 0 <= i < j < es.len() ==> key_lt(#[trigger] es[i].0, #[trigger] es[j].0)
}

/// A record after one more attempt.
pub open spec fn bumped(r: Record, correct: bool) -> Record {
    Record { seen: (r.seen + 1) as u32, correct: (if correct { r.correct + 1 } else { r.correct as int }) as u32 }
}

/// The key a concept is recorded under: trimmed, then lowercased.
pub open spec fn concept_key(concept: Seq<char>) -> Seq<char> {
    crate::text::lowercase(crate::text::trim(concept))
}

/// Where `key` is in the entries, if it is.
pub open spec fn position(es: Seq<(Seq<char>, Record)>, key: Seq<char>) -> Option<int> {
    if exists|i: int| 0 <= i < es.len() && es[i].0 == key {
        Some(choose|i: int| 0 <= i < es.len() && es[i].0 == key)
    } else {
        None
    }
}

/// The record kept under `key`, if there is one.
pub open spec fn record_of(es: Seq<(Seq<char>, Record)>, key: Seq<char>) -> Option<Record> {
    match position(es, key) {
        Some(i) => Some(es[i].1),
        None => None,
    }
}

/// The record given last for `key` in a list of entries.
pub open spec fn last_record(es: Seq<(Seq<char>, Record)>, key: Seq<char>) -> Option<Record>
    decreases es.len(),
{
    if es.len() == 0 {
        None
    } else if es.last().0 == key {
        Some(es.last().1)
    } else {
        last_record(es.drop_last(), key)
    }
}

/// In ordered entries a key sits in one place, so its record is the one
/// found there.
proof fn lemma_record_at(es: Seq<(Seq<char>, Record)>, j: int)
    requires
        keys_ordered(es),
        0 <= j < es.len(),
    ensures
        record_of(es, es[j].0) == Some(es[j].1),
{
    let key = es[j].0;
    let c = choose|k: int| 0 <= k < es.len() && es[k].0 == key;
    if c != j {
        if c < j {
            assert(key_lt(es[c].0, es[j].0));
        } else {
            assert(key_lt(es[j].0, es[c].0));
        }
    }
}

/// After a record is put under `key`, by replacing the entry with that key
/// or by inserting one, `key` has that record and every other key keeps its
/// own.
proof fn lemma_set_record(
    before: Seq<(Seq<char>, Record)>,
    after: Seq<(Seq<char>, Record)>,
    key: Seq<char>,
    record: Record,
    k: Seq<char>,
)
    requires
        keys_ordered(before),
        keys_ordered(after),
        match position(before, key) {
            Some(i) => after == before.update(i, (key, record)),
            None => exists|p: int| 0 <= p <= before.len() && after == before.insert(p, (key, record)),
        },
    ensures
        record_of(after, k) == (if k == key {
            Some(record)
        } else {
            record_of(before, k)
        }),
{
    match position(before, key) {
        Some(i) => {
            assert(0 <= i < before.len() && before[i].0 == key);
            assert(after[i] == (key, record));
            lemma_record_at(after, i);
            if k != key {
                if exists|j: int| 0 <= j < before.len() && before[j].0 == k {
                    let j = choose|j: int| 0 <= j < before.len() && before[j].0 == k;
                    assert(j != i);
                    assert(after[j] == before[j]);
                    lemma_record_at(before, j);
                    lemma_record_at(after, j);
                } else {
                    assert forall|j: int| 0 <= j < after.len() implies after[j].0 != k by {
                        if j != i {
                            assert(after[j] == before[j]);
                        }
                    }
                }
            }
        },
        None => {
            let p = choose|p: int| 0 <= p <= before.len() && after == before.insert(p, (key, record));
            assert(after[p] == (key, record));
            lemma_record_at(after, p);
            if k != key {
                if exists|j: int| 0 <= j < before.len() && before[j].0 == k {
                    let j = choose|j: int| 0 <= j < before.len() && before[j].0 == k;
                    lemma_record_at(before, j);
                    if j < p {
                        assert(after[j] == before[j]);
                        lemma_record_at(after, j);
                    } else {
                        assert(after[j + 1] == before[j]);
                        lemma_record_at(after, j + 1);
                    }
                } else {
                    assert forall|j: int| 0 <= j < after.len() implies after[j].0 != k by {
                        if j < p {
                            assert(after[j] == before[j]);
                        } else if j > p {
                            assert(after[j] == before[j - 1]);
                        }
                    }
                }
            }
        },
    }
}

/// What a person has answered, concept by concept.
#[derive(Debug, Clone, PartialEq, Eq)]
pub struct Profile {
    concepts: Vec<(String, Record)>,
}

/// Entries as values.
pub open spec fn entries_view(v: Seq<(String, Record)>) -> Seq<(Seq<char>, Record)> {
    v.map_values(|e: (String, Record)| (e.0@, e.1))
}

/// How often a concept was answered wrongly.
pub open spec fn missed(r: Record) -> int {
    r.seen - r.correct
}

/// Inserting a weak spot after every entry that was missed no less often:
/// the step of a stable sort by missed answers, most-missed first.
pub open spec fn insert_by_missed(s: Seq<(Seq<char>, Record)>, e: (Seq<char>, Record)) -> Seq<
    (Seq<char>, Record),
>
    decreases s.len(),
{
    if s.len() == 0 {
        seq![e]
    } else if missed(s.last().1) >= missed(e.1) {
        s.push(e)
    } else {
        insert_by_missed(s.drop_last(), e).push(s.last())
    }
}

/// The weak spots among `es`, most-missed first; ties keep their order.
pub open spec fn weak_spots_of(es: Seq<(Seq<char>, Record)>) -> Seq<(Seq<char>, Record)>
    decreases es.len(),
{
    if es.len() == 0 {
        seq![]
    } else if weak(es.last().1) {
        insert_by_missed(weak_spots_of(es.drop_last()), es.last())
    } else {
        weak_spots_of(es.drop_last())
    }
}

/// The names of the first five weak spots, comma-separated.
pub open spec fn first_names(ws: Seq<(Seq<char>, Record)>) -> Seq<char> {
    let names = ws.take(if ws.len() > 5 { 5 } else { ws.len() as int }).map_values(
        |e: (Seq<char>, Record)| e.0,
    );
    crate::path::join_with(names, ", "@)
}

/// The prompt line about past difficulty, empty when there is none.
pub open spec fn learning_prompt(es: Seq<(Seq<char>, Record)>) -> Seq<char> {
    let ws = weak_spots_of(es);
    if ws.len() == 0 {
        seq![]
    } else {
        "\n\nThis user has previously answered questions about "@ + first_names(ws)
            + " incorrectly. If the change touches one of those, prefer it as the subject and explain it more fully."@
    }
}

impl Profile {
    /// The concepts, in key order.
    pub closed spec fn entries(&self) -> Seq<(Seq<char>, Record)> {
        entries_view(self.concepts@)
    }

    /// Keys are ordered and unique.
    pub closed spec fn wf(&self) -> bool {
        keys_ordered(self.entries())
    }

    /// A profile with no concepts.
    pub fn new() -> (r: Self)
        ensures
            r.wf(),
            r.entries().len() == 0,
    {
        let r = Profile { concepts: Vec::new() };
        proof {
            assert(r.entries() =~= seq![]);
        }
        r
    }

    /// A profile holding the given concepts, as read back from a file, kept in
    /// key order; a repeated concept keeps its last record.
    pub fn from_entries(entries: Vec<(String, Record)>) -> (r: Self)
        ensures
            r.wf(),
            forall|k: Seq<char>| #[trigger] record_of(r.entries(), k) == last_record(entries_view(entries@), k),
    {
        let ghost ev = entries_view(entries@);
        let mut p = Profile::new();
        let mut i: usize = 0;
        proof {
            assert(ev.take(0) =~= Seq::<(Seq<char>, Record)>::empty());
        }
        while i < entries.len()
            invariant
                i <= entries.len(),
                ev == entries_view(entries@),
                p.wf(),
                forall|k: Seq<char>| #[trigger] record_of(p.entries(), k) == last_record(ev.take(i as int), k),
            decreases entries.len() - i,
        {
            let key = crate::text::from_chars(&crate::text::to_chars(entries[i].0.as_str()));
            let record = entries[i].1;
            let ghost before = p.entries();
            let ghost kv = key@;
            p.set(key, record);
            proof {
                let after = p.entries();
                assert(ev.take(i + 1).drop_last() =~= ev.take(i as int));
                assert(ev.take(i + 1).last() == (kv, record));
                assert forall|k: Seq<char>| #[trigger] record_of(after, k) == last_record(ev.take(i + 1), k) by {
                    lemma_set_record(before, after, kv, record, k);
                }
            }
            i += 1;
        }
        proof {
            assert(ev.take(entries.len() as int) =~= ev);
        }
        p
    }

    /// Every concept with its record, in key order, as it is saved.
    pub fn concepts(&self) -> (r: &Vec<(String, Record)>)
        ensures
            entries_view(r@) == self.entries(),
    {
        &self.concepts
    }

    /// The record of a concept, looked up by its exact key.
    pub fn get(&self, concept: &str) -> (r: Option<Record>)
        requires
            self.wf(),
        ensures
            match position(self.entries(), concept@) {
                Some(i) => r == Some(self.entries()[i].1),
                None => r is None,
            },
    {
        let ghost es = self.entries();
        let mut i: usize = 0;
        while i < self.concepts.len()
            invariant
                i <= self.concepts.len(),
                es == self.entries(),
                keys_ordered(es),
                forall|j: int| 0 <= j < i ==> es[j].0 != concept@,
            decreases self.concepts.len() - i,
        {
            if crate::text::str_eq(self.concepts[i].0.as_str(), concept) {
                proof {
                    assert(es[i as int].0 == concept@);
                    let k = choose|k: int| 0 <= k < es.len() && es[k].0 == concept@;
                    if k != i {
                        if k < i {
                            assert(key_lt(es[k].0, es[i as int].0));
                        } else {
                            assert(key_lt(es[i as int].0, es[k].0));
                        }
                    }
                }
                return Some(self.concepts[i].1);
            }
            i += 1;
        }
        None
    }

    /// Puts `record` under `key`, replacing any record it had, keeping the
    /// key order.
    fn set(&mut self, key: String, record: Record)
        requires
            old(self).wf(),
        ensures
            final(self).wf(),
            match position(old(self).entries(), key@) {
                Some(i) => final(self).entries() == old(self).entries().update(i, (key@, record)),
                None => exists|p: int|
                    0 <= p <= old(self).entries().len() && final(self).entries() == old(
                        self,
                    ).entries().insert(p, (key@, record)),
            },
    {
        let ghost es = self.entries();
        let kv = crate::text::to_chars(key.as_str());
        let mut i: usize = 0;
        while i < self.concepts.len() && !crate::fs::text_le_exec(&kv, &crate::text::to_chars(self.concepts[i].0.as_str()))
            invariant
                i <= self.concepts.len(),
                es == self.entries(),
                kv@ == key@,
                keys_ordered(es),
                forall|j: int| 0 <= j < i ==> key_lt(#[trigger] es[j].0, key@),
            decreases self.concepts.len() - i,
        {
            proof {
                crate::fs::lemma_text_le_total_pub(kv@, es[i as int].0);
            }
            i += 1;
        }
        if i < self.concepts.len() && crate::text::str_eq(self.concepts[i].0.as_str(), key.as_str()) {
            proof {
                assert(es[i as int].0 == key@);
                assert(position(es, key@) == Some(i as int)) by {
                    let k = choose|k: int| 0 <= k < es.len() && es[k].0 == key@;
                    if k != i {
                        if k < i {
                            assert(key_lt(es[k].0, es[i as int].0));
                        } else {
                            assert(key_lt(es[i as int].0, es[k].0));
                        }
                    }
                }
            }
            self.concepts.set(i, (key, record));
            proof {
                assert(self.entries() =~= es.update(i as int, (key@, record)));
                assert forall|a: int, b: int| 0 <= a < b < self.entries().len() implies key_lt(
                    #[trigger] self.entries()[a].0,
                    #[trigger] self.entries()[b].0,
                ) by {
                    assert(self.entries()[a].0 == es[a].0);
                    assert(self.entries()[b].0 == es[b].0);
                }
            }
        } else {
            proof {
                assert(position(es, key@) is None) by {
                    if exists|k: int| 0 <= k < es.len() && es[k].0 == key@ {
                        let k = choose|k: int| 0 <= k < es.len() && es[k].0 == key@;
                        if k < i {
                            assert(key_lt(es[k].0, key@));
                        } else if k > i {
                            assert(text_le(key@, es[i as int].0));
                            assert(key_lt(es[i as int].0, es[k].0));
                            crate::fs::lemma_text_le_antisym(key@, es[i as int].0);
                            crate::fs::lemma_text_le_trans_pub(key@, es[i as int].0, es[k].0);
                            crate::fs::lemma_text_le_antisym(key@, es[k].0);
                        }
                    }
                }
                if i < es.len() {
                    assert(text_le(key@, es[i as int].0));
                    assert(key@ != es[i as int].0);
                }
            }
            self.concepts.insert(i, (key, record));
            proof {
                let ns = self.entries();
                assert(ns =~= es.insert(i as int, (key@, record)));
                assert forall|a: int, b: int| 0 <= a < b < ns.len() implies key_lt(
                    #[trigger] ns[a].0,
                    #[trigger] ns[b].0,
                ) by {
                    if a < i && b == i {
                    } else if a < i && b > i {
                        assert(ns[b] == es[b - 1]);
                        crate::fs::lemma_key_lt_trans(ns[a].0, key@, es[i as int].0);
                        if b - 1 > i {
                            crate::fs::lemma_key_lt_trans(ns[a].0, es[i as int].0, es[b - 1].0);
                        }
                    } else if a == i && b > i {
                        assert(ns[b] == es[b - 1]);
                        if b - 1 > i {
                            crate::fs::lemma_key_lt_trans(key@, es[i as int].0, es[b - 1].0);
                        }
                    } else if a > i {
                        assert(ns[a] == es[a - 1]);
                        assert(ns[b] == es[b - 1]);
                    } else {
                        assert(ns[a] == es[a]);
                        assert(ns[b] == es[b]);
                    }
                }
            }
        }
    }

    /// The path of the profile for a project root.
    pub fn path(root: &str) -> (r: String)
        ensures
            r@ == crate::path::join_path(root@, PROFILE_FILE@),
    {
        let rv = crate::text::to_chars(root);
        let fv = crate::text::to_chars(PROFILE_FILE);
        crate::text::from_chars(&crate::path::join_text(&rv, &fv))
    }
}


/// Inserts `e` into `v` as `insert_by_missed` does.
fn insert_weak(v: &mut Vec<(String, Record)>, e: (String, Record))
    ensures
        entries_view(final(v)@) == insert_by_missed(entries_view(old(v)@), (e.0@, e.1)),
{
    let ghost s = entries_view(v@);
    let ghost ev = (e.0@, e.1);
    let mut j: usize = v.len();
    proof {
        assert(s.take(s.len() as int) =~= s);
        assert(s.skip(s.len() as int) =~= seq![]);
    }
    while j > 0 && (v[j - 1].1.seen as i64 - v[j - 1].1.correct as i64) < (e.1.seen as i64 - e.1.correct as i64)
        invariant
            j <= v.len(),
            s == entries_view(v@),
            ev == (e.0@, e.1),
            insert_by_missed(s, ev) == insert_by_missed(s.take(j as int), ev) + s.skip(j as int),
        decreases j,
    {
        proof {
            assert(s.take(j as int).last() == s[j - 1]);
            assert(s.take(j as int).drop_last() =~= s.take(j - 1));
            assert(s.skip(j - 1) =~= seq![s[j - 1]] + s.skip(j as int));
            assert(insert_by_missed(s.take(j - 1), ev).push(s[j - 1]) + s.skip(j as int) =~= insert_by_missed(
                s.take(j - 1),
                ev,
            ) + s.skip(j - 1));
        }
        j -= 1;
    }
    proof {
        if j > 0 {
            assert(s.take(j as int).last() == s[j - 1]);
        } else {
            assert(s.take(0) =~= seq![]);
        }
        assert(insert_by_missed(s.take(j as int), ev) =~= s.take(j as int).push(ev));
    }
    v.insert(j, e);
    proof {
        assert(entries_view(v@) =~= s.take(j as int).push(ev) + s.skip(j as int));
    }
}

impl Profile {
    /// Whether one more answer about `concept` can still be counted: the
    /// counts of its record have not reached their limit.
    pub fn has_room(&self, concept: &str, correct: bool) -> (r: bool)
        requires
            self.wf(),
        ensures
            r == match position(self.entries(), concept_key(concept@)) {
                Some(i) => self.entries()[i].1.seen < u32::MAX && (correct ==> self.entries()[i].1.correct
                    < u32::MAX),
                None => true,
            },
    {
        let key = crate::text::to_lowercase(crate::text::trim_str(concept).as_str());
        match self.get(key.as_str()) {
            Some(record) => record.seen < u32::MAX && (!correct || record.correct < u32::MAX),
            None => true,
        }
    }

    /// Counts one more answer about `concept`. Case and surrounding spaces do
    /// not split one concept into two; no other concept changes.
    pub fn record(&mut self, concept: &str, correct: bool)
        requires
            old(self).wf(),
            match position(old(self).entries(), concept_key(concept@)) {
                Some(i) => old(self).entries()[i].1.seen < u32::MAX && (correct ==> old(
                    self,
                ).entries()[i].1.correct < u32::MAX),
                None => true,
            },
        ensures
            final(self).wf(),
            match position(old(self).entries(), concept_key(concept@)) {
                Some(i) => final(self).entries() == old(self).entries().update(
                    i,
                    (concept_key(concept@), bumped(old(self).entries()[i].1, correct)),
                ),
                None => exists|p: int|
                    0 <= p <= old(self).entries().len() && final(self).entries() == old(
                        self,
                    ).entries().insert(
                        p,
                        (concept_key(concept@), bumped(Record { seen: 0, correct: 0 }, correct)),
                    ),
            },
    {
        let key = crate::text::to_lowercase(crate::text::trim_str(concept).as_str());
        let current = match self.get(key.as_str()) {
            Some(r) => r,
            None => Record { seen: 0, correct: 0 },
        };
        let next = Record {
            seen: current.seen + 1,
            correct: if correct {
                current.correct + 1
            } else {
                current.correct
            },
        };
        self.set(key, next);
    }

    /// The concepts worth revisiting, the most missed first; among equals, in
    /// key order.
    pub fn weak_spots(&self) -> (r: Vec<(String, Record)>)
        ensures
            entries_view(r@) == weak_spots_of(self.entries()),
    {
        let ghost es = self.entries();
        let mut out: Vec<(String, Record)> = Vec::new();
        let mut i: usize = 0;
        proof {
            assert(es.take(0) =~= seq![]);
            assert(entries_view(out@) =~= seq![]);
        }
        while i < self.concepts.len()
            invariant
                i <= self.concepts.len(),
                es == self.entries(),
                entries_view(out@) == weak_spots_of(es.take(i as int)),
            decreases self.concepts.len() - i,
        {
            proof {
                assert(es.take(i + 1).drop_last() =~= es.take(i as int));
                assert(es.take(i + 1).last() == es[i as int]);
            }
            if self.concepts[i].1.needs_revisiting() {
                let name = crate::text::from_chars(&crate::text::to_chars(self.concepts[i].0.as_str()));
                insert_weak(&mut out, (name, self.concepts[i].1));
            }
            i += 1;
        }
        proof {
            assert(es.take(self.concepts.len() as int) =~= es);
        }
        out
    }

    /// A line for the prompt naming up to five concepts this person has
    /// struggled with; empty when there are none.
    pub fn prompt_section(&self) -> (r: String)
        ensures
            r@ == learning_prompt(self.entries()),
    {
        let weak = self.weak_spots();
        if weak.len() == 0 {
            return String::new();
        }
        let ghost ws = entries_view(weak@);
        let count: usize = if weak.len() > 5 {
            5
        } else {
            weak.len()
        };
        let ghost names = ws.take(count as int).map_values(|e: (Seq<char>, Record)| e.0);
        let mut out = String::from_str(
            "\n\nThis user has previously answered questions about ",
        );
        let ghost start = out@;
        let mut i: usize = 0;
        while i < count
            invariant
                i <= count <= weak.len(),
                count == (if weak.len() > 5 { 5 } else { weak.len() }),
                ws == entries_view(weak@),
                names == ws.take(count as int).map_values(|e: (Seq<char>, Record)| e.0),
                out@ == start + crate::path::join_with(names.take(i as int), ", "@),
            decreases count - i,
        {
            proof {
                assert(names.take(i + 1).drop_last() =~= names.take(i as int));
                assert(names[i as int] == weak@[i as int].0@);
            }
            if i > 0 {
                push_str(&mut out, ", ");
            }
            push_str(&mut out, weak[i].0.as_str());
            proof {
                if i == 0 {
                    assert(names.take(1) =~= seq![names[0]]);
                }
                assert(out@ =~= start + crate::path::join_with(names.take(i + 1), ", "@));
            }
            i += 1;
        }
        push_str(
            &mut out,
            " incorrectly. If the change touches one of those, prefer it as the subject and explain it more fully.",
        );
        proof {
            assert(names.take(count as int) =~= names);
        }
        out
    }
}

} // verus!

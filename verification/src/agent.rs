//! The decisions of the agent loop: when a run stops and why, what a turn
//! amounts to, and when the model is going round in circles.
use vstd::prelude::*;
use crate::message::{Content, Message, Role, StopReason, ToolCall, ToolResult, text_of};
use crate::text::{decimal, push_str};

verus! {

/// Most model turns in one run.
pub const MAX_TURNS: usize = 25;

/// Identical calls that count as a loop.
pub const LOOP_THRESHOLD: usize = 3;

/// The default system prompt.
pub const SYSTEM_PROMPT: &'static str = "You are true-code, a coding assistant working inside the user's project directory.

Use the tools to look at the real code before answering. Do not guess at file
contents, and do not describe code you have not read.

Two things matter more than being fast:

1. Say what you actually verified. If you did not check something, say so rather
   than implying you did.
2. Explain your reasoning briefly as you go, so the user understands the codebase
   better after your answer than before it.

You currently have read-only tools. You cannot modify files. If the user asks for
a change, explain precisely what you would change and why, and say that applying
it is not yet supported.";

/// Why a run ended.
#[derive(Debug, Clone, PartialEq, Eq)]
pub enum FinishReason {
    /// The model answered without asking for a tool.
    Completed,
    /// `MAX_TURNS` turns went by without an answer.
    TurnLimit,
    /// The session budget is spent.
    BudgetExhausted,
    /// The same call was repeated `LOOP_THRESHOLD` times.
    Loop { tool: String },
    /// The answer hit the output limit.
    OutputTruncated,
}

/// What the user is told about how a run ended.
pub open spec fn finish_text(r: FinishReason) -> Seq<char> {
    match r {
        FinishReason::Completed => "Done."@,
        FinishReason::TurnLimit => "Stopped after "@ + decimal(MAX_TURNS as nat)
            + " steps without finishing — the task is probably too broad. Try narrowing it to one file or one question."@,
        FinishReason::BudgetExhausted => "Stopped: the session budget is used up. Raise `budget.session_limit_usd` to continue."@,
        FinishReason::Loop { tool } => "Stopped: `"@ + tool@ + "` was called with identical arguments "@
            + decimal(LOOP_THRESHOLD as nat) + " times, which means no progress is being made."@,
        FinishReason::OutputTruncated => "The answer was cut off at the output limit — ask for a narrower scope."@,
    }
}

impl FinishReason {
    /// A sentence for the user, never empty.
    pub fn message(&self) -> (r: String)
        ensures
            r@ == finish_text(*self),
            r@.len() > 0,
    {
        let r = match self {
            FinishReason::Completed => String::from_str("Done."),
            FinishReason::TurnLimit => {
                let mut out = String::from_str("Stopped after ");
                push_str(&mut out, crate::text::usize_to_string(MAX_TURNS).as_str());
                push_str(
                    &mut out,
                    " steps without finishing — the task is probably too broad. Try narrowing it to one file or one question.",
                );
                out
            },
            FinishReason::BudgetExhausted => String::from_str(
                "Stopped: the session budget is used up. Raise `budget.session_limit_usd` to continue.",
            ),
            FinishReason::Loop { tool } => {
                let mut out = String::from_str("Stopped: `");
                push_str(&mut out, tool.as_str());
                push_str(&mut out, "` was called with identical arguments ");
                push_str(&mut out, crate::text::usize_to_string(LOOP_THRESHOLD).as_str());
                push_str(&mut out, " times, which means no progress is being made.");
                out
            },
            FinishReason::OutputTruncated => String::from_str(
                "The answer was cut off at the output limit — ask for a narrower scope.",
            ),
        };
        proof {
            reveal_strlit("Done.");
            reveal_strlit("Stopped after ");
            reveal_strlit("Stopped: the session budget is used up. Raise `budget.session_limit_usd` to continue.");
            reveal_strlit("Stopped: `");
            reveal_strlit("The answer was cut off at the output limit — ask for a narrower scope.");
        }
        r
    }
}

/// How a run ends after a turn that asked for no tool: cut off when the
/// model hit its output limit, finished otherwise.
pub open spec fn finish_without_calls(stop: StopReason) -> FinishReason {
    if stop == StopReason::MaxTokens {
        FinishReason::OutputTruncated
    } else {
        FinishReason::Completed
    }
}

/// The ending of a turn that asked for no tool.
pub fn finish_after_answer(stop: StopReason) -> (r: FinishReason)
    ensures
        r == finish_without_calls(stop),
{
    match stop {
        StopReason::MaxTokens => FinishReason::OutputTruncated,
        _ => FinishReason::Completed,
    }
}

// ---------------------------------------------------------------------------
// Loop detection
// ---------------------------------------------------------------------------

/// How often each distinct call was seen in a run.
pub struct LoopGuard {
    seen: Vec<(String, usize)>,
}

/// The count of `key` in a list of counts.
pub open spec fn count_of(seen: Seq<(Seq<char>, nat)>, key: Seq<char>) -> nat
    decreases seen.len(),
{
    if seen.len() == 0 {
        0
    } else if seen.last().0 == key {
        seen.last().1
    } else {
        count_of(seen.drop_last(), key)
    }
}

impl LoopGuard {
    /// The counts as values.
    pub closed spec fn counts(&self) -> Seq<(Seq<char>, nat)> {
        self.seen@.map_values(|e: (String, usize)| (e.0@, e.1 as nat))
    }

    /// Each call once, with a count no larger than the threshold.
    pub closed spec fn wf(&self) -> bool {
        &&& forall|i: int, j: int|
            0 <= i < j < self.seen@.len() ==> #[trigger] self.seen@[i].0@ != #[trigger] self.seen@[j].0@
        &&& forall|i: int| 0 <= i < self.seen@.len() ==> #[trigger] self.seen@[i].1 <= LOOP_THRESHOLD
    }

    /// How often `call` was seen.
    pub open spec fn times(&self, call: Seq<char>) -> nat {
        count_of(self.counts(), call)
    }

    /// A guard that has seen nothing.
    pub fn new() -> (r: Self)
        ensures
            r.wf(),
            forall|c: Seq<char>| r.times(c) == 0,
    {
        let r = LoopGuard { seen: Vec::new() };
        proof {
            assert(r.counts() =~= seq![]);
        }
        r
    }

    /// Counts one more occurrence of `call` (its name and arguments) and says
    /// whether it has now been seen `LOOP_THRESHOLD` times. No other call's
    /// count changes.
    pub fn observe(&mut self, call: &str) -> (tripped: bool)
        requires
            old(self).wf(),
            old(self).times(call@) < LOOP_THRESHOLD,
        ensures
            final(self).wf(),
            final(self).times(call@) == old(self).times(call@) + 1,
            forall|c: Seq<char>| c != call@ ==> final(self).times(c) == old(self).times(c),
            tripped == (final(self).times(call@) >= LOOP_THRESHOLD),
    {
        let ghost before = self.counts();
        let mut i: usize = 0;
        while i < self.seen.len() && !crate::text::str_eq(self.seen[i].0.as_str(), call)
            invariant
                i <= self.seen.len(),
                before == self.counts(),
                forall|j: int| 0 <= j < i ==> self.seen@[j].0@ != call@,
            decreases self.seen.len() - i,
        {
            i += 1;
        }
        proof {
            lemma_count_of_unique(self, call@, i as int);
        }
        if i < self.seen.len() {
            let n = self.seen[i].1 + 1;
            let key = crate::text::from_chars(&crate::text::to_chars(call));
            self.seen.set(i, (key, n));
            proof {
                assert(self.counts() =~= before.update(i as int, (call@, n as nat)));
                assert forall|j: int| 0 <= j < before.len() && j != i implies before[j].0 != call@ by {
                    assert(before[j].0 == old(self).seen@[j].0@);
                    assert(before[i as int].0 == old(self).seen@[i as int].0@);
                }
                lemma_count_of_update(before, i as int, call@, n as nat);
                assert forall|a: int, b: int| 0 <= a < b < self.seen@.len() implies #[trigger] self.seen@[a].0@
                    != #[trigger] self.seen@[b].0@ by {
                    assert(self.seen@[a].0@ == old(self).seen@[a].0@);
                    assert(self.seen@[b].0@ == old(self).seen@[b].0@);
                }
            }
            n >= LOOP_THRESHOLD
        } else {
            let key = crate::text::from_chars(&crate::text::to_chars(call));
            self.seen.push((key, 1));
            proof {
                assert(self.counts() =~= before.push((call@, 1nat)));
                assert(self.counts().drop_last() =~= before);
                assert forall|a: int, b: int| 0 <= a < b < self.seen@.len() implies #[trigger] self.seen@[a].0@
                    != #[trigger] self.seen@[b].0@ by {
                    assert(self.seen@[a].0@ == old(self).seen@[a].0@);
                    if b < old(self).seen@.len() {
                        assert(self.seen@[b].0@ == old(self).seen@[b].0@);
                    }
                }
            }
            1 >= LOOP_THRESHOLD
        }
    }
}

impl LoopGuard {
    /// Counts a tool call, recognised by its name and arguments, and says
    /// whether it has now been repeated `LOOP_THRESHOLD` times.
    pub fn observe_call(&mut self, call: &ToolCall) -> (tripped: bool)
        requires
            old(self).wf(),
            forall|c: Seq<char>| old(self).times(c) < LOOP_THRESHOLD,
        ensures
            final(self).wf(),
            final(self).times(key_of(call_view(*call))) == old(self).times(key_of(call_view(*call))) + 1,
            forall|c: Seq<char>|
                c != key_of(call_view(*call)) ==> final(self).times(c) == old(self).times(c),
            tripped == (final(self).times(key_of(call_view(*call))) >= LOOP_THRESHOLD),
    {
        let key = fingerprint(call);
        self.observe(key.as_str())
    }
}

/// Where `call` sits in a well-formed guard, its count is the one found there;
/// where it sits nowhere, its count is zero.
proof fn lemma_count_of_unique(g: &LoopGuard, call: Seq<char>, i: int)
    requires
        g.wf(),
        0 <= i <= g.seen@.len(),
        forall|j: int| 0 <= j < i ==> g.seen@[j].0@ != call,
        i < g.seen@.len() ==> g.seen@[i].0@ == call,
    ensures
        i < g.seen@.len() ==> g.times(call) == g.seen@[i].1,
        i == g.seen@.len() ==> g.times(call) == 0,
{
    let cs = g.counts();
    assert forall|k: int| 0 <= k <= cs.len() implies (count_of(cs.take(k), call) == if i < k {
        g.seen@[i].1 as nat
    } else {
        0nat
    }) by {
        lemma_count_prefix(g, call, i, k);
    }
    assert(cs.take(cs.len() as int) =~= cs);
}

proof fn lemma_count_prefix(g: &LoopGuard, call: Seq<char>, i: int, k: int)
    requires
        g.wf(),
        0 <= i <= g.seen@.len(),
        forall|j: int| 0 <= j < i ==> g.seen@[j].0@ != call,
        i < g.seen@.len() ==> g.seen@[i].0@ == call,
        0 <= k <= g.counts().len(),
    ensures
        count_of(g.counts().take(k), call) == if i < k {
            g.seen@[i].1 as nat
        } else {
            0nat
        },
    decreases k,
{
    let cs = g.counts();
    if k > 0 {
        lemma_count_prefix(g, call, i, k - 1);
        assert(cs.take(k).drop_last() =~= cs.take(k - 1));
        assert(cs.take(k).last() == cs[k - 1]);
        assert(cs[k - 1] == (g.seen@[k - 1].0@, g.seen@[k - 1].1 as nat));
        if k - 1 > i && i < g.seen@.len() {
            assert(g.seen@[i].0@ != g.seen@[k - 1].0@);
        }
    } else {
        assert(cs.take(0) =~= seq![]);
    }
}

proof fn lemma_count_of_update(s: Seq<(Seq<char>, nat)>, i: int, key: Seq<char>, n: nat)
    requires
        0 <= i < s.len(),
        s[i].0 == key,
        forall|j: int| 0 <= j < s.len() && j != i ==> s[j].0 != key,
    ensures
        count_of(s.update(i, (key, n)), key) == n,
        forall|c: Seq<char>| c != key ==> count_of(s.update(i, (key, n)), c) == count_of(s, c),
    decreases s.len(),
{
    let u = s.update(i, (key, n));
    if i < s.len() - 1 {
        lemma_count_of_update(s.drop_last(), i, key, n);
        assert(u.drop_last() =~= s.drop_last().update(i, (key, n)));
        assert(u.last() == s.last());
        assert(s.last().0 != key);
        assert forall|c: Seq<char>| c != key implies count_of(u, c) == count_of(s, c) by {
            if s.last().0 != c {
                assert(count_of(u, c) == count_of(u.drop_last(), c));
                assert(count_of(s, c) == count_of(s.drop_last(), c));
            }
        }
    } else {
        assert(u.drop_last() =~= s.drop_last());
        assert(u.last() == (key, n));
        assert forall|c: Seq<char>| c != key implies count_of(u, c) == count_of(s, c) by {
            assert(count_of(u, c) == count_of(u.drop_last(), c));
            assert(count_of(s, c) == count_of(s.drop_last(), c));
        }
    }
}

// ---------------------------------------------------------------------------
// Turns
// ---------------------------------------------------------------------------

/// A block of a turn as a value.
pub enum BlockView {
    Text(Seq<char>),
    Call(ToolCall),
    Result(ToolResult),
}

/// The value of a block.
pub open spec fn block_view(c: Content) -> BlockView {
    match c {
        Content::Text { text } => BlockView::Text(text@),
        Content::ToolCall(call) => BlockView::Call(call),
        Content::ToolResult(r) => BlockView::Result(r),
    }
}

/// The values of blocks.
pub open spec fn blocks_view(cs: Seq<Content>) -> Seq<BlockView> {
    cs.map_values(|c: Content| block_view(c))
}

/// Adjacent text blocks merged into one, everything else left in order.
pub open spec fn coalesced(bs: Seq<BlockView>) -> Seq<BlockView>
    decreases bs.len(),
{
    if bs.len() == 0 {
        seq![]
    } else {
        let m = coalesced(bs.drop_last());
        match (bs.last(), if m.len() > 0 { Some(m.last()) } else { None }) {
            (BlockView::Text(b), Some(BlockView::Text(a))) => m.update(m.len() - 1, BlockView::Text(a + b)),
            _ => m.push(bs.last()),
        }
    }
}

/// All text, concatenated.
pub open spec fn all_text(bs: Seq<BlockView>) -> Seq<char>
    decreases bs.len(),
{
    if bs.len() == 0 {
        seq![]
    } else {
        all_text(bs.drop_last()) + match bs.last() {
            BlockView::Text(t) => t,
            _ => seq![],
        }
    }
}

/// Every block that is not text, in order.
pub open spec fn non_text(bs: Seq<BlockView>) -> Seq<BlockView>
    decreases bs.len(),
{
    if bs.len() == 0 {
        seq![]
    } else {
        match bs.last() {
            BlockView::Text(_) => non_text(bs.drop_last()),
            b => non_text(bs.drop_last()).push(b),
        }
    }
}

/// No two text blocks are next to each other.
pub open spec fn no_adjacent_text(bs: Seq<BlockView>) -> bool {
    forall|i: int| 0 <= i < bs.len() - 1 ==> !(#[trigger] bs[i] is Text && bs[i + 1] is Text)
}

/// Merging keeps all text, keeps every other block in its order, and leaves
/// no two text blocks side by side.
pub proof fn lemma_coalesced(bs: Seq<BlockView>)
    ensures
        all_text(coalesced(bs)) == all_text(bs),
        non_text(coalesced(bs)) == non_text(bs),
        no_adjacent_text(coalesced(bs)),
    decreases bs.len(),
{
    if bs.len() > 0 {
        lemma_coalesced(bs.drop_last());
        let m = coalesced(bs.drop_last());
        let c = coalesced(bs);
        match (bs.last(), if m.len() > 0 { Some(m.last()) } else { None }) {
            (BlockView::Text(b), Some(BlockView::Text(a))) => {
                assert(c.drop_last() =~= m.drop_last());
                assert(m =~= m.drop_last().push(m.last()));
                assert(all_text(m) == all_text(m.drop_last()) + a);
                assert(all_text(c) == all_text(m.drop_last()) + (a + b));
                assert(all_text(c) =~= all_text(m) + b);
                assert(non_text(c) == non_text(m.drop_last()));
                assert(non_text(m) == non_text(m.drop_last()));
                assert forall|i: int| 0 <= i < c.len() - 1 implies !(#[trigger] c[i] is Text && c[i
                    + 1] is Text) by {
                    assert(c[i] == m[i]);
                    if i + 1 < c.len() - 1 {
                        assert(c[i + 1] == m[i + 1]);
                    } else {
                        assert(m[i + 1] is Text);
                    }
                }
            },
            _ => {
                assert(c.drop_last() =~= m);
                assert forall|i: int| 0 <= i < c.len() - 1 implies !(#[trigger] c[i] is Text && c[i
                    + 1] is Text) by {
                    assert(c[i] == m[i]);
                    if i + 1 < c.len() - 1 {
                        assert(c[i + 1] == m[i + 1]);
                    }
                }
            },
        }
    }
}

/// What a model turn produced.
#[derive(Debug)]
pub struct Turn {
    /// The blocks, in the order they streamed in.
    pub content: Vec<Content>,
    /// The text of the turn, concatenated.
    pub text: String,
    /// Why the model stopped.
    pub stop_reason: StopReason,
}

/// The tool calls among blocks, in order.
pub open spec fn calls_in(bs: Seq<BlockView>) -> Seq<ToolCall>
    decreases bs.len(),
{
    if bs.len() == 0 {
        seq![]
    } else {
        match bs.last() {
            BlockView::Call(c) => calls_in(bs.drop_last()).push(c),
            _ => calls_in(bs.drop_last()),
        }
    }
}

/// A tool call as values.
pub open spec fn call_view(c: ToolCall) -> (Seq<char>, Seq<char>, serde_json::Value) {
    (c.id@, c.name@, c.input)
}

/// Tool calls as values.
pub open spec fn calls_view(cs: Seq<ToolCall>) -> Seq<(Seq<char>, Seq<char>, serde_json::Value)> {
    cs.map_values(|c: ToolCall| call_view(c))
}

/// A copy of a tool call.
pub fn copy_call(c: &ToolCall) -> (r: ToolCall)
    ensures
        call_view(r) == call_view(*c),
{
    ToolCall { id: c.id.clone(), name: c.name.clone(), input: c.input.clone() }
}

impl Turn {
    /// An empty turn.
    pub fn new() -> (r: Self)
        ensures
            r.content@.len() == 0,
            r.text@.len() == 0,
            r.stop_reason == StopReason::EndTurn,
    {
        Turn { content: Vec::new(), text: String::new(), stop_reason: StopReason::EndTurn }
    }

    /// Adds streamed text.
    pub fn push_text(&mut self, text: String)
        ensures
            final(self).text@ == old(self).text@ + text@,
            blocks_view(final(self).content@) == blocks_view(old(self).content@).push(
                BlockView::Text(text@),
            ),
            final(self).stop_reason == old(self).stop_reason,
    {
        push_str(&mut self.text, text.as_str());
        let ghost before = self.content@;
        self.content.push(Content::Text { text });
        proof {
            assert(blocks_view(self.content@) =~= blocks_view(before).push(block_view(
                self.content@.last(),
            )));
        }
    }

    /// Adds a tool call.
    pub fn push_call(&mut self, call: ToolCall)
        ensures
            final(self).text@ == old(self).text@,
            blocks_view(final(self).content@) == blocks_view(old(self).content@).push(
                BlockView::Call(call),
            ),
            final(self).stop_reason == old(self).stop_reason,
    {
        let ghost before = self.content@;
        self.content.push(Content::ToolCall(call));
        proof {
            assert(blocks_view(self.content@) =~= blocks_view(before).push(BlockView::Call(call)));
        }
    }

    /// The tool calls, in order.
    pub fn tool_calls(&self) -> (r: Vec<ToolCall>)
        ensures
            calls_view(r@) == calls_view(calls_in(blocks_view(self.content@))),
    {
        let ghost bv = blocks_view(self.content@);
        let mut out: Vec<ToolCall> = Vec::new();
        let mut i: usize = 0;
        proof {
            assert(bv.take(0) =~= seq![]);
        }
        while i < self.content.len()
            invariant
                i <= self.content.len(),
                bv == blocks_view(self.content@),
                calls_view(out@) == calls_view(calls_in(bv.take(i as int))),
            decreases self.content.len() - i,
        {
            proof {
                assert(bv.take(i + 1).drop_last() =~= bv.take(i as int));
                assert(bv.take(i + 1).last() == block_view(self.content@[i as int]));
            }
            match &self.content[i] {
                Content::ToolCall(call) => {
                    let ghost before = calls_view(out@);
                    out.push(copy_call(call));
                    proof {
                        assert(calls_view(out@) =~= before.push(call_view(*call)));
                        assert(calls_view(calls_in(bv.take(i + 1))) =~= calls_view(
                            calls_in(bv.take(i as int)),
                        ).push(call_view(*call)));
                    }
                },
                _ => {},
            }
            i += 1;
        }
        proof {
            assert(bv.take(self.content.len() as int) =~= bv);
        }
        out
    }

    /// Merges adjacent text blocks, keeping everything else in order.
    pub fn coalesce_text(&mut self)
        ensures
            blocks_view(final(self).content@) == coalesced(blocks_view(old(self).content@)),
            final(self).text@ == old(self).text@,
            final(self).stop_reason == old(self).stop_reason,
    {
        let ghost bv = blocks_view(self.content@);
        let n = self.content.len();
        let mut rest: Vec<Content> = Vec::new();
        std::mem::swap(&mut rest, &mut self.content);
        let mut merged: Vec<Content> = Vec::new();
        let mut i: usize = 0;
        proof {
            assert(bv.take(0) =~= seq![]);
            assert(blocks_view(merged@) =~= seq![]);
            assert(rest@.skip(0) =~= rest@);
        }
        let ghost orig = rest@;
        while rest.len() > 0
            invariant
                i <= n,
                orig.len() == n,
                bv == blocks_view(orig),
                rest@ == orig.skip(i as int),
                blocks_view(merged@) == coalesced(bv.take(i as int)),
            decreases rest.len(),
        {
            let block = rest.remove(0);
            proof {
                assert(block == orig[i as int]);
                assert(rest@ =~= orig.skip(i + 1));
                assert(bv.take(i + 1).drop_last() =~= bv.take(i as int));
                assert(bv.take(i + 1).last() == block_view(block));
            }
            let ghost before = blocks_view(merged@);
            let last_is_text = merged.len() > 0 && match &merged[merged.len() - 1] {
                Content::Text { .. } => true,
                _ => false,
            };
            match block {
                Content::Text { text } => {
                    if last_is_text {
                        let last = merged.pop().unwrap();
                        match last {
                            Content::Text { text: existing } => {
                                let mut joined = existing;
                                push_str(&mut joined, text.as_str());
                                merged.push(Content::Text { text: joined });
                            },
                            other => {
                                merged.push(other);
                            },
                        }
                        proof {
                            assert(blocks_view(merged@) =~= before.update(
                                before.len() - 1,
                                BlockView::Text(before.last()->Text_0 + text@),
                            ));
                        }
                    } else {
                        merged.push(Content::Text { text });
                        proof {
                            assert(blocks_view(merged@) =~= before.push(BlockView::Text(text@)));
                        }
                    }
                },
                other => {
                    merged.push(other);
                    proof {
                        assert(blocks_view(merged@) =~= before.push(block_view(other)));
                    }
                },
            }
            i += 1;
        }
        proof {
            assert(bv.take(n as int) =~= bv);
        }
        self.content = merged;
    }
}

// ---------------------------------------------------------------------------
// Summaries of tool arguments
// ---------------------------------------------------------------------------
// The run loop's decisions
// ---------------------------------------------------------------------------

/// How often `key` occurs in `keys`.
pub open spec fn occurrences(keys: Seq<Seq<char>>, key: Seq<char>) -> nat
    decreases keys.len(),
{
    if keys.len() == 0 {
        0
    } else {
        occurrences(keys.drop_last(), key) + if keys.last() == key {
            1nat
        } else {
            0nat
        }
    }
}

/// The loop keys of a turn's calls, in order.
pub open spec fn keys_of(calls: Seq<(Seq<char>, Seq<char>, serde_json::Value)>) -> Seq<Seq<char>> {
    calls.map_values(|c: (Seq<char>, Seq<char>, serde_json::Value)| key_of(c))
}

/// What the loop does after a turn.
#[derive(Debug)]
pub enum Step {
    /// Run these calls, then take another turn.
    RunTools(Vec<ToolCall>),
    /// End the run.
    Finish(FinishReason),
}

/// Where a run stands between turns: how many turns it took, and how often
/// each distinct call was made.
pub struct RunState {
    turns: usize,
    guard: LoopGuard,
}

impl RunState {
    /// Turns taken so far.
    pub closed spec fn turns_taken(&self) -> nat {
        self.turns as nat
    }

    /// How often the call recognised by `key` was made in this run.
    pub closed spec fn times(&self, key: Seq<char>) -> nat {
        self.guard.times(key)
    }

    /// No more turns than allowed, and no call repeated enough to count as a
    /// loop.
    pub closed spec fn wf(&self) -> bool {
        &&& self.guard.wf()
        &&& self.turns <= MAX_TURNS
        &&& forall|c: Seq<char>| self.guard.times(c) < LOOP_THRESHOLD
    }

    /// A run that has taken no turn.
    pub fn new() -> (r: Self)
        ensures
            r.wf(),
            r.turns_taken() == 0,
            forall|c: Seq<char>| r.times(c) == 0,
    {
        RunState { turns: 0, guard: LoopGuard::new() }
    }

    /// Whether the run stops before its next turn: after `MAX_TURNS` turns,
    /// or when the session budget is spent.
    pub fn before_turn(&self, budget_spent: bool) -> (r: Option<FinishReason>)
        ensures
            r == (if self.turns_taken() >= MAX_TURNS {
                Some(FinishReason::TurnLimit)
            } else if budget_spent {
                Some(FinishReason::BudgetExhausted)
            } else {
                None
            }),
    {
        if self.turns >= MAX_TURNS {
            Some(FinishReason::TurnLimit)
        } else if budget_spent {
            Some(FinishReason::BudgetExhausted)
        } else {
            None
        }
    }

    /// What follows a turn. A turn that asked for no tool ends the run. Else
    /// each call is counted in order; the first whose count reaches
    /// `LOOP_THRESHOLD` ends the run naming its tool, and when none does the
    /// calls are to be run.
    pub fn after_turn(&mut self, turn: &Turn) -> (r: Step)
        requires
            old(self).wf(),
            old(self).turns_taken() < MAX_TURNS,
        ensures
            final(self).turns_taken() == old(self).turns_taken() + 1,
            ({
                let calls = calls_view(calls_in(blocks_view(turn.content@)));
                let keys = keys_of(calls);
                &&& calls.len() == 0 ==> r == Step::Finish(finish_without_calls(turn.stop_reason))
                    && final(self).wf()
                &&& (calls.len() > 0 && forall|j: int|
                    0 <= j < keys.len() ==> old(self).times(#[trigger] keys[j]) + occurrences(
                        keys.take(j + 1),
                        keys[j],
                    ) < LOOP_THRESHOLD) ==> {
                    &&& r matches Step::RunTools(cs) && calls_view(cs@) == calls
                    &&& final(self).wf()
                    &&& forall|c: Seq<char>|
                        #[trigger] final(self).times(c) == old(self).times(c) + occurrences(keys, c)
                }
                &&& (calls.len() > 0 && !(forall|j: int|
                    0 <= j < keys.len() ==> old(self).times(#[trigger] keys[j]) + occurrences(
                        keys.take(j + 1),
                        keys[j],
                    ) < LOOP_THRESHOLD)) ==> exists|i: int|
                    #![trigger keys[i]]
                    0 <= i < keys.len() && (r matches Step::Finish(FinishReason::Loop { tool }) && tool@ == calls[i].1)
                        && old(self).times(keys[i]) + occurrences(keys.take(i + 1), keys[i])
                        >= LOOP_THRESHOLD && forall|j: int|
                        0 <= j < i ==> old(self).times(#[trigger] keys[j]) + occurrences(
                            keys.take(j + 1),
                            keys[j],
                        ) < LOOP_THRESHOLD
            }),
    {
        self.turns = self.turns + 1;
        let ghost taken = self.turns;
        let calls = turn.tool_calls();
        let ghost cv = calls_view(calls_in(blocks_view(turn.content@)));
        let ghost keys = keys_of(cv);
        let ghost start = self.guard;
        if calls.len() == 0 {
            return Step::Finish(finish_after_answer(turn.stop_reason));
        }
        let mut i: usize = 0;
        proof {
            assert(calls_view(calls@).len() == calls@.len());
            assert(keys.take(0) =~= Seq::<Seq<char>>::empty());
        }
        while i < calls.len()
            invariant
                i <= calls.len(),
                calls_view(calls@) == cv,
                keys == keys_of(cv),
                cv.len() == calls.len(),
                self.guard.wf(),
                self.turns <= MAX_TURNS,
                self.turns == taken,
                taken == old(self).turns + 1,
                start == old(self).guard,
                cv == calls_view(calls_in(blocks_view(turn.content@))),
                forall|c: Seq<char>| self.guard.times(c) < LOOP_THRESHOLD,
                forall|c: Seq<char>|
                    #[trigger] self.guard.times(c) == start.times(c) + occurrences(keys.take(i as int), c),
                forall|j: int|
                    0 <= j < i ==> start.times(#[trigger] keys[j]) + occurrences(
                        keys.take(j + 1),
                        keys[j],
                    ) < LOOP_THRESHOLD,
            decreases calls.len() - i,
        {
            let ghost before = self.guard;
            proof {
                assert(keys[i as int] == key_of(call_view(calls@[i as int])));
                assert(keys.take(i + 1).drop_last() =~= keys.take(i as int));
                assert(keys.take(i + 1).last() == keys[i as int]);
            }
            let tripped = self.guard.observe_call(&calls[i]);
            if tripped {
                let tool = calls[i].name.clone();
                proof {
                    assert(self.guard.times(keys[i as int]) == start.times(keys[i as int])
                        + occurrences(keys.take(i + 1), keys[i as int]));
                    assert(tool@ == cv[i as int].1);
                    assert(start.times(keys[i as int]) + occurrences(keys.take(i + 1), keys[i as int])
                        >= LOOP_THRESHOLD);
                }
                return Step::Finish(FinishReason::Loop { tool });
            }
            proof {
                assert forall|c: Seq<char>|
                    #[trigger] self.guard.times(c) == start.times(c) + occurrences(
                        keys.take(i + 1),
                        c,
                    ) by {
                    if c == keys[i as int] {
                    } else {
                        assert(before.times(c) == start.times(c) + occurrences(keys.take(i as int), c));
                    }
                }
                assert(self.guard.times(keys[i as int]) == start.times(keys[i as int]) + occurrences(
                    keys.take(i + 1),
                    keys[i as int],
                ));
            }
            i += 1;
        }
        proof {
            assert(keys.take(calls.len() as int) =~= keys);
        }
        Step::RunTools(calls)
    }
}

// ---------------------------------------------------------------------------

/// The entries of a JSON object in `serde_json`'s order, as
/// `serde_json::Value::as_object` and its iteration give them, or `None`
/// when the value is not an object.
pub uninterp spec fn object_entries_of(v: serde_json::Value) -> Option<Seq<(Seq<char>, serde_json::Value)>>;

/// The text of a JSON string, as `serde_json::Value::as_str` gives it, or
/// `None` when the value is not a string.
pub uninterp spec fn str_value_of(v: serde_json::Value) -> Option<Seq<char>>;

/// A value as a summary shows it: a string without its quotes, anything else
/// as its JSON text.
pub open spec fn shown_value(v: serde_json::Value) -> Seq<char> {
    match str_value_of(v) {
        Some(t) => t,
        None => json_text(v),
    }
}

/// The fields of a JSON object, each key with its value as shown, or `None`
/// when the value is not an object.
pub open spec fn object_fields_of(v: serde_json::Value) -> Option<Seq<(Seq<char>, Seq<char>)>> {
    match object_entries_of(v) {
        Some(es) => Some(
            es.map_values(|e: (Seq<char>, serde_json::Value)| (e.0, shown_value(e.1))),
        ),
        None => None,
    }
}

/// Fields as values.
pub open spec fn fields_view(fields: Seq<(String, String)>) -> Seq<(Seq<char>, Seq<char>)> {
    fields.map_values(|f: (String, String)| (f.0@, f.1@))
}

/// Entries as values.
pub open spec fn json_entries_view(es: Seq<(String, serde_json::Value)>) -> Seq<(Seq<char>, serde_json::Value)> {
    es.map_values(|e: (String, serde_json::Value)| (e.0@, e.1))
}

/// `serde_json::Value::as_object`, its entries copied out in the map's order.
#[verifier::external_body]
fn object_entries(input: &serde_json::Value) -> (r: Option<Vec<(String, serde_json::Value)>>)
    ensures
        match r {
            Some(es) => object_entries_of(*input) == Some(json_entries_view(es@)),
            None => object_entries_of(*input) is None,
        },
{
    Some(input.as_object()?.iter().map(|(key, value)| (key.clone(), value.clone())).collect())
}

/// `serde_json::Value::as_str`, copied out.
#[verifier::external_body]
fn str_value(v: &serde_json::Value) -> (r: Option<String>)
    ensures
        match r {
            Some(t) => str_value_of(*v) == Some(t@),
            None => str_value_of(*v) is None,
        },
{
    v.as_str().map(str::to_owned)
}

/// The fields of a JSON object argument, each value as a summary shows it.
fn object_fields(input: &serde_json::Value) -> (r: Option<Vec<(String, String)>>)
    ensures
        match r {
            Some(fields) => object_fields_of(*input) == Some(fields_view(fields@)),
            None => object_fields_of(*input) is None,
        },
{
    let entries = match object_entries(input) {
        Some(es) => es,
        None => {
            return None;
        },
    };
    let ghost ev = json_entries_view(entries@);
    let mut out: Vec<(String, String)> = Vec::new();
    let mut i: usize = 0;
    while i < entries.len()
        invariant
            i <= entries.len(),
            ev == json_entries_view(entries@),
            fields_view(out@) == ev.take(i as int).map_values(
                |e: (Seq<char>, serde_json::Value)| (e.0, shown_value(e.1)),
            ),
        decreases entries.len() - i,
    {
        let value = &entries[i].1;
        let text = match str_value(value) {
            Some(t) => t,
            None => json_string(value),
        };
        let ghost before = out@;
        out.push((entries[i].0.clone(), text));
        proof {
            assert(ev.take(i + 1) =~= ev.take(i as int).push(ev[i as int]));
            assert(fields_view(out@) =~= fields_view(before).push((entries@[i as int].0@, text@)));
            assert(fields_view(out@) =~= ev.take(i + 1).map_values(
                |e: (Seq<char>, serde_json::Value)| (e.0, shown_value(e.1)),
            ));
        }
        i += 1;
    }
    proof {
        assert(ev.take(entries.len() as int) =~= ev);
    }
    Some(out)
}

/// Fields shown as `key=value`, separated by spaces.
pub open spec fn fields_line(fields: Seq<(Seq<char>, Seq<char>)>) -> Seq<char> {
    crate::path::join_with(
        fields.map_values(|f: (Seq<char>, Seq<char>)| f.0 + "="@ + f.1),
        " "@,
    )
}

/// A one-line summary of fields.
pub fn summarise_fields(fields: &Vec<(String, String)>) -> (r: String)
    ensures
        r@ == fields_line(fields@.map_values(|f: (String, String)| (f.0@, f.1@))),
{
    let ghost fv = fields@.map_values(|f: (String, String)| (f.0@, f.1@));
    let ghost parts = fv.map_values(|f: (Seq<char>, Seq<char>)| f.0 + "="@ + f.1);
    let mut out = String::new();
    let mut i: usize = 0;
    proof {
        assert(parts.take(0) =~= seq![]);
    }
    while i < fields.len()
        invariant
            i <= fields.len(),
            fv == fields@.map_values(|f: (String, String)| (f.0@, f.1@)),
            parts == fv.map_values(|f: (Seq<char>, Seq<char>)| f.0 + "="@ + f.1),
            out@ == crate::path::join_with(parts.take(i as int), " "@),
        decreases fields.len() - i,
    {
        proof {
            assert(parts.take(i + 1).drop_last() =~= parts.take(i as int));
            assert(parts[i as int] == fields@[i as int].0@ + "="@ + fields@[i as int].1@);
        }
        if i > 0 {
            push_str(&mut out, " ");
        }
        push_str(&mut out, fields[i].0.as_str());
        push_str(&mut out, "=");
        push_str(&mut out, fields[i].1.as_str());
        proof {
            if i == 0 {
                assert(parts.take(1) =~= seq![parts[0]]);
            }
            assert(out@ =~= crate::path::join_with(parts.take(i + 1), " "@));
        }
        i += 1;
    }
    proof {
        assert(parts.take(fields.len() as int) =~= parts);
    }
    out
}

/// A one-line summary of a tool's arguments: `key=value` for each field of an
/// object, nothing for anything else.
pub fn summarise(input: &serde_json::Value) -> (r: String)
    ensures
        r@ == match object_fields_of(*input) {
            Some(fields) => fields_line(fields),
            None => Seq::<char>::empty(),
        },
{
    match object_fields(input) {
        Some(fields) => summarise_fields(&fields),
        None => String::new(),
    }
}

/// The compact JSON text that `serde_json` writes for a value (its
/// `Display`).
pub uninterp spec fn json_text(v: serde_json::Value) -> Seq<char>;

/// A JSON value as `serde_json` writes it, through `ToString` (its
/// `Display`).
#[verifier::external_body]
pub(crate) fn json_string(v: &serde_json::Value) -> (r: String)
    ensures
        r@ == json_text(*v),
{
    v.to_string()
}

/// What a call is recognised by when checking for loops: its name, a colon,
/// and its arguments as JSON.
pub open spec fn key_of(c: (Seq<char>, Seq<char>, serde_json::Value)) -> Seq<char> {
    c.1 + ":"@ + json_text(c.2)
}

/// The text a tool call is recognised by when checking for loops: its name
/// and its arguments as JSON text.
fn fingerprint(call: &ToolCall) -> (r: String)
    ensures
        r@ == call.name@ + ":"@ + json_text(call.input),
{
    let mut out = String::new();
    push_str(&mut out, call.name.as_str());
    push_str(&mut out, ":");
    push_str(&mut out, json_string(&call.input).as_str());
    proof {
        reveal_strlit(":");
    }
    out
}

// ---------------------------------------------------------------------------
// Handing a conversation over
// ---------------------------------------------------------------------------

/// The heading a speaker gets in a handoff.
pub open spec fn speaker(role: Role) -> Seq<char> {
    match role {
        Role::System => "system"@,
        Role::User => "user"@,
        Role::Assistant => "assistant"@,
    }
}

/// The conversation as text: each message under a heading naming who spoke,
/// with its text blocks joined and everything else left out.
pub open spec fn handoff_text(messages: Seq<Message>) -> Seq<char>
    decreases messages.len(),
{
    if messages.len() == 0 {
        seq![]
    } else {
        handoff_text(messages.drop_last()) + "## "@ + speaker(messages.last().role) + "\n\n"@
            + text_of(messages.last().content@) + "\n"@
    }
}

/// The conversation so far, as text, for handing over to another tool.
pub fn handoff(messages: &Vec<Message>) -> (r: String)
    ensures
        r@ == handoff_text(messages@),
{
    let mut out = String::new();
    let mut i: usize = 0;
    proof {
        assert(messages@.take(0) =~= seq![]);
    }
    while i < messages.len()
        invariant
            i <= messages.len(),
            out@ == handoff_text(messages@.take(i as int)),
        decreases messages.len() - i,
    {
        proof {
            assert(messages@.take(i + 1).drop_last() =~= messages@.take(i as int));
        }
        let m = &messages[i];
        push_str(&mut out, "## ");
        match m.role {
            Role::System => push_str(&mut out, "system"),
            Role::User => push_str(&mut out, "user"),
            Role::Assistant => push_str(&mut out, "assistant"),
        }
        push_str(&mut out, "\n\n");
        push_str(&mut out, m.text_content().as_str());
        push_str(&mut out, "\n");
        i += 1;
    }
    proof {
        assert(messages@.take(messages.len() as int) =~= messages@);
    }
    out
}

} // verus!

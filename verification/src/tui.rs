//! The state behind the terminal interface, and the labels it shows.
//!
//! Nothing here draws: the terminal reads this state and never owns it, so the
//! editing and the turn bookkeeping are specified without a screen.
use vstd::prelude::*;
use crate::approval::Decision;
use crate::message::{Delta, Role, StopReason, Usage, usage_sum, zero_usage};
use crate::text::{decimal, from_chars, push_str, to_chars, trim, trim_str, u64_decimal, usize_to_string};
use crate::tools::{char_width, utf8_len, width_of};

verus! {

// ---------------------------------------------------------------------------
// Labels
// ---------------------------------------------------------------------------

/// What the interface is doing.
#[derive(Debug, Clone, Copy, PartialEq, Eq, Structural)]
pub enum Status {
    /// Waiting for input.
    Idle,
    /// A turn is in flight; `Esc` aborts it.
    Working,
    /// The budget is spent; no further turn starts.
    BudgetExhausted,
}

/// The label of a status; a running turn's names the key that ends it.
pub open spec fn status_text(status: Status) -> Seq<char> {
    match status {
        Status::Idle => "ready"@,
        Status::Working => "working… (Esc aborts)"@,
        Status::BudgetExhausted => "budget reached"@,
    }
}

/// The label shown for a status.
pub fn status_label(status: Status) -> (r: &'static str)
    ensures
        r@ == status_text(status),
{
    match status {
        Status::Idle => "ready",
        Status::Working => "working… (Esc aborts)",
        Status::BudgetExhausted => "budget reached",
    }
}

/// How the number of active rules is shown: nothing for none.
pub open spec fn rules_text(rules: nat) -> Seq<char> {
    if rules == 0 {
        seq![]
    } else if rules == 1 {
        " · 1 rule"@
    } else {
        " · "@ + decimal(rules) + " rules"@
    }
}

/// The rule count as shown in the status bar.
pub fn rules_label(rules: usize) -> (r: String)
    ensures
        r@ == rules_text(rules as nat),
{
    if rules == 0 {
        String::new()
    } else if rules == 1 {
        String::from_str(" · 1 rule")
    } else {
        let mut out = String::from_str(" · ");
        let n = usize_to_string(rules);
        push_str(&mut out, n.as_str());
        push_str(&mut out, " rules");
        out
    }
}

/// A token count as shown: exact below a thousand, else in thousands with
/// one decimal, rounded to the nearest tenth (halves up).
pub open spec fn tokens_text(tokens: nat) -> Seq<char> {
    if tokens < 1000 {
        decimal(tokens)
    } else {
        let tenths = (tokens + 50) / 100;
        decimal(tenths / 10) + "."@ + decimal(tenths % 10) + "k"@
    }
}

/// Formats a token count compactly, e.g. `12.4k`.
pub fn format_tokens(tokens: u32) -> (r: String)
    ensures
        r@ == tokens_text(tokens as nat),
{
    if tokens < 1000 {
        return from_chars(&u64_decimal(tokens as u64));
    }
    let tenths: u64 = (tokens as u64 + 50) / 100;
    let mut out = from_chars(&u64_decimal(tenths / 10));
    push_str(&mut out, ".");
    let frac = from_chars(&u64_decimal(tenths % 10));
    push_str(&mut out, frac.as_str());
    push_str(&mut out, "k");
    out
}


// ---------------------------------------------------------------------------
// Keys
// ---------------------------------------------------------------------------

/// Lines one page of scrolling moves.
pub const PAGE_SCROLL: u16 = 10;

/// A key press, as far as the interface tells keys apart.
#[derive(Debug, Clone, Copy, PartialEq, Eq, Structural)]
pub enum Key {
    Char(char),
    Enter,
    Esc,
    Backspace,
    Left,
    Right,
    Up,
    Down,
    PageUp,
    PageDown,
    Other,
}

/// What a key asks of the loop around the interface.
#[derive(Debug, PartialEq, Eq)]
pub enum KeyOutcome {
    /// Nothing beyond the change to the state.
    Nothing,
    /// Cancel the turn in flight, if any.
    CancelRun,
    /// Start a turn with this prompt.
    Send(String),
}

/// What a key means while a change waits for approval.
#[derive(Debug, Clone, Copy, PartialEq, Eq, Structural)]
pub enum ApprovalKey {
    /// The answer to the request.
    Decide(Decision),
    /// Abort, and quit the interface.
    Quit,
    /// Scroll the diff up by this many lines.
    ScrollUp(u16),
    /// Scroll the diff down by this many lines.
    ScrollDown(u16),
    /// Nothing; the key is ignored rather than guessed at.
    Ignore,
}

/// The meaning of a key while a change waits for approval. Enter approves
/// nothing: it sends prompts everywhere else, and a habit must not apply a
/// change.
pub open spec fn approval_key_spec(key: Key, ctrl: bool) -> ApprovalKey {
    match key {
        Key::Char(c) => if c == 'y' || c == 'Y' {
            ApprovalKey::Decide(Decision::Approve)
        } else if c == 'a' || c == 'A' {
            ApprovalKey::Decide(Decision::ApproveToolForSession)
        } else if c == 'n' || c == 'N' {
            ApprovalKey::Decide(Decision::Deny)
        } else if (c == 'c' || c == 'd') && ctrl {
            ApprovalKey::Quit
        } else {
            ApprovalKey::Ignore
        },
        Key::Esc => ApprovalKey::Decide(Decision::Abort),
        Key::Up => ApprovalKey::ScrollUp(1),
        Key::Down => ApprovalKey::ScrollDown(1),
        Key::PageUp => ApprovalKey::ScrollUp(PAGE_SCROLL),
        Key::PageDown => ApprovalKey::ScrollDown(PAGE_SCROLL),
        _ => ApprovalKey::Ignore,
    }
}

/// Reads a key while a change waits for approval.
pub fn approval_key(key: Key, ctrl: bool) -> (r: ApprovalKey)
    ensures
        r == approval_key_spec(key, ctrl),
{
    match key {
        Key::Char(c) => {
            if c == 'y' || c == 'Y' {
                ApprovalKey::Decide(Decision::Approve)
            } else if c == 'a' || c == 'A' {
                ApprovalKey::Decide(Decision::ApproveToolForSession)
            } else if c == 'n' || c == 'N' {
                ApprovalKey::Decide(Decision::Deny)
            } else if (c == 'c' || c == 'd') && ctrl {
                ApprovalKey::Quit
            } else {
                ApprovalKey::Ignore
            }
        },
        Key::Esc => ApprovalKey::Decide(Decision::Abort),
        Key::Up => ApprovalKey::ScrollUp(1),
        Key::Down => ApprovalKey::ScrollDown(1),
        Key::PageUp => ApprovalKey::ScrollUp(PAGE_SCROLL),
        Key::PageDown => ApprovalKey::ScrollDown(PAGE_SCROLL),
        _ => ApprovalKey::Ignore,
    }
}

/// What a key means while a comprehension question is shown.
#[derive(Debug, Clone, Copy, PartialEq, Eq, Structural)]
pub enum QuestionKey {
    /// Skip the question; nothing is recorded.
    Skip,
    /// The option at this index was chosen.
    Answer(usize),
    /// Nothing.
    Ignore,
}

/// The meaning of a key while a question with `options` answers is shown:
/// answering and skipping take one key each, and a digit outside the
/// options does nothing.
pub open spec fn question_key_spec(key: Key, options: nat) -> QuestionKey {
    match key {
        Key::Esc => QuestionKey::Skip,
        Key::Char(c) => if '1' <= c && c <= '9' && (c as u32 - '0' as u32) <= options {
            QuestionKey::Answer((c as u32 - '1' as u32) as usize)
        } else {
            QuestionKey::Ignore
        },
        _ => QuestionKey::Ignore,
    }
}

/// Reads a key while a question is shown.
pub fn question_key(key: Key, options: usize) -> (r: QuestionKey)
    ensures
        r == question_key_spec(key, options as nat),
{
    match key {
        Key::Esc => QuestionKey::Skip,
        Key::Char(c) => {
            if '1' <= c && c <= '9' {
                let chosen = (c as u32 - '0' as u32) as usize;
                if chosen <= options {
                    return QuestionKey::Answer(chosen - 1);
                }
            }
            QuestionKey::Ignore
        },
        _ => QuestionKey::Ignore,
    }
}

// ---------------------------------------------------------------------------
// Byte positions in a line of input
// ---------------------------------------------------------------------------

/// A longer prefix takes more bytes.
pub proof fn lemma_utf8_len_strict(s: Seq<char>, i: int, j: int)
    requires
        0 <= i < j <= s.len(),
    ensures
        utf8_len(s.take(i)) < utf8_len(s.take(j)),
    decreases j - i,
{
    assert(s.take(j).drop_last() =~= s.take(j - 1));
    if i < j - 1 {
        lemma_utf8_len_strict(s, i, j - 1);
    }
}

/// The bytes of two pieces add up.
pub proof fn lemma_utf8_len_concat(a: Seq<char>, b: Seq<char>)
    ensures
        utf8_len(a + b) == utf8_len(a) + utf8_len(b),
    decreases b.len(),
{
    if b.len() == 0 {
        assert(a + b =~= a);
    } else {
        lemma_utf8_len_concat(a, b.drop_last());
        assert((a + b).drop_last() =~= a + b.drop_last());
    }
}

/// Whether `byte` falls on a character boundary of `s`: between two
/// characters, or at either end.
pub open spec fn on_boundary(s: Seq<char>, byte: nat) -> bool {
    exists|k: int| 0 <= k <= s.len() && utf8_len(s.take(k)) == byte
}

/// The character index of a byte position on a boundary.
fn char_index(v: &Vec<char>, byte: usize) -> (k: usize)
    requires
        on_boundary(v@, byte as nat),
    ensures
        k <= v@.len(),
        utf8_len(v@.take(k as int)) == byte,
{
    let ghost target = choose|k: int| 0 <= k <= v@.len() && utf8_len(v@.take(k)) == byte;
    let mut i: usize = 0;
    let mut bytes: usize = 0;
    proof {
        assert(v@.take(0) =~= seq![]);
    }
    while bytes < byte
        invariant
            0 <= target <= v@.len(),
            utf8_len(v@.take(target)) == byte,
            i <= target,
            bytes == utf8_len(v@.take(i as int)),
        decreases target - i,
    {
        proof {
            if i == target {
                assert(false);
            }
            assert(v@.take(i + 1).drop_last() =~= v@.take(i as int));
            if i + 1 < target {
                lemma_utf8_len_strict(v@, i + 1, target);
            }
            assert(i < v.len());
        }
        bytes = bytes + width_of(v[i]);
        i = i + 1;
    }
    proof {
        if i < target {
            lemma_utf8_len_strict(v@, i as int, target);
        }
    }
    i
}

/// Backspace takes back what typing a character put in: the input before a
/// character was inserted at character index `k` is the input after it
/// with the character before the new cursor removed, and the cursor returns
/// to where it was.
pub proof fn lemma_backspace_undoes_insert(s: Seq<char>, k: int, ch: char)
    requires
        0 <= k <= s.len(),
    ensures
        ({
            let typed = s.take(k) + seq![ch] + s.skip(k);
            &&& typed.take(k + 1 - 1) + typed.skip(k + 1) == s
            &&& utf8_len(s.take(k)) + char_width(ch) - char_width(typed[k + 1 - 1]) == utf8_len(
                s.take(k),
            )
            &&& utf8_len(typed.take(k + 1)) == utf8_len(s.take(k)) + char_width(ch)
        }),
{
    let typed = s.take(k) + seq![ch] + s.skip(k);
    assert(typed.take(k) =~= s.take(k));
    assert(typed.skip(k + 1) =~= s.skip(k));
    assert(s.take(k) + s.skip(k) =~= s);
    assert(typed.take(k + 1) =~= s.take(k) + seq![ch]);
    assert(seq![ch].drop_last() =~= Seq::<char>::empty());
    assert(utf8_len(Seq::<char>::empty()) == 0);
    lemma_utf8_len_concat(s.take(k), seq![ch]);
}

// ---------------------------------------------------------------------------
// The interface state
// ---------------------------------------------------------------------------

/// One entry of the visible conversation.
#[derive(Debug, Clone, PartialEq, Eq)]
pub struct TranscriptEntry {
    /// Who said it.
    pub role: Role,
    /// What was said; grows while the assistant streams.
    pub text: String,
}

/// An entry as values.
pub open spec fn entry_view(e: TranscriptEntry) -> (Role, Seq<char>) {
    (e.role, e.text@)
}

/// Pasted text as it is typed in: without its control characters.
pub open spec fn printable(t: Seq<char>) -> Seq<char>
    decreases t.len(),
{
    if t.len() == 0 {
        seq![]
    } else if crate::setup::is_control(t.last()) {
        printable(t.drop_last())
    } else {
        printable(t.drop_last()).push(t.last())
    }
}

/// Entries as values.
pub open spec fn entries_view(es: Seq<TranscriptEntry>) -> Seq<(Role, Seq<char>)> {
    es.map_values(|e: TranscriptEntry| entry_view(e))
}

/// The conversation after streamed text arrives: appended to the last entry
/// when that is the assistant's, else a new assistant entry.
pub open spec fn with_assistant_text(es: Seq<(Role, Seq<char>)>, text: Seq<char>) -> Seq<(Role, Seq<char>)> {
    if es.len() > 0 && es.last().0 == Role::Assistant {
        es.update(es.len() - 1, (Role::Assistant, es.last().1 + text))
    } else {
        es.push((Role::Assistant, text))
    }
}

/// What the user is told when an answer hit the output limit.
pub open spec fn cut_off_notice() -> Seq<char> {
    "Answer was cut off at the output limit — ask for a shorter scope."@
}

/// What the user is told after aborting a turn.
pub open spec fn aborted_notice() -> Seq<char> {
    "Aborted."@
}

/// An optional text as a value.
pub open spec fn opt_view(o: Option<String>) -> Option<Seq<char>> {
    match o {
        Some(s) => Some(s@),
        None => None,
    }
}

/// The complete interface state.
#[derive(Debug)]
pub struct App {
    /// The visible conversation.
    pub entries: Vec<TranscriptEntry>,
    /// The line being typed.
    pub input: String,
    /// The cursor within the input, as a byte index.
    pub cursor: usize,
    /// What the interface is doing.
    pub status: Status,
    /// The model shown in the status bar.
    pub model: String,
    /// The active model's context window, in tokens.
    pub context_window: u32,
    /// Tokens used in the session so far.
    pub usage: Usage,
    /// Lines scrolled up from the bottom of the conversation.
    pub scroll: u16,
    /// A message shown in place of the key hints, such as an error.
    pub notice: Option<String>,
    /// Set once the user asked to quit.
    pub should_quit: bool,
}

impl App {
    /// The cursor sits on a character boundary of the input.
    pub open spec fn wf(&self) -> bool {
        on_boundary(self.input@, self.cursor as nat)
    }

    /// A fresh interface for a model.
    pub fn new(model: String, context_window: u32) -> (r: Self)
        ensures
            r.wf(),
            r.entries@.len() == 0,
            r.input@.len() == 0,
            r.cursor == 0,
            r.status == Status::Idle,
            r.model@ == model@,
            r.context_window == context_window,
            r.usage == zero_usage(),
            r.scroll == 0,
            r.notice is None,
            !r.should_quit,
    {
        let r = App {
            entries: Vec::new(),
            input: String::new(),
            cursor: 0,
            status: Status::Idle,
            model,
            context_window,
            usage: Usage::default(),
            scroll: 0,
            notice: None,
            should_quit: false,
        };
        proof {
            assert(r.input@.take(0) =~= seq![]);
        }
        r
    }

    /// Applies one streamed increment. `budget_notice` says what the user is
    /// told when this turn's cost brought the session to its budget; it is read
    /// only when the turn completes, and `None` means the budget holds.
    pub fn apply(&mut self, delta: Delta, budget_notice: Option<String>)
        ensures
            final(self).input@ == old(self).input@,
            final(self).cursor == old(self).cursor,
            final(self).scroll == old(self).scroll,
            final(self).context_window == old(self).context_window,
            final(self).should_quit == old(self).should_quit,
            match delta {
                Delta::Started { model } => {
                    &&& final(self).model@ == model@
                    &&& final(self).status == Status::Working
                    &&& entries_view(final(self).entries@) == entries_view(old(self).entries@).push(
                        (Role::Assistant, seq![]),
                    )
                    &&& final(self).usage == old(self).usage
                    &&& final(self).notice == old(self).notice
                },
                Delta::Text { text } => {
                    &&& final(self).model@ == old(self).model@
                    &&& final(self).status == old(self).status
                    &&& entries_view(final(self).entries@) == with_assistant_text(
                        entries_view(old(self).entries@),
                        text@,
                    )
                    &&& final(self).usage == old(self).usage
                    &&& final(self).notice == old(self).notice
                },
                Delta::ToolCall(_) => {
                    &&& final(self).model@ == old(self).model@
                    &&& final(self).status == old(self).status
                    &&& entries_view(final(self).entries@) == entries_view(old(self).entries@)
                    &&& final(self).usage == old(self).usage
                    &&& final(self).notice == old(self).notice
                },
                Delta::Completed { stop_reason, usage } => {
                    &&& final(self).model@ == old(self).model@
                    &&& entries_view(final(self).entries@) == entries_view(old(self).entries@)
                    &&& final(self).usage == usage_sum(old(self).usage, usage)
                    &&& final(self).status == (if budget_notice is Some {
                        Status::BudgetExhausted
                    } else {
                        Status::Idle
                    })
                    &&& opt_view(final(self).notice) == (if stop_reason == StopReason::MaxTokens {
                        Some(cut_off_notice())
                    } else if budget_notice is Some {
                        opt_view(budget_notice)
                    } else {
                        opt_view(old(self).notice)
                    })
                },
            },
    {
        match delta {
            Delta::Started { model } => {
                self.model = model;
                self.status = Status::Working;
                let ghost before = self.entries@;
                self.entries.push(TranscriptEntry { role: Role::Assistant, text: String::new() });
                proof {
                    assert(entries_view(self.entries@) =~= entries_view(before).push(
                        (Role::Assistant, seq![]),
                    ));
                }
            },
            Delta::Text { text } => {
                self.append_assistant_text(text);
            },
            Delta::ToolCall(_) => {},
            Delta::Completed { stop_reason, usage } => {
                self.finish_turn(stop_reason, usage, budget_notice);
            },
        }
    }

    /// Adds streamed text to the assistant's entry, opening one when the last
    /// entry is not the assistant's: text that arrives before the start of a
    /// turn is kept, not dropped.
    fn append_assistant_text(&mut self, text: String)
        ensures
            final(self).input@ == old(self).input@,
            final(self).cursor == old(self).cursor,
            final(self).scroll == old(self).scroll,
            final(self).context_window == old(self).context_window,
            final(self).should_quit == old(self).should_quit,
            final(self).model@ == old(self).model@,
            final(self).status == old(self).status,
            final(self).usage == old(self).usage,
            final(self).notice == old(self).notice,
            entries_view(final(self).entries@) == with_assistant_text(
                entries_view(old(self).entries@),
                text@,
            ),
    {
        let ghost before = entries_view(self.entries@);
        let n = self.entries.len();
        if n > 0 && self.entries[n - 1].role == Role::Assistant {
            let mut last = self.entries.remove(n - 1);
            push_str(&mut last.text, text.as_str());
            let ghost updated = last;
            self.entries.push(last);
            proof {
                assert(entries_view(self.entries@) =~= before.update(
                    before.len() - 1,
                    (Role::Assistant, before.last().1 + text@),
                ));
            }
        } else {
            self.entries.push(TranscriptEntry { role: Role::Assistant, text });
            proof {
                assert(entries_view(self.entries@) =~= before.push((Role::Assistant, text@)));
            }
        }
    }

    /// Closes a turn: adds its usage, stops the session when the budget was
    /// reached, and warns when the answer was cut off.
    fn finish_turn(&mut self, stop_reason: StopReason, usage: Usage, budget_notice: Option<String>)
        ensures
            final(self).input@ == old(self).input@,
            final(self).cursor == old(self).cursor,
            final(self).scroll == old(self).scroll,
            final(self).context_window == old(self).context_window,
            final(self).should_quit == old(self).should_quit,
            final(self).model@ == old(self).model@,
            final(self).entries@ == old(self).entries@,
            final(self).usage == usage_sum(old(self).usage, usage),
            final(self).status == (if budget_notice is Some {
                Status::BudgetExhausted
            } else {
                Status::Idle
            }),
            opt_view(final(self).notice) == (if stop_reason == StopReason::MaxTokens {
                Some(cut_off_notice())
            } else if budget_notice is Some {
                opt_view(budget_notice)
            } else {
                opt_view(old(self).notice)
            }),
    {
        self.usage = self.usage.saturating_add(usage);
        match budget_notice {
            Some(notice) => {
                self.notice = Some(notice);
                self.status = Status::BudgetExhausted;
            },
            None => {
                self.status = Status::Idle;
            },
        }
        if stop_reason == StopReason::MaxTokens {
            self.notice = Some(
                String::from_str("Answer was cut off at the output limit — ask for a shorter scope."),
            );
        }
    }

    /// Records that the user aborted the turn; only a running turn is affected.
    pub fn abort(&mut self)
        ensures
            final(self).input@ == old(self).input@,
            final(self).cursor == old(self).cursor,
            final(self).entries@ == old(self).entries@,
            final(self).usage == old(self).usage,
            final(self).scroll == old(self).scroll,
            old(self).status == Status::Working ==> final(self).status == Status::Idle && opt_view(
                final(self).notice,
            ) == Some(aborted_notice()),
            old(self).status != Status::Working ==> final(self).status == old(self).status
                && final(self).notice == old(self).notice,
    {
        if self.status == Status::Working {
            self.status = Status::Idle;
            self.notice = Some(String::from_str("Aborted."));
        }
    }

    /// Shows an error instead of ending the session.
    pub fn report_error(&mut self, message: String)
        ensures
            final(self).input@ == old(self).input@,
            final(self).cursor == old(self).cursor,
            final(self).entries@ == old(self).entries@,
            final(self).usage == old(self).usage,
            final(self).status == Status::Idle,
            opt_view(final(self).notice) == Some(message@),
    {
        self.status = Status::Idle;
        self.notice = Some(message);
    }

    /// Inserts pasted text at the cursor, leaving out control characters,
    /// and moves the cursor past it.
    pub fn paste(&mut self, text: &str)
        requires
            old(self).wf(),
            old(self).cursor + 4 * text@.len() <= usize::MAX,
        ensures
            final(self).wf(),
            forall|k: int|
                0 <= k <= old(self).input@.len() && #[trigger] utf8_len(old(self).input@.take(k))
                    == old(self).cursor ==> {
                    &&& final(self).input@ == old(self).input@.take(k) + printable(text@) + old(
                        self,
                    ).input@.skip(k)
                    &&& final(self).cursor == old(self).cursor + utf8_len(printable(text@))
                },
            final(self).entries@ == old(self).entries@,
            final(self).status == old(self).status,
            final(self).notice == old(self).notice,
            final(self).usage == old(self).usage,
    {
        let chars = to_chars(text);
        let ghost orig = self.input@;
        let ghost c0 = self.cursor as int;
        let ghost k0 = choose|k: int| 0 <= k <= orig.len() && utf8_len(orig.take(k)) == c0;
        let mut i: usize = 0;
        proof {
            assert(chars@.take(0) =~= seq![]);
            assert(orig =~= orig.take(k0) + printable(chars@.take(0)) + orig.skip(k0));
        }
        while i < chars.len()
            invariant
                i <= chars.len(),
                chars@ == text@,
                self.wf(),
                0 <= k0 <= orig.len(),
                utf8_len(orig.take(k0)) == c0,
                c0 + 4 * chars@.len() <= usize::MAX,
                self.input@ == orig.take(k0) + printable(chars@.take(i as int)) + orig.skip(k0),
                self.cursor == c0 + utf8_len(printable(chars@.take(i as int))),
                utf8_len(printable(chars@.take(i as int))) <= 4 * i,
                self.entries@ == old(self).entries@,
                self.status == old(self).status,
                self.notice == old(self).notice,
                self.usage == old(self).usage,
            decreases chars.len() - i,
        {
            let ghost p = printable(chars@.take(i as int));
            let ghost kk = k0 + p.len();
            proof {
                assert(chars@.take(i + 1).drop_last() =~= chars@.take(i as int));
                assert(chars@.take(i + 1).last() == chars@[i as int]);
                assert(self.input@.take(kk) =~= orig.take(k0) + p);
                lemma_utf8_len_concat(orig.take(k0), p);
                assert(utf8_len(self.input@.take(kk)) == self.cursor);
                assert(p.push(chars@[i as int]).drop_last() =~= p);
            }
            let ch = chars[i];
            if !crate::setup::char_is_control(ch) {
                self.insert_char(ch);
                proof {
                    assert(printable(chars@.take(i + 1)) =~= p.push(ch));
                    assert(self.input@ =~= orig.take(k0) + p.push(ch) + orig.skip(k0));
                    lemma_utf8_len_concat(p, seq![ch]);
                    assert(p + seq![ch] =~= p.push(ch));
                    assert(seq![ch].drop_last() =~= Seq::<char>::empty());
                }
            } else {
                proof {
                    assert(printable(chars@.take(i + 1)) =~= p);
                }
            }
            i += 1;
        }
        proof {
            assert(chars@.take(chars.len() as int) =~= chars@);
            assert forall|k: int|
                0 <= k <= orig.len() && #[trigger] utf8_len(orig.take(k)) == c0 implies k == k0 by {
                if k < k0 {
                    lemma_utf8_len_strict(orig, k, k0);
                } else if k0 < k {
                    lemma_utf8_len_strict(orig, k0, k);
                }
            }
        }
    }

    /// Adds a line from the harness to the transcript.
    pub fn note(&mut self, text: String)
        ensures
            entries_view(final(self).entries@) == entries_view(old(self).entries@).push((Role::System, text@)),
            final(self).input@ == old(self).input@,
            final(self).cursor == old(self).cursor,
            final(self).usage == old(self).usage,
            final(self).status == old(self).status,
            final(self).notice == old(self).notice,
    {
        let ghost before = self.entries@;
        self.entries.push(TranscriptEntry { role: Role::System, text });
        proof {
            assert(entries_view(self.entries@) =~= entries_view(before).push((Role::System, text@)));
        }
    }

    /// A turn of a run completed and the run goes on: its usage is added, and
    /// when the turn spent the budget, the budget's notice is shown and the
    /// session stops.
    pub fn turn_completed(&mut self, usage: Usage, budget_notice: Option<String>)
        ensures
            final(self).usage == usage_sum(old(self).usage, usage),
            final(self).status == (if budget_notice is Some {
                Status::BudgetExhausted
            } else {
                Status::Working
            }),
            opt_view(final(self).notice) == (if budget_notice is Some {
                opt_view(budget_notice)
            } else {
                opt_view(old(self).notice)
            }),
            final(self).entries@ == old(self).entries@,
            final(self).input@ == old(self).input@,
            final(self).cursor == old(self).cursor,
    {
        self.usage = self.usage.saturating_add(usage);
        match budget_notice {
            Some(n) => {
                self.status = Status::BudgetExhausted;
                self.notice = Some(n);
            },
            None => {
                self.status = Status::Working;
            },
        }
    }

    /// The run ended: the session is idle again unless the budget stopped
    /// it, and any ending but a completed one is told to the user.
    pub fn run_finished(&mut self, reason: &crate::agent::FinishReason)
        ensures
            final(self).status == (if old(self).status == Status::BudgetExhausted {
                Status::BudgetExhausted
            } else {
                Status::Idle
            }),
            opt_view(final(self).notice) == (if *reason == crate::agent::FinishReason::Completed {
                opt_view(old(self).notice)
            } else {
                Some(crate::agent::finish_text(*reason))
            }),
            final(self).usage == old(self).usage,
            final(self).entries@ == old(self).entries@,
            final(self).input@ == old(self).input@,
            final(self).cursor == old(self).cursor,
    {
        if self.status != Status::BudgetExhausted {
            self.status = Status::Idle;
        }
        match reason {
            crate::agent::FinishReason::Completed => {},
            _ => {
                self.notice = Some(reason.message());
            },
        }
    }

    /// Takes the input as the user's turn: only while idle, and only when
    /// something other than whitespace was typed. The prompt sent is the input
    /// trimmed; the input is then emptied and the view returns to the bottom.
    pub fn submit(&mut self) -> (r: Option<String>)
        ensures
            (old(self).status != Status::Idle || trim(old(self).input@).len() == 0) ==> {
                &&& r is None
                &&& final(self).input@ == old(self).input@
                &&& final(self).cursor == old(self).cursor
                &&& final(self).entries@ == old(self).entries@
                &&& final(self).notice == old(self).notice
                &&& final(self).scroll == old(self).scroll
            },
            (old(self).status == Status::Idle && trim(old(self).input@).len() > 0) ==> {
                &&& opt_view(r) == Some(trim(old(self).input@))
                &&& final(self).input@.len() == 0
                &&& final(self).cursor == 0
                &&& final(self).notice is None
                &&& final(self).scroll == 0
                &&& entries_view(final(self).entries@) == entries_view(old(self).entries@).push(
                    (Role::User, trim(old(self).input@)),
                )
            },
            final(self).status == old(self).status,
            final(self).usage == old(self).usage,
            final(self).should_quit == old(self).should_quit,
            old(self).wf() ==> final(self).wf(),
    {
        if self.status != Status::Idle {
            return None;
        }
        let prompt = trim_str(self.input.as_str());
        if prompt.as_str().is_empty() {
            return None;
        }
        self.input = String::new();
        self.cursor = 0;
        self.notice = None;
        self.scroll = 0;
        let ghost before = self.entries@;
        let copy = prompt.clone();
        self.entries.push(TranscriptEntry { role: Role::User, text: copy });
        proof {
            assert(self.input@.take(0) =~= seq![]);
            assert(entries_view(self.entries@) =~= entries_view(before).push(
                (Role::User, prompt@),
            ));
        }
        Some(prompt)
    }

    /// Inserts a character at the cursor and moves the cursor past it.
    pub fn insert_char(&mut self, ch: char)
        requires
            old(self).wf(),
            old(self).cursor + 4 <= usize::MAX,
        ensures
            final(self).wf(),
            forall|k: int|
                0 <= k <= old(self).input@.len() && #[trigger] utf8_len(old(self).input@.take(k))
                    == old(self).cursor ==> {
                    &&& final(self).input@ == old(self).input@.take(k) + seq![ch] + old(
                        self,
                    ).input@.skip(k)
                    &&& final(self).cursor == old(self).cursor + char_width(ch)
                    &&& utf8_len(final(self).input@.take(k + 1)) == final(self).cursor
                },
            final(self).entries@ == old(self).entries@,
            final(self).status == old(self).status,
            final(self).notice == old(self).notice,
            final(self).should_quit == old(self).should_quit,
            final(self).scroll == old(self).scroll,
            final(self).usage == old(self).usage,
    {
        let v = to_chars(self.input.as_str());
        let k = char_index(&v, self.cursor);
        let mut out: Vec<char> = Vec::new();
        let mut i: usize = 0;
        while i < k
            invariant
                k <= v.len(),
                i <= k,
                out@ == v@.take(i as int),
            decreases k - i,
        {
            out.push(v[i]);
            proof {
                assert(v@.take(i + 1) =~= v@.take(i as int).push(v@[i as int]));
            }
            i += 1;
        }
        out.push(ch);
        let mut j: usize = k;
        while j < v.len()
            invariant
                k <= j <= v.len(),
                out@ == v@.take(k as int) + seq![ch] + v@.subrange(k as int, j as int),
            decreases v.len() - j,
        {
            out.push(v[j]);
            proof {
                assert(v@.subrange(k as int, j + 1) =~= v@.subrange(k as int, j as int).push(
                    v@[j as int],
                ));
            }
            j += 1;
        }
        let ghost old_input = v@;
        let w = width_of(ch);
        self.input = from_chars(&out);
        self.cursor = self.cursor + w;
        proof {
            assert(v@.subrange(k as int, v.len() as int) =~= v@.skip(k as int));
            assert(self.input@ == old_input.take(k as int) + seq![ch] + old_input.skip(k as int));
            assert(self.input@.take(k + 1) =~= old_input.take(k as int) + seq![ch]);
            assert(seq![ch].drop_last() =~= Seq::<char>::empty());
            assert(utf8_len(Seq::<char>::empty()) == 0);
            assert(utf8_len(seq![ch]) == char_width(ch));
            lemma_utf8_len_concat(old_input.take(k as int), seq![ch]);
            assert(utf8_len(self.input@.take(k + 1)) == self.cursor);
            assert(on_boundary(self.input@, self.cursor as nat));
            assert forall|k2: int|
                0 <= k2 <= old_input.len() && utf8_len(old_input.take(k2)) == old(self).cursor implies k2
                == k by {
                if k2 < k {
                    lemma_utf8_len_strict(old_input, k2, k as int);
                } else if k < k2 {
                    lemma_utf8_len_strict(old_input, k as int, k2);
                }
            }
            assert(0 <= k + 1 <= self.input@.len());
        }
    }

    /// Deletes the character before the cursor; nothing at the start.
    pub fn backspace(&mut self)
        requires
            old(self).wf(),
        ensures
            final(self).wf(),
            old(self).cursor == 0 ==> final(self).input@ == old(self).input@ && final(self).cursor == 0,
            forall|k: int|
                0 < k <= old(self).input@.len() && #[trigger] utf8_len(old(self).input@.take(k))
                    == old(self).cursor ==> {
                    &&& final(self).input@ == old(self).input@.take(k - 1) + old(self).input@.skip(k)
                    &&& final(self).cursor == old(self).cursor - char_width(old(self).input@[k - 1])
                },
            final(self).entries@ == old(self).entries@,
            final(self).status == old(self).status,
            final(self).notice == old(self).notice,
            final(self).should_quit == old(self).should_quit,
            final(self).scroll == old(self).scroll,
            final(self).usage == old(self).usage,
    {
        if self.cursor == 0 {
            return;
        }
        let v = to_chars(self.input.as_str());
        let k = char_index(&v, self.cursor);
        proof {
            if k == 0 {
                assert(v@.take(0) =~= seq![]);
            }
        }
        let mut out: Vec<char> = Vec::new();
        let mut i: usize = 0;
        while i < k - 1
            invariant
                0 < k <= v.len(),
                i <= k - 1,
                out@ == v@.take(i as int),
            decreases k - 1 - i,
        {
            out.push(v[i]);
            proof {
                assert(v@.take(i + 1) =~= v@.take(i as int).push(v@[i as int]));
            }
            i += 1;
        }
        let mut j: usize = k;
        while j < v.len()
            invariant
                0 < k <= j <= v.len(),
                out@ == v@.take(k - 1) + v@.subrange(k as int, j as int),
            decreases v.len() - j,
        {
            out.push(v[j]);
            proof {
                assert(v@.subrange(k as int, j + 1) =~= v@.subrange(k as int, j as int).push(
                    v@[j as int],
                ));
            }
            j += 1;
        }
        let ghost old_input = v@;
        let w = width_of(v[k - 1]);
        self.input = from_chars(&out);
        proof {
            assert(old_input.take(k as int).drop_last() =~= old_input.take(k - 1));
            assert(v@.subrange(k as int, v.len() as int) =~= v@.skip(k as int));
            assert(self.input@.take(k - 1) =~= old_input.take(k - 1));
            assert forall|k2: int|
                0 <= k2 <= old_input.len() && utf8_len(old_input.take(k2)) == old(self).cursor implies k2
                == k by {
                if k2 < k {
                    lemma_utf8_len_strict(old_input, k2, k as int);
                } else if k < k2 {
                    lemma_utf8_len_strict(old_input, k as int, k2);
                }
            }
        }
        self.cursor = self.cursor - w;
    }

    /// Moves the cursor one character left; nothing at the start.
    pub fn cursor_left(&mut self)
        requires
            old(self).wf(),
        ensures
            final(self).wf(),
            final(self).input@ == old(self).input@,
            old(self).cursor == 0 ==> final(self).cursor == 0,
            forall|k: int|
                0 < k <= old(self).input@.len() && #[trigger] utf8_len(old(self).input@.take(k))
                    == old(self).cursor ==> final(self).cursor == utf8_len(old(self).input@.take(k - 1)),
            final(self).entries@ == old(self).entries@,
            final(self).status == old(self).status,
            final(self).notice == old(self).notice,
            final(self).should_quit == old(self).should_quit,
            final(self).scroll == old(self).scroll,
            final(self).usage == old(self).usage,
    {
        if self.cursor == 0 {
            return;
        }
        let v = to_chars(self.input.as_str());
        let k = char_index(&v, self.cursor);
        proof {
            if k == 0 {
                assert(v@.take(0) =~= seq![]);
            }
            assert(v@.take(k as int).drop_last() =~= v@.take(k - 1));
            assert forall|k2: int|
                0 <= k2 <= v@.len() && utf8_len(v@.take(k2)) == old(self).cursor implies k2 == k by {
                if k2 < k {
                    lemma_utf8_len_strict(v@, k2, k as int);
                } else if k < k2 {
                    lemma_utf8_len_strict(v@, k as int, k2);
                }
            }
        }
        self.cursor = self.cursor - width_of(v[k - 1]);
    }

    /// Moves the cursor one character right; nothing at the end.
    pub fn cursor_right(&mut self)
        requires
            old(self).wf(),
            old(self).cursor + 4 <= usize::MAX,
        ensures
            final(self).wf(),
            final(self).input@ == old(self).input@,
            forall|k: int|
                0 <= k <= old(self).input@.len() && #[trigger] utf8_len(old(self).input@.take(k))
                    == old(self).cursor ==> final(self).cursor == (if k < old(self).input@.len() {
                    utf8_len(old(self).input@.take(k + 1))
                } else {
                    old(self).cursor as nat
                }),
            final(self).entries@ == old(self).entries@,
            final(self).status == old(self).status,
            final(self).notice == old(self).notice,
            final(self).should_quit == old(self).should_quit,
            final(self).scroll == old(self).scroll,
            final(self).usage == old(self).usage,
    {
        let v = to_chars(self.input.as_str());
        let k = char_index(&v, self.cursor);
        proof {
            assert forall|k2: int|
                0 <= k2 <= v@.len() && utf8_len(v@.take(k2)) == old(self).cursor implies k2 == k by {
                if k2 < k {
                    lemma_utf8_len_strict(v@, k2, k as int);
                } else if k < k2 {
                    lemma_utf8_len_strict(v@, k as int, k2);
                }
            }
        }
        if k < v.len() {
            proof {
                assert(v@.take(k + 1).drop_last() =~= v@.take(k as int));
            }
            self.cursor = self.cursor + width_of(v[k]);
        }
    }

    /// Applies one key press in the input line. Ctrl+C or Ctrl+D quits; Esc
    /// cancels the turn in flight; Enter sends the input when it may be sent
    /// and marks a turn as running; the editing keys edit; page keys scroll.
    pub fn handle_key(&mut self, key: Key, ctrl: bool) -> (r: KeyOutcome)
        requires
            old(self).wf(),
            old(self).cursor + 4 <= usize::MAX,
        ensures
            final(self).wf(),
            final(self).usage == old(self).usage,
            match key {
                Key::Char(c) => if ctrl {
                    &&& r == KeyOutcome::Nothing
                    &&& final(self).should_quit == (old(self).should_quit || c == 'c' || c == 'd')
                    &&& final(self).input@ == old(self).input@
                    &&& final(self).cursor == old(self).cursor
                    &&& final(self).status == old(self).status
                } else {
                    &&& r == KeyOutcome::Nothing
                    &&& final(self).should_quit == old(self).should_quit
                    &&& final(self).status == old(self).status
                    &&& final(self).entries@ == old(self).entries@
                    &&& forall|k: int|
                        0 <= k <= old(self).input@.len() && #[trigger] utf8_len(old(self).input@.take(k))
                            == old(self).cursor ==> {
                            &&& final(self).input@ == old(self).input@.take(k) + seq![c] + old(
                                self,
                            ).input@.skip(k)
                            &&& final(self).cursor == old(self).cursor + char_width(c)
                        }
                },
                Key::Esc => r == KeyOutcome::CancelRun && final(self).status == (if old(self).status
                    == Status::Working {
                    Status::Idle
                } else {
                    old(self).status
                }) && final(self).input@ == old(self).input@ && final(self).cursor == old(self).cursor,
                Key::Enter => match r {
                    KeyOutcome::Send(prompt) => {
                        &&& old(self).status == Status::Idle
                        &&& prompt@ == trim(old(self).input@)
                        &&& prompt@.len() > 0
                        &&& final(self).status == Status::Working
                        &&& final(self).input@.len() == 0
                        &&& final(self).cursor == 0
                        &&& entries_view(final(self).entries@) == entries_view(old(self).entries@).push(
                            (Role::User, trim(old(self).input@)),
                        )
                    },
                    KeyOutcome::Nothing => {
                        &&& (old(self).status != Status::Idle || trim(old(self).input@).len() == 0)
                        &&& final(self).input@ == old(self).input@
                        &&& final(self).cursor == old(self).cursor
                        &&& final(self).status == old(self).status
                        &&& final(self).entries@ == old(self).entries@
                    },
                    KeyOutcome::CancelRun => false,
                },
                Key::Backspace => {
                    &&& r == KeyOutcome::Nothing
                    &&& final(self).status == old(self).status
                    &&& final(self).entries@ == old(self).entries@
                    &&& old(self).cursor == 0 ==> final(self).input@ == old(self).input@ && final(self).cursor == 0
                    &&& forall|k: int|
                        0 < k <= old(self).input@.len() && #[trigger] utf8_len(old(self).input@.take(k))
                            == old(self).cursor ==> {
                            &&& final(self).input@ == old(self).input@.take(k - 1) + old(self).input@.skip(k)
                            &&& final(self).cursor == old(self).cursor - char_width(old(self).input@[k - 1])
                        }
                },
                Key::Left => {
                    &&& r == KeyOutcome::Nothing
                    &&& final(self).status == old(self).status
                    &&& final(self).input@ == old(self).input@
                    &&& old(self).cursor == 0 ==> final(self).cursor == 0
                    &&& forall|k: int|
                        0 < k <= old(self).input@.len() && #[trigger] utf8_len(old(self).input@.take(k))
                            == old(self).cursor ==> final(self).cursor == utf8_len(old(self).input@.take(k - 1))
                },
                Key::Right => {
                    &&& r == KeyOutcome::Nothing
                    &&& final(self).status == old(self).status
                    &&& final(self).input@ == old(self).input@
                    &&& forall|k: int|
                        0 <= k <= old(self).input@.len() && #[trigger] utf8_len(old(self).input@.take(k))
                            == old(self).cursor ==> final(self).cursor == (if k < old(self).input@.len() {
                            utf8_len(old(self).input@.take(k + 1))
                        } else {
                            old(self).cursor as nat
                        })
                },
                Key::PageUp => r == KeyOutcome::Nothing && final(self).scroll == (if old(self).scroll
                    + PAGE_SCROLL > u16::MAX {
                    u16::MAX as int
                } else {
                    old(self).scroll + PAGE_SCROLL
                }) && final(self).input@ == old(self).input@ && final(self).cursor == old(self).cursor
                    && final(self).status == old(self).status,
                Key::PageDown => r == KeyOutcome::Nothing && final(self).scroll == (if old(self).scroll
                    < PAGE_SCROLL {
                    0
                } else {
                    old(self).scroll - PAGE_SCROLL
                }) && final(self).input@ == old(self).input@ && final(self).cursor == old(self).cursor
                    && final(self).status == old(self).status,
                Key::Other | Key::Up | Key::Down => r == KeyOutcome::Nothing && final(self).input@
                    == old(self).input@ && final(self).cursor == old(self).cursor && final(self).status
                    == old(self).status && final(self).scroll == old(self).scroll,
            },
    {
        match key {
            Key::Char(c) => {
                if ctrl {
                    if c == 'c' || c == 'd' {
                        self.should_quit = true;
                    }
                } else {
                    self.insert_char(c);
                }
                KeyOutcome::Nothing
            },
            Key::Esc => {
                self.abort();
                KeyOutcome::CancelRun
            },
            Key::Enter => {
                match self.submit() {
                    Some(prompt) => {
                        self.status = Status::Working;
                        KeyOutcome::Send(prompt)
                    },
                    None => KeyOutcome::Nothing,
                }
            },
            Key::Backspace => {
                self.backspace();
                KeyOutcome::Nothing
            },
            Key::Left => {
                self.cursor_left();
                KeyOutcome::Nothing
            },
            Key::Right => {
                self.cursor_right();
                KeyOutcome::Nothing
            },
            Key::PageUp => {
                self.scroll_up(PAGE_SCROLL);
                KeyOutcome::Nothing
            },
            Key::PageDown => {
                self.scroll_down(PAGE_SCROLL);
                KeyOutcome::Nothing
            },
            _ => KeyOutcome::Nothing,
        }
    }

    /// Scrolls the conversation up, stopping at the largest offset.
    pub fn scroll_up(&mut self, lines: u16)
        ensures
            final(self).scroll == (if old(self).scroll + lines > u16::MAX {
                u16::MAX as int
            } else {
                old(self).scroll + lines
            }),
            final(self).input@ == old(self).input@,
            final(self).cursor == old(self).cursor,
            final(self).status == old(self).status,
            final(self).usage == old(self).usage,
            final(self).entries@ == old(self).entries@,
            final(self).should_quit == old(self).should_quit,
    {
        self.scroll = self.scroll.saturating_add(lines);
    }

    /// Scrolls the conversation down, never below the bottom.
    pub fn scroll_down(&mut self, lines: u16)
        ensures
            final(self).scroll == (if old(self).scroll < lines {
                0
            } else {
                old(self).scroll - lines
            }),
            final(self).input@ == old(self).input@,
            final(self).cursor == old(self).cursor,
            final(self).status == old(self).status,
            final(self).usage == old(self).usage,
            final(self).entries@ == old(self).entries@,
            final(self).should_quit == old(self).should_quit,
    {
        self.scroll = self.scroll.saturating_sub(lines);
    }
}

} // verus!

//! Model providers: what their errors mean to the user, and how their
//! streamed events become deltas of a response.
use vstd::prelude::*;
use crate::message::{Delta, OtherReason, StopReason, ToolCall, Usage};
use crate::text::{decimal, push_str, contains};
use crate::tools::{fitting_prefix, utf8_len};

verus! {

/// Largest error body shown, in bytes.
pub const MAX_ERROR_BODY: usize = 2000;

/// Output tokens asked for when nothing else is set.
pub const DEFAULT_MAX_TOKENS: u32 = 4096;

/// What went wrong talking to a provider.
#[derive(Debug)]
pub enum ProviderError {
    /// The provider could not be reached; the transport's message.
    Network { provider: String, detail: String },
    /// The provider answered with an HTTP error.
    Api { provider: String, status: u16, body: String },
    /// The stream could not be read.
    Decode { provider: String, detail: String },
}

/// The text of a provider error.
pub open spec fn provider_error_text(e: ProviderError) -> Seq<char> {
    match e {
        ProviderError::Network { provider, detail } => "network error talking to "@ + provider@
            + ": "@ + detail@,
        ProviderError::Api { provider, status, body } => provider@ + " returned HTTP "@ + decimal(
            status as nat,
        ) + ": "@ + body@,
        ProviderError::Decode { provider, detail } => "cannot decode "@ + provider@ + " stream: "@
            + detail@,
    }
}

/// What the user can do about a provider error, where something can be done.
pub open spec fn provider_advice(e: ProviderError) -> Option<Seq<char>> {
    match e {
        ProviderError::Network { .. } => Some(
            "Could not reach the provider. Check your connection, then try again — nothing was sent, so nothing was charged."@,
        ),
        ProviderError::Api { provider, status, body } => if status == 401 || status == 403 {
            Some(
                "Your "@ + provider@ + " key was rejected. Check it with `truecode auth status`, or replace it with `truecode auth login "@
                    + provider@ + "`."@,
            )
        } else if status == 404 {
            Some(
                provider@
                    + " has no such model. Find a real id with `truecode models <search>`, then use `truecode --model <id>`."@,
            )
        } else if status == 402 {
            Some("Your "@ + provider@ + " account is out of credit."@)
        } else if status == 429 {
            Some(
                "Rate limited. Wait a moment, or switch to a smaller model with `truecode --model <id>`."@,
            )
        } else if 500 <= status && status <= 599 {
            Some(provider@ + " is having trouble on their end. This is not your setup."@)
        } else if status == 400 && (contains(body@, "context"@) || contains(body@, "token"@)) {
            Some(
                "The request was too large for this model's context window. Start a fresh session, or pick a model with a bigger window."@,
            )
        } else {
            None
        },
        ProviderError::Decode { .. } => Some(
            "The provider sent something true-code could not read. Re-run with --verbose to see the raw stream, and please report it."@,
        ),
    }
}

impl ProviderError {
    /// The error as the provider reported it.
    pub fn message(&self) -> (r: String)
        ensures
            r@ == provider_error_text(*self),
    {
        match self {
            ProviderError::Network { provider, detail } => {
                let mut out = String::from_str("network error talking to ");
                push_str(&mut out, provider.as_str());
                push_str(&mut out, ": ");
                push_str(&mut out, detail.as_str());
                out
            },
            ProviderError::Api { provider, status, body } => {
                let mut out = String::from_str(provider.as_str());
                push_str(&mut out, " returned HTTP ");
                push_str(&mut out, crate::text::usize_to_string(*status as usize).as_str());
                push_str(&mut out, ": ");
                push_str(&mut out, body.as_str());
                out
            },
            ProviderError::Decode { provider, detail } => {
                let mut out = String::from_str("cannot decode ");
                push_str(&mut out, provider.as_str());
                push_str(&mut out, " stream: ");
                push_str(&mut out, detail.as_str());
                out
            },
        }
    }

    /// What to do about the error, where there is something to do; an
    /// unknown bad request gets no guess.
    pub fn advice(&self) -> (r: Option<String>)
        ensures
            match r {
                Some(a) => provider_advice(*self) == Some(a@),
                None => provider_advice(*self) is None,
            },
    {
        match self {
            ProviderError::Network { .. } => Some(
                String::from_str(
                    "Could not reach the provider. Check your connection, then try again — nothing was sent, so nothing was charged.",
                ),
            ),
            ProviderError::Api { provider, status, body } => {
                let status = *status;
                if status == 401 || status == 403 {
                    let mut out = String::from_str("Your ");
                    push_str(&mut out, provider.as_str());
                    push_str(
                        &mut out,
                        " key was rejected. Check it with `truecode auth status`, or replace it with `truecode auth login ",
                    );
                    push_str(&mut out, provider.as_str());
                    push_str(&mut out, "`.");
                    Some(out)
                } else if status == 404 {
                    let mut out = String::from_str(provider.as_str());
                    push_str(
                        &mut out,
                        " has no such model. Find a real id with `truecode models <search>`, then use `truecode --model <id>`.",
                    );
                    Some(out)
                } else if status == 402 {
                    let mut out = String::from_str("Your ");
                    push_str(&mut out, provider.as_str());
                    push_str(&mut out, " account is out of credit.");
                    Some(out)
                } else if status == 429 {
                    Some(
                        String::from_str(
                            "Rate limited. Wait a moment, or switch to a smaller model with `truecode --model <id>`.",
                        ),
                    )
                } else if 500 <= status && status <= 599 {
                    let mut out = String::from_str(provider.as_str());
                    push_str(&mut out, " is having trouble on their end. This is not your setup.");
                    Some(out)
                } else if status == 400 && (crate::text::str_contains(body.as_str(), "context")
                    || crate::text::str_contains(body.as_str(), "token")) {
                    Some(
                        String::from_str(
                            "The request was too large for this model's context window. Start a fresh session, or pick a model with a bigger window.",
                        ),
                    )
                } else {
                    None
                }
            },
            ProviderError::Decode { .. } => Some(
                String::from_str(
                    "The provider sent something true-code could not read. Re-run with --verbose to see the raw stream, and please report it.",
                ),
            ),
        }
    }

    /// The error in the provider's own words, then the advice after a blank
    /// line where there is advice.
    pub fn explain(&self) -> (r: String)
        ensures
            r@ == match provider_advice(*self) {
                Some(a) => provider_error_text(*self) + "\n\n"@ + a,
                None => provider_error_text(*self),
            },
    {
        let mut out = self.message();
        match self.advice() {
            Some(a) => {
                push_str(&mut out, "\n\n");
                push_str(&mut out, a.as_str());
            },
            None => {},
        }
        out
    }
}

/// An error body as shown: whole when it fits in `MAX_ERROR_BODY` bytes,
/// otherwise its longest prefix that fits on a character boundary, an
/// ellipsis, and the full size.
pub open spec fn shown_body(body: Seq<char>) -> Seq<char> {
    if utf8_len(body) <= MAX_ERROR_BODY {
        body
    } else {
        body.take(fitting_prefix(body, MAX_ERROR_BODY as nat) as int) + "… ("@ + decimal(
            utf8_len(body),
        ) + " bytes total)"@
    }
}

/// Cuts an error body to a readable size.
pub fn truncate_body(body: &str) -> (r: String)
    ensures
        r@ == shown_body(body@),
{
    let v = crate::text::to_chars(body);
    let total = crate::tools::byte_len(&v);
    if total <= MAX_ERROR_BODY as u128 {
        return String::from_str(body);
    }
    let k = crate::tools::fitting_count(&v, MAX_ERROR_BODY);
    proof {
        crate::tools::lemma_fitting_prefix(v@, MAX_ERROR_BODY as nat);
    }
    let mut out = crate::text::from_chars(&crate::text::slice_chars(&v, 0, k));
    proof {
        assert(v@.subrange(0, k as int) =~= v@.take(k as int));
    }
    push_str(&mut out, "… (");
    push_str(&mut out, crate::text::from_chars(&crate::text::u128_decimal(total)).as_str());
    push_str(&mut out, " bytes total)");
    out
}

// ---------------------------------------------------------------------------
// Stop reasons
// ---------------------------------------------------------------------------

/// Anthropic's stop reasons.
pub open spec fn anthropic_stop(raw: Option<Seq<char>>) -> StopReason {
    if raw == Some("end_turn"@) {
        StopReason::EndTurn
    } else if raw == Some("tool_use"@) {
        StopReason::ToolUse
    } else if raw == Some("max_tokens"@) {
        StopReason::MaxTokens
    } else if raw == Some("stop_sequence"@) {
        StopReason::StopSequence
    } else {
        StopReason::Other(OtherReason)
    }
}

/// OpenAI's finish reasons.
pub open spec fn openai_stop(raw: Option<Seq<char>>) -> StopReason {
    if raw == Some("stop"@) {
        StopReason::EndTurn
    } else if raw == Some("tool_calls"@) {
        StopReason::ToolUse
    } else if raw == Some("length"@) {
        StopReason::MaxTokens
    } else {
        StopReason::Other(OtherReason)
    }
}

/// An optional string as a value.
pub open spec fn opt_view(s: Option<String>) -> Option<Seq<char>> {
    match s {
        Some(s) => Some(s@),
        None => None,
    }
}

/// Maps Anthropic's `stop_reason`.
pub fn map_anthropic_stop(raw: &Option<String>) -> (r: StopReason)
    ensures
        r == anthropic_stop(opt_view(*raw)),
{
    proof {
        reveal_strlit("end_turn");
        reveal_strlit("tool_use");
        reveal_strlit("max_tokens");
        reveal_strlit("stop_sequence");
    }
    match raw {
        Some(s) => {
            let s = s.as_str();
            if crate::text::str_eq(s, "end_turn") {
                StopReason::EndTurn
            } else if crate::text::str_eq(s, "tool_use") {
                StopReason::ToolUse
            } else if crate::text::str_eq(s, "max_tokens") {
                StopReason::MaxTokens
            } else if crate::text::str_eq(s, "stop_sequence") {
                StopReason::StopSequence
            } else {
                StopReason::Other(OtherReason)
            }
        },
        None => StopReason::Other(OtherReason),
    }
}

/// Maps OpenAI's `finish_reason`.
pub fn map_openai_stop(raw: &Option<String>) -> (r: StopReason)
    ensures
        r == openai_stop(opt_view(*raw)),
{
    proof {
        reveal_strlit("stop");
        reveal_strlit("tool_calls");
        reveal_strlit("length");
    }
    match raw {
        Some(s) => {
            let s = s.as_str();
            if crate::text::str_eq(s, "stop") {
                StopReason::EndTurn
            } else if crate::text::str_eq(s, "tool_calls") {
                StopReason::ToolUse
            } else if crate::text::str_eq(s, "length") {
                StopReason::MaxTokens
            } else {
                StopReason::Other(OtherReason)
            }
        },
        None => StopReason::Other(OtherReason),
    }
}

// ---------------------------------------------------------------------------
// Tool calls assembled from fragments
// ---------------------------------------------------------------------------

/// What `serde_json::from_str` makes of a text: the value, or the text of
/// its error.
pub uninterp spec fn json_parse(text: Seq<char>) -> Result<serde_json::Value, Seq<char>>;

/// Parses JSON with `serde_json::from_str`: the value, or the error's text.
#[verifier::external_body]
fn parse_json(raw: &str) -> (r: Result<serde_json::Value, String>)
    ensures
        match r {
            Ok(v) => json_parse(raw@) == Ok::<serde_json::Value, Seq<char>>(v),
            Err(e) => json_parse(raw@) == Err::<serde_json::Value, Seq<char>>(e@),
        },
{
    serde_json::from_str(raw).map_err(|err| err.to_string())
}

/// The text tool arguments are parsed from: blank arguments stand for `{}`.
pub open spec fn arguments_text(arguments: Seq<char>) -> Seq<char> {
    if crate::text::is_blank(arguments) {
        "{}"@
    } else {
        arguments
    }
}

/// A tool call still streaming in.
#[derive(Debug)]
pub struct PartialTool {
    pub id: String,
    pub name: String,
    pub arguments: String,
}

/// A partial tool as values: id, name, arguments so far.
pub open spec fn partial_view(p: PartialTool) -> (Seq<char>, Seq<char>, Seq<char>) {
    (p.id@, p.name@, p.arguments@)
}

/// The error for arguments that are not JSON.
pub open spec fn bad_arguments(name: Seq<char>, err: Seq<char>) -> Seq<char> {
    "tool `"@ + name + "` sent arguments that are not valid JSON: "@ + err
}

/// Turns a finished partial tool into a call: arguments that are blank stand
/// for `{}`, anything else must be JSON.
pub fn finish_tool(pending: PartialTool) -> (r: Result<ToolCall, String>)
    ensures
        match json_parse(arguments_text(pending.arguments@)) {
            Ok(v) => r matches Ok(call) && call.id@ == pending.id@ && call.name@ == pending.name@
                && call.input == v,
            Err(err) => r matches Err(e) && e@ == bad_arguments(pending.name@, err),
        },
{
    let PartialTool { id, name, arguments } = pending;
    let blank = crate::text::str_is_blank(arguments.as_str());
    let parsed = if blank {
        parse_json("{}")
    } else {
        parse_json(arguments.as_str())
    };
    match parsed {
        Ok(input) => Ok(ToolCall { id, name, input }),
        Err(err) => {
            let mut out = String::from_str("tool `");
            push_str(&mut out, name.as_str());
            push_str(&mut out, "` sent arguments that are not valid JSON: ");
            push_str(&mut out, err.as_str());
            proof {
                assert(out@ == bad_arguments(name@, err@));
            }
            Err(out)
        },
    }
}

/// Whether `index` is among the pending calls.
pub open spec fn has_index(items: Seq<(u32, (Seq<char>, Seq<char>, Seq<char>))>, index: u32) -> bool {
    exists|k: int| 0 <= k < items.len() && items[k].0 == index
}

/// A pending call as values: its index, and its id, name and arguments so far.
pub type PendingItem = (u32, (Seq<char>, Seq<char>, Seq<char>));

/// The pending calls after the call at `index` is replaced by `v`.
pub open spec fn replaced(items: Seq<PendingItem>, index: u32, v: (Seq<char>, Seq<char>, Seq<char>)) -> Seq<
    PendingItem,
> {
    items.map_values(|it: PendingItem| if it.0 == index { (index, v) } else { it })
}

/// The pending calls after the call at `index` gets the id `id`.
pub open spec fn with_id(items: Seq<PendingItem>, index: u32, id: Seq<char>) -> Seq<PendingItem> {
    items.map_values(|it: PendingItem| if it.0 == index { (index, (id, it.1.1, it.1.2)) } else { it })
}

/// The pending calls after the call at `index` gets the name `name`.
pub open spec fn with_name(items: Seq<PendingItem>, index: u32, name: Seq<char>) -> Seq<PendingItem> {
    items.map_values(|it: PendingItem| if it.0 == index { (index, (it.1.0, name, it.1.2)) } else { it })
}

/// The pending calls after `fragment` is appended to the arguments of the
/// call at `index`.
pub open spec fn with_args(items: Seq<PendingItem>, index: u32, fragment: Seq<char>) -> Seq<PendingItem> {
    items.map_values(
        |it: PendingItem| if it.0 == index { (index, (it.1.0, it.1.1, it.1.2 + fragment)) } else { it },
    )
}

/// The pending calls after a call is started at `index`: it replaces the
/// call already there, or comes last.
pub open spec fn started(items: Seq<PendingItem>, index: u32, id: Seq<char>, name: Seq<char>) -> Seq<
    PendingItem,
> {
    if has_index(items, index) {
        replaced(items, index, (id, name, Seq::<char>::empty()))
    } else {
        items.push((index, (id, name, Seq::<char>::empty())))
    }
}

/// No index occurs twice among the pending calls.
pub open spec fn unique_indices(items: Seq<(u32, (Seq<char>, Seq<char>, Seq<char>))>) -> bool {
    forall|a: int, b: int| 0 <= a < b < items.len() ==> #[trigger] items[a].0 != #[trigger] items[b].0
}

/// Whether the call at `k` has the smallest index.
pub open spec fn is_min_at(items: Seq<(u32, (Seq<char>, Seq<char>, Seq<char>))>, k: int) -> bool {
    0 <= k < items.len() && forall|j: int| 0 <= j < items.len() ==> items[k].0 <= #[trigger] items[j].0
}

/// The position of the pending call with the smallest index.
pub open spec fn min_pos(items: Seq<(u32, (Seq<char>, Seq<char>, Seq<char>))>) -> int {
    choose|k: int| #[trigger] is_min_at(items, k)
}

/// The pending calls in order of index.
pub open spec fn by_index(items: Seq<(u32, (Seq<char>, Seq<char>, Seq<char>))>) -> Seq<
    (u32, (Seq<char>, Seq<char>, Seq<char>)),
>
    decreases items.len(),
{
    if items.len() == 0 {
        seq![]
    } else {
        let k = min_pos(items);
        if 0 <= k < items.len() {
            seq![items[k]] + by_index(items.remove(k))
        } else {
            seq![]
        }
    }
}

/// What finishing a pending call gives: the call as values, or the error
/// for its arguments.
pub open spec fn finished(item: (u32, (Seq<char>, Seq<char>, Seq<char>))) -> Result<
    (Seq<char>, Seq<char>, serde_json::Value),
    Seq<char>,
> {
    match json_parse(arguments_text(item.1.2)) {
        Ok(v) => Ok((item.1.0, item.1.1, v)),
        Err(err) => Err(bad_arguments(item.1.1, err)),
    }
}

/// A delta as values.
pub enum DeltaView {
    Started(Seq<char>),
    Text(Seq<char>),
    Call(Seq<char>, Seq<char>, serde_json::Value),
    Completed(StopReason, Usage),
}

/// The value of a delta.
pub open spec fn delta_view(d: Delta) -> DeltaView {
    match d {
        Delta::Started { model } => DeltaView::Started(model@),
        Delta::Text { text } => DeltaView::Text(text@),
        Delta::ToolCall(c) => DeltaView::Call(c.id@, c.name@, c.input),
        Delta::Completed { stop_reason, usage } => DeltaView::Completed(stop_reason, usage),
    }
}

/// The values of deltas.
pub open spec fn deltas_view(ds: Seq<Delta>) -> Seq<DeltaView> {
    ds.map_values(|d: Delta| delta_view(d))
}

/// Finishing calls in the given order: every call, or the first error.
pub open spec fn finish_all(items: Seq<PendingItem>) -> Result<Seq<DeltaView>, Seq<char>>
    decreases items.len(),
{
    if items.len() == 0 {
        Ok(seq![])
    } else {
        match finish_all(items.drop_last()) {
            Err(e) => Err(e),
            Ok(ds) => match finished(items.last()) {
                Ok((id, name, v)) => Ok(ds.push(DeltaView::Call(id, name, v))),
                Err(e) => Err(e),
            },
        }
    }
}

/// What draining the pending calls gives: each finished, in order of index,
/// or the first error.
pub open spec fn drained(items: Seq<PendingItem>) -> Result<Seq<DeltaView>, Seq<char>> {
    finish_all(by_index(items))
}

/// Once a prefix of the calls fails to finish, the whole does, with the same
/// error.
proof fn lemma_finish_all_err(items: Seq<PendingItem>, k: int)
    requires
        0 <= k <= items.len(),
        finish_all(items.take(k)) is Err,
    ensures
        finish_all(items) == finish_all(items.take(k)),
    decreases items.len() - k,
{
    if k < items.len() {
        assert(items.take(k + 1).drop_last() =~= items.take(k));
        lemma_finish_all_err(items, k + 1);
    } else {
        assert(items.take(k) =~= items);
    }
}

/// When the call at `k` has the smallest index and indices are unique, the
/// calls in order of index start with it.
proof fn lemma_by_index_head(items: Seq<(u32, (Seq<char>, Seq<char>, Seq<char>))>, k: int)
    requires
        unique_indices(items),
        0 <= k < items.len(),
        forall|j: int| 0 <= j < items.len() ==> items[k].0 <= #[trigger] items[j].0,
    ensures
        by_index(items) == seq![items[k]] + by_index(items.remove(k)),
{
    assert(is_min_at(items, k));
    let m = min_pos(items);
    assert(is_min_at(items, m));
    assert(items[m].0 <= items[k].0 && items[k].0 <= items[m].0);
    if m != k {
        if m < k {
            assert(items[m].0 != items[k].0);
        } else {
            assert(items[k].0 != items[m].0);
        }
    }
}

/// Ordering by index keeps every call.
proof fn lemma_by_index_len(items: Seq<(u32, (Seq<char>, Seq<char>, Seq<char>))>)
    ensures
        by_index(items).len() == items.len(),
    decreases items.len(),
{
    if items.len() > 0 {
        lemma_has_min(items);
        let k = min_pos(items);
        assert(is_min_at(items, k));
        lemma_by_index_len(items.remove(k));
    }
}

/// A non-empty list of pending calls has one with the smallest index.
proof fn lemma_has_min(items: Seq<(u32, (Seq<char>, Seq<char>, Seq<char>))>)
    requires
        items.len() > 0,
    ensures
        exists|k: int| #[trigger] is_min_at(items, k),
    decreases items.len(),
{
    if items.len() == 1 {
        assert(is_min_at(items, 0));
    } else {
        let rest = items.drop_last();
        lemma_has_min(rest);
        let k = choose|k: int| #[trigger] is_min_at(rest, k);
        if items[k].0 <= items.last().0 {
            assert forall|j: int| 0 <= j < items.len() implies items[k].0 <= #[trigger] items[j].0 by {
                if j < rest.len() {
                    assert(rest[j] == items[j]);
                }
            }
            assert(is_min_at(items, k));
        } else {
            let l = items.len() - 1;
            assert forall|j: int| 0 <= j < items.len() implies items[l].0 <= #[trigger] items[j].0 by {
                if j < rest.len() {
                    assert(rest[j] == items[j]);
                    assert(rest[k].0 <= rest[j].0);
                }
            }
            assert(is_min_at(items, l));
        }
    }
}

/// Tool calls in progress, keyed by index, each index once.
pub struct PendingTools {
    entries: Vec<(u32, PartialTool)>,
}

impl PendingTools {
    /// The pending calls as values, in insertion order.
    pub closed spec fn items(&self) -> Seq<(u32, (Seq<char>, Seq<char>, Seq<char>))> {
        self.entries@.map_values(|e: (u32, PartialTool)| (e.0, partial_view(e.1)))
    }

    /// Each index at most once.
    pub closed spec fn wf(&self) -> bool {
        forall|a: int, b: int|
            0 <= a < b < self.entries@.len() ==> #[trigger] self.entries@[a].0 != #[trigger] self.entries@[b].0
    }

    /// Each index is pending at most once.
    pub proof fn lemma_unique(&self)
        requires
            self.wf(),
        ensures
            unique_indices(self.items()),
    {
        assert forall|a: int, b: int| 0 <= a < b < self.items().len() implies #[trigger] self.items()[a].0
            != #[trigger] self.items()[b].0 by {
            assert(self.items()[a].0 == self.entries@[a].0 && self.items()[b].0 == self.entries@[b].0);
        }
    }

    /// None pending.
    pub fn new() -> (r: Self)
        ensures
            r.wf(),
            r.items().len() == 0,
    {
        let r = PendingTools { entries: Vec::new() };
        proof {
            assert(r.items() =~= seq![]);
        }
        r
    }

    /// The position of `index`.
    fn find(&self, index: u32) -> (r: Option<usize>)
        requires
            self.wf(),
        ensures
            match r {
                Some(k) => k < self.entries@.len() && self.entries@[k as int].0 == index,
                None => forall|k: int| 0 <= k < self.entries@.len() ==> self.entries@[k].0 != index,
            },
    {
        let mut k: usize = 0;
        while k < self.entries.len()
            invariant
                k <= self.entries.len(),
                forall|j: int| 0 <= j < k ==> self.entries@[j].0 != index,
            decreases self.entries.len() - k,
        {
            if self.entries[k].0 == index {
                return Some(k);
            }
            k += 1;
        }
        None
    }

    /// Starts (or restarts) the call at `index`.
    pub fn start(&mut self, index: u32, id: String, name: String)
        requires
            old(self).wf(),
        ensures
            final(self).wf(),
            final(self).items() == started(old(self).items(), index, id@, name@),
            exists|k: int|
                0 <= k < final(self).items().len() && final(self).items()[k] == (index, (id@, name@, Seq::<char>::empty())),
            forall|j: u32| j != index ==> has_index(old(self).items(), j) == #[trigger] has_index(final(self).items(), j),
    {
        let fresh = PartialTool { id, name, arguments: String::new() };
        let ghost fv = partial_view(fresh);
        proof {
            assert(fv.2 =~= Seq::<char>::empty());
        }
        match self.find(index) {
            Some(k) => {
                let ghost before = self.entries@;
                self.entries.set(k, (index, fresh));
                proof {
                    assert(self.items()[k as int] == (index, fv));
                    assert(has_index(old(self).items(), index)) by {
                        assert(old(self).items()[k as int].0 == index);
                    }
                    assert forall|q: int| 0 <= q < self.items().len() implies #[trigger] self.items()[q]
                        == replaced(old(self).items(), index, fv)[q] by {
                        if q != k {
                            assert(before[q].0 != index);
                        }
                    }
                    assert(self.items() =~= replaced(old(self).items(), index, fv));
                    assert forall|a: int, b: int| 0 <= a < b < self.entries@.len() implies #[trigger] self.entries@[a].0
                        != #[trigger] self.entries@[b].0 by {
                        assert(self.entries@[a].0 == before[a].0);
                        assert(self.entries@[b].0 == before[b].0);
                    }
                    assert forall|j: u32| j != index implies has_index(old(self).items(), j) == #[trigger] has_index(self.items(), j) by {
                        if exists|q: int| 0 <= q < old(self).items().len() && old(self).items()[q].0 == j {
                            let q = choose|q: int| 0 <= q < old(self).items().len() && old(self).items()[q].0 == j;
                            assert(self.items()[q].0 == j);
                        }
                        if exists|q: int| 0 <= q < self.items().len() && self.items()[q].0 == j {
                            let q = choose|q: int| 0 <= q < self.items().len() && self.items()[q].0 == j;
                            assert(old(self).items()[q].0 == j);
                        }
                    }
                }
            },
            None => {
                let ghost before = self.entries@;
                self.entries.push((index, fresh));
                proof {
                    assert(self.items()[before.len() as int] == (index, fv));
                    assert(!has_index(old(self).items(), index));
                    assert(self.items() =~= old(self).items().push((index, fv)));
                    assert forall|a: int, b: int| 0 <= a < b < self.entries@.len() implies #[trigger] self.entries@[a].0
                        != #[trigger] self.entries@[b].0 by {
                        assert(self.entries@[a].0 == before[a].0);
                        if b < before.len() {
                            assert(self.entries@[b].0 == before[b].0);
                        }
                    }
                    assert forall|j: u32| j != index implies has_index(old(self).items(), j) == #[trigger] has_index(self.items(), j) by {
                        if exists|q: int| 0 <= q < old(self).items().len() && old(self).items()[q].0 == j {
                            let q = choose|q: int| 0 <= q < old(self).items().len() && old(self).items()[q].0 == j;
                            assert(self.items()[q].0 == j);
                        }
                        if exists|q: int| 0 <= q < self.items().len() && self.items()[q].0 == j {
                            let q = choose|q: int| 0 <= q < self.items().len() && self.items()[q].0 == j;
                            assert(q < before.len());
                            assert(old(self).items()[q].0 == j);
                        }
                    }
                }
            },
        }
    }

    /// Appends a fragment of arguments to the call at `index`; a fragment for
    /// an index with no call is dropped. No other call changes.
    pub fn append(&mut self, index: u32, fragment: &str)
        requires
            old(self).wf(),
        ensures
            final(self).wf(),
            final(self).items() == with_args(old(self).items(), index, fragment@),
            final(self).items().len() == old(self).items().len(),
            forall|k: int|
                0 <= k < old(self).items().len() ==> (#[trigger] final(self).items()[k]) == if old(
                    self,
                ).items()[k].0 == index {
                    (
                        index,
                        (
                            old(self).items()[k].1.0,
                            old(self).items()[k].1.1,
                            old(self).items()[k].1.2 + fragment@,
                        ),
                    )
                } else {
                    old(self).items()[k]
                },
    {
        match self.find(index) {
            Some(k) => {
                let ghost before = self.items();
                let (i, mut p) = self.entries.remove(k);
                push_str(&mut p.arguments, fragment);
                self.entries.insert(k, (i, p));
                proof {
                    assert forall|q: int| 0 <= q < before.len() implies (#[trigger] self.items()[q])
                        == if before[q].0 == index {
                        (index, (before[q].1.0, before[q].1.1, before[q].1.2 + fragment@))
                    } else {
                        before[q]
                    } by {
                        if q != k {
                            assert(self.entries@[q] == old(self).entries@[q]);
                            assert(old(self).entries@[q].0 != index);
                        }
                    }
                    assert forall|a: int, b: int| 0 <= a < b < self.entries@.len() implies #[trigger] self.entries@[a].0
                        != #[trigger] self.entries@[b].0 by {
                        assert(self.entries@[a].0 == old(self).entries@[a].0);
                        assert(self.entries@[b].0 == old(self).entries@[b].0);
                    }
                }
            },
            None => {},
        }
    }

    /// Takes the call at `index` out, if it is pending.
    pub fn take(&mut self, index: u32) -> (r: Option<PartialTool>)
        requires
            old(self).wf(),
        ensures
            final(self).wf(),
            match r {
                Some(p) => exists|k: int|
                    0 <= k < old(self).items().len() && old(self).items()[k] == (index, partial_view(p))
                        && final(self).items() == old(self).items().remove(k),
                None => final(self).items() == old(self).items() && forall|k: int|
                    0 <= k < old(self).items().len() ==> old(self).items()[k].0 != index,
            },
    {
        match self.find(index) {
            Some(k) => {
                let (_, p) = self.entries.remove(k);
                proof {
                    assert(self.items() =~= old(self).items().remove(k as int));
                    assert forall|a: int, b: int| 0 <= a < b < self.entries@.len() implies #[trigger] self.entries@[a].0
                        != #[trigger] self.entries@[b].0 by {
                        let oa = if a < k { a } else { a + 1 };
                        let ob = if b < k { b } else { b + 1 };
                        assert(self.entries@[a] == old(self).entries@[oa]);
                        assert(self.entries@[b] == old(self).entries@[ob]);
                    }
                }
                Some(p)
            },
            None => None,
        }
    }

    /// The smallest pending index.
    fn smallest(&self) -> (r: Option<u32>)
        requires
            self.wf(),
        ensures
            match r {
                Some(i) => (exists|k: int| 0 <= k < self.items().len() && self.items()[k].0 == i)
                    && forall|k: int| 0 <= k < self.items().len() ==> i <= #[trigger] self.items()[k].0,
                None => self.items().len() == 0,
            },
    {
        if self.entries.len() == 0 {
            return None;
        }
        let mut best = self.entries[0].0;
        let mut k: usize = 1;
        while k < self.entries.len()
            invariant
                1 <= k <= self.entries.len(),
                exists|q: int| 0 <= q < k && self.entries@[q].0 == best,
                forall|q: int| 0 <= q < k ==> best <= self.entries@[q].0,
            decreases self.entries.len() - k,
        {
            if self.entries[k].0 < best {
                best = self.entries[k].0;
            }
            k += 1;
        }
        proof {
            let q = choose|q: int| 0 <= q < k && self.entries@[q].0 == best;
            assert(self.items()[q].0 == best);
            assert forall|q: int| 0 <= q < self.items().len() implies best <= #[trigger] self.items()[q].0 by {
                assert(self.items()[q].0 == self.entries@[q].0);
            }
        }
        Some(best)
    }

    /// Finishes every pending call, in order of index, leaving none pending.
    /// The first whose arguments are not JSON stops the drain with its error.
    pub fn drain(&mut self) -> (r: Result<Vec<Delta>, String>)
        requires
            old(self).wf(),
        ensures
            final(self).wf(),
            r is Ok ==> final(self).items().len() == 0,
            r matches Ok(ds) ==> ds@.len() == old(self).items().len() && forall|k: int|
                0 <= k < ds@.len() ==> (#[trigger] ds@[k] matches Delta::ToolCall(c) && finished(
                    by_index(old(self).items())[k],
                ) == Ok::<(Seq<char>, Seq<char>, serde_json::Value), Seq<char>>((c.id@, c.name@, c.input))),
            r matches Err(e) ==> exists|k: int|
                0 <= k < old(self).items().len() && (forall|j: int|
                    0 <= j < k ==> #[trigger] finished(by_index(old(self).items())[j]) is Ok) && finished(
                    by_index(old(self).items())[k],
                ) == Err::<(Seq<char>, Seq<char>, serde_json::Value), Seq<char>>(e@),
            match drained(old(self).items()) {
                Ok(cs) => r matches Ok(ds) && deltas_view(ds@) == cs,
                Err(e) => r matches Err(x) && x@ == e,
            },
    {
        let ghost orig = self.items();
        let ghost order = by_index(orig);
        proof {
            lemma_by_index_len(orig);
            assert(order.skip(0) =~= order);
            assert(order.take(0) =~= seq![]);
        }
        let mut out: Vec<Delta> = Vec::new();
        proof {
            assert(deltas_view(out@) =~= seq![]);
        }
        while self.entries.len() > 0
            invariant
                self.wf(),
                orig == old(self).items(),
                order == by_index(orig),
                order.len() == orig.len(),
                out@.len() + self.items().len() == orig.len(),
                order.skip(out@.len() as int) == by_index(self.items()),
                finish_all(order.take(out@.len() as int)) == Ok::<Seq<DeltaView>, Seq<char>>(deltas_view(out@)),
                forall|k: int|
                    0 <= k < out@.len() ==> (#[trigger] out@[k] matches Delta::ToolCall(c) && finished(
                        order[k],
                    ) == Ok::<(Seq<char>, Seq<char>, serde_json::Value), Seq<char>>((c.id@, c.name@, c.input))),
            decreases self.entries.len(),
        {
            let ghost before = self.items();
            let ghost m = out@.len() as int;
            proof {
                assert forall|a: int, b: int| 0 <= a < b < before.len() implies #[trigger] before[a].0
                    != #[trigger] before[b].0 by {
                    assert(before[a].0 == self.entries@[a].0 && before[b].0 == self.entries@[b].0);
                }
            }
            let index = match self.smallest() {
                Some(i) => i,
                None => {
                    proof {
                        assert(false);
                    }
                    return Ok(out);
                },
            };
            let pending = match self.take(index) {
                Some(p) => p,
                None => {
                    proof {
                        assert(false);
                    }
                    return Ok(out);
                },
            };
            proof {
                let k = choose|k: int|
                    0 <= k < before.len() && before[k] == (index, partial_view(pending))
                        && self.items() == before.remove(k);
                lemma_by_index_head(before, k);
                assert(order[m] == order.skip(m)[0]);
                assert(order.skip(m + 1) =~= order.skip(m).skip(1));
                assert(by_index(before).skip(1) =~= by_index(before.remove(k)));
            }
            proof {
                assert(order.take(m + 1).drop_last() =~= order.take(m));
                assert(order.take(m + 1).last() == order[m]);
            }
            match finish_tool(pending) {
                Ok(call) => {
                    let ghost before_out = out@;
                    out.push(Delta::ToolCall(call));
                    proof {
                        assert(deltas_view(out@) =~= deltas_view(before_out).push(delta_view(Delta::ToolCall(call))));
                    }
                },
                Err(e) => {
                    proof {
                        assert(finished(order[m]) == Err::<(Seq<char>, Seq<char>, serde_json::Value), Seq<char>>(e@));
                        assert forall|j: int| 0 <= j < m implies #[trigger] finished(order[j]) is Ok by {
                            assert(out@[j] matches Delta::ToolCall(_));
                        }
                        assert(0 <= m < orig.len());
                        assert(orig == old(self).items());
                        lemma_finish_all_err(order, m + 1);
                        assert((forall|j: int| 0 <= j < m ==> #[trigger] finished(by_index(old(self).items())[j]) is Ok)
                            && finished(by_index(old(self).items())[m]) == Err::<(Seq<char>, Seq<char>, serde_json::Value), Seq<char>>(e@));
                    }
                    return Err(e);
                },
            }
        }
        proof {
            assert(out@.len() == orig.len());
            assert(order.take(out@.len() as int) =~= order);
        }
        Ok(out)
    }
}

// ---------------------------------------------------------------------------
// The Anthropic stream
// ---------------------------------------------------------------------------

/// The events of an Anthropic stream that matter, already decoded.
#[derive(Debug)]
pub enum AnthropicEvent {
    /// The message begins: its model and the input side of its usage.
    MessageStart { model: String, input_tokens: u32, cache_read_tokens: u32, cache_write_tokens: u32 },
    /// A content block begins; `tool` is the id and name of a tool call.
    BlockStart { index: u32, tool: Option<(String, String)> },
    /// More text.
    TextDelta { index: u32, text: String },
    /// More tool arguments.
    JsonDelta { index: u32, partial_json: String },
    /// A content block ends.
    BlockStop { index: u32 },
    /// The message ends: why, and the output side of its usage.
    MessageDelta { stop_reason: Option<String>, output_tokens: u32 },
    /// Anything else.
    Ignored,
}

/// Whether the answer to a block's end is what finishing its call gives:
/// the call, or the error for its arguments.
pub open spec fn finish_outcome(
    r: Result<Option<Delta>, String>,
    f: Result<(Seq<char>, Seq<char>, serde_json::Value), Seq<char>>,
) -> bool {
    match f {
        Ok((id, name, input)) => r matches Ok(Some(Delta::ToolCall(c))) && c.id@ == id && c.name@ == name
            && c.input == input,
        Err(e) => r matches Err(x) && x@ == e,
    }
}

/// The call pending at `index`, if any: the last one with that index.
pub open spec fn call_at(items: Seq<PendingItem>, index: u32) -> Option<(Seq<char>, Seq<char>, Seq<char>)>
    decreases items.len(),
{
    if items.len() == 0 {
        None
    } else if items.last().0 == index {
        Some(items.last().1)
    } else {
        call_at(items.drop_last(), index)
    }
}

/// The pending calls without the one at `index`.
pub open spec fn dropped(items: Seq<PendingItem>, index: u32) -> Seq<PendingItem>
    decreases items.len(),
{
    if items.len() == 0 {
        seq![]
    } else if items.last().0 == index {
        dropped(items.drop_last(), index)
    } else {
        dropped(items.drop_last(), index).push(items.last())
    }
}

/// The pending calls after one event: a tool block's start starts its call,
/// arguments are appended to their block's call, a block's end drops its
/// call, and nothing else changes them.
pub open spec fn event_step(items: Seq<PendingItem>, e: AnthropicEvent) -> Seq<PendingItem> {
    match e {
        AnthropicEvent::BlockStart { index, tool: Some((id, name)) } => started(items, index, id@, name@),
        AnthropicEvent::JsonDelta { index, partial_json } => with_args(items, index, partial_json@),
        AnthropicEvent::BlockStop { index } => dropped(items, index),
        _ => items,
    }
}

/// The pending calls after a run of events.
pub open spec fn after_events(items: Seq<PendingItem>, evs: Seq<AnthropicEvent>) -> Seq<PendingItem>
    decreases evs.len(),
{
    if evs.len() == 0 {
        items
    } else {
        event_step(after_events(items, evs.drop_last()), evs.last())
    }
}

/// The arguments a run of events sends for the block at `index`, joined.
pub open spec fn args_for(evs: Seq<AnthropicEvent>, index: u32) -> Seq<char>
    decreases evs.len(),
{
    if evs.len() == 0 {
        seq![]
    } else {
        args_for(evs.drop_last(), index) + match evs.last() {
            AnthropicEvent::JsonDelta { index: j, partial_json } => if j == index {
                partial_json@
            } else {
                seq![]
            },
            _ => seq![],
        }
    }
}

/// Whether an event starts or ends the block at `index`.
pub open spec fn touches_block(e: AnthropicEvent, index: u32) -> bool {
    match e {
        AnthropicEvent::BlockStart { index: j, .. } => j == index,
        AnthropicEvent::BlockStop { index: j } => j == index,
        _ => false,
    }
}

proof fn lemma_call_at_has(items: Seq<PendingItem>, i: u32)
    ensures
        call_at(items, i) is Some <==> has_index(items, i),
    decreases items.len(),
{
    if items.len() > 0 {
        lemma_call_at_has(items.drop_last(), i);
        if has_index(items.drop_last(), i) {
            let q = choose|q: int| 0 <= q < items.drop_last().len() && items.drop_last()[q].0 == i;
            assert(items[q].0 == i);
        }
        if has_index(items, i) && items.last().0 != i {
            let q = choose|q: int| 0 <= q < items.len() && items[q].0 == i;
            assert(q < items.len() - 1);
            assert(items.drop_last()[q].0 == i);
        }
        if items.last().0 == i {
            assert(items[items.len() - 1].0 == i);
        }
    }
}

proof fn lemma_call_at_replaced(items: Seq<PendingItem>, j: u32, v: (Seq<char>, Seq<char>, Seq<char>), i: u32)
    ensures
        call_at(replaced(items, j, v), i) == if i == j {
            match call_at(items, i) {
                Some(_) => Some(v),
                None => None,
            }
        } else {
            call_at(items, i)
        },
    decreases items.len(),
{
    if items.len() > 0 {
        assert(replaced(items, j, v).drop_last() =~= replaced(items.drop_last(), j, v));
        lemma_call_at_replaced(items.drop_last(), j, v, i);
    }
}

proof fn lemma_call_at_with_args(items: Seq<PendingItem>, j: u32, f: Seq<char>, i: u32)
    ensures
        call_at(with_args(items, j, f), i) == if i == j {
            match call_at(items, i) {
                Some(c) => Some((c.0, c.1, c.2 + f)),
                None => None,
            }
        } else {
            call_at(items, i)
        },
    decreases items.len(),
{
    if items.len() > 0 {
        assert(with_args(items, j, f).drop_last() =~= with_args(items.drop_last(), j, f));
        lemma_call_at_with_args(items.drop_last(), j, f, i);
    }
}

proof fn lemma_call_at_dropped(items: Seq<PendingItem>, j: u32, i: u32)
    ensures
        call_at(dropped(items, j), i) == if i == j {
            None
        } else {
            call_at(items, i)
        },
    decreases items.len(),
{
    if items.len() > 0 {
        lemma_call_at_dropped(items.drop_last(), j, i);
        if items.last().0 != j {
            let d = dropped(items.drop_last(), j);
            assert(d.push(items.last()).drop_last() =~= d);
        }
    }
}

proof fn lemma_call_at_started(items: Seq<PendingItem>, j: u32, id: Seq<char>, name: Seq<char>, i: u32)
    ensures
        call_at(started(items, j, id, name), i) == if i == j {
            Some((id, name, Seq::<char>::empty()))
        } else {
            call_at(items, i)
        },
{
    lemma_call_at_has(items, j);
    if has_index(items, j) {
        lemma_call_at_replaced(items, j, (id, name, Seq::<char>::empty()), i);
    } else {
        assert(items.push((j, (id, name, Seq::<char>::empty()))).drop_last() =~= items);
    }
}

proof fn lemma_dropped_absent(items: Seq<PendingItem>, j: u32)
    requires
        !has_index(items, j),
    ensures
        dropped(items, j) == items,
    decreases items.len(),
{
    if items.len() > 0 {
        assert(!has_index(items.drop_last(), j)) by {
            if has_index(items.drop_last(), j) {
                let q = choose|q: int| 0 <= q < items.drop_last().len() && items.drop_last()[q].0 == j;
                assert(items[q].0 == j);
            }
        }
        lemma_dropped_absent(items.drop_last(), j);
        assert(items[items.len() - 1].0 != j);
        assert(items.drop_last().push(items.last()) =~= items);
    }
}

/// With each index once, taking out the call at `k` drops its index, and
/// the call found at that index is the one at `k`.
proof fn lemma_remove_is_dropped(items: Seq<PendingItem>, k: int)
    requires
        unique_indices(items),
        0 <= k < items.len(),
    ensures
        items.remove(k) == dropped(items, items[k].0),
        call_at(items, items[k].0) == Some(items[k].1),
    decreases items.len(),
{
    let j = items[k].0;
    let rest = items.drop_last();
    assert(unique_indices(rest)) by {
        assert forall|a: int, b: int| 0 <= a < b < rest.len() implies #[trigger] rest[a].0 != #[trigger] rest[b].0 by {
            assert(rest[a] == items[a] && rest[b] == items[b]);
        }
    }
    if k == items.len() - 1 {
        assert(!has_index(rest, j)) by {
            if has_index(rest, j) {
                let q = choose|q: int| 0 <= q < rest.len() && rest[q].0 == j;
                assert(items[q].0 == j);
            }
        }
        lemma_dropped_absent(rest, j);
        assert(items.remove(k) =~= rest);
    } else {
        assert(items.last().0 != j) by {
            assert(items[k].0 != items[items.len() - 1].0);
        }
        assert(rest[k] == items[k]);
        lemma_remove_is_dropped(rest, k);
        assert(items.remove(k) =~= rest.remove(k).push(items.last()));
    }
}

/// A tool call is assembled across the events of a stream: once its block
/// has started, whatever other blocks do in between, the call pending at
/// its index has the block's id and name and every argument fragment sent
/// for that block, in order.
pub proof fn lemma_call_assembled(
    items: Seq<PendingItem>,
    index: u32,
    id: Seq<char>,
    name: Seq<char>,
    evs: Seq<AnthropicEvent>,
)
    requires
        forall|k: int| 0 <= k < evs.len() ==> !touches_block(#[trigger] evs[k], index),
    ensures
        call_at(after_events(started(items, index, id, name), evs), index) == Some(
            (id, name, args_for(evs, index)),
        ),
    decreases evs.len(),
{
    let start = started(items, index, id, name);
    if evs.len() == 0 {
        lemma_call_at_started(items, index, id, name, index);
    } else {
        let rest = evs.drop_last();
        assert forall|k: int| 0 <= k < rest.len() implies !touches_block(#[trigger] rest[k], index) by {
            assert(rest[k] == evs[k]);
        }
        lemma_call_assembled(items, index, id, name, rest);
        let mid = after_events(start, rest);
        let e = evs.last();
        assert(!touches_block(evs[evs.len() - 1], index));
        match e {
            AnthropicEvent::BlockStart { index: j, tool: Some((id2, name2)) } => {
                lemma_call_at_started(mid, j, id2@, name2@, index);
            },
            AnthropicEvent::JsonDelta { index: j, partial_json } => {
                lemma_call_at_with_args(mid, j, partial_json@, index);
            },
            AnthropicEvent::BlockStop { index: j } => {
                lemma_call_at_dropped(mid, j, index);
            },
            _ => {},
        }
        if !(e is JsonDelta) {
            assert(args_for(evs, index) =~= args_for(rest, index));
        } else if e->JsonDelta_index != index {
            assert(args_for(evs, index) =~= args_for(rest, index));
        }
    }
}

/// What the end of the block at `index` answers, given the pending calls:
/// the call pending there, finished, or nothing when none is.
pub open spec fn stop_outcome(items: Seq<PendingItem>, index: u32, r: Result<Option<Delta>, String>) -> bool {
    match call_at(items, index) {
        Some(c) => finish_outcome(r, finished((index, c))),
        None => r matches Ok(None),
    }
}

/// A tool call comes out whole when its block ends: if a block started
/// with `id` and `name`, and events that neither start nor end that block
/// followed, the end of the block answers the call with that id and name
/// and the arguments of every fragment sent for the block, joined in order
/// (or the parse error that names the tool), and the block is no longer
/// pending afterwards.
pub proof fn lemma_tool_call_on_stop(
    items: Seq<PendingItem>,
    index: u32,
    id: Seq<char>,
    name: Seq<char>,
    evs: Seq<AnthropicEvent>,
    r: Result<Option<Delta>, String>,
)
    requires
        forall|k: int| 0 <= k < evs.len() ==> !touches_block(#[trigger] evs[k], index),
        stop_outcome(after_events(started(items, index, id, name), evs), index, r),
    ensures
        finish_outcome(r, finished((index, (id, name, args_for(evs, index))))),
        call_at(
            event_step(after_events(started(items, index, id, name), evs), AnthropicEvent::BlockStop { index }),
            index,
        ) is None,
{
    lemma_call_assembled(items, index, id, name, evs);
    lemma_call_at_dropped(after_events(started(items, index, id, name), evs), index, index);
}

/// What carries across the events of one Anthropic stream.
pub struct AnthropicStream {
    pub usage: Usage,
    pub pending: PendingTools,
}

impl AnthropicStream {
    /// The state before the first event.
    pub fn new() -> (r: Self)
        ensures
            r.pending.wf(),
            r.pending.items().len() == 0,
            r.usage == crate::message::zero_usage(),
    {
        AnthropicStream {
            usage: Usage { input_tokens: 0, output_tokens: 0, cache_read_tokens: 0, cache_write_tokens: 0 },
            pending: PendingTools::new(),
        }
    }

    /// Takes in one event. The start of the message announces the model and
    /// records the input counts; text passes through; tool arguments gather
    /// per block and a tool call comes out only when its block stops; the
    /// end of the message completes the turn with the full usage.
    pub fn apply(&mut self, event: AnthropicEvent) -> (r: Result<Option<Delta>, String>)
        requires
            old(self).pending.wf(),
        ensures
            final(self).pending.wf(),
            final(self).pending.items() == event_step(old(self).pending.items(), event),
            match event {
                AnthropicEvent::MessageStart { model, input_tokens, cache_read_tokens, cache_write_tokens } =>
                    r matches Ok(Some(Delta::Started { model: m })) && m@ == model@
                    && final(self).usage == (Usage { input_tokens, cache_read_tokens, cache_write_tokens, ..old(self).usage })
                    && final(self).pending.items() == old(self).pending.items(),
                AnthropicEvent::BlockStart { index, tool: None } => r matches Ok(None)
                    && final(self).usage == old(self).usage
                    && final(self).pending.items() == old(self).pending.items(),
                AnthropicEvent::BlockStart { index, tool: Some((id, name)) } => r matches Ok(None)
                    && final(self).usage == old(self).usage
                    && final(self).pending.items() == started(old(self).pending.items(), index, id@, name@),
                AnthropicEvent::TextDelta { text, .. } => r matches Ok(Some(Delta::Text { text: t })) && t@ == text@
                    && final(self).usage == old(self).usage
                    && final(self).pending.items() == old(self).pending.items(),
                AnthropicEvent::JsonDelta { index, partial_json } => r matches Ok(None)
                    && final(self).usage == old(self).usage
                    && final(self).pending.items() == with_args(old(self).pending.items(), index, partial_json@),
                AnthropicEvent::BlockStop { index } => final(self).usage == old(self).usage
                    && stop_outcome(old(self).pending.items(), index, r)
                    && if has_index(old(self).pending.items(), index) {
                        exists|k: int|
                            0 <= k < old(self).pending.items().len() && old(self).pending.items()[k].0 == index
                                && final(self).pending.items() == old(self).pending.items().remove(k)
                                && finish_outcome(r, finished(old(self).pending.items()[k]))
                    } else {
                        r matches Ok(None) && final(self).pending.items() == old(self).pending.items()
                    },
                AnthropicEvent::MessageDelta { stop_reason, output_tokens } =>
                    final(self).usage == (Usage { output_tokens, ..old(self).usage })
                    && (r matches Ok(Some(Delta::Completed { stop_reason: s, usage })) && s == anthropic_stop(opt_view(stop_reason))
                    && usage == final(self).usage)
                    && final(self).pending.items() == old(self).pending.items(),
                AnthropicEvent::Ignored => r matches Ok(None) && final(self).usage == old(self).usage
                    && final(self).pending.items() == old(self).pending.items(),
            },
    {
        match event {
            AnthropicEvent::MessageStart { model, input_tokens, cache_read_tokens, cache_write_tokens } => {
                self.usage.input_tokens = input_tokens;
                self.usage.cache_read_tokens = cache_read_tokens;
                self.usage.cache_write_tokens = cache_write_tokens;
                Ok(Some(Delta::Started { model }))
            },
            AnthropicEvent::BlockStart { index, tool } => {
                match tool {
                    Some((id, name)) => self.pending.start(index, id, name),
                    None => {},
                }
                Ok(None)
            },
            AnthropicEvent::TextDelta { text, .. } => Ok(Some(Delta::Text { text })),
            AnthropicEvent::JsonDelta { index, partial_json } => {
                self.pending.append(index, partial_json.as_str());
                Ok(None)
            },
            AnthropicEvent::BlockStop { index } => match self.pending.take(index) {
                Some(p) => {
                    proof {
                        old(self).pending.lemma_unique();
                        let k = choose|k: int|
                            0 <= k < old(self).pending.items().len() && old(self).pending.items()[k] == (
                                index,
                                partial_view(p),
                            ) && self.pending.items() == old(self).pending.items().remove(k);
                        assert(has_index(old(self).pending.items(), index));
                        lemma_remove_is_dropped(old(self).pending.items(), k);
                    }
                    match finish_tool(p) {
                        Ok(call) => Ok(Some(Delta::ToolCall(call))),
                        Err(e) => Err(e),
                    }
                },
                None => {
                    proof {
                        lemma_dropped_absent(old(self).pending.items(), index);
                        lemma_call_at_has(old(self).pending.items(), index);
                    }
                    Ok(None)
                },
            },
            AnthropicEvent::MessageDelta { stop_reason, output_tokens } => {
                self.usage.output_tokens = output_tokens;
                Ok(Some(Delta::Completed { stop_reason: map_anthropic_stop(&stop_reason), usage: self.usage }))
            },
            AnthropicEvent::Ignored => Ok(None),
        }
    }
}

// ---------------------------------------------------------------------------
// The OpenAI stream
// ---------------------------------------------------------------------------

/// A fragment of a tool call in an OpenAI chunk.
#[derive(Debug)]
pub struct ToolFragment {
    pub index: u32,
    pub id: Option<String>,
    pub name: Option<String>,
    pub arguments: Option<String>,
}

/// One choice of an OpenAI chunk.
#[derive(Debug)]
pub struct ChunkChoice {
    pub content: Option<String>,
    pub tool_calls: Vec<ToolFragment>,
    pub finish_reason: Option<String>,
}

/// The usage of an OpenAI chunk: prompt and completion tokens, and how many
/// of the prompt tokens were cached.
#[derive(Debug, Clone, Copy)]
pub struct ChunkUsage {
    pub prompt_tokens: u32,
    pub completion_tokens: u32,
    pub cached_tokens: Option<u32>,
}

/// One `chat.completion.chunk`, already decoded.
#[derive(Debug)]
pub struct Chunk {
    pub model: String,
    pub choices: Vec<ChunkChoice>,
    pub usage: Option<ChunkUsage>,
}

/// The usage a final chunk reports: cached tokens split out of the prompt
/// total, so that they are not counted twice.
pub open spec fn chunk_usage(u: ChunkUsage) -> Usage {
    let cached: u32 = match u.cached_tokens {
        Some(c) => c,
        None => 0,
    };
    Usage {
        input_tokens: (if u.prompt_tokens >= cached { u.prompt_tokens - cached } else { 0 }) as u32,
        output_tokens: u.completion_tokens,
        cache_read_tokens: cached,
        cache_write_tokens: 0,
    }
}

/// The pending calls after one fragment: a call is started at its index if
/// none is there, then the fragment's id and name replace the call's, and
/// its arguments are appended.
pub open spec fn fragment_step(items: Seq<PendingItem>, f: ToolFragment) -> Seq<PendingItem> {
    let a = if has_index(items, f.index) {
        items
    } else {
        items.push((f.index, (Seq::<char>::empty(), Seq::<char>::empty(), Seq::<char>::empty())))
    };
    let b = match f.id {
        Some(id) => with_id(a, f.index, id@),
        None => a,
    };
    let c = match f.name {
        Some(n) => with_name(b, f.index, n@),
        None => b,
    };
    match f.arguments {
        Some(x) => with_args(c, f.index, x@),
        None => c,
    }
}

/// The pending calls after the fragments, in order.
pub open spec fn fragments_step(items: Seq<PendingItem>, fs: Seq<ToolFragment>) -> Seq<PendingItem>
    decreases fs.len(),
{
    if fs.len() == 0 {
        items
    } else {
        fragment_step(fragments_step(items, fs.drop_last()), fs.last())
    }
}

/// The text a choice passes on: its content, unless it is empty.
pub open spec fn choice_text(ch: ChunkChoice) -> Seq<DeltaView> {
    match ch.content {
        Some(t) => if t@.len() > 0 {
            seq![DeltaView::Text(t@)]
        } else {
            seq![]
        },
        None => seq![],
    }
}

/// One choice: its fragments gather, its text passes on, and a finish
/// reason drains the pending calls.
pub open spec fn choice_step(items: Seq<PendingItem>, ch: ChunkChoice) -> Result<
    (Seq<PendingItem>, Seq<DeltaView>),
    Seq<char>,
> {
    let gathered = fragments_step(items, ch.tool_calls@);
    if ch.finish_reason is Some {
        match drained(gathered) {
            Ok(calls) => Ok((Seq::<PendingItem>::empty(), choice_text(ch) + calls)),
            Err(e) => Err(e),
        }
    } else {
        Ok((gathered, choice_text(ch)))
    }
}

/// The choices, in order, or the first error.
pub open spec fn choices_step(items: Seq<PendingItem>, chs: Seq<ChunkChoice>) -> Result<
    (Seq<PendingItem>, Seq<DeltaView>),
    Seq<char>,
>
    decreases chs.len(),
{
    if chs.len() == 0 {
        Ok((items, seq![]))
    } else {
        match choices_step(items, chs.drop_last()) {
            Err(e) => Err(e),
            Ok((mid, ds)) => match choice_step(mid, chs.last()) {
                Err(e) => Err(e),
                Ok((after, more)) => Ok((after, ds + more)),
            },
        }
    }
}

/// The finish reason of a chunk's first choice.
pub open spec fn first_finish(chunk: Chunk) -> Option<Seq<char>> {
    if chunk.choices@.len() > 0 {
        opt_view(chunk.choices@[0].finish_reason)
    } else {
        None
    }
}

/// What a chunk does, given whether the model was announced and the pending
/// calls: the pending calls after it and the deltas it yields, or the first
/// error. The model is announced once; the choices follow; the usage drains
/// what is still pending and completes the turn.
pub open spec fn chunk_outcome(announced: bool, items: Seq<PendingItem>, chunk: Chunk) -> Result<
    (Seq<PendingItem>, Seq<DeltaView>),
    Seq<char>,
> {
    let head = if !announced && chunk.model@.len() > 0 {
        seq![DeltaView::Started(chunk.model@)]
    } else {
        seq![]
    };
    match choices_step(items, chunk.choices@) {
        Err(e) => Err(e),
        Ok((mid, ds)) => match chunk.usage {
            Some(u) => match drained(mid) {
                Ok(calls) => Ok(
                    (
                        Seq::<PendingItem>::empty(),
                        head + ds + calls + seq![
                            DeltaView::Completed(openai_stop(first_finish(chunk)), chunk_usage(u)),
                        ],
                    ),
                ),
                Err(e) => Err(e),
            },
            None => Ok((mid, head + ds)),
        },
    }
}

/// Once a prefix of the choices fails, the whole does, with the same error.
proof fn lemma_choices_err(items: Seq<PendingItem>, chs: Seq<ChunkChoice>, k: int)
    requires
        0 <= k <= chs.len(),
        choices_step(items, chs.take(k)) is Err,
    ensures
        choices_step(items, chs) == choices_step(items, chs.take(k)),
    decreases chs.len() - k,
{
    if k < chs.len() {
        assert(chs.take(k + 1).drop_last() =~= chs.take(k));
        lemma_choices_err(items, chs, k + 1);
    } else {
        assert(chs.take(k) =~= chs);
    }
}

/// What carries across the chunks of one OpenAI stream.
pub struct OpenAiStream {
    pub announced_model: bool,
    pub pending: PendingTools,
}

impl OpenAiStream {
    /// The state before the first chunk.
    pub fn new() -> (r: Self)
        ensures
            !r.announced_model,
            r.pending.wf(),
            r.pending.items().len() == 0,
    {
        OpenAiStream { announced_model: false, pending: PendingTools::new() }
    }

    /// The end-of-stream sentinel.
    pub fn is_done(data: &str) -> (r: bool)
        ensures
            r == (crate::text::trim(data@) == "[DONE]"@),
    {
        let t = crate::text::trim_str(data);
        crate::text::str_eq(t.as_str(), "[DONE]")
    }

    /// Takes in one choice of a chunk: its fragments gather, its text passes
    /// on, and a finish reason drains the pending calls.
    fn take_choice(&mut self, choice: &ChunkChoice) -> (r: Result<Vec<Delta>, String>)
        requires
            old(self).pending.wf(),
        ensures
            final(self).pending.wf(),
            final(self).announced_model == old(self).announced_model,
            match choice_step(old(self).pending.items(), *choice) {
                Ok((items, ds)) => r matches Ok(out) && deltas_view(out@) == ds && final(self).pending.items()
                    == items,
                Err(e) => r matches Err(x) && x@ == e,
            },
    {
        let ghost start = self.pending.items();
        let mut f: usize = 0;
        proof {
            assert(choice.tool_calls@.take(0) =~= seq![]);
        }
        while f < choice.tool_calls.len()
            invariant
                f <= choice.tool_calls.len(),
                self.pending.wf(),
                self.announced_model == old(self).announced_model,
                self.pending.items() == fragments_step(start, choice.tool_calls@.take(f as int)),
            decreases choice.tool_calls.len() - f,
        {
            proof {
                assert(choice.tool_calls@.take(f + 1).drop_last() =~= choice.tool_calls@.take(f as int));
            }
            self.pending.gather(&choice.tool_calls[f]);
            f += 1;
        }
        proof {
            assert(choice.tool_calls@.take(choice.tool_calls.len() as int) =~= choice.tool_calls@);
        }
        let mut out: Vec<Delta> = Vec::new();
        match &choice.content {
            Some(text) => {
                if !text.as_str().is_empty() {
                    out.push(Delta::Text { text: crate::text::from_chars(&crate::text::to_chars(text.as_str())) });
                }
            },
            None => {},
        }
        proof {
            assert(deltas_view(out@) =~= choice_text(*choice));
        }
        if choice.finish_reason.is_some() {
            match self.pending.drain() {
                Ok(drained) => {
                    let ghost before = out@;
                    let mut d = drained;
                    out.append(&mut d);
                    proof {
                        assert(deltas_view(out@) =~= deltas_view(before) + deltas_view(drained@));
                        assert(self.pending.items() =~= Seq::<PendingItem>::empty());
                    }
                },
                Err(e) => {
                    return Err(e);
                },
            }
        }
        Ok(out)
    }

    /// Takes in one chunk. The model is announced once; fragments of tool
    /// calls gather per index; text passes through; a finish reason or the
    /// usage drains the finished tool calls in index order; and the usage
    /// completes the turn.
    pub fn apply(&mut self, chunk: Chunk) -> (r: Result<Vec<Delta>, String>)
        requires
            old(self).pending.wf(),
        ensures
            final(self).pending.wf(),
            final(self).announced_model == (old(self).announced_model || chunk.model@.len() > 0),
            match chunk_outcome(old(self).announced_model, old(self).pending.items(), chunk) {
                Ok((items, ds)) => r matches Ok(out) && deltas_view(out@) == ds && final(self).pending.items()
                    == items,
                Err(e) => r matches Err(x) && x@ == e,
            },
    {
        let ghost items0 = self.pending.items();
        let mut out: Vec<Delta> = Vec::new();
        if !self.announced_model && chunk.model.as_str().is_empty() == false {
            self.announced_model = true;
            out.push(Delta::Started { model: crate::text::from_chars(&crate::text::to_chars(chunk.model.as_str())) });
        }
        let ghost head = deltas_view(out@);
        proof {
            if !old(self).announced_model && chunk.model@.len() > 0 {
                assert(head =~= seq![DeltaView::Started(chunk.model@)]);
            } else {
                assert(head =~= seq![]);
            }
            assert(chunk.choices@.take(0) =~= seq![]);
            assert(head + Seq::<DeltaView>::empty() =~= head);
        }
        let first_reason = if chunk.choices.len() > 0 {
            match &chunk.choices[0].finish_reason {
                Some(s) => Some(crate::text::from_chars(&crate::text::to_chars(s.as_str()))),
                None => None,
            }
        } else {
            None
        };
        let mut c: usize = 0;
        while c < chunk.choices.len()
            invariant
                c <= chunk.choices.len(),
                self.pending.wf(),
                self.announced_model == (old(self).announced_model || chunk.model@.len() > 0),
                items0 == old(self).pending.items(),
                head == (if !old(self).announced_model && chunk.model@.len() > 0 {
                    seq![DeltaView::Started(chunk.model@)]
                } else {
                    Seq::<DeltaView>::empty()
                }),
                choices_step(items0, chunk.choices@.take(c as int)) matches Ok((mid, ds)) && mid
                    == self.pending.items() && deltas_view(out@) == head + ds,
            decreases chunk.choices.len() - c,
        {
            let ghost before = out@;
            proof {
                assert(chunk.choices@.take(c + 1).drop_last() =~= chunk.choices@.take(c as int));
                assert(chunk.choices@.take(c + 1).last() == chunk.choices@[c as int]);
            }
            match self.take_choice(&chunk.choices[c]) {
                Ok(more) => {
                    let mut d = more;
                    out.append(&mut d);
                    proof {
                        assert(deltas_view(out@) =~= deltas_view(before) + deltas_view(more@));
                        let (mid, ds) = choices_step(items0, chunk.choices@.take(c as int))->Ok_0;
                        assert(head + ds + deltas_view(more@) =~= head + (ds + deltas_view(more@)));
                    }
                },
                Err(e) => {
                    proof {
                        lemma_choices_err(items0, chunk.choices@, c + 1);
                    }
                    return Err(e);
                },
            }
            c += 1;
        }
        proof {
            assert(chunk.choices@.take(chunk.choices.len() as int) =~= chunk.choices@);
        }
        match chunk.usage {
            Some(u) => {
                match self.pending.drain() {
                    Ok(drained) => {
                        let ghost before = out@;
                        let mut d = drained;
                        out.append(&mut d);
                        let cached: u32 = match u.cached_tokens {
                            Some(v) => v,
                            None => 0,
                        };
                        let usage = Usage {
                            input_tokens: u.prompt_tokens.saturating_sub(cached),
                            output_tokens: u.completion_tokens,
                            cache_read_tokens: cached,
                            cache_write_tokens: 0,
                        };
                        let ghost mid_out = out@;
                        out.push(Delta::Completed { stop_reason: map_openai_stop(&first_reason), usage });
                        proof {
                            assert(first_finish(chunk) == opt_view(first_reason));
                            assert(deltas_view(mid_out) =~= deltas_view(before) + deltas_view(drained@));
                            assert(deltas_view(out@) =~= deltas_view(mid_out).push(
                                DeltaView::Completed(openai_stop(first_finish(chunk)), chunk_usage(u)),
                            ));
                            assert(self.pending.items() =~= Seq::<PendingItem>::empty());
                        }
                    },
                    Err(e) => {
                        return Err(e);
                    },
                }
            },
            None => {},
        }
        Ok(out)
    }
}

impl PendingTools {
    /// Gathers one fragment of a call: starts the call at its index if none
    /// is there, then takes its id, name and arguments.
    fn gather(&mut self, fragment: &ToolFragment)
        requires
            old(self).wf(),
        ensures
            final(self).wf(),
            final(self).items() == fragment_step(old(self).items(), *fragment),
    {
        let present = match self.find(fragment.index) {
            Some(k) => {
                proof {
                    assert(self.items()[k as int].0 == fragment.index);
                }
                true
            },
            None => {
                proof {
                    assert(!has_index(self.items(), fragment.index)) by {
                        if has_index(self.items(), fragment.index) {
                            let q = choose|q: int| 0 <= q < self.items().len() && self.items()[q].0 == fragment.index;
                            assert(self.entries@[q].0 == fragment.index);
                        }
                    }
                }
                false
            },
        };
        if !present {
            self.pending_start_empty(fragment.index);
        }
        match &fragment.id {
            Some(id) => self.set_id(fragment.index, id.as_str()),
            None => {},
        }
        match &fragment.name {
            Some(name) => self.set_name(fragment.index, name.as_str()),
            None => {},
        }
        match &fragment.arguments {
            Some(a) => self.append(fragment.index, a.as_str()),
            None => {},
        }
    }

    /// Starts an empty call at an index that has none.
    fn pending_start_empty(&mut self, index: u32)
        requires
            old(self).wf(),
            !has_index(old(self).items(), index),
        ensures
            final(self).wf(),
            final(self).items() == old(self).items().push(
                (index, (Seq::<char>::empty(), Seq::<char>::empty(), Seq::<char>::empty())),
            ),
    {
        let id = String::new();
        let name = String::new();
        proof {
            assert(id@ =~= Seq::<char>::empty());
            assert(name@ =~= Seq::<char>::empty());
        }
        self.start(index, id, name);
    }

    /// Sets the id of the call at `index`, when it is pending.
    fn set_id(&mut self, index: u32, id: &str)
        requires
            old(self).wf(),
        ensures
            final(self).wf(),
            final(self).items() == with_id(old(self).items(), index, id@),
    {
        match self.find(index) {
            Some(k) => {
                let ghost before = self.items();
                let (i, mut p) = self.entries.remove(k);
                p.id = String::from_str(id);
                self.entries.insert(k, (i, p));
                proof {
                    assert forall|q: int| 0 <= q < self.items().len() implies #[trigger] self.items()[q]
                        == with_id(before, index, id@)[q] by {
                        if q != k {
                            assert(self.entries@[q] == old(self).entries@[q]);
                            assert(old(self).entries@[q].0 != index);
                        }
                    }
                    assert(self.items() =~= with_id(before, index, id@));
                    assert forall|a: int, b: int| 0 <= a < b < self.entries@.len() implies #[trigger] self.entries@[a].0
                        != #[trigger] self.entries@[b].0 by {
                        assert(self.entries@[a].0 == old(self).entries@[a].0);
                        assert(self.entries@[b].0 == old(self).entries@[b].0);
                    }
                }
            },
            None => {
                proof {
                    assert(self.items() =~= with_id(self.items(), index, id@));
                }
            },
        }
    }

    /// Sets the name of the call at `index`, when it is pending.
    fn set_name(&mut self, index: u32, name: &str)
        requires
            old(self).wf(),
        ensures
            final(self).wf(),
            final(self).items() == with_name(old(self).items(), index, name@),
    {
        match self.find(index) {
            Some(k) => {
                let ghost before = self.items();
                let (i, mut p) = self.entries.remove(k);
                p.name = String::from_str(name);
                self.entries.insert(k, (i, p));
                proof {
                    assert forall|q: int| 0 <= q < self.items().len() implies #[trigger] self.items()[q]
                        == with_name(before, index, name@)[q] by {
                        if q != k {
                            assert(self.entries@[q] == old(self).entries@[q]);
                            assert(old(self).entries@[q].0 != index);
                        }
                    }
                    assert(self.items() =~= with_name(before, index, name@));
                    assert forall|a: int, b: int| 0 <= a < b < self.entries@.len() implies #[trigger] self.entries@[a].0
                        != #[trigger] self.entries@[b].0 by {
                        assert(self.entries@[a].0 == old(self).entries@[a].0);
                        assert(self.entries@[b].0 == old(self).entries@[b].0);
                    }
                }
            },
            None => {
                proof {
                    assert(self.items() =~= with_name(self.items(), index, name@));
                }
            },
        }
    }
}


/// OpenAI's finish reasons mean what Anthropic's stop reasons mean: `length`
/// is the output limit, as `max_tokens` is, `stop` the end of the turn, as
/// `end_turn` is, and `tool_calls` a request for tools, as `tool_use` is;
/// each of these reasons comes from that one value alone.
pub proof fn lemma_openai_stop_reasons(raw: Option<Seq<char>>)
    ensures
        (openai_stop(raw) == StopReason::MaxTokens) <==> raw == Some("length"@),
        (openai_stop(raw) == StopReason::EndTurn) <==> raw == Some("stop"@),
        (openai_stop(raw) == StopReason::ToolUse) <==> raw == Some("tool_calls"@),
        openai_stop(Some("length"@)) == anthropic_stop(Some("max_tokens"@)),
        openai_stop(Some("stop"@)) == anthropic_stop(Some("end_turn"@)),
        openai_stop(Some("tool_calls"@)) == anthropic_stop(Some("tool_use"@)),
{
    reveal_strlit("length");
    reveal_strlit("stop");
    reveal_strlit("tool_calls");
    reveal_strlit("max_tokens");
    reveal_strlit("end_turn");
    reveal_strlit("tool_use");
    reveal_strlit("stop_sequence");
    assert("stop"@.len() == 4 && "length"@.len() == 6 && "tool_calls"@.len() == 10);
    assert("stop"@ != "length"@ && "stop"@ != "tool_calls"@ && "length"@ != "tool_calls"@);
    assert("end_turn"@.len() == 8 && "tool_use"@.len() == 8 && "max_tokens"@.len() == 10);
    assert("end_turn"@ != "max_tokens"@ && "end_turn"@ != "tool_use"@ && "tool_use"@ != "max_tokens"@);
    assert("end_turn"@[0] == 'e' && "tool_use"@[0] == 't');
}


/// Anthropic's stop reasons: each known reason comes from its one value, and
/// any other value, or none, is some other reason.
pub proof fn lemma_anthropic_stop_reasons(raw: Option<Seq<char>>)
    ensures
        (anthropic_stop(raw) == StopReason::MaxTokens) <==> raw == Some("max_tokens"@),
        (anthropic_stop(raw) == StopReason::EndTurn) <==> raw == Some("end_turn"@),
        (anthropic_stop(raw) == StopReason::ToolUse) <==> raw == Some("tool_use"@),
        (anthropic_stop(raw) == StopReason::StopSequence) <==> raw == Some("stop_sequence"@),
{
    reveal_strlit("max_tokens");
    reveal_strlit("end_turn");
    reveal_strlit("tool_use");
    reveal_strlit("stop_sequence");
    assert("end_turn"@.len() == 8 && "tool_use"@.len() == 8 && "max_tokens"@.len() == 10);
    assert("stop_sequence"@.len() == 13);
    assert("end_turn"@[0] == 'e' && "tool_use"@[0] == 't');
    assert("end_turn"@ != "max_tokens"@ && "end_turn"@ != "tool_use"@ && "tool_use"@ != "max_tokens"@);
    assert("stop_sequence"@ != "max_tokens"@ && "stop_sequence"@ != "end_turn"@ && "stop_sequence"@
        != "tool_use"@);
}
} // verus!

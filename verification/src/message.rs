//! The conversation and its accounting: messages, tool calls, token usage.
use vstd::prelude::*;

verus! {

#[verifier::external_type_specification]
#[verifier::external_body]
pub struct ExJsonValue(serde_json::Value);

/// `serde_json::Value::clone` (a derived `Clone`) gives back an equal value.
pub assume_specification[ <serde_json::Value as Clone>::clone ](v: &serde_json::Value) -> (r:
    serde_json::Value)
    ensures
        r == *v,
;

// ---------------------------------------------------------------------------
// Usage
// ---------------------------------------------------------------------------

/// Token counts reported by a provider for one request.
#[derive(Debug, Clone, Copy, PartialEq, Eq, Structural)]
pub struct Usage {
    pub input_tokens: u32,
    pub output_tokens: u32,
    pub cache_read_tokens: u32,
    pub cache_write_tokens: u32,
}

/// Addition that stops at `u32::MAX`.
pub open spec fn sat(a: int, b: int) -> int {
    if a + b > u32::MAX {
        u32::MAX as int
    } else {
        a + b
    }
}

/// Field-wise saturating sum of two usages.
pub open spec fn usage_sum(a: Usage, b: Usage) -> Usage {
    Usage {
        input_tokens: sat(a.input_tokens as int, b.input_tokens as int) as u32,
        output_tokens: sat(a.output_tokens as int, b.output_tokens as int) as u32,
        cache_read_tokens: sat(a.cache_read_tokens as int, b.cache_read_tokens as int) as u32,
        cache_write_tokens: sat(a.cache_write_tokens as int, b.cache_write_tokens as int) as u32,
    }
}

/// The usage of nothing.
pub open spec fn zero_usage() -> Usage {
    Usage { input_tokens: 0, output_tokens: 0, cache_read_tokens: 0, cache_write_tokens: 0 }
}

impl Default for Usage {
    fn default() -> (r: Self)
        ensures
            r == zero_usage(),
    {
        Usage { input_tokens: 0, output_tokens: 0, cache_read_tokens: 0, cache_write_tokens: 0 }
    }
}

impl Usage {
    /// All input tokens, whether fresh, read from the cache or written to it.
    pub fn total_input(&self) -> (r: u32)
        requires
            self.input_tokens + self.cache_read_tokens + self.cache_write_tokens <= u32::MAX,
        ensures
            r == self.input_tokens + self.cache_read_tokens + self.cache_write_tokens,
    {
        self.input_tokens + self.cache_read_tokens + self.cache_write_tokens
    }

    /// Adds two usages field by field, saturating at `u32::MAX`.
    pub fn saturating_add(self, other: Self) -> (r: Self)
        ensures
            r == usage_sum(self, other),
    {
        Usage {
            input_tokens: self.input_tokens.saturating_add(other.input_tokens),
            output_tokens: self.output_tokens.saturating_add(other.output_tokens),
            cache_read_tokens: self.cache_read_tokens.saturating_add(other.cache_read_tokens),
            cache_write_tokens: self.cache_write_tokens.saturating_add(other.cache_write_tokens),
        }
    }
}

/// Adding usages counts every token of both: each field of the sum is the
/// two fields added, or `u32::MAX` when that total does not fit.
pub proof fn lemma_usage_sum_adds_each_field(a: Usage, b: Usage)
    ensures
        a.input_tokens + b.input_tokens <= u32::MAX ==> usage_sum(a, b).input_tokens == a.input_tokens
            + b.input_tokens,
        a.output_tokens + b.output_tokens <= u32::MAX ==> usage_sum(a, b).output_tokens == a.output_tokens
            + b.output_tokens,
        a.cache_read_tokens + b.cache_read_tokens <= u32::MAX ==> usage_sum(a, b).cache_read_tokens
            == a.cache_read_tokens + b.cache_read_tokens,
        a.cache_write_tokens + b.cache_write_tokens <= u32::MAX ==> usage_sum(a, b).cache_write_tokens
            == a.cache_write_tokens + b.cache_write_tokens,
        a.input_tokens + b.input_tokens > u32::MAX ==> usage_sum(a, b).input_tokens == u32::MAX,
        a.output_tokens + b.output_tokens > u32::MAX ==> usage_sum(a, b).output_tokens == u32::MAX,
        a.cache_read_tokens + b.cache_read_tokens > u32::MAX ==> usage_sum(a, b).cache_read_tokens == u32::MAX,
        a.cache_write_tokens + b.cache_write_tokens > u32::MAX ==> usage_sum(a, b).cache_write_tokens
            == u32::MAX,
{
}

/// Adding usages does not depend on their order.
pub proof fn lemma_usage_sum_commutative(a: Usage, b: Usage)
    ensures
        usage_sum(a, b) == usage_sum(b, a),
{
}

/// Adding usages does not depend on how they are grouped.
pub proof fn lemma_usage_sum_associative(a: Usage, b: Usage, c: Usage)
    ensures
        usage_sum(usage_sum(a, b), c) == usage_sum(a, usage_sum(b, c)),
{
}

/// Adding nothing changes nothing.
pub proof fn lemma_usage_sum_identity(a: Usage)
    ensures
        usage_sum(a, zero_usage()) == a,
{
}

/// A running total never goes down: each field of the sum is at least the
/// same field of either side.
pub proof fn lemma_usage_sum_monotone(a: Usage, b: Usage)
    ensures
        usage_sum(a, b).input_tokens >= a.input_tokens,
        usage_sum(a, b).output_tokens >= a.output_tokens,
        usage_sum(a, b).cache_read_tokens >= a.cache_read_tokens,
        usage_sum(a, b).cache_write_tokens >= a.cache_write_tokens,
{
}

// ---------------------------------------------------------------------------
// Messages
// ---------------------------------------------------------------------------

/// Who produced a message.
#[derive(Debug, Clone, Copy, PartialEq, Eq, Structural)]
pub enum Role {
    System,
    User,
    Assistant,
}

/// A request from the model to run a tool.
#[derive(Debug, Clone)]
pub struct ToolCall {
    /// Provider-assigned identifier, echoed back in the result.
    pub id: String,
    /// Name of the tool.
    pub name: String,
    /// Arguments, as the JSON the model produced.
    pub input: serde_json::Value,
}

/// The outcome of running a tool, sent back to the model.
#[derive(Debug, Clone, PartialEq, Eq)]
pub struct ToolResult {
    /// The call this answers.
    pub call_id: String,
    /// What the tool returned, or the error text.
    pub output: String,
    /// Whether the output is an error.
    pub is_error: bool,
}

/// One block of a message.
#[derive(Debug, Clone)]
pub enum Content {
    Text { text: String },
    ToolCall(ToolCall),
    ToolResult(ToolResult),
}

/// One message of the conversation.
#[derive(Debug, Clone)]
pub struct Message {
    pub role: Role,
    pub content: Vec<Content>,
}

/// The text blocks of a message, joined.
pub open spec fn text_of(content: Seq<Content>) -> Seq<char>
    decreases content.len(),
{
    if content.len() == 0 {
        seq![]
    } else {
        text_of(content.drop_last()) + match content.last() {
            Content::Text { text } => text@,
            _ => seq![],
        }
    }
}

/// The tool calls of a message, in order.
pub open spec fn calls_of(content: Seq<Content>) -> Seq<ToolCall>
    decreases content.len(),
{
    if content.len() == 0 {
        seq![]
    } else {
        let before = calls_of(content.drop_last());
        match content.last() {
            Content::ToolCall(c) => before.push(c),
            _ => before,
        }
    }
}

impl Message {
    /// A message of one text block.
    pub fn text(role: Role, content: String) -> (r: Self)
        ensures
            r.role == role,
            r.content@.len() == 1,
            r.content@[0] matches Content::Text { text } && text@ == content@,
            text_of(r.content@) == content@,
    {
        let r = Message { role, content: vec![Content::Text { text: content }] };
        proof {
            assert(r.content@.drop_last() =~= seq![]);
            assert(text_of(r.content@.drop_last()) == Seq::<char>::empty());
            assert(text_of(r.content@) =~= content@);
        }
        r
    }

    /// A system message.
    pub fn system(content: String) -> (r: Self)
        ensures
            r.role == Role::System,
            text_of(r.content@) == content@,
    {
        Self::text(Role::System, content)
    }

    /// A user message.
    pub fn user(content: String) -> (r: Self)
        ensures
            r.role == Role::User,
            text_of(r.content@) == content@,
    {
        Self::text(Role::User, content)
    }

    /// An assistant message.
    pub fn assistant(content: String) -> (r: Self)
        ensures
            r.role == Role::Assistant,
            text_of(r.content@) == content@,
    {
        Self::text(Role::Assistant, content)
    }

    /// All tool results of a turn, grouped into one user message.
    pub fn tool_results(results: Vec<ToolResult>) -> (r: Self)
        ensures
            r.role == Role::User,
            r.content@.len() == results@.len(),
            forall|i: int|
                0 <= i < results@.len() ==> #[trigger] r.content@[i] == Content::ToolResult(
                    results@[i],
                ),
    {
        let ghost orig = results@;
        let n = results.len();
        let mut rest = results;
        let mut content: Vec<Content> = Vec::new();
        let mut i: usize = 0;
        proof {
            assert(orig.skip(0) =~= orig);
        }
        while rest.len() > 0
            invariant
                i <= orig.len(),
                orig.len() == n,
                rest@ == orig.skip(i as int),
                content@.len() == i,
                forall|j: int| 0 <= j < i ==> #[trigger] content@[j] == Content::ToolResult(orig[j]),
            decreases rest.len(),
        {
            let one = rest.remove(0);
            proof {
                assert(one == orig[i as int]);
                assert(rest@ =~= orig.skip(i + 1));
            }
            content.push(Content::ToolResult(one));
            i += 1;
        }
        Message { role: Role::User, content }
    }

    /// The text blocks, joined.
    pub fn text_content(&self) -> (r: String)
        ensures
            r@ == text_of(self.content@),
    {
        let mut out = String::new();
        let mut i: usize = 0;
        proof {
            assert(self.content@.take(0) =~= seq![]);
        }
        while i < self.content.len()
            invariant
                i <= self.content.len(),
                out@ == text_of(self.content@.take(i as int)),
            decreases self.content.len() - i,
        {
            proof {
                assert(self.content@.take(i + 1).drop_last() =~= self.content@.take(i as int));
            }
            match &self.content[i] {
                Content::Text { text } => {
                    crate::text::push_str(&mut out, text.as_str());
                },
                _ => {},
            }
            i += 1;
        }
        proof {
            assert(self.content@.take(self.content.len() as int) =~= self.content@);
        }
        out
    }

    /// The tool calls, in order.
    pub fn tool_calls(&self) -> (r: Vec<&ToolCall>)
        ensures
            r@.len() == calls_of(self.content@).len(),
            forall|i: int| 0 <= i < r@.len() ==> *#[trigger] r@[i] == calls_of(self.content@)[i],
    {
        let mut out: Vec<&ToolCall> = Vec::new();
        let mut i: usize = 0;
        proof {
            assert(self.content@.take(0) =~= seq![]);
        }
        while i < self.content.len()
            invariant
                i <= self.content.len(),
                out@.len() == calls_of(self.content@.take(i as int)).len(),
                forall|j: int|
                    0 <= j < out@.len() ==> *#[trigger] out@[j] == calls_of(
                        self.content@.take(i as int),
                    )[j],
            decreases self.content.len() - i,
        {
            proof {
                assert(self.content@.take(i + 1).drop_last() =~= self.content@.take(i as int));
            }
            match &self.content[i] {
                Content::ToolCall(call) => {
                    out.push(call);
                },
                _ => {},
            }
            i += 1;
        }
        proof {
            assert(self.content@.take(self.content.len() as int) =~= self.content@);
        }
        out
    }
}

/// One increment of a streamed model response.
#[derive(Debug, Clone)]
pub enum Delta {
    /// The provider accepted the request and names the model serving it.
    Started { model: String },
    /// More text of the answer.
    Text { text: String },
    /// A complete tool call.
    ToolCall(ToolCall),
    /// The turn is over.
    Completed { stop_reason: StopReason, usage: Usage },
}

/// Why the model stopped.
#[derive(Debug, Clone, Copy, PartialEq, Eq, Structural)]
pub enum StopReason {
    EndTurn,
    ToolUse,
    MaxTokens,
    StopSequence,
    Aborted,
    Other(OtherReason),
}

/// A stop reason this harness does not know.
#[derive(Debug, Clone, Copy, PartialEq, Eq, Structural)]
pub struct OtherReason;

impl Default for StopReason {
    fn default() -> (r: Self)
        ensures
            r == StopReason::EndTurn,
    {
        StopReason::EndTurn
    }
}

impl Default for OtherReason {
    fn default() -> (r: Self)
        ensures
            r == OtherReason,
    {
        OtherReason
    }
}

} // verus!

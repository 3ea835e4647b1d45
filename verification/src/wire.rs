//! Model requests, and the shape each provider's API takes them in.
//!
//! The bodies here hold what is sent; writing them out as JSON, field by
//! field, is left to the code that talks to the network.
use vstd::prelude::*;
use crate::agent::{json_string, json_text};
use crate::message::{Content, Message, Role, ToolCall, ToolResult, calls_of, text_of};
use crate::providers::DEFAULT_MAX_TOKENS;
use crate::text::push_str;

verus! {

/// A tool offered to the model.
#[derive(Debug)]
pub struct ToolSchema {
    pub name: String,
    pub description: String,
    pub input_schema: serde_json::Value,
}

/// One request to a model.
#[derive(Debug)]
pub struct Request {
    /// The system prompt, kept identical between turns so that caching works.
    pub system: Option<String>,
    /// The conversation so far, oldest first.
    pub messages: Vec<Message>,
    /// The tools the model may call.
    pub tools: Vec<ToolSchema>,
    /// The most tokens the answer may take.
    pub max_tokens: u32,
}

impl Request {
    /// A request offering no tools, with the default output cap.
    pub fn new(system: Option<String>, messages: Vec<Message>) -> (r: Self)
        ensures
            r.system == system,
            r.messages == messages,
            r.tools@.len() == 0,
            r.max_tokens == DEFAULT_MAX_TOKENS,
    {
        Request { system, messages, tools: Vec::new(), max_tokens: DEFAULT_MAX_TOKENS }
    }

    /// The same request offering `tools`.
    pub fn with_tools(self, tools: Vec<ToolSchema>) -> (r: Self)
        ensures
            r.system == self.system,
            r.messages == self.messages,
            r.tools == tools,
            r.max_tokens == self.max_tokens,
    {
        Request { system: self.system, messages: self.messages, tools, max_tokens: self.max_tokens }
    }
}

// ---------------------------------------------------------------------------
// Anthropic
// ---------------------------------------------------------------------------

/// The messages that are not system messages, in order.
pub open spec fn non_system(ms: Seq<Message>) -> Seq<Message>
    decreases ms.len(),
{
    if ms.len() == 0 {
        seq![]
    } else if ms.last().role == Role::System {
        non_system(ms.drop_last())
    } else {
        non_system(ms.drop_last()).push(ms.last())
    }
}

/// A request as Anthropic's messages API takes it. The system prompt goes
/// in a block of its own, marked for caching; every other message keeps its
/// blocks, which map one to one onto Anthropic's.
#[derive(Debug)]
pub struct AnthropicBody {
    pub model: String,
    pub max_tokens: u32,
    pub system: Option<String>,
    pub messages: Vec<Message>,
    pub tools: Vec<ToolSchema>,
}

/// The Anthropic body of a request: system messages leave the conversation,
/// whose system prompt travels apart.
pub fn anthropic_body(api_model: &str, request: Request) -> (r: AnthropicBody)
    ensures
        r.model@ == api_model@,
        r.max_tokens == request.max_tokens,
        r.system == request.system,
        r.messages@ == non_system(request.messages@),
        r.tools == request.tools,
{
    let Request { system, messages, tools, max_tokens } = request;
    let n: usize = messages.len();
    let ghost all = messages@;
    let mut rest = messages;
    let mut kept: Vec<Message> = Vec::new();
    let mut i: usize = 0;
    proof {
        assert(all.take(0) =~= Seq::<Message>::empty());
        assert(all.skip(0) =~= all);
    }
    while rest.len() > 0
        invariant
            i <= all.len(),
            all.len() == n,
            rest@ == all.skip(i as int),
            kept@ == non_system(all.take(i as int)),
        decreases rest.len(),
    {
        let m = rest.remove(0);
        proof {
            assert(m == all[i as int]);
            assert(rest@ =~= all.skip(i + 1));
            assert(all.take(i + 1).drop_last() =~= all.take(i as int));
            assert(all.take(i + 1).last() == m);
        }
        if m.role != Role::System {
            kept.push(m);
        }
        i += 1;
    }
    proof {
        assert(i == all.len());
        assert(all.take(i as int) =~= all);
    }
    AnthropicBody {
        model: String::from_str(api_model),
        max_tokens,
        system,
        messages: kept,
        tools,
    }
}

// ---------------------------------------------------------------------------
// OpenAI
// ---------------------------------------------------------------------------

/// A tool call as OpenAI's chat API takes it: the arguments travel as a
/// JSON string.
#[derive(Debug, Clone)]
pub struct WireCall {
    pub id: String,
    pub name: String,
    pub arguments: String,
}

/// A message as OpenAI's chat API takes it.
#[derive(Debug)]
pub enum OpenAiMessage {
    /// Text, and the calls the assistant made.
    Chat { role: Role, content: String, tool_calls: Vec<WireCall> },
    /// The result of one call, a message of its own.
    Tool { tool_call_id: String, content: String },
}

/// A request as OpenAI's chat API takes it.
#[derive(Debug)]
pub struct OpenAiBody {
    pub model: String,
    pub max_completion_tokens: u32,
    pub messages: Vec<OpenAiMessage>,
    pub tools: Vec<ToolSchema>,
}

/// A wire message as values.
pub enum WireView {
    Chat(Role, Seq<char>, Seq<(Seq<char>, Seq<char>, Seq<char>)>),
    Tool(Seq<char>, Seq<char>),
}

/// A call as values.
pub open spec fn call_wire(c: ToolCall) -> (Seq<char>, Seq<char>, Seq<char>) {
    (c.id@, c.name@, json_text(c.input))
}

/// A wire call as values.
pub open spec fn wire_call_view(c: WireCall) -> (Seq<char>, Seq<char>, Seq<char>) {
    (c.id@, c.name@, c.arguments@)
}

/// A wire message as values.
pub open spec fn wire_view(m: OpenAiMessage) -> WireView {
    match m {
        OpenAiMessage::Chat { role, content, tool_calls } => WireView::Chat(
            role,
            content@,
            tool_calls@.map_values(|c: WireCall| wire_call_view(c)),
        ),
        OpenAiMessage::Tool { tool_call_id, content } => WireView::Tool(tool_call_id@, content@),
    }
}

/// Wire messages as values.
pub open spec fn wire_views(ms: Seq<OpenAiMessage>) -> Seq<WireView> {
    ms.map_values(|m: OpenAiMessage| wire_view(m))
}

/// The tool results of a message, in order.
pub open spec fn results_of(content: Seq<Content>) -> Seq<ToolResult>
    decreases content.len(),
{
    if content.len() == 0 {
        seq![]
    } else {
        let before = results_of(content.drop_last());
        match content.last() {
            Content::ToolResult(r) => before.push(r),
            _ => before,
        }
    }
}

/// The result messages of a message's blocks.
pub open spec fn result_messages(content: Seq<Content>) -> Seq<WireView> {
    results_of(content).map_values(|r: ToolResult| WireView::Tool(r.call_id@, r.output@))
}

/// One message on the wire: its text and calls as one message, when it has
/// either, followed by each tool result as a message of its own.
pub open spec fn rendered(role: Role, content: Seq<Content>) -> Seq<WireView> {
    let text = text_of(content);
    let calls = calls_of(content).map_values(|c: ToolCall| call_wire(c));
    if text.len() > 0 || calls.len() > 0 {
        seq![WireView::Chat(role, text, calls)] + result_messages(content)
    } else {
        result_messages(content)
    }
}

/// A conversation on the wire.
pub open spec fn rendered_all(ms: Seq<Message>) -> Seq<WireView>
    decreases ms.len(),
{
    if ms.len() == 0 {
        seq![]
    } else {
        rendered_all(ms.drop_last()) + rendered(ms.last().role, ms.last().content@)
    }
}

/// One message in OpenAI's shape.
pub fn render_message(message: &Message) -> (r: Vec<OpenAiMessage>)
    ensures
        wire_views(r@) == rendered(message.role, message.content@),
{
    let ghost cs = message.content@;
    let mut text = String::new();
    let mut calls: Vec<WireCall> = Vec::new();
    let mut results: Vec<OpenAiMessage> = Vec::new();
    let mut i: usize = 0;
    proof {
        assert(cs.take(0) =~= Seq::<Content>::empty());
    }
    while i < message.content.len()
        invariant
            i <= message.content.len(),
            cs == message.content@,
            text@ == text_of(cs.take(i as int)),
            calls@.map_values(|c: WireCall| wire_call_view(c)) == calls_of(cs.take(i as int)).map_values(
                |c: ToolCall| call_wire(c),
            ),
            wire_views(results@) == result_messages(cs.take(i as int)),
        decreases message.content.len() - i,
    {
        proof {
            assert(cs.take(i + 1).drop_last() =~= cs.take(i as int));
            assert(cs.take(i + 1).last() == cs[i as int]);
        }
        let ghost calls_before = calls@.map_values(|c: WireCall| wire_call_view(c));
        let ghost results_before = wire_views(results@);
        match &message.content[i] {
            Content::Text { text: chunk } => {
                push_str(&mut text, chunk.as_str());
                proof {
                    assert(results_of(cs.take(i + 1)) == results_of(cs.take(i as int)));
                }
            },
            Content::ToolCall(call) => {
                let wire = WireCall {
                    id: call.id.clone(),
                    name: call.name.clone(),
                    arguments: json_string(&call.input),
                };
                calls.push(wire);
                proof {
                    assert(calls@.map_values(|c: WireCall| wire_call_view(c)) =~= calls_before.push(
                        call_wire(*call),
                    ));
                    assert(calls_of(cs.take(i + 1)).map_values(|c: ToolCall| call_wire(c))
                        =~= calls_of(cs.take(i as int)).map_values(|c: ToolCall| call_wire(c)).push(
                        call_wire(*call),
                    ));
                    assert(results_of(cs.take(i + 1)) == results_of(cs.take(i as int)));
                }
            },
            Content::ToolResult(result) => {
                results.push(
                    OpenAiMessage::Tool {
                        tool_call_id: result.call_id.clone(),
                        content: result.output.clone(),
                    },
                );
                proof {
                    assert(wire_views(results@) =~= results_before.push(
                        WireView::Tool(result.call_id@, result.output@),
                    ));
                    assert(result_messages(cs.take(i + 1)) =~= result_messages(cs.take(i as int)).push(
                        WireView::Tool(result.call_id@, result.output@),
                    ));
                }
            },
        }
        i += 1;
    }
    proof {
        assert(cs.take(i as int) =~= cs);
    }
    if text.as_str().is_empty() && calls.len() == 0 {
        return results;
    }
    let ghost tail = wire_views(results@);
    let ghost call_views = calls@.map_values(|c: WireCall| wire_call_view(c));
    let mut out: Vec<OpenAiMessage> = Vec::new();
    out.push(OpenAiMessage::Chat { role: message.role, content: text, tool_calls: calls });
    proof {
        assert(wire_views(out@) =~= seq![WireView::Chat(message.role, text_of(cs), call_views)]);
    }
    let ghost head = wire_views(out@);
    let total: usize = results.len();
    let mut rest = results;
    let mut j: usize = 0;
    proof {
        assert(tail.take(0) =~= Seq::<WireView>::empty());
        assert(wire_views(rest@).skip(0) =~= tail);
    }
    while rest.len() > 0
        invariant
            wire_views(out@) == head + tail.take(j as int),
            wire_views(rest@) == tail.skip(j as int),
            j <= tail.len(),
            tail.len() == total,
        decreases rest.len(),
    {
        let ghost rv = rest@;
        proof {
            assert(wire_views(rv).len() == rv.len());
        }
        let m = rest.remove(0);
        let ghost before = wire_views(out@);
        proof {
            assert(wire_views(rv)[0] == wire_view(rv[0]));
            assert(tail.skip(j as int)[0] == tail[j as int]);
            assert(wire_view(m) == tail[j as int]);
            assert forall|k: int| 0 <= k < rest@.len() implies #[trigger] wire_views(rest@)[k] == tail.skip(
                j + 1,
            )[k] by {
                assert(rest@[k] == rv[k + 1]);
                assert(wire_views(rv)[k + 1] == tail.skip(j as int)[k + 1]);
            }
            assert(wire_views(rest@) =~= tail.skip(j + 1));
        }
        out.push(m);
        proof {
            assert(wire_views(out@) =~= before.push(tail[j as int]));
            assert(tail.take(j + 1) =~= tail.take(j as int).push(tail[j as int]));
        }
        j += 1;
    }
    proof {
        assert(tail.take(j as int) =~= tail);
    }
    out
}

/// The system prompt on the wire: a system message, when there is one.
pub open spec fn system_message(system: Option<String>) -> Seq<WireView> {
    match system {
        Some(s) => seq![WireView::Chat(Role::System, s@, Seq::empty())],
        None => Seq::<WireView>::empty(),
    }
}

/// The OpenAI body of a request: the system prompt first, as a system
/// message, then each message in its wire shape.
pub fn openai_body(api_model: &str, request: Request) -> (r: OpenAiBody)
    ensures
        r.model@ == api_model@,
        r.max_completion_tokens == request.max_tokens,
        wire_views(r.messages@) == system_message(request.system) + rendered_all(request.messages@),
        r.tools == request.tools,
{
    let Request { system, messages, tools, max_tokens } = request;
    let mut out: Vec<OpenAiMessage> = Vec::new();
    let ghost head = system_message(system);
    match system {
        Some(s) => {
            let ghost sv = s@;
            let none: Vec<WireCall> = Vec::new();
            proof {
                assert(none@.map_values(|c: WireCall| wire_call_view(c)) =~= Seq::empty());
            }
            out.push(OpenAiMessage::Chat { role: Role::System, content: s, tool_calls: none });
            proof {
                assert(wire_view(out@[0]) == WireView::Chat(Role::System, sv, Seq::empty()));
                assert(wire_views(out@) =~= head);
            }
        },
        None => {
            proof {
                assert(wire_views(out@) =~= head);
            }
        },
    }
    let mut i: usize = 0;
    proof {
        assert(messages@.take(0) =~= Seq::<Message>::empty());
        assert(head + rendered_all(messages@.take(0)) =~= head);
    }
    while i < messages.len()
        invariant
            i <= messages.len(),
            wire_views(out@) == head + rendered_all(messages@.take(i as int)),
        decreases messages.len() - i,
    {
        let piece = render_message(&messages[i]);
        let ghost before = wire_views(out@);
        let ghost pv = wire_views(piece@);
        let total: usize = piece.len();
        let mut rest = piece;
        let mut j: usize = 0;
        proof {
            assert(pv.take(0) =~= Seq::<WireView>::empty());
            assert(wire_views(rest@) =~= pv.skip(0));
            assert(before + pv.take(0) =~= before);
        }
        while rest.len() > 0
            invariant
                j <= pv.len(),
                pv.len() == total,
                wire_views(out@) == before + pv.take(j as int),
                wire_views(rest@) == pv.skip(j as int),
            decreases rest.len(),
        {
            let ghost rv = rest@;
            proof {
                assert(wire_views(rv).len() == rv.len());
            }
            let m = rest.remove(0);
            let ghost now = wire_views(out@);
            proof {
                assert(wire_views(rv)[0] == wire_view(rv[0]));
                assert(pv.skip(j as int)[0] == pv[j as int]);
                assert(wire_view(m) == pv[j as int]);
                assert forall|k: int| 0 <= k < rest@.len() implies #[trigger] wire_views(rest@)[k]
                    == pv.skip(j + 1)[k] by {
                    assert(rest@[k] == rv[k + 1]);
                    assert(wire_views(rv)[k + 1] == pv.skip(j as int)[k + 1]);
                }
                assert(wire_views(rest@) =~= pv.skip(j + 1));
            }
            out.push(m);
            proof {
                assert(wire_views(out@) =~= now.push(pv[j as int]));
                assert(pv.take(j + 1) =~= pv.take(j as int).push(pv[j as int]));
            }
            j += 1;
        }
        proof {
            assert(pv.take(j as int) =~= pv);
            assert(messages@.take(i + 1).drop_last() =~= messages@.take(i as int));
            assert(messages@.take(i + 1).last() == messages@[i as int]);
            assert(head + rendered_all(messages@.take(i + 1)) =~= (head + rendered_all(
                messages@.take(i as int),
            )) + pv);
        }
        i += 1;
    }
    proof {
        assert(messages@.take(messages.len() as int) =~= messages@);
    }
    OpenAiBody { model: String::from_str(api_model), max_completion_tokens: max_tokens, messages: out, tools }
}

} // verus!

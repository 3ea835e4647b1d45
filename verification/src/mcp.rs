//! MCP servers: which are started, how their tools are named, and what their
//! results read as.
use vstd::prelude::*;
use crate::text::push_str;
use crate::tools::ToolError;

verus! {

/// The server list, inside the project directory.
pub const MCP_FILE: &'static str = "mcp.toml";

/// How to start one server.
#[derive(Debug, Clone, PartialEq, Eq)]
pub struct ServerConfig {
    pub command: String,
    pub args: Vec<String>,
    /// Extra environment, in key order.
    pub env: Vec<(String, String)>,
    pub enabled: bool,
}

/// Whether a server with no `enabled` key runs.
pub fn enabled_by_default() -> (r: bool)
    ensures
        r,
{
    true
}

/// The servers of a project, in name order.
#[derive(Debug, Clone, PartialEq, Eq)]
pub struct McpConfig {
    pub servers: Vec<(String, ServerConfig)>,
}

impl McpConfig {
    /// No servers.
    pub fn new() -> (r: Self)
        ensures
            r.servers@.len() == 0,
    {
        McpConfig { servers: Vec::new() }
    }

    /// The positions of the servers to start: those not turned off, in order.
    pub fn enabled(&self) -> (r: Vec<usize>)
        ensures
            forall|k: int| 0 <= k < r@.len() ==> #[trigger] r@[k] < self.servers@.len(),
            forall|k: int, l: int| 0 <= k < l < r@.len() ==> #[trigger] r@[k] < #[trigger] r@[l],
            forall|j: int|
                0 <= j < self.servers@.len() ==> (r@.contains(j as usize) <==> self.servers@[j].1.enabled),
    {
        let mut out: Vec<usize> = Vec::new();
        let mut i: usize = 0;
        while i < self.servers.len()
            invariant
                i <= self.servers.len(),
                forall|k: int| 0 <= k < out@.len() ==> #[trigger] out@[k] < i,
                forall|k: int, l: int| 0 <= k < l < out@.len() ==> #[trigger] out@[k] < #[trigger] out@[l],
                forall|j: int| 0 <= j < i ==> (out@.contains(j as usize) <==> self.servers@[j].1.enabled),
            decreases self.servers.len() - i,
        {
            let ghost before = out@;
            if self.servers[i].1.enabled {
                out.push(i);
            }
            proof {
                assert forall|j: int| 0 <= j < i + 1 implies (out@.contains(j as usize)
                    <==> self.servers@[j].1.enabled) by {
                    if j < i {
                        if out@.contains(j as usize) {
                            let k = choose|k: int| 0 <= k < out@.len() && out@[k] == j as usize;
                            if self.servers@[i as int].1.enabled {
                                assert(k < before.len());
                            }
                            assert(before[k] == j as usize);
                        }
                        if before.contains(j as usize) {
                            let k = choose|k: int| 0 <= k < before.len() && before[k] == j as usize;
                            assert(out@[k] == j as usize);
                        }
                    } else {
                        if self.servers@[i as int].1.enabled {
                            assert(out@[out@.len() - 1] == i);
                        } else {
                            assert(!before.contains(i));
                        }
                    }
                }
            }
            i += 1;
        }
        out
    }
}

/// The name a server's tool goes by: `mcp__{server}__{tool}`.
pub open spec fn qualified(server: Seq<char>, tool: Seq<char>) -> Seq<char> {
    "mcp__"@ + server + "__"@ + tool
}

/// The name a server's tool goes by, namespaced by the user's name for the
/// server so that two servers cannot shadow each other.
pub fn qualified_name(server: &str, tool: &str) -> (r: String)
    ensures
        r@ == qualified(server@, tool@),
{
    let mut out = String::from_str("mcp__");
    push_str(&mut out, server);
    push_str(&mut out, "__");
    push_str(&mut out, tool);
    out
}

/// A server that did not start, and why.
#[derive(Debug, Clone, PartialEq, Eq)]
pub struct StartupFailure {
    pub server: String,
    pub detail: String,
}

impl StartupFailure {
    /// The message shown to the user.
    pub fn message(&self) -> (r: String)
        ensures
            r@ == "MCP server `"@ + self.server@ + "` did not start: "@ + self.detail@,
    {
        let mut out = String::from_str("MCP server `");
        push_str(&mut out, self.server.as_str());
        push_str(&mut out, "` did not start: ");
        push_str(&mut out, self.detail.as_str());
        out
    }
}

/// The description of a server's tool, prefixed with the server's name.
pub fn tool_description(server: &str, remote_name: &str, description: Option<&str>) -> (r: String)
    ensures
        r@ == "["@ + server@ + "] "@ + match description {
            Some(d) => d@,
            None => remote_name@,
        },
{
    let mut out = String::from_str("[");
    push_str(&mut out, server);
    push_str(&mut out, "] ");
    match description {
        Some(d) => push_str(&mut out, d),
        None => push_str(&mut out, remote_name),
    }
    out
}

/// A block of a tool result, as far as it is shown.
#[derive(Debug, Clone)]
pub enum Block {
    /// Text.
    Text(String),
    /// An image, not shown.
    Image,
    /// Audio, not shown.
    Audio,
    /// Anything else, as JSON when it could be written as JSON.
    Other(Option<String>),
}

/// How a block reads.
pub open spec fn block_text(b: Block) -> Seq<char> {
    match b {
        Block::Text(t) => t@,
        Block::Image => "[image omitted]"@,
        Block::Audio => "[audio omitted]"@,
        Block::Other(Some(json)) => json@,
        Block::Other(None) => "[unrepresentable content]"@,
    }
}

/// A tool result as text: each block, one per line.
pub fn render_blocks(blocks: &Vec<Block>) -> (r: String)
    ensures
        r@ == crate::path::join_with(blocks@.map_values(|b: Block| block_text(b)), seq!['\n']),
{
    let ghost parts = blocks@.map_values(|b: Block| block_text(b));
    let mut out = String::new();
    let mut i: usize = 0;
    proof {
        assert(parts.take(0) =~= seq![]);
    }
    while i < blocks.len()
        invariant
            i <= blocks.len(),
            parts == blocks@.map_values(|b: Block| block_text(b)),
            out@ == crate::path::join_with(parts.take(i as int), seq!['\n']),
        decreases blocks.len() - i,
    {
        proof {
            assert(parts.take(i + 1).drop_last() =~= parts.take(i as int));
        }
        if i > 0 {
            push_str(&mut out, "\n");
        }
        match &blocks[i] {
            Block::Text(t) => push_str(&mut out, t.as_str()),
            Block::Image => push_str(&mut out, "[image omitted]"),
            Block::Audio => push_str(&mut out, "[audio omitted]"),
            Block::Other(Some(json)) => push_str(&mut out, json.as_str()),
            Block::Other(None) => push_str(&mut out, "[unrepresentable content]"),
        }
        proof {
            reveal_strlit("\n");
            if i == 0 {
                assert(parts.take(1) =~= seq![parts[0]]);
            }
            assert(out@ =~= crate::path::join_with(parts.take(i + 1), seq!['\n']));
        }
        i += 1;
    }
    proof {
        assert(parts.take(blocks.len() as int) =~= parts);
    }
    out
}

/// What a tool call answered: its text, or, when the server flags an error,
/// that text (or a note that it had none) as the tool's error.
pub fn call_result(tool: &str, is_error: bool, text: String) -> (r: Result<String, ToolError>)
    ensures
        !is_error ==> (r matches Ok(t) && t@ == text@),
        is_error ==> (r matches Err(ToolError::InvalidInput { tool: t, detail }) && t@ == tool@
            && detail@ == (if text@.len() == 0 {
            "the tool reported an error with no message"@
        } else {
            text@
        })),
{
    if !is_error {
        return Ok(text);
    }
    let detail = if text.as_str().is_empty() {
        String::from_str("the tool reported an error with no message")
    } else {
        text
    };
    Err(ToolError::InvalidInput { tool: String::from_str(tool), detail })
}

} // verus!

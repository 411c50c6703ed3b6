//! The search tool that the engine offers to language model agents.

use vstd::prelude::*;
use crate::api::public::{cap_depth, capped_depth};
use crate::text::{concat, same_text, starts_with, trim, trimmed};

verus! {

/// The revision of the protocol that is spoken.
pub const MCP_PROTOCOL_VERSION: &'static str = "2025-06-18";

/// What a request calls for.
#[derive(Debug, Clone)]
pub enum McpAction {
    /// Tell who this engine is and what it offers.
    Initialize,
    /// Take note, and answer without a body.
    Accept,
    /// Answer with an empty result.
    Ping,
    /// List the tools.
    ListTools,
    /// Call a tool.
    CallTool,
    /// Answer with an error.
    Fail { code: i64, message: String },
}

/// The action is the error with this code and message.
pub open spec fn fails_with(action: McpAction, code: int, message: Seq<char>) -> bool {
    action matches McpAction::Fail { code: c, message: m } && c == code && m@ == message
}

/// Decides what a request calls for. `is_batch` says that it is a list of
/// requests, which is not supported; a request without a method has an empty
/// one.
pub fn dispatch(is_batch: bool, method: &str) -> (r: McpAction)
    ensures
        is_batch ==> fails_with(r, -32600, "batch requests are not supported"@),
        !is_batch && method@ == "initialize"@ ==> r is Initialize,
        !is_batch && "notifications/"@.is_prefix_of(method@) ==> r is Accept,
        !is_batch && method@ == "ping"@ ==> r is Ping,
        !is_batch && method@ == "tools/list"@ ==> r is ListTools,
        !is_batch && method@ == "tools/call"@ ==> r is CallTool,
        !is_batch && method@.len() == 0 ==> fails_with(r, -32600, "missing `method`"@),
        !is_batch && method@ != "initialize"@ && !"notifications/"@.is_prefix_of(method@)
            && method@ != "ping"@ && method@ != "tools/list"@ && method@ != "tools/call"@
            && method@.len() > 0 ==> fails_with(r, -32601, "method not found: "@ + method@),
{
    proof {
        reveal_strlit("initialize");
        reveal_strlit("notifications/");
        reveal_strlit("ping");
        reveal_strlit("tools/list");
        reveal_strlit("tools/call");
        let n = "notifications/"@;
        if n.is_prefix_of(method@) {
            assert(method@.subrange(0, n.len() as int)[0] == method@[0]);
        }
        let l = "tools/list"@;
        let c = "tools/call"@;
        assert(l[6] != c[6]);
        let i = "initialize"@;
        let p = "ping"@;
        assert(i[0] == 'i' && p[0] == 'p' && l[0] == 't' && c[0] == 't' && n[0] == 'n');
    }
    if is_batch {
        return McpAction::Fail {
            code: -32600,
            message: "batch requests are not supported".to_owned(),
        };
    }
    if same_text(method, "initialize") {
        McpAction::Initialize
    } else if starts_with(method, "notifications/") {
        McpAction::Accept
    } else if same_text(method, "ping") {
        McpAction::Ping
    } else if same_text(method, "tools/list") {
        McpAction::ListTools
    } else if same_text(method, "tools/call") {
        McpAction::CallTool
    } else if method.is_empty() {
        McpAction::Fail { code: -32600, message: "missing `method`".to_owned() }
    } else {
        McpAction::Fail { code: -32601, message: concat("method not found: ", method) }
    }
}

/// A search that a tool call asks for.
#[derive(Debug, Clone)]
pub struct ToolSearch {
    pub query: String,
    pub collection: Option<String>,
    pub depth: u32,
}

/// Why a tool call cannot be carried out.
#[derive(Debug, Clone)]
pub struct ToolError {
    pub code: i64,
    pub message: String,
}

/// The collection that a search is limited to; an empty name limits nothing.
pub open spec fn tool_collection(collection: Option<Seq<char>>) -> Option<Seq<char>> {
    match collection {
        Some(c) => if c.len() > 0 {
            Some(c)
        } else {
            None
        },
        None => None,
    }
}

/// Reads a tool call from its parts, as far as it has them. The only tool is
/// the search, and it needs a query that is not blank.
pub fn read_tool_call(
    name: &Option<String>,
    query: &Option<String>,
    collection: &Option<String>,
    depth: Option<u64>,
) -> (r: Result<ToolSearch, ToolError>)
    ensures
        match r {
            Ok(s) => {
                &&& name.deep_view() == Some("search"@)
                &&& query is Some && trimmed(query->0@).len() > 0
                &&& s.query@ == trimmed(query->0@)
                &&& s.collection.deep_view() == tool_collection(collection.deep_view())
                &&& s.depth == capped_depth(depth)
            },
            Err(e) => {
                &&& e.code == -32602
                &&& if name.deep_view() != Some("search"@) {
                    e.message@ == "unknown tool: "@ + (match name {
                        Some(n) => n@,
                        None => "<none>"@,
                    })
                } else {
                    e.message@ == "missing required argument: `query`"@ && (query is None
                        || trimmed(query->0@).len() == 0)
                }
            },
        },
{
    match name {
        None => {
            return Err(ToolError { code: -32602, message: concat("unknown tool: ", "<none>") });
        },
        Some(n) => {
            if !same_text(n.as_str(), "search") {
                return Err(
                    ToolError { code: -32602, message: concat("unknown tool: ", n.as_str()) },
                );
            }
        },
    }
    let asked = match query {
        Some(q) => trim(q.as_str()),
        None => String::new(),
    };
    if asked.as_str().is_empty() {
        return Err(
            ToolError { code: -32602, message: "missing required argument: `query`".to_owned() },
        );
    }
    let limited = match collection {
        Some(c) => if c.as_str().is_empty() {
            None
        } else {
            Some(c.clone())
        },
        None => None,
    };
    Ok(ToolSearch { query: asked, collection: limited, depth: cap_depth(depth) })
}

/// A search is limited to the collection that is named; an empty name limits
/// nothing.
pub proof fn named_collections_limit(name: Seq<char>)
    ensures
        name.len() > 0 ==> tool_collection(Some(name)) == Some(name),
        name.len() == 0 ==> tool_collection(Some(name)) is None,
        tool_collection(None) is None,
{
}

/// A request that fails is answered with the code and the message given.
pub proof fn failures_carry_code_and_message(action: McpAction, code: int, message: Seq<char>)
    ensures
        fails_with(action, code, message) <==> (match action {
            McpAction::Fail { code: c, message: m } => c as int == code && m@ == message,
            _ => false,
        }),
{
}

} // verus!

//! The decisions of the JSON-RPC server loop: which incoming messages are answered,
//! which method or tool a request names, and the lookups of its operational tools.
use vstd::prelude::*;
use crate::text::{
    append_text, chars_of, contains, contains_chars, lowercase, same_text, strings_view, trim,
    trim_chars,
};
use crate::store::starts_with;

verus! {

/// What the server does with an incoming line.
#[derive(PartialEq, Eq, Structural, Clone, Copy, Debug)]
pub enum Route {
    /// Nothing is sent back.
    Skip,
    /// An error is sent back: the message names a JSON-RPC version other than 2.0.
    InvalidVersion,
    /// The request is handled and answered.
    Handle,
}

/// A line holding only white space is ignored.
pub fn is_blank_line(line: &str) -> (b: bool)
    ensures
        b == (trim(line@).len() == 0),
{
    let v = chars_of(line);
    let t = trim_chars(&v);
    t.len() == 0
}

/// How a parsed message is routed: a version other than "2.0" is refused; a message
/// without a method, without an id, or whose method is a notification gets no answer;
/// any other is handled.
pub open spec fn route_for(jsonrpc: Option<Seq<char>>, has_id: bool, method: Option<Seq<char>>) -> Route {
    if jsonrpc matches Some(v) && v != "2.0"@ {
        Route::InvalidVersion
    } else {
        match method {
            None => Route::Skip,
            Some(m) => if !has_id || starts_with(m, "notifications/"@) {
                Route::Skip
            } else {
                Route::Handle
            },
        }
    }
}

pub open spec fn opt_view(o: Option<&str>) -> Option<Seq<char>> {
    match o {
        Some(s) => Some(s@),
        None => None,
    }
}

fn has_prefix(s: &str, prefix: &str) -> (b: bool)
    ensures
        b == starts_with(s@, prefix@),
{
    let a = chars_of(s);
    let p = chars_of(prefix);
    if p.len() > a.len() {
        return false;
    }
    let mut i: usize = 0;
    while i < p.len()
        invariant
            a@ == s@,
            p@ == prefix@,
            p.len() <= a.len(),
            i <= p.len(),
            forall|m: int| 0 <= m < i ==> a@[m] == p@[m],
        decreases p.len() - i,
    {
        if a[i] != p[i] {
            assert(a@.take(p.len() as int)[i as int] != p@[i as int]);
            return false;
        }
        i = i + 1;
    }
    assert(a@.take(p.len() as int) =~= p@);
    true
}

/// Routes a parsed message by its `jsonrpc` field, whether it has an id, and its method.
pub fn route_message(jsonrpc: Option<&str>, has_id: bool, method: Option<&str>) -> (r: Route)
    ensures
        r == route_for(opt_view(jsonrpc), has_id, opt_view(method)),
{
    match jsonrpc {
        Some(v) => {
            if !same_text(v, "2.0") {
                return Route::InvalidVersion;
            }
        },
        None => {},
    }
    match method {
        None => Route::Skip,
        Some(m) => {
            if !has_id || has_prefix(m, "notifications/") {
                Route::Skip
            } else {
                Route::Handle
            }
        },
    }
}

/// A notification is never answered, and a message without an id is never handled.
pub proof fn lemma_notifications_unanswered(
    jsonrpc: Option<Seq<char>>,
    has_id: bool,
    method: Seq<char>,
)
    ensures
        starts_with(method, "notifications/"@) ==> route_for(jsonrpc, has_id, Some(method))
            != Route::Handle,
        !has_id ==> route_for(jsonrpc, has_id, Some(method)) != Route::Handle,
{
}

/// The error message for a message with the wrong JSON-RPC version.
pub fn invalid_version_message(version: &str) -> (m: String)
    ensures
        m@ == "Invalid JSON-RPC version: expected '2.0', got '"@ + version@ + "'"@,
{
    let mut m = "Invalid JSON-RPC version: expected '2.0', got '".to_owned();
    append_text(&mut m, version);
    append_text(&mut m, "'");
    m
}

/// The error message for an unknown method.
pub fn method_not_found_message(method: &str) -> (m: String)
    ensures
        m@ == "Method not found: "@ + method@,
{
    let mut m = "Method not found: ".to_owned();
    append_text(&mut m, method);
    m
}

/// The JSON-RPC methods the server answers.
#[derive(PartialEq, Eq, Structural, Clone, Copy, Debug)]
pub enum Method {
    Initialize,
    ToolsList,
    ToolsCall,
    Ping,
    Unknown,
}

pub open spec fn method_for(name: Seq<char>) -> Method {
    if name == "initialize"@ {
        Method::Initialize
    } else if name == "tools/list"@ {
        Method::ToolsList
    } else if name == "tools/call"@ {
        Method::ToolsCall
    } else if name == "ping"@ {
        Method::Ping
    } else {
        Method::Unknown
    }
}

/// Which method a request names.
pub fn classify_method(name: &str) -> (m: Method)
    ensures
        m == method_for(name@),
{
    if same_text(name, "initialize") {
        Method::Initialize
    } else if same_text(name, "tools/list") {
        Method::ToolsList
    } else if same_text(name, "tools/call") {
        Method::ToolsCall
    } else if same_text(name, "ping") {
        Method::Ping
    } else {
        Method::Unknown
    }
}

/// The tools a `tools/call` request can name.
#[derive(PartialEq, Eq, Structural, Clone, Copy, Debug)]
pub enum Tool {
    Heuristics,
    Embed,
    StorePattern,
    Compare,
    Analyze,
    SmartFetch,
    Health,
    ScoreResponse,
    SemanticSearch,
    SemanticReindex,
    ServerHealth,
    McpRebuild,
    ErrorFallbacks,
    Plan,
    Assemble,
    Unknown,
}

pub open spec fn tool_for(name: Seq<char>) -> Tool {
    if name == "heuristics"@ {
        Tool::Heuristics
    } else if name == "embed"@ {
        Tool::Embed
    } else if name == "store_pattern"@ {
        Tool::StorePattern
    } else if name == "compare"@ {
        Tool::Compare
    } else if name == "analyze"@ {
        Tool::Analyze
    } else if name == "smart_fetch"@ {
        Tool::SmartFetch
    } else if name == "health"@ {
        Tool::Health
    } else if name == "score_response"@ {
        Tool::ScoreResponse
    } else if name == "semantic_search"@ {
        Tool::SemanticSearch
    } else if name == "semantic_reindex"@ {
        Tool::SemanticReindex
    } else if name == "server_health"@ {
        Tool::ServerHealth
    } else if name == "mcp_rebuild"@ {
        Tool::McpRebuild
    } else if name == "error_fallbacks"@ {
        Tool::ErrorFallbacks
    } else if name == "plan"@ {
        Tool::Plan
    } else if name == "assemble"@ {
        Tool::Assemble
    } else {
        Tool::Unknown
    }
}

/// Which tool a `tools/call` request names.
pub fn classify_tool(name: &str) -> (t: Tool)
    ensures
        t == tool_for(name@),
{
    if same_text(name, "heuristics") {
        Tool::Heuristics
    } else if same_text(name, "embed") {
        Tool::Embed
    } else if same_text(name, "store_pattern") {
        Tool::StorePattern
    } else if same_text(name, "compare") {
        Tool::Compare
    } else if same_text(name, "analyze") {
        Tool::Analyze
    } else if same_text(name, "smart_fetch") {
        Tool::SmartFetch
    } else if same_text(name, "health") {
        Tool::Health
    } else if same_text(name, "score_response") {
        Tool::ScoreResponse
    } else if same_text(name, "semantic_search") {
        Tool::SemanticSearch
    } else if same_text(name, "semantic_reindex") {
        Tool::SemanticReindex
    } else if same_text(name, "server_health") {
        Tool::ServerHealth
    } else if same_text(name, "mcp_rebuild") {
        Tool::McpRebuild
    } else if same_text(name, "error_fallbacks") {
        Tool::ErrorFallbacks
    } else if same_text(name, "plan") {
        Tool::Plan
    } else if same_text(name, "assemble") {
        Tool::Assemble
    } else {
        Tool::Unknown
    }
}

/// The message for a tool name the server does not know.
pub fn unknown_tool_message(name: &str) -> (m: String)
    ensures
        m@ == "Unknown tool: "@ + name@,
{
    let mut m = "Unknown tool: ".to_owned();
    append_text(&mut m, name);
    m
}

/// A learned error fallback matches a query when the query, lowercased, occurs in its
/// lowercased symptom or in its lowercased name.
pub open spec fn fallback_matches_spec(name: Seq<char>, symptom: Seq<char>, query: Seq<char>) -> bool {
    contains(lowercase(symptom), lowercase(query)) || contains(lowercase(name), lowercase(query))
}

/// Whether the fallback named `name` with symptom `symptom` matches the error text `query`.
pub fn fallback_matches(name: &str, symptom: &str, query: &str) -> (b: bool)
    ensures
        b == fallback_matches_spec(name@, symptom@, query@),
{
    let q = query.to_lowercase();
    let qv = chars_of(q.as_str());
    let s = symptom.to_lowercase();
    let sv = chars_of(s.as_str());
    if contains_chars(&sv, &qv) {
        return true;
    }
    let n = name.to_lowercase();
    let nv = chars_of(n.as_str());
    contains_chars(&nv, &qv)
}

/// A server is checked when no filter is given, or when the filter names it.
pub open spec fn server_selected_spec(filter: Option<Seq<Seq<char>>>, name: Seq<char>) -> bool {
    match filter {
        None => true,
        Some(f) => f.contains(name),
    }
}

/// Whether the server called `name` is checked under `filter`.
pub fn server_selected(filter: &Option<Vec<String>>, name: &str) -> (b: bool)
    ensures
        b == server_selected_spec(
            match filter {
                Some(f) => Some(strings_view(f@)),
                None => None,
            },
            name@,
        ),
{
    match filter {
        None => true,
        Some(f) => crate::text::holds_text(f, name),
    }
}

/// Tallies server liveness: how many are alive and how many are not.
pub fn tally_servers(alive: &Vec<bool>) -> (r: (u64, u64))
    ensures
        r.0 + r.1 == alive.len(),
        r.0 == alive@.filter(|b: bool| b).len(),
{
    let mut up: u64 = 0;
    let mut down: u64 = 0;
    let mut i: usize = 0;
    while i < alive.len()
        invariant
            i <= alive.len(),
            up + down == i,
            up == alive@.take(i as int).filter(|b: bool| b).len(),
        decreases alive.len() - i,
    {
        assert(alive@.take(i + 1).drop_last() =~= alive@.take(i as int));
        reveal_with_fuel(Seq::filter, 1);
        if alive[i] {
            up = up + 1;
        } else {
            down = down + 1;
        }
        i = i + 1;
    }
    assert(alive@.take(alive.len() as int) =~= alive@);
    (up, down)
}

/// The tools that run a local model; each needs the model named in its arguments.
pub open spec fn uses_model(t: Tool) -> bool {
    match t {
        Tool::Embed | Tool::StorePattern | Tool::Compare | Tool::Analyze | Tool::SmartFetch
        | Tool::SemanticSearch | Tool::SemanticReindex => true,
        _ => false,
    }
}

/// The error a model-backed tool gives when no model is named.
pub open spec fn missing_model_message(t: Tool) -> Seq<char> {
    match t {
        Tool::SemanticSearch => "Missing 'model' parameter \u{2014} specify the embedding model used at reindex time"@,
        Tool::SemanticReindex => "Missing 'model' parameter \u{2014} specify the embedding model to use (e.g. 'nomic-embed-text')"@,
        _ => "Missing 'model' parameter"@,
    }
}

/// Every tool that runs a model (embed, store_pattern, compare, analyze, smart_fetch,
/// semantic_search, semantic_reindex) needs one named; no other tool does.
pub proof fn law_model_backed_tools(t: Tool)
    ensures
        uses_model(t) <==> (t is Embed || t is StorePattern || t is Compare || t is Analyze
            || t is SmartFetch || t is SemanticSearch || t is SemanticReindex),
        !uses_model(t) <==> (t is Heuristics || t is Health || t is ScoreResponse
            || t is ServerHealth || t is McpRebuild || t is ErrorFallbacks || t is Plan
            || t is Assemble || t is Unknown),
{
}

/// The model a tool call runs with. A model-backed tool has no default: without a
/// model named in its arguments the call fails; other tools take no model.
pub fn model_for_tool(t: Tool, model: Option<String>) -> (r: Result<Option<String>, String>)
    ensures
        uses_model(t) ==> match r {
            Ok(m) => model matches Some(g) && m matches Some(n) && n@ == g@,
            Err(e) => model is None && e@ == missing_model_message(t),
        },
        !uses_model(t) ==> r matches Ok(None),
        model is None && (t is Embed || t is StorePattern || t is Compare || t is Analyze
            || t is SmartFetch || t is SemanticSearch || t is SemanticReindex) ==> r is Err,
        model is None && t is Analyze ==> (r matches Err(e) && e@ == "Missing 'model' parameter"@),
{
    let needs = match t {
        Tool::Embed | Tool::StorePattern | Tool::Compare | Tool::Analyze | Tool::SmartFetch
        | Tool::SemanticSearch | Tool::SemanticReindex => true,
        _ => false,
    };
    if !needs {
        return Ok(None);
    }
    match model {
        Some(m) => Ok(Some(m)),
        None => {
            let msg = match t {
                Tool::SemanticSearch => "Missing 'model' parameter \u{2014} specify the embedding model used at reindex time",
                Tool::SemanticReindex => "Missing 'model' parameter \u{2014} specify the embedding model to use (e.g. 'nomic-embed-text')",
                _ => "Missing 'model' parameter",
            };
            Err(msg.to_owned())
        },
    }
}

} // verus!

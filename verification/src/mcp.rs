//! Request routing and graph tools of the MCP gateway.
//!
//! The gateway reads JSON-RPC requests and writes responses; this module
//! decides what a request is routed to, which errors are answered, and
//! computes the graph tools' results (the node lookup, the topology summary
//! and the re-indexing of one file).

use vstd::prelude::*;
use crate::snapshot::{lowercase, to_lowercase};
use crate::text::{chars_to_string, push_str, starts_with, starts_with_str, str_chars, str_eq};
use crate::types::{
    Edge, EdgeView, ExtractionResult, GraphOutput, Node, NodeId, NodeView, edges_view, nodes_view,
};

verus! {

// ---------------------------------------------------------------------------
// Protocol types
// ---------------------------------------------------------------------------

/// A JSON-RPC error object.
#[derive(Debug, Clone, PartialEq, Eq)]
pub struct JsonRpcError {
    pub code: i32,
    pub message: String,
}

/// Parameters of `graphify_graph_query`.
#[derive(Debug, Clone, PartialEq, Eq)]
pub struct QueryParams {
    pub question: String,
}

/// Parameters of `graphify_graph_path`.
#[derive(Debug, Clone, PartialEq, Eq)]
pub struct PathParams {
    pub source: String,
    pub target: String,
}

/// Parameters of `graphify_graph_query_node`.
#[derive(Debug, Clone, PartialEq, Eq)]
pub struct QueryNodeParams {
    pub node_id: String,
    pub depth: Option<usize>,
}

/// Parameters of `graphify_graph_trace_path`.
#[derive(Debug, Clone, PartialEq, Eq)]
pub struct TracePathParams {
    pub from: String,
    pub to: String,
}

/// Parameters of `graphify_graph_reindex`.
#[derive(Debug, Clone, PartialEq, Eq)]
pub struct ReindexParams {
    pub file_path: String,
}

/// JSON-RPC: invalid params.
pub const INVALID_PARAMS: i32 = -32602;
/// JSON-RPC: method not found.
pub const METHOD_NOT_FOUND: i32 = -32601;
/// JSON-RPC: internal error.
pub const INTERNAL_ERROR: i32 = -32603;

// ---------------------------------------------------------------------------
// Routing
// ---------------------------------------------------------------------------

/// What a request method asks for.
#[derive(Debug, Clone, Copy, PartialEq, Eq, Structural)]
pub enum Method {
    Initialize,
    ToolsList,
    ToolsCall,
    Unknown,
}

pub open spec fn method_of(m: Seq<char>) -> Method {
    if m == "initialize"@ {
        Method::Initialize
    } else if m == "tools/list"@ {
        Method::ToolsList
    } else if m == "tools/call"@ {
        Method::ToolsCall
    } else {
        Method::Unknown
    }
}

/// Routes a request method.
pub fn route_method(method: &str) -> (m: Method)
    ensures
        m == method_of(method@),
{
    let v = str_chars(method);
    if crate::text::chars_eq_str(v.as_slice(), "initialize") {
        Method::Initialize
    } else if crate::text::chars_eq_str(v.as_slice(), "tools/list") {
        Method::ToolsList
    } else if crate::text::chars_eq_str(v.as_slice(), "tools/call") {
        Method::ToolsCall
    } else {
        Method::Unknown
    }
}

/// Who answers a tool call.
#[derive(Debug, Clone, Copy, PartialEq, Eq, Structural)]
pub enum ToolRoute {
    /// The built-in tool listing.
    Help,
    /// A manual graph-update broadcast.
    PluginNotify,
    /// The restricted semantic-memory query.
    MemoryQuery,
    /// The embedded handoff relay.
    Relay,
    /// The embedded spec-to-code link registry.
    Opendoc,
    /// The embedded review bridge.
    Review,
    /// The embedded telemetry bridge.
    Telemetry,
    /// The embedded coverage bridge.
    Coverage,
    /// A namespaced plugin subprocess tool.
    PluginHost,
    /// A built-in graph tool.
    Graph,
}

pub open spec fn in_names(name: Seq<char>, names: Seq<Seq<char>>) -> bool {
    names.contains(name)
}

pub open spec fn relay_tools() -> Seq<Seq<char>> {
    seq![
        "graphify_relay_init"@,
        "graphify_relay_save"@,
        "graphify_relay_close"@,
        "graphify_relay_switch"@,
        "graphify_relay_resume"@,
        "graphify_relay_status"@,
        "graphify_relay_add"@,
    ]
}

pub open spec fn opendoc_tools() -> Seq<Seq<char>> {
    seq!["graphify_opendoc_index"@, "graphify_opendoc_get_context"@, "graphify_opendoc_audit_drift"@]
}

pub open spec fn review_tools() -> Seq<Seq<char>> {
    seq![
        "graphify_review_ingest"@,
        "graphify_review_get_context"@,
        "graphify_review_resolve"@,
        "graphify_review_search_crg"@,
    ]
}

pub open spec fn telemetry_tools() -> Seq<Seq<char>> {
    seq!["graphify_telemetry_ingest"@, "graphify_telemetry_get_context"@]
}

pub open spec fn coverage_tools() -> Seq<Seq<char>> {
    seq!["graphify_coverage_ingest"@, "graphify_coverage_get_context"@, "graphify_coverage_blindspots"@]
}

/// The route of a tool name; the built-in notify tool is matched before
/// the plugin namespace, so plugin tools never shadow core tools.
pub open spec fn tool_route(name: Seq<char>) -> ToolRoute {
    if name == "graphify_help"@ {
        ToolRoute::Help
    } else if name == "graphify_plugin_notify"@ {
        ToolRoute::PluginNotify
    } else if name == "graphify_memory_query"@ {
        ToolRoute::MemoryQuery
    } else if in_names(name, relay_tools()) {
        ToolRoute::Relay
    } else if in_names(name, opendoc_tools()) {
        ToolRoute::Opendoc
    } else if in_names(name, review_tools()) {
        ToolRoute::Review
    } else if in_names(name, telemetry_tools()) {
        ToolRoute::Telemetry
    } else if in_names(name, coverage_tools()) {
        ToolRoute::Coverage
    } else if starts_with(name, crate::host::tool_prefix()) {
        ToolRoute::PluginHost
    } else {
        ToolRoute::Graph
    }
}

fn is_one_of(v: &[char], names: &[&str]) -> (r: bool)
    ensures
        r == exists|i: int| 0 <= i < names@.len() && (#[trigger] names@[i])@ == v@,
{
    let mut i: usize = 0;
    while i < names.len()
        invariant
            i <= names@.len(),
            forall|j: int| 0 <= j < i ==> (#[trigger] names@[j])@ != v@,
        decreases names@.len() - i,
    {
        if crate::text::chars_eq_str(v, names[i]) {
            return true;
        }
        i = i + 1;
    }
    false
}

proof fn lemma_names_match(names: Seq<&str>, spec_names: Seq<Seq<char>>, v: Seq<char>)
    requires
        names.len() == spec_names.len(),
        forall|i: int| 0 <= i < names.len() ==> (#[trigger] names[i])@ == spec_names[i],
    ensures
        (exists|i: int| 0 <= i < names.len() && (#[trigger] names[i])@ == v) == spec_names.contains(v),
{
    if spec_names.contains(v) {
        let i = choose|i: int| 0 <= i < spec_names.len() && spec_names[i] == v;
        assert(names[i]@ == v);
    }
}

/// Routes a tool call by its name.
pub fn route_tool(name: &str) -> (r: ToolRoute)
    ensures
        r == tool_route(name@),
{
    let v = str_chars(name);
    if crate::text::chars_eq_str(v.as_slice(), "graphify_help") {
        return ToolRoute::Help;
    }
    if crate::text::chars_eq_str(v.as_slice(), "graphify_plugin_notify") {
        return ToolRoute::PluginNotify;
    }
    if crate::text::chars_eq_str(v.as_slice(), "graphify_memory_query") {
        return ToolRoute::MemoryQuery;
    }
    let relay = [
        "graphify_relay_init",
        "graphify_relay_save",
        "graphify_relay_close",
        "graphify_relay_switch",
        "graphify_relay_resume",
        "graphify_relay_status",
        "graphify_relay_add",
    ];
    proof {
        lemma_names_match(relay@, relay_tools(), v@);
    }
    if is_one_of(v.as_slice(), &relay) {
        return ToolRoute::Relay;
    }
    let opendoc = ["graphify_opendoc_index", "graphify_opendoc_get_context", "graphify_opendoc_audit_drift"];
    proof {
        lemma_names_match(opendoc@, opendoc_tools(), v@);
    }
    if is_one_of(v.as_slice(), &opendoc) {
        return ToolRoute::Opendoc;
    }
    let review = [
        "graphify_review_ingest",
        "graphify_review_get_context",
        "graphify_review_resolve",
        "graphify_review_search_crg",
    ];
    proof {
        lemma_names_match(review@, review_tools(), v@);
    }
    if is_one_of(v.as_slice(), &review) {
        return ToolRoute::Review;
    }
    let telemetry = ["graphify_telemetry_ingest", "graphify_telemetry_get_context"];
    proof {
        lemma_names_match(telemetry@, telemetry_tools(), v@);
    }
    if is_one_of(v.as_slice(), &telemetry) {
        return ToolRoute::Telemetry;
    }
    let coverage = ["graphify_coverage_ingest", "graphify_coverage_get_context", "graphify_coverage_blindspots"];
    proof {
        lemma_names_match(coverage@, coverage_tools(), v@);
    }
    if is_one_of(v.as_slice(), &coverage) {
        return ToolRoute::Coverage;
    }
    proof {
        reveal_strlit("graphify_plugin_");
        assert(crate::host::TOOL_PREFIX@ =~= crate::host::tool_prefix());
    }
    if starts_with_str(v.as_slice(), crate::host::TOOL_PREFIX) {
        return ToolRoute::PluginHost;
    }
    ToolRoute::Graph
}

/// Whether the tool needs the current graph handed to its plugin first:
/// every review tool, and the telemetry and coverage ingests.
pub open spec fn needs_graph(name: Seq<char>) -> bool {
    in_names(name, review_tools()) || name == "graphify_telemetry_ingest"@ || name
        == "graphify_coverage_ingest"@
}

/// Whether the tool needs the current graph handed to its plugin first.
pub fn needs_graph_sync(name: &str) -> (r: bool)
    ensures
        r == needs_graph(name@),
{
    let v = str_chars(name);
    let review = [
        "graphify_review_ingest",
        "graphify_review_get_context",
        "graphify_review_resolve",
        "graphify_review_search_crg",
    ];
    proof {
        lemma_names_match(review@, review_tools(), v@);
    }
    is_one_of(v.as_slice(), &review) || crate::text::chars_eq_str(v.as_slice(), "graphify_telemetry_ingest")
        || crate::text::chars_eq_str(v.as_slice(), "graphify_coverage_ingest")
}

// ---------------------------------------------------------------------------
// Errors
// ---------------------------------------------------------------------------

/// The message prefix of a failed tool call of a route.
pub open spec fn route_error_prefix(r: ToolRoute) -> Seq<char> {
    match r {
        ToolRoute::MemoryQuery => "Memory query error: "@,
        ToolRoute::Relay => "Relay tool error: "@,
        ToolRoute::Opendoc => "Opendoc tool error: "@,
        ToolRoute::Review => "Review tool error: "@,
        ToolRoute::Telemetry => "Telemetry tool error: "@,
        ToolRoute::Coverage => "Coverage tool error: "@,
        ToolRoute::PluginHost => "Plugin tool call error: "@,
        _ => "Tool call error: "@,
    }
}

fn route_prefix(r: ToolRoute) -> (s: &'static str)
    ensures
        s@ == route_error_prefix(r),
{
    match r {
        ToolRoute::MemoryQuery => "Memory query error: ",
        ToolRoute::Relay => "Relay tool error: ",
        ToolRoute::Opendoc => "Opendoc tool error: ",
        ToolRoute::Review => "Review tool error: ",
        ToolRoute::Telemetry => "Telemetry tool error: ",
        ToolRoute::Coverage => "Coverage tool error: ",
        ToolRoute::PluginHost => "Plugin tool call error: ",
        _ => "Tool call error: ",
    }
}

/// The internal error answered when a tool of a route fails.
pub fn tool_error(route: ToolRoute, detail: &str) -> (e: JsonRpcError)
    ensures
        e.code == INTERNAL_ERROR,
        e.message@ == route_error_prefix(route) + detail@,
{
    let mut v: Vec<char> = Vec::new();
    push_str(&mut v, route_prefix(route));
    push_str(&mut v, detail);
    JsonRpcError { code: INTERNAL_ERROR, message: chars_to_string(v.as_slice()) }
}

/// The error answered for an unknown method.
pub fn method_not_found(method: &str) -> (e: JsonRpcError)
    ensures
        e.code == METHOD_NOT_FOUND,
        e.message@ == "Method not found: "@ + method@,
{
    let mut v: Vec<char> = Vec::new();
    push_str(&mut v, "Method not found: ");
    push_str(&mut v, method);
    JsonRpcError { code: METHOD_NOT_FOUND, message: chars_to_string(v.as_slice()) }
}

/// The error answered for a `tools/call` without a tool name.
pub fn missing_tool_name() -> (e: JsonRpcError)
    ensures
        e.code == INVALID_PARAMS,
        e.message@ == "Missing 'name' in tools/call parameters"@,
{
    JsonRpcError {
        code: INVALID_PARAMS,
        message: String::from_str("Missing 'name' in tools/call parameters"),
    }
}

/// The error answered when the graph state cannot be read.
pub fn graph_state_poisoned() -> (e: JsonRpcError)
    ensures
        e.code == INTERNAL_ERROR,
        e.message@ == "graph state lock poisoned"@,
{
    JsonRpcError { code: INTERNAL_ERROR, message: String::from_str("graph state lock poisoned") }
}

/// The kind of a manual broadcast: `manual` when absent; one of `indexed`,
/// `extracted`, `manual`, else an invalid-params error.
pub fn notify_kind(kind: Option<&str>) -> (r: Result<crate::plugin::GraphUpdateKind, JsonRpcError>)
    ensures
        match kind {
            None => r == Ok::<crate::plugin::GraphUpdateKind, JsonRpcError>(
                crate::plugin::GraphUpdateKind::Manual,
            ),
            Some(k) => if k@ == "indexed"@ {
                r == Ok::<crate::plugin::GraphUpdateKind, JsonRpcError>(
                    crate::plugin::GraphUpdateKind::Indexed,
                )
            } else if k@ == "extracted"@ {
                r == Ok::<crate::plugin::GraphUpdateKind, JsonRpcError>(
                    crate::plugin::GraphUpdateKind::Extracted,
                )
            } else if k@ == "manual"@ {
                r == Ok::<crate::plugin::GraphUpdateKind, JsonRpcError>(
                    crate::plugin::GraphUpdateKind::Manual,
                )
            } else {
                r matches Err(e) && e.code == INVALID_PARAMS && e.message@
                    == "kind must be indexed, extracted, or manual"@
            },
        },
{
    match kind {
        None => Ok(crate::plugin::GraphUpdateKind::Manual),
        Some(k) => {
            let v = str_chars(k);
            if crate::text::chars_eq_str(v.as_slice(), "indexed") {
                Ok(crate::plugin::GraphUpdateKind::Indexed)
            } else if crate::text::chars_eq_str(v.as_slice(), "extracted") {
                Ok(crate::plugin::GraphUpdateKind::Extracted)
            } else if crate::text::chars_eq_str(v.as_slice(), "manual") {
                Ok(crate::plugin::GraphUpdateKind::Manual)
            } else {
                Err(
                    JsonRpcError {
                        code: INVALID_PARAMS,
                        message: String::from_str("kind must be indexed, extracted, or manual"),
                    },
                )
            }
        },
    }
}

/// The text name of an update kind.
pub fn kind_name(k: crate::plugin::GraphUpdateKind) -> (s: &'static str)
    ensures
        s@ == match k {
            crate::plugin::GraphUpdateKind::Indexed => "indexed"@,
            crate::plugin::GraphUpdateKind::Extracted => "extracted"@,
            crate::plugin::GraphUpdateKind::Manual => "manual"@,
        },
{
    match k {
        crate::plugin::GraphUpdateKind::Indexed => "indexed",
        crate::plugin::GraphUpdateKind::Extracted => "extracted",
        crate::plugin::GraphUpdateKind::Manual => "manual",
    }
}

// ---------------------------------------------------------------------------
// The help listing
// ---------------------------------------------------------------------------

/// The built-in tools with their descriptions, ordered by name.
pub open spec fn builtin_spec() -> Seq<(Seq<char>, Seq<char>)> {
    seq![
        ("graphify_coverage_blindspots"@, "List nodes with <50% coverage"@),
        ("graphify_coverage_get_context"@, "Query coverage for a node"@),
        ("graphify_coverage_ingest"@, "Import test coverage data"@),
        ("graphify_graph_path"@, "Find shortest path between two nodes (legacy compatibility)"@),
        ("graphify_graph_query"@, "BFS traversal of the knowledge graph (legacy compatibility)"@),
        ("graphify_graph_query_node"@, "Query nodes by ID with depth"@),
        ("graphify_graph_reindex"@, "Reindex a file into the graph"@),
        ("graphify_graph_summary"@, "Get high-level topology summary"@),
        ("graphify_graph_trace_path"@, "Find shortest path between two nodes"@),
        ("graphify_help"@, "List all available tools with descriptions"@),
        ("graphify_memory_query"@, "Semantic memory query over the knowledge graph"@),
        ("graphify_opendoc_audit_drift"@, "Audit doc-side drift"@),
        ("graphify_opendoc_get_context"@, "Get spec blocks for a code symbol"@),
        ("graphify_opendoc_index"@, "Index spec blocks in workspace"@),
        ("graphify_plugin_notify"@, "Manually broadcast a graph_updated notification"@),
        ("graphify_relay_add"@, "Ingest TODO/handoff doc into relay.json"@),
        ("graphify_relay_close"@, "Close relay session"@),
        ("graphify_relay_init"@, "Initialize relay.json for cross-session handoff"@),
        ("graphify_relay_resume"@, "Resume a relay session"@),
        ("graphify_relay_save"@, "Save session state to relay.json"@),
        ("graphify_relay_status"@, "Show relay summary"@),
        ("graphify_relay_switch"@, "Switch to another registered repo"@),
        ("graphify_review_get_context"@, "Query unresolved reviews"@),
        ("graphify_review_ingest"@, "Import CRG review payload"@),
        ("graphify_review_resolve"@, "Mark a review as resolved"@),
        ("graphify_review_search_crg"@, "Search CRG for changed functions"@),
        ("graphify_telemetry_get_context"@, "Query telemetry bindings"@),
        ("graphify_telemetry_ingest"@, "Import telemetry metrics"@),
    ]
}

/// The built-in tools with their one-line descriptions, ordered by name.
pub fn builtin_tools() -> (v: Vec<(&'static str, &'static str)>)
    ensures
        str_pairs(v@) == builtin_spec(),
{
    let mut v: Vec<(&'static str, &'static str)> = Vec::new();
    v.push(("graphify_coverage_blindspots", "List nodes with <50% coverage"));
    v.push(("graphify_coverage_get_context", "Query coverage for a node"));
    v.push(("graphify_coverage_ingest", "Import test coverage data"));
    v.push(("graphify_graph_path", "Find shortest path between two nodes (legacy compatibility)"));
    v.push(("graphify_graph_query", "BFS traversal of the knowledge graph (legacy compatibility)"));
    v.push(("graphify_graph_query_node", "Query nodes by ID with depth"));
    v.push(("graphify_graph_reindex", "Reindex a file into the graph"));
    v.push(("graphify_graph_summary", "Get high-level topology summary"));
    v.push(("graphify_graph_trace_path", "Find shortest path between two nodes"));
    v.push(("graphify_help", "List all available tools with descriptions"));
    v.push(("graphify_memory_query", "Semantic memory query over the knowledge graph"));
    v.push(("graphify_opendoc_audit_drift", "Audit doc-side drift"));
    v.push(("graphify_opendoc_get_context", "Get spec blocks for a code symbol"));
    v.push(("graphify_opendoc_index", "Index spec blocks in workspace"));
    v.push(("graphify_plugin_notify", "Manually broadcast a graph_updated notification"));
    v.push(("graphify_relay_add", "Ingest TODO/handoff doc into relay.json"));
    v.push(("graphify_relay_close", "Close relay session"));
    v.push(("graphify_relay_init", "Initialize relay.json for cross-session handoff"));
    v.push(("graphify_relay_resume", "Resume a relay session"));
    v.push(("graphify_relay_save", "Save session state to relay.json"));
    v.push(("graphify_relay_status", "Show relay summary"));
    v.push(("graphify_relay_switch", "Switch to another registered repo"));
    v.push(("graphify_review_get_context", "Query unresolved reviews"));
    v.push(("graphify_review_ingest", "Import CRG review payload"));
    v.push(("graphify_review_resolve", "Mark a review as resolved"));
    v.push(("graphify_review_search_crg", "Search CRG for changed functions"));
    v.push(("graphify_telemetry_get_context", "Query telemetry bindings"));
    v.push(("graphify_telemetry_ingest", "Import telemetry metrics"));
    assert(str_pairs(v@) =~= builtin_spec());
    v
}

/// One listing line: ``- **`name`**: description``.
pub open spec fn tool_line(name: Seq<char>, desc: Seq<char>) -> Seq<char> {
    "- **`"@ + name + "`**: "@ + desc + "\n"@
}

/// The lines of the first `n` tools.
pub open spec fn tool_lines(ts: Seq<(Seq<char>, Seq<char>)>, n: int) -> Seq<char>
    decreases n,
{
    if n <= 0 {
        Seq::empty()
    } else {
        tool_lines(ts, n - 1) + tool_line(ts[n - 1].0, ts[n - 1].1)
    }
}

/// The help text: the built-in tools, then, when there are any, the plugin
/// tools under their own heading.
pub open spec fn help_text(
    builtin: Seq<(Seq<char>, Seq<char>)>,
    plugins: Seq<(Seq<char>, Seq<char>)>,
) -> Seq<char> {
    "## Graphify MCP Tools\n\n"@ + tool_lines(builtin, builtin.len() as int) + if plugins.len()
        == 0 {
        Seq::empty()
    } else {
        "\n### Plugin Tools\n\n"@ + tool_lines(plugins, plugins.len() as int)
    }
}

pub open spec fn str_pairs(v: Seq<(&str, &str)>) -> Seq<(Seq<char>, Seq<char>)> {
    v.map_values(|p: (&str, &str)| (p.0@, p.1@))
}

pub open spec fn string_pairs(v: Seq<(String, String)>) -> Seq<(Seq<char>, Seq<char>)> {
    v.map_values(|p: (String, String)| (p.0@, p.1@))
}

fn push_line(v: &mut Vec<char>, name: &str, desc: &str)
    ensures
        final(v)@ == old(v)@ + tool_line(name@, desc@),
{
    push_str(v, "- **`");
    push_str(v, name);
    push_str(v, "`**: ");
    push_str(v, desc);
    push_str(v, "\n");
    assert(final(v)@ =~= old(v)@ + tool_line(name@, desc@));
}

/// The help listing of the built-in tools and of the plugin tools
/// (`(name, description)` each).
pub fn help_listing(plugin_tools: &[(String, String)]) -> (s: String)
    ensures
        s@ == help_text(builtin_spec(), string_pairs(plugin_tools@)),
{
    let builtin = builtin_tools();
    let mut v: Vec<char> = Vec::new();
    push_str(&mut v, "## Graphify MCP Tools\n\n");
    let ghost head = v@;
    let mut i: usize = 0;
    while i < builtin.len()
        invariant
            i <= builtin@.len(),
            v@ == head + tool_lines(str_pairs(builtin@), i as int),
        decreases builtin@.len() - i,
    {
        let (n, d) = builtin[i];
        push_line(&mut v, n, d);
        proof {
            assert(str_pairs(builtin@)[i as int] == (n@, d@));
            assert(v@ =~= head + tool_lines(str_pairs(builtin@), i + 1));
        }
        i = i + 1;
    }
    let ghost mid = v@;
    if plugin_tools.len() > 0 {
        push_str(&mut v, "\n### Plugin Tools\n\n");
        let ghost head2 = v@;
        let mut j: usize = 0;
        while j < plugin_tools.len()
            invariant
                j <= plugin_tools@.len(),
                v@ == head2 + tool_lines(string_pairs(plugin_tools@), j as int),
            decreases plugin_tools@.len() - j,
        {
            push_line(&mut v, plugin_tools[j].0.as_str(), plugin_tools[j].1.as_str());
            proof {
                assert(string_pairs(plugin_tools@)[j as int] == (
                    plugin_tools@[j as int].0@,
                    plugin_tools@[j as int].1@,
                ));
                assert(v@ =~= head2 + tool_lines(string_pairs(plugin_tools@), j + 1));
            }
            j = j + 1;
        }
    }
    assert(v@ =~= help_text(builtin_spec(), string_pairs(plugin_tools@)));
    chars_to_string(v.as_slice())
}

// ---------------------------------------------------------------------------
// Graph tools
// ---------------------------------------------------------------------------

/// The index of the first node of `ns` (from `i` on) whose lower-cased
/// label or id is `li`.
pub open spec fn first_ci_match(ns: Seq<NodeView>, li: Seq<char>, i: int) -> Option<int>
    decreases ns.len() - i,
{
    if i < 0 || i >= ns.len() {
        None
    } else if lowercase(ns[i].label) == li || lowercase(ns[i].id) == li {
        Some(i)
    } else {
        first_ci_match(ns, li, i + 1)
    }
}

/// The node an input names: the node with that exact id, else the first
/// whose label or id matches it ignoring case (Unicode lower case).
pub open spec fn resolve_node(ns: Seq<NodeView>, input: Seq<char>) -> Option<Seq<char>> {
    if exists|i: int| 0 <= i < ns.len() && (#[trigger] ns[i]).id == input {
        Some(input)
    } else {
        match first_ci_match(ns, lowercase(input), 0) {
            Some(i) => Some(ns[i].id),
            None => None,
        }
    }
}

proof fn lemma_first_ci_match(ns: Seq<NodeView>, li: Seq<char>, i: int)
    requires
        0 <= i,
    ensures
        match first_ci_match(ns, li, i) {
            Some(k) => i <= k < ns.len() && (lowercase(ns[k].label) == li || lowercase(ns[k].id) == li)
                && forall|j: int|
                i <= j < k ==> !(lowercase((#[trigger] ns[j]).label) == li || lowercase(ns[j].id) == li),
            None => forall|j: int|
                i <= j < ns.len() ==> !(lowercase((#[trigger] ns[j]).label) == li || lowercase(ns[j].id)
                    == li),
        },
    decreases ns.len() - i,
{
    if i < ns.len() {
        lemma_first_ci_match(ns, li, i + 1);
    }
}

/// Node lookup: an input that is the id of a node names that node;
/// otherwise it names the first node whose label or id equals it ignoring
/// case; and nothing when no node matches either way.
pub proof fn lemma_resolve_node(ns: Seq<NodeView>, input: Seq<char>)
    ensures
        (exists|i: int| 0 <= i < ns.len() && (#[trigger] ns[i]).id == input) ==> resolve_node(ns, input)
            == Some(input),
        !(exists|i: int| 0 <= i < ns.len() && (#[trigger] ns[i]).id == input) ==> match resolve_node(
            ns,
            input,
        ) {
            Some(x) => exists|k: int|
                0 <= k < ns.len() && (#[trigger] ns[k]).id == x && (lowercase(ns[k].label) == lowercase(
                    input,
                ) || lowercase(ns[k].id) == lowercase(input)) && forall|j: int|
                    0 <= j < k ==> !(lowercase((#[trigger] ns[j]).label) == lowercase(input)
                        || lowercase(ns[j].id) == lowercase(input)),
            None => forall|j: int|
                0 <= j < ns.len() ==> !(lowercase((#[trigger] ns[j]).label) == lowercase(input)
                    || lowercase(ns[j].id) == lowercase(input)),
        },
{
    lemma_first_ci_match(ns, lowercase(input), 0);
    if !(exists|i: int| 0 <= i < ns.len() && (#[trigger] ns[i]).id == input) {
        if let Some(k) = first_ci_match(ns, lowercase(input), 0) {
            assert(ns[k].id == ns[k].id);
        }
    }
}

/// Resolves a node by exact id, else by case-insensitive label or id.
pub fn find_node_by_id_or_label(graph: &GraphOutput, input: &NodeId) -> (r: Option<NodeId>)
    ensures
        match r {
            Some(id) => resolve_node(nodes_view(graph.nodes@), input@) == Some(id@),
            None => resolve_node(nodes_view(graph.nodes@), input@) is None,
        },
{
    let ghost ns = nodes_view(graph.nodes@);
    let mut i: usize = 0;
    while i < graph.nodes.len()
        invariant
            i <= graph.nodes@.len(),
            ns == nodes_view(graph.nodes@),
            forall|j: int| 0 <= j < i ==> (#[trigger] ns[j]).id != input@,
        decreases graph.nodes@.len() - i,
    {
        assert(ns[i as int] == graph.nodes@[i as int]@);
        if str_eq(graph.nodes[i].id.0.as_str(), input.0.as_str()) {
            return Some(NodeId(graph.nodes[i].id.0.clone()));
        }
        i = i + 1;
    }
    let li = to_lowercase(input.0.as_str());
    let mut k: usize = 0;
    while k < graph.nodes.len()
        invariant
            k <= graph.nodes@.len(),
            ns == nodes_view(graph.nodes@),
            li@ == lowercase(input@),
            forall|j: int| 0 <= j < ns.len() ==> (#[trigger] ns[j]).id != input@,
            first_ci_match(ns, li@, 0) == first_ci_match(ns, li@, k as int),
        decreases graph.nodes@.len() - k,
    {
        let n = &graph.nodes[k];
        assert(ns[k as int] == n@);
        let ll = to_lowercase(n.label.as_str());
        let il = to_lowercase(n.id.0.as_str());
        if str_eq(ll.as_str(), li.as_str()) || str_eq(il.as_str(), li.as_str()) {
            return Some(NodeId(n.id.0.clone()));
        }
        k = k + 1;
    }
    None
}

/// The node kinds of the topology summary.
pub open spec fn summary_kind(k: Seq<char>) -> bool {
    k == "module"@ || k == "class"@ || k == "struct"@ || k == "trait"@ || k == "interface"@
}

/// The nodes of the first `n` of `ns` that have a summary kind.
pub open spec fn summary_kinds_upto(ns: Seq<NodeView>, n: int) -> Seq<NodeView>
    decreases n,
{
    if n <= 0 {
        Seq::empty()
    } else if summary_kind(ns[n - 1].kind) {
        summary_kinds_upto(ns, n - 1).push(ns[n - 1])
    } else {
        summary_kinds_upto(ns, n - 1)
    }
}

/// The summary nodes: the first 15 nodes of a summary kind.
pub open spec fn summary_nodes(ns: Seq<NodeView>) -> Seq<NodeView> {
    let all = summary_kinds_upto(ns, ns.len() as int);
    if all.len() <= 15 {
        all
    } else {
        all.subrange(0, 15)
    }
}

/// Some node of `ns` has id `id`.
pub open spec fn has_node_id(ns: Seq<NodeView>, id: Seq<char>) -> bool {
    exists|i: int| 0 <= i < ns.len() && (#[trigger] ns[i]).id == id
}

/// The edges of the first `n` of `es` between two nodes of `ns`.
pub open spec fn edges_within(es: Seq<EdgeView>, ns: Seq<NodeView>, n: int) -> Seq<EdgeView>
    decreases n,
{
    if n <= 0 {
        Seq::empty()
    } else if has_node_id(ns, es[n - 1].source) && has_node_id(ns, es[n - 1].target) {
        edges_within(es, ns, n - 1).push(es[n - 1])
    } else {
        edges_within(es, ns, n - 1)
    }
}

/// A node of the kinds a topology summary shows.
pub open spec fn structural_node(n: NodeView) -> bool {
    n.kind == "module"@ || n.kind == "class"@ || n.kind == "struct"@ || n.kind == "trait"@ || n.kind
        == "interface"@
}

/// How many of the first `n` of `ns` are of a kind the summary shows.
pub open spec fn structural_count(ns: Seq<NodeView>, n: int) -> nat
    decreases n,
{
    if n <= 0 {
        0
    } else {
        structural_count(ns, n - 1) + if structural_node(ns[n - 1]) {
            1nat
        } else {
            0nat
        }
    }
}

proof fn lemma_summary_upto(ns: Seq<NodeView>, n: int)
    requires
        0 <= n <= ns.len(),
    ensures
        summary_kinds_upto(ns, n).len() == structural_count(ns, n),
        forall|k: int|
            0 <= k < summary_kinds_upto(ns, n).len() ==> structural_node(
                #[trigger] summary_kinds_upto(ns, n)[k],
            ) && ns.contains(summary_kinds_upto(ns, n)[k]),
        forall|i: int|
            0 <= i < n && structural_node(#[trigger] ns[i]) ==> summary_kinds_upto(ns, n)[structural_count(
                ns,
                i,
            ) as int] == ns[i],
    decreases n,
{
    if n > 0 {
        lemma_summary_upto(ns, n - 1);
        let prev = summary_kinds_upto(ns, n - 1);
        let cur = summary_kinds_upto(ns, n);
        assert forall|k: int| 0 <= k < cur.len() implies structural_node(#[trigger] cur[k])
            && ns.contains(cur[k]) by {
            if k < prev.len() {
                assert(cur[k] == prev[k]);
            } else {
                assert(cur[k] == ns[n - 1]);
            }
        }
        assert forall|i: int| 0 <= i < n && structural_node(#[trigger] ns[i]) implies cur[structural_count(
            ns,
            i,
        ) as int] == ns[i] by {
            if i < n - 1 {
                lemma_structural_count_mono(ns, i + 1, n - 1);
                assert(cur[structural_count(ns, i) as int] == prev[structural_count(ns, i) as int]);
            }
        }
    }
}

proof fn lemma_structural_count_mono(ns: Seq<NodeView>, a: int, b: int)
    requires
        0 <= a <= b,
    ensures
        structural_count(ns, a) <= structural_count(ns, b),
    decreases b - a,
{
    if a < b {
        lemma_structural_count_mono(ns, a, b - 1);
    }
}

/// The summary shows the nodes of kind module, class, struct, trait and
/// interface, in graph order, up to 15 of them: every summary node is such a
/// node of the graph, and every such node with fewer than 15 such nodes
/// before it is in the summary, at its place among them.
pub proof fn lemma_summary_nodes(ns: Seq<NodeView>)
    ensures
        summary_nodes(ns).len() <= 15,
        summary_nodes(ns).len() == if structural_count(ns, ns.len() as int) <= 15 {
            structural_count(ns, ns.len() as int)
        } else {
            15
        },
        forall|k: int|
            0 <= k < summary_nodes(ns).len() ==> structural_node(#[trigger] summary_nodes(ns)[k])
                && ns.contains(summary_nodes(ns)[k]),
        forall|i: int|
            0 <= i < ns.len() && structural_node(#[trigger] ns[i]) && structural_count(ns, i) < 15
                ==> summary_nodes(ns)[structural_count(ns, i) as int] == ns[i],
{
    lemma_summary_upto(ns, ns.len() as int);
    let all = summary_kinds_upto(ns, ns.len() as int);
    assert forall|i: int|
        0 <= i < ns.len() && structural_node(#[trigger] ns[i]) && structural_count(ns, i)
            < 15 implies summary_nodes(ns)[structural_count(ns, i) as int] == ns[i] by {
        lemma_structural_count_mono(ns, i + 1, ns.len() as int);
        assert(all[structural_count(ns, i) as int] == ns[i]);
    }
    assert forall|k: int| 0 <= k < summary_nodes(ns).len() implies structural_node(
        #[trigger] summary_nodes(ns)[k],
    ) && ns.contains(summary_nodes(ns)[k]) by {
        assert(summary_nodes(ns)[k] == all[k]);
    }
}

/// Every edge of the graph between two summary nodes is in the summary, and
/// the summary holds no other edge.
pub proof fn lemma_summary_edges(es: Seq<EdgeView>, sn: Seq<NodeView>, j: int)
    requires
        0 <= j < es.len(),
    ensures
        (exists|a: int| 0 <= a < sn.len() && sn[a].id == es[j].source) && (exists|b: int|
            0 <= b < sn.len() && sn[b].id == es[j].target) ==> edges_within(
            es,
            sn,
            es.len() as int,
        ).contains(es[j]),
        forall|k: int|
            0 <= k < edges_within(es, sn, es.len() as int).len() ==> es.contains(
                #[trigger] edges_within(es, sn, es.len() as int)[k],
            ) && (exists|a: int|
                0 <= a < sn.len() && sn[a].id == edges_within(es, sn, es.len() as int)[k].source)
                && (exists|b: int|
                0 <= b < sn.len() && sn[b].id == edges_within(es, sn, es.len() as int)[k].target),
{
    lemma_edges_within(es, sn, es.len() as int, j);
}

proof fn lemma_edges_within(es: Seq<EdgeView>, sn: Seq<NodeView>, n: int, j: int)
    requires
        0 <= j < es.len(),
        0 <= n <= es.len(),
    ensures
        j < n && has_node_id(sn, es[j].source) && has_node_id(sn, es[j].target) ==> edges_within(
            es,
            sn,
            n,
        ).contains(es[j]),
        forall|k: int|
            0 <= k < edges_within(es, sn, n).len() ==> es.contains(#[trigger] edges_within(es, sn, n)[k])
                && has_node_id(sn, edges_within(es, sn, n)[k].source) && has_node_id(
                sn,
                edges_within(es, sn, n)[k].target,
            ),
    decreases n,
{
    if n > 0 {
        lemma_edges_within(es, sn, n - 1, j);
        let prev = edges_within(es, sn, n - 1);
        let cur = edges_within(es, sn, n);
        assert forall|k: int| 0 <= k < cur.len() implies es.contains(#[trigger] cur[k]) && has_node_id(
            sn,
            cur[k].source,
        ) && has_node_id(sn, cur[k].target) by {
            if k < prev.len() {
                assert(cur[k] == prev[k]);
            } else {
                assert(cur[k] == es[n - 1]);
            }
        }
        if j < n && has_node_id(sn, es[j].source) && has_node_id(sn, es[j].target) {
            if j == n - 1 {
                assert(cur[cur.len() - 1] == es[j]);
            } else {
                let k = choose|k: int| 0 <= k < prev.len() && prev[k] == es[j];
                assert(cur[k] == prev[k]);
            }
        }
    }
}

fn is_summary_kind(k: &str) -> (r: bool)
    ensures
        r == summary_kind(k@),
{
    let v = str_chars(k);
    crate::text::chars_eq_str(v.as_slice(), "module") || crate::text::chars_eq_str(v.as_slice(), "class")
        || crate::text::chars_eq_str(v.as_slice(), "struct") || crate::text::chars_eq_str(
        v.as_slice(),
        "trait",
    ) || crate::text::chars_eq_str(v.as_slice(), "interface")
}

fn has_id(ns: &Vec<Node>, id: &str) -> (r: bool)
    ensures
        r == has_node_id(nodes_view(ns@), id@),
{
    let ghost nv = nodes_view(ns@);
    let mut i: usize = 0;
    while i < ns.len()
        invariant
            i <= ns@.len(),
            nv == nodes_view(ns@),
            forall|j: int| 0 <= j < i ==> (#[trigger] nv[j]).id != id@,
        decreases ns@.len() - i,
    {
        assert(nv[i as int] == ns@[i as int]@);
        if str_eq(ns[i].id.0.as_str(), id) {
            return true;
        }
        i = i + 1;
    }
    false
}

/// The high-level topology summary: the first 15 module, class, struct,
/// trait and interface nodes, and the edges between them.
pub fn graph_summary(graph: &GraphOutput) -> (r: (Vec<Node>, Vec<Edge>))
    ensures
        nodes_view(r.0@) == summary_nodes(nodes_view(graph.nodes@)),
        edges_view(r.1@) == edges_within(
            edges_view(graph.edges@),
            summary_nodes(nodes_view(graph.nodes@)),
            graph.edges@.len() as int,
        ),
{
    let ghost ns = nodes_view(graph.nodes@);
    let mut picked: Vec<Node> = Vec::new();
    let mut i: usize = 0;
    while i < graph.nodes.len()
        invariant
            i <= graph.nodes@.len(),
            ns == nodes_view(graph.nodes@),
            nodes_view(picked@) == summary_kinds_upto(ns, i as int),
        decreases graph.nodes@.len() - i,
    {
        let n = &graph.nodes[i];
        assert(ns[i as int] == n@);
        if is_summary_kind(n.kind.as_str()) {
            let ghost before = nodes_view(picked@);
            picked.push(n.copy());
            assert(nodes_view(picked@) =~= before.push(n@));
        }
        i = i + 1;
    }
    if picked.len() > 15 {
        picked.truncate(15);
        assert(nodes_view(picked@) =~= summary_kinds_upto(ns, ns.len() as int).subrange(0, 15));
    }
    let ghost sn = nodes_view(picked@);
    let ghost es = edges_view(graph.edges@);
    let mut kept: Vec<Edge> = Vec::new();
    let mut j: usize = 0;
    while j < graph.edges.len()
        invariant
            j <= graph.edges@.len(),
            es == edges_view(graph.edges@),
            sn == nodes_view(picked@),
            edges_view(kept@) == edges_within(es, sn, j as int),
        decreases graph.edges@.len() - j,
    {
        let e = &graph.edges[j];
        assert(es[j as int] == e@);
        if has_id(&picked, e.source.0.as_str()) && has_id(&picked, e.target.0.as_str()) {
            let ghost before = edges_view(kept@);
            kept.push(e.copy());
            assert(edges_view(kept@) =~= before.push(e@));
        }
        j = j + 1;
    }
    (picked, kept)
}

/// The nodes of the first `n` of `ns` not extracted from `path`.
pub open spec fn nodes_not_from(ns: Seq<NodeView>, path: Seq<char>, n: int) -> Seq<NodeView>
    decreases n,
{
    if n <= 0 {
        Seq::empty()
    } else if ns[n - 1].source_file != path {
        nodes_not_from(ns, path, n - 1).push(ns[n - 1])
    } else {
        nodes_not_from(ns, path, n - 1)
    }
}

/// The edges of the first `n` of `es` not extracted from `path`.
pub open spec fn edges_not_from(es: Seq<EdgeView>, path: Seq<char>, n: int) -> Seq<EdgeView>
    decreases n,
{
    if n <= 0 {
        Seq::empty()
    } else if es[n - 1].source_file != path {
        edges_not_from(es, path, n - 1).push(es[n - 1])
    } else {
        edges_not_from(es, path, n - 1)
    }
}

/// Replaces what the graph holds of one file by a fresh extraction: the
/// nodes and edges of the file are dropped, the extracted ones appended, and
/// the totals updated; the rest of the metadata stays as it was.
pub fn reindex_file(graph: &mut GraphOutput, file_path: &str, extracted: ExtractionResult)
    ensures
        nodes_view(final(graph).nodes@) == nodes_not_from(
            nodes_view(old(graph).nodes@),
            file_path@,
            old(graph).nodes@.len() as int,
        ) + nodes_view(extracted.nodes@),
        edges_view(final(graph).edges@) == edges_not_from(
            edges_view(old(graph).edges@),
            file_path@,
            old(graph).edges@.len() as int,
        ) + edges_view(extracted.edges@),
        final(graph).metadata.total_nodes == final(graph).nodes@.len(),
        final(graph).metadata.total_edges == final(graph).edges@.len(),
        final(graph).metadata.version == old(graph).metadata.version,
        final(graph).metadata.generated_at == old(graph).metadata.generated_at,
        final(graph).metadata.languages == old(graph).metadata.languages,
        final(graph).metadata.input_tokens == old(graph).metadata.input_tokens,
        final(graph).metadata.output_tokens == old(graph).metadata.output_tokens,
        final(graph).metadata.plugin_data == old(graph).metadata.plugin_data,
{
    let ghost ns = nodes_view(graph.nodes@);
    let ghost es = edges_view(graph.edges@);
    let mut nodes: Vec<Node> = Vec::new();
    let mut i: usize = 0;
    while i < graph.nodes.len()
        invariant
            i <= graph.nodes@.len(),
            ns == nodes_view(graph.nodes@),
            nodes_view(nodes@) == nodes_not_from(ns, file_path@, i as int),
        decreases graph.nodes@.len() - i,
    {
        let n = &graph.nodes[i];
        assert(ns[i as int] == n@);
        if !str_eq(n.source_file.as_str(), file_path) {
            let ghost before = nodes_view(nodes@);
            nodes.push(n.copy());
            assert(nodes_view(nodes@) =~= before.push(n@));
        }
        i = i + 1;
    }
    let mut edges: Vec<Edge> = Vec::new();
    let mut j: usize = 0;
    while j < graph.edges.len()
        invariant
            j <= graph.edges@.len(),
            es == edges_view(graph.edges@),
            edges_view(edges@) == edges_not_from(es, file_path@, j as int),
        decreases graph.edges@.len() - j,
    {
        let e = &graph.edges[j];
        assert(es[j as int] == e@);
        if !str_eq(e.source_file.as_str(), file_path) {
            let ghost before = edges_view(edges@);
            edges.push(e.copy());
            assert(edges_view(edges@) =~= before.push(e@));
        }
        j = j + 1;
    }
    let ExtractionResult { nodes: mut new_nodes, edges: mut new_edges } = extracted;
    let ghost a = nodes_view(nodes@);
    let ghost b = nodes_view(new_nodes@);
    nodes.append(&mut new_nodes);
    assert(nodes_view(nodes@) =~= a + b);
    let ghost c = edges_view(edges@);
    let ghost d = edges_view(new_edges@);
    edges.append(&mut new_edges);
    assert(edges_view(edges@) =~= c + d);
    graph.metadata.total_nodes = nodes.len();
    graph.metadata.total_edges = edges.len();
    graph.nodes = nodes;
    graph.edges = edges;
}

/// The nodes a re-index of `path` with the freshly extracted `fresh` leaves.
pub open spec fn reindexed(ns: Seq<NodeView>, path: Seq<char>, fresh: Seq<NodeView>) -> Seq<NodeView> {
    nodes_not_from(ns, path, ns.len() as int) + fresh
}

/// Re-indexing a file is idempotent: doing it again with the same
/// extraction of that file changes nothing.
pub proof fn lemma_reindex_idempotent(ns: Seq<NodeView>, path: Seq<char>, fresh: Seq<NodeView>)
    requires
        forall|i: int| 0 <= i < fresh.len() ==> (#[trigger] fresh[i]).source_file == path,
    ensures
        reindexed(reindexed(ns, path, fresh), path, fresh) == reindexed(ns, path, fresh),
{
    let kept = nodes_not_from(ns, path, ns.len() as int);
    lemma_not_from_clean(ns, path, ns.len() as int);
    lemma_not_from_concat(kept, fresh, path, fresh.len() as int);
    lemma_not_from_keeps_clean(kept, path, kept.len() as int);
    lemma_not_from_drops_all(fresh, path, fresh.len() as int);
    assert(nodes_not_from(kept + fresh, path, (kept + fresh).len() as int) =~= kept);
}

proof fn lemma_not_from_keeps_clean(ns: Seq<NodeView>, path: Seq<char>, n: int)
    requires
        0 <= n <= ns.len(),
        forall|i: int| 0 <= i < ns.len() ==> (#[trigger] ns[i]).source_file != path,
    ensures
        nodes_not_from(ns, path, n) == ns.subrange(0, n),
    decreases n,
{
    if n > 0 {
        lemma_not_from_keeps_clean(ns, path, n - 1);
        assert(ns.subrange(0, n - 1).push(ns[n - 1]) =~= ns.subrange(0, n));
    } else {
        assert(ns.subrange(0, 0) =~= Seq::<NodeView>::empty());
    }
}

proof fn lemma_not_from_drops_all(ns: Seq<NodeView>, path: Seq<char>, n: int)
    requires
        0 <= n <= ns.len(),
        forall|i: int| 0 <= i < ns.len() ==> (#[trigger] ns[i]).source_file == path,
    ensures
        nodes_not_from(ns, path, n) == Seq::<NodeView>::empty(),
    decreases n,
{
    if n > 0 {
        lemma_not_from_drops_all(ns, path, n - 1);
    }
}

proof fn lemma_not_from_clean(ns: Seq<NodeView>, path: Seq<char>, n: int)
    requires
        0 <= n <= ns.len(),
    ensures
        forall|i: int|
            0 <= i < nodes_not_from(ns, path, n).len() ==> (#[trigger] nodes_not_from(ns, path, n)[i]).source_file
                != path,
    decreases n,
{
    if n > 0 {
        lemma_not_from_clean(ns, path, n - 1);
        let pre = nodes_not_from(ns, path, n - 1);
        let cur = nodes_not_from(ns, path, n);
        assert forall|i: int| 0 <= i < cur.len() implies (#[trigger] cur[i]).source_file != path by {
            if i < pre.len() {
                assert(cur[i] == pre[i]);
            }
        }
    }
}

proof fn lemma_not_from_concat(a: Seq<NodeView>, b: Seq<NodeView>, path: Seq<char>, n: int)
    requires
        0 <= n <= b.len(),
    ensures
        nodes_not_from(a + b, path, a.len() + n) == nodes_not_from(a, path, a.len() as int)
            + nodes_not_from(b, path, n),
    decreases n,
{
    if n > 0 {
        lemma_not_from_concat(a, b, path, n - 1);
        assert((a + b)[a.len() + n - 1] == b[n - 1]);
    } else {
        lemma_not_from_prefix(a, b, path, a.len() as int);
    }
}

proof fn lemma_not_from_prefix(a: Seq<NodeView>, b: Seq<NodeView>, path: Seq<char>, n: int)
    requires
        0 <= n <= a.len(),
    ensures
        nodes_not_from(a + b, path, n) == nodes_not_from(a, path, n),
    decreases n,
{
    if n > 0 {
        lemma_not_from_prefix(a, b, path, n - 1);
        assert((a + b)[n - 1] == a[n - 1]);
    } else {
        assert(nodes_not_from(a, path, n) + Seq::<NodeView>::empty() =~= nodes_not_from(a, path, n));
    }
}

} // verus!

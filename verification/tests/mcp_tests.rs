use graphify::browse::{
    decide_key, editor_args, filter_node_indices, list_row_hit, modal_row_hit, monitor_down,
    monitor_up, next_tab, relation_lines, select_next, select_previous, tab_hit, ActionTag,
    ActiveTab, Area, Key, KeyAction, KeyContext,
};
use graphify::legacy::{legacy_edge, legacy_graph, legacy_node, JsonField, LegacyEdge, LegacyNode};
use graphify::mcp::{
    builtin_tools, find_node_by_id_or_label, graph_state_poisoned, graph_summary, help_listing,
    kind_name, method_not_found, missing_tool_name, needs_graph_sync, notify_kind, reindex_file,
    route_method, route_tool, tool_error, Method, ToolRoute, INTERNAL_ERROR, INVALID_PARAMS,
    METHOD_NOT_FOUND,
};
use graphify::plugin::GraphUpdateKind;
use graphify::skill::{
    all_targets, assistant_choice, location_choice, plan_install, rules_file_update, skill_dir,
    InstallMode, InstallTargets, GRAPHIFY_SKILL_CONTENT,
};
use graphify::types::{Edge, ExtractionResult, FileType, GraphMetadata, GraphOutput, Node, NodeId};

fn node(id: &str, label: &str, kind: &str, file: &str) -> Node {
    Node {
        id: NodeId(id.to_string()),
        label: label.to_string(),
        file_type: FileType::Code,
        kind: kind.to_string(),
        language: "rust".to_string(),
        source_file: file.to_string(),
        start_line: 1,
        end_line: 2,
        doc_comment: None,
        description: None,
        metadata: None,
    }
}

fn edge(s: &str, t: &str, rel: &str, file: &str) -> Edge {
    Edge {
        source: NodeId(s.to_string()),
        target: NodeId(t.to_string()),
        relation: rel.to_string(),
        source_file: file.to_string(),
        confidence: "EXTRACTED".to_string(),
        source_location: String::new(),
        description: None,
    }
}

fn graph(nodes: Vec<Node>, edges: Vec<Edge>) -> GraphOutput {
    GraphOutput { nodes, edges, metadata: GraphMetadata::empty() }
}

#[test]
fn methods_route_by_name() {
    assert_eq!(route_method("initialize"), Method::Initialize);
    assert_eq!(route_method("tools/list"), Method::ToolsList);
    assert_eq!(route_method("tools/call"), Method::ToolsCall);
    assert_eq!(route_method("tools/other"), Method::Unknown);
}

#[test]
fn tools_route_to_their_handlers() {
    assert_eq!(route_tool("graphify_help"), ToolRoute::Help);
    assert_eq!(route_tool("graphify_plugin_notify"), ToolRoute::PluginNotify);
    assert_eq!(route_tool("graphify_memory_query"), ToolRoute::MemoryQuery);
    assert_eq!(route_tool("graphify_relay_save"), ToolRoute::Relay);
    assert_eq!(route_tool("graphify_opendoc_index"), ToolRoute::Opendoc);
    assert_eq!(route_tool("graphify_review_resolve"), ToolRoute::Review);
    assert_eq!(route_tool("graphify_telemetry_ingest"), ToolRoute::Telemetry);
    assert_eq!(route_tool("graphify_coverage_blindspots"), ToolRoute::Coverage);
    assert_eq!(route_tool("graphify_plugin_echo_hi"), ToolRoute::PluginHost);
    assert_eq!(route_tool("graphify_graph_query"), ToolRoute::Graph);
    assert!(needs_graph_sync("graphify_review_ingest"));
    assert!(needs_graph_sync("graphify_coverage_ingest"));
    assert!(!needs_graph_sync("graphify_coverage_get_context"));
}

#[test]
fn error_objects_carry_codes_and_messages() {
    let e = tool_error(ToolRoute::Review, "bad");
    assert_eq!(e.code, INTERNAL_ERROR);
    assert_eq!(e.message, "Review tool error: bad");
    let e = method_not_found("x/y");
    assert_eq!(e.code, METHOD_NOT_FOUND);
    assert_eq!(e.message, "Method not found: x/y");
    assert_eq!(missing_tool_name().code, INVALID_PARAMS);
    assert_eq!(graph_state_poisoned().message, "graph state lock poisoned");
}

#[test]
fn notify_kind_defaults_to_manual() {
    assert_eq!(notify_kind(None), Ok(GraphUpdateKind::Manual));
    assert_eq!(notify_kind(Some("indexed")), Ok(GraphUpdateKind::Indexed));
    assert_eq!(notify_kind(Some("extracted")), Ok(GraphUpdateKind::Extracted));
    let e = notify_kind(Some("other")).err().map(|e| (e.code, e.message));
    assert_eq!(e, Some((INVALID_PARAMS, "kind must be indexed, extracted, or manual".to_string())));
    assert_eq!(kind_name(GraphUpdateKind::Indexed), "indexed");
}

#[test]
fn help_lists_builtin_then_plugin_tools() {
    let tools = builtin_tools();
    assert!(tools.windows(2).all(|w| w[0].0 < w[1].0), "sorted by name");
    let help = help_listing(&[("graphify_plugin_echo_hi".to_string(), "Say hi".to_string())]);
    assert!(help.starts_with("## Graphify MCP Tools\n\n- **`graphify_coverage_blindspots`**: "));
    assert!(help.ends_with("\n### Plugin Tools\n\n- **`graphify_plugin_echo_hi`**: Say hi\n"));
    assert!(!help_listing(&[]).contains("Plugin Tools"));
}

#[test]
fn nodes_resolve_by_id_then_label_ignoring_case() {
    let g = graph(vec![node("a::f", "Foo", "function", "a.rs"), node("b::g", "bar", "function", "b.rs")], vec![]);
    assert_eq!(find_node_by_id_or_label(&g, &NodeId("b::g".to_string())), Some(NodeId("b::g".to_string())));
    assert_eq!(find_node_by_id_or_label(&g, &NodeId("foo".to_string())), Some(NodeId("a::f".to_string())));
    assert_eq!(find_node_by_id_or_label(&g, &NodeId("B::G".to_string())), Some(NodeId("b::g".to_string())));
    assert_eq!(find_node_by_id_or_label(&g, &NodeId("zzz".to_string())), None);
}

#[test]
fn summary_keeps_structural_nodes_and_edges_between_them() {
    let g = graph(
        vec![node("m", "m", "module", "a.rs"), node("f", "f", "function", "a.rs"), node("s", "s", "struct", "a.rs")],
        vec![edge("m", "s", "contains", "a.rs"), edge("m", "f", "contains", "a.rs")],
    );
    let (ns, es) = graph_summary(&g);
    let ids: Vec<&str> = ns.iter().map(|n| n.id.0.as_str()).collect();
    assert_eq!(ids, vec!["m", "s"]);
    assert_eq!(es.len(), 1);
    assert_eq!(es[0].target.0, "s");
}

#[test]
fn reindex_replaces_one_file_and_is_idempotent() {
    let mut g = graph(
        vec![node("a1", "a1", "function", "a.rs"), node("b1", "b1", "function", "b.rs")],
        vec![edge("a1", "b1", "calls", "a.rs"), edge("b1", "a1", "calls", "b.rs")],
    );
    let fresh = || ExtractionResult {
        nodes: vec![node("a2", "a2", "function", "a.rs")],
        edges: vec![edge("a2", "b1", "calls", "a.rs")],
    };
    reindex_file(&mut g, "a.rs", fresh());
    let ids: Vec<&str> = g.nodes.iter().map(|n| n.id.0.as_str()).collect();
    assert_eq!(ids, vec!["b1", "a2"]);
    assert_eq!(g.edges.len(), 2);
    assert_eq!(g.metadata.total_nodes, 2);
    assert_eq!(g.metadata.total_edges, 2);
    let once = g.clone();
    reindex_file(&mut g, "a.rs", fresh());
    assert_eq!(g.nodes, once.nodes);
    assert_eq!(g.edges, once.edges);
}

#[test]
fn reindex_keeps_the_rest_of_the_metadata() {
    let mut g = graph(vec![node("a1", "a1", "function", "a.rs")], vec![]);
    g.metadata.version = "1.2".to_string();
    g.metadata.generated_at = "2024-05-01T00:00:00Z".to_string();
    g.metadata.languages = vec!["rust".to_string()];
    g.metadata.input_tokens = 40;
    g.metadata.output_tokens = 7;
    g.metadata.plugin_data = vec![("p".to_string(), "{}".to_string())];
    let before = g.metadata.clone();
    reindex_file(&mut g, "a.rs", ExtractionResult { nodes: vec![], edges: vec![] });
    assert_eq!(g.metadata.total_nodes, 0);
    assert_eq!(g.metadata.version, before.version);
    assert_eq!(g.metadata.generated_at, before.generated_at);
    assert_eq!(g.metadata.languages, before.languages);
    assert_eq!(g.metadata.input_tokens, 40);
    assert_eq!(g.metadata.output_tokens, 7);
    assert_eq!(g.metadata.plugin_data, before.plugin_data);
}

#[test]
fn install_plan_and_answers() {
    assert_eq!(plan_install(false, None), InstallMode::Interactive);
    assert_eq!(plan_install(true, None), InstallMode::Direct { global: true, base: ".".to_string() });
    assert_eq!(plan_install(false, Some("/t")), InstallMode::Direct { global: false, base: "/t".to_string() });
    assert_eq!(all_targets(), InstallTargets { opencode: true, cline: true, cursor: true });
    assert_eq!(location_choice(" 2 "), (false, true));
    assert_eq!(location_choice("3"), (true, true));
    assert_eq!(location_choice(""), (true, false));
    assert_eq!(assistant_choice("2"), InstallTargets { opencode: false, cline: true, cursor: false });
    assert_eq!(assistant_choice("x"), all_targets());
    assert_eq!(skill_dir(true, "/h"), "/h/.config/opencode/skills/graphify");
    assert_eq!(skill_dir(false, "/p"), "/p/.opencode/skills/graphify");
}

#[test]
fn test_install_creates_skill_when_not_exists() {
    assert_eq!(rules_file_update("", GRAPHIFY_SKILL_CONTENT), Some(GRAPHIFY_SKILL_CONTENT.to_string()));
}

#[test]
fn test_install_skips_existing_skill() {
    assert_eq!(rules_file_update(GRAPHIFY_SKILL_CONTENT, GRAPHIFY_SKILL_CONTENT), None);
}

#[test]
fn rules_are_appended_after_existing_text_once() {
    let updated = rules_file_update("my rules  \n", "NEW");
    assert_eq!(updated, Some("my rules\n\nNEW".to_string()));
    let twice = rules_file_update("x", GRAPHIFY_SKILL_CONTENT).and_then(|s| rules_file_update(&s, GRAPHIFY_SKILL_CONTENT));
    assert_eq!(twice, None);
}

#[test]
fn legacy_entries_migrate_with_defaults() {
    let n = legacy_node(&LegacyNode {
        id: Some("f".to_string()),
        label: None,
        file_type: None,
        kind: None,
        language: None,
        source_file: JsonField::Text("a.rs".to_string()),
        file_path: Some("old.rs".to_string()),
        start_line: Some(3),
        end_line: None,
        doc_comment: None,
        description: None,
        metadata: None,
    });
    assert_eq!(n.id.0, "f");
    assert_eq!(n.label, "");
    assert_eq!(n.kind, "unknown");
    assert_eq!(n.language, "unknown");
    assert_eq!(n.start_line, 3);
    assert_eq!(n.end_line, 0);
    let e = legacy_edge(&LegacyEdge {
        source: Some("f".to_string()),
        target: None,
        relation: JsonField::Absent,
        kind: None,
        source_file: None,
        confidence: None,
        source_location: None,
        description: None,
    });
    assert_eq!(e.relation, "calls");
    assert_eq!(e.confidence, "EXTRACTED");
    assert_eq!(e.target.0, "");
    assert_eq!(n.source_file, "a.rs");
    let g = legacy_graph(&[], &[], &None, &None, vec!["rust".to_string()]);
    assert_eq!(g.metadata.version, "1.0.0");
    assert_eq!(g.metadata.generated_at, "0");
    assert_eq!(g.metadata.total_nodes, 0);
    assert_eq!(g.metadata.languages, vec!["rust".to_string()]);
}

#[test]
fn legacy_older_keys_stand_in_only_when_absent() {
    let node_with = |source_file: JsonField, file_path: Option<&str>| LegacyNode {
        id: None,
        label: None,
        file_type: None,
        kind: None,
        language: None,
        source_file,
        file_path: file_path.map(str::to_string),
        start_line: None,
        end_line: None,
        doc_comment: None,
        description: None,
        metadata: None,
    };
    assert_eq!(legacy_node(&node_with(JsonField::Absent, Some("old.rs"))).source_file, "old.rs");
    assert_eq!(legacy_node(&node_with(JsonField::Absent, None)).source_file, "");
    assert_eq!(legacy_node(&node_with(JsonField::NotText, Some("old.rs"))).source_file, "");
    let edge_with = |relation: JsonField, kind: Option<&str>| LegacyEdge {
        source: None,
        target: None,
        relation,
        kind: kind.map(str::to_string),
        source_file: None,
        confidence: None,
        source_location: None,
        description: None,
    };
    assert_eq!(legacy_edge(&edge_with(JsonField::Absent, Some("imports"))).relation, "imports");
    assert_eq!(legacy_edge(&edge_with(JsonField::Text("uses".to_string()), Some("imports"))).relation, "uses");
    assert_eq!(legacy_edge(&edge_with(JsonField::NotText, Some("imports"))).relation, "calls");
}

fn ctx(tab: ActiveTab) -> KeyContext {
    KeyContext { modal_open: false, input_mode: false, tab, query_empty: true }
}

#[test]
fn tabs_cycle_in_three_steps() {
    for t in [ActiveTab::Explorer, ActiveTab::VisualGraph, ActiveTab::Monitor] {
        assert_eq!(next_tab(next_tab(next_tab(t))), t);
        assert_ne!(next_tab(t), t);
    }
}

#[test]
fn keys_act_per_mode_and_tab() {
    assert_eq!(decide_key(ctx(ActiveTab::Explorer), Key::Char('q')), (KeyAction::Quit, Some(ActionTag::Quit)));
    assert_eq!(
        decide_key(ctx(ActiveTab::Explorer), Key::Tab),
        (KeyAction::SetTab(ActiveTab::VisualGraph), Some(ActionTag::Nav))
    );
    assert_eq!(decide_key(ctx(ActiveTab::Monitor), Key::Down), (KeyAction::MonitorDown, Some(ActionTag::Nav)));
    assert_eq!(decide_key(ctx(ActiveTab::VisualGraph), Key::Char('+')), (KeyAction::ZoomIn, Some(ActionTag::Zoom)));
    assert_eq!(decide_key(ctx(ActiveTab::Explorer), Key::Char('+')), (KeyAction::Nothing, None));
    assert_eq!(decide_key(ctx(ActiveTab::Monitor), Key::Char('r')), (KeyAction::ResetPlugin, Some(ActionTag::Reset)));
    let mut input = ctx(ActiveTab::Explorer);
    input.input_mode = true;
    assert_eq!(decide_key(input, Key::Char('q')), (KeyAction::AppendQuery('q'), None));
    assert_eq!(decide_key(input, Key::Esc), (KeyAction::LockFilter, None));
    let mut modal = ctx(ActiveTab::Explorer);
    modal.modal_open = true;
    assert_eq!(decide_key(modal, Key::Char('q')), (KeyAction::Nothing, None));
    assert_eq!(decide_key(modal, Key::Char('c')), (KeyAction::CloseModal, None));
}

#[test]
fn selection_wraps_both_ways() {
    assert_eq!(select_next(None, 3), Some(0));
    assert_eq!(select_next(Some(2), 3), Some(0));
    assert_eq!(select_previous(Some(0), 3), Some(2));
    assert_eq!(select_previous(Some(2), 3), Some(1));
    assert_eq!(select_next(Some(1), 0), Some(1));
    assert_eq!(select_previous(select_next(Some(1), 3), 3), Some(1));
}

#[test]
fn monitor_cursor_moves_through_plugins_then_workspaces() {
    assert_eq!(monitor_down(2, 2, 0, 0), (0, 1, false));
    assert_eq!(monitor_down(2, 2, 0, 1), (1, 0, true));
    assert_eq!(monitor_up(2, 1, 1), (1, 0, false));
    assert_eq!(monitor_up(2, 1, 0), (0, 0, true));
    assert_eq!(monitor_up(2, 0, 0), (1, 0, true));
}

#[test]
fn clicks_hit_rows_and_tabs() {
    let a = Area { x: 0, y: 0, width: 20, height: 10 };
    assert_eq!(list_row_hit(a, 5, 1, 3), Some(0));
    assert_eq!(list_row_hit(a, 5, 0, 3), None);
    assert_eq!(list_row_hit(a, 5, 4, 3), None);
    assert_eq!(modal_row_hit(a, 2, 5, 3), Some(2));
    assert_eq!(tab_hit(a, 1, 1, (3, 3, 3)), Some(ActiveTab::Explorer));
    assert_eq!(tab_hit(a, 4, 1, (3, 3, 3)), Some(ActiveTab::VisualGraph));
    assert_eq!(tab_hit(a, 9, 1, (3, 3, 3)), Some(ActiveTab::Monitor));
    assert_eq!(tab_hit(a, 10, 1, (3, 3, 3)), None);
    assert_eq!(tab_hit(a, 1, 2, (3, 3, 3)), None);
}

#[test]
fn filter_matches_label_or_id_ignoring_case() {
    let nodes = vec![node("a::Parse", "parse", "function", "a.rs"), node("b", "Render", "function", "b.rs")];
    assert_eq!(filter_node_indices(&nodes, "PARS"), vec![0]);
    assert_eq!(filter_node_indices(&nodes, "rend"), vec![1]);
    assert_eq!(filter_node_indices(&nodes, ""), vec![0, 1]);
}

#[test]
fn inspector_lists_outgoing_then_incoming() {
    let g = graph(vec![], vec![edge("a", "b", "calls", "x"), edge("c", "a", "uses", "x")]);
    assert_eq!(
        relation_lines(&g, "a"),
        vec![
            "── Outgoing Calls / References (1) ──".to_string(),
            " ➔ b (calls)".to_string(),
            "── Incoming Calls / References (1) ──".to_string(),
            " ⇠ c (uses)".to_string(),
        ]
    );
    assert_eq!(
        relation_lines(&g, "z"),
        vec!["── Outgoing Calls: none ──".to_string(), "── Incoming Calls: none ──".to_string()]
    );
}

#[test]
fn editor_jumps_to_line_only_for_vi_family() {
    assert_eq!(editor_args("nvim", 12, "a.rs"), vec!["+12".to_string(), "a.rs".to_string()]);
    assert_eq!(editor_args("code", 12, "a.rs"), vec!["a.rs".to_string()]);
}

use graphify::browse::{bfs_trace, log_allowed, trace_modal_lines};

#[test]
fn trace_lists_nearby_nodes_then_numbers_them() {
    let g = graph(
        vec![node("a", "A", "function", "x"), node("b", "B", "struct", "x"), node("c", "C", "module", "x")],
        vec![edge("a", "b", "calls", "x"), edge("b", "c", "uses", "x")],
    );
    let trace = bfs_trace(&g, &NodeId("a".to_string()));
    assert_eq!(trace, vec!["function:A".to_string(), "struct:B".to_string(), "module:C".to_string()]);
    assert!(bfs_trace(&g, &NodeId("zz".to_string())).is_empty());
    assert_eq!(
        trace_modal_lines(&trace),
        vec![
            "── BFS Path Steps (depth ≤ 3) ──".to_string(),
            " 1. function:A".to_string(),
            " 2. struct:B".to_string(),
            " 3. module:C".to_string(),
        ]
    );
    assert_eq!(
        trace_modal_lines(&Vec::new()),
        vec!["── BFS Path Steps (depth ≤ 3) ──".to_string(), "No call path found from this node.".to_string()]
    );
}

#[test]
fn trace_keeps_at_most_six_steps() {
    let nodes: Vec<Node> = (0..10).map(|i| node(&format!("n{i}"), &format!("N{i}"), "function", "x")).collect();
    let edges: Vec<Edge> = (1..10).map(|i| edge("n0", &format!("n{i}"), "calls", "x")).collect();
    let g = graph(nodes, edges);
    assert_eq!(bfs_trace(&g, &NodeId("n0".to_string())).len(), 6);
    assert!(log_allowed(None));
    assert!(!log_allowed(Some(119)));
    assert!(log_allowed(Some(120)));
}

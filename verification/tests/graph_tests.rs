use graphify::graph::{build_graph, find_shortest_path, query_bfs, GraphError};
use graphify::types::{Edge, FileType, Node, NodeId};

fn node(id: &str) -> Node {
    Node {
        id: NodeId(id.to_string()),
        label: id.to_string(),
        file_type: FileType::Code,
        kind: "function".to_string(),
        language: "rust".to_string(),
        source_file: "a.rs".to_string(),
        start_line: 1,
        end_line: 2,
        doc_comment: None,
        description: None,
        metadata: None,
    }
}

fn edge(s: &str, t: &str) -> Edge {
    Edge {
        source: NodeId(s.to_string()),
        target: NodeId(t.to_string()),
        relation: "calls".to_string(),
        source_file: "a.rs".to_string(),
        confidence: "EXTRACTED".to_string(),
        source_location: String::new(),
        description: None,
    }
}

fn id(s: &str) -> NodeId {
    NodeId(s.to_string())
}

/// a -> b -> c -> d, and e -> b; f stands alone.
fn sample() -> (Vec<Node>, Vec<Edge>) {
    (
        vec![node("a"), node("b"), node("c"), node("d"), node("e"), node("f")],
        vec![edge("a", "b"), edge("b", "c"), edge("c", "d"), edge("e", "b"), edge("a", "zz")],
    )
}

fn ids_of(nodes: &[Node]) -> Vec<&str> {
    nodes.iter().map(|n| n.id.0.as_str()).collect()
}

#[test]
fn build_graph_keeps_nodes_and_resolvable_edges() {
    let (nodes, edges) = sample();
    let (g, map) = build_graph(&nodes, &edges);
    assert_eq!(g.node_count(), 6);
    assert_eq!(g.edge_count(), 4, "the edge to an unknown node is dropped");
    assert_eq!(map.len(), 6);
    assert_eq!(map.get("c"), Some(2));
    assert_eq!(map.get("zz"), None);
}

#[test]
fn later_nodes_of_the_same_id_win() {
    let (g, map) = build_graph(&[node("x"), node("x")], &[]);
    assert_eq!(g.node_count(), 2);
    assert_eq!(map.get("x"), Some(1));
}

#[test]
fn query_depth_zero_is_the_start_node_alone() -> Result<(), GraphError> {
    let (nodes, edges) = sample();
    let (g, map) = build_graph(&nodes, &edges);
    let out = query_bfs(&g, &map, &id("b"), 0)?;
    assert_eq!(ids_of(&out.nodes), vec!["b"]);
    assert!(out.edges.is_empty());
    assert_eq!(out.metadata.total_nodes, 1);
    assert_eq!(out.metadata.total_edges, 0);
    assert_eq!(out.metadata.version, "1.0");
    assert_eq!(out.metadata.generated_at, "0");
    Ok(())
}

#[test]
fn query_follows_edges_both_ways() -> Result<(), GraphError> {
    let (nodes, edges) = sample();
    let (g, map) = build_graph(&nodes, &edges);
    let out = query_bfs(&g, &map, &id("b"), 1)?;
    assert_eq!(ids_of(&out.nodes), vec!["a", "b", "c", "e"]);
    let pairs: Vec<(&str, &str)> =
        out.edges.iter().map(|e| (e.source.0.as_str(), e.target.0.as_str())).collect();
    assert_eq!(pairs, vec![("a", "b"), ("b", "c"), ("e", "b")]);
    assert_eq!(out.metadata.total_nodes, 4);
    assert_eq!(out.metadata.total_edges, 3);
    Ok(())
}

#[test]
fn deeper_queries_stop_at_the_component() -> Result<(), GraphError> {
    let (nodes, edges) = sample();
    let (g, map) = build_graph(&nodes, &edges);
    let two = query_bfs(&g, &map, &id("b"), 2)?;
    assert_eq!(ids_of(&two.nodes), vec!["a", "b", "c", "d", "e"]);
    assert_eq!(two.edges.len(), 4);
    let far = query_bfs(&g, &map, &id("b"), usize::MAX)?;
    assert_eq!(far, two);
    let alone = query_bfs(&g, &map, &id("f"), 5)?;
    assert_eq!(ids_of(&alone.nodes), vec!["f"]);
    Ok(())
}

#[test]
fn query_of_unknown_node_fails() {
    let (nodes, edges) = sample();
    let (g, map) = build_graph(&nodes, &edges);
    let err = query_bfs(&g, &map, &id("nope"), 2).err();
    assert_eq!(err, Some(GraphError::NodeNotFound("nope".to_string())));
    assert_eq!(
        GraphError::NodeNotFound("nope".to_string()).message(),
        "Node not found: NodeId(\"nope\")"
    );
}

#[test]
fn shortest_path_follows_edge_direction() -> Result<(), GraphError> {
    let (nodes, mut edges) = sample();
    edges.push(edge("a", "d"));
    let (g, map) = build_graph(&nodes, &edges);
    assert_eq!(
        find_shortest_path(&g, &map, &id("a"), &id("c"))?,
        Some(vec!["a".to_string(), "b".to_string(), "c".to_string()])
    );
    assert_eq!(
        find_shortest_path(&g, &map, &id("a"), &id("d"))?,
        Some(vec!["a".to_string(), "d".to_string()])
    );
    assert_eq!(find_shortest_path(&g, &map, &id("c"), &id("a"))?, None);
    assert_eq!(find_shortest_path(&g, &map, &id("f"), &id("f"))?, Some(vec!["f".to_string()]));
    Ok(())
}

#[test]
fn shortest_path_names_the_missing_endpoint() {
    let (nodes, edges) = sample();
    let (g, map) = build_graph(&nodes, &edges);
    assert_eq!(
        find_shortest_path(&g, &map, &id("x"), &id("y")),
        Err(GraphError::SourceNotFound("x".to_string()))
    );
    assert_eq!(
        find_shortest_path(&g, &map, &id("a"), &id("y")),
        Err(GraphError::TargetNotFound("y".to_string()))
    );
    assert_eq!(
        GraphError::TargetNotFound("y".to_string()).message(),
        "Target node not found: NodeId(\"y\")"
    );
}

use graphify::graph_state::{unsupported_tool, GraphState};
use graphify::types::{ExtractionResult, GraphMetadata, GraphOutput};

fn state() -> GraphState {
    let (nodes, edges) = sample();
    GraphState::new(GraphOutput { nodes, edges, metadata: GraphMetadata::empty() })
}

#[test]
fn graph_tools_resolve_names_before_querying() -> Result<(), String> {
    let s = state();
    let two = s.query("B")?;
    assert_eq!(ids_of(&two.nodes), vec!["a", "b", "c", "d", "e"]);
    let one = s.query_node("b", None)?;
    assert_eq!(ids_of(&one.nodes), vec!["a", "b", "c", "e"]);
    let zero = s.query_node("b", Some(0))?;
    assert_eq!(ids_of(&zero.nodes), vec!["b"]);
    assert_eq!(s.query("nope").err(), Some("Node not found: nope".to_string()));
    Ok(())
}

#[test]
fn graph_path_tool_names_missing_endpoints() -> Result<(), String> {
    let s = state();
    assert_eq!(
        s.path("a", "D")?,
        Some(vec!["a".to_string(), "b".to_string(), "c".to_string(), "d".to_string()])
    );
    assert_eq!(s.path("x", "a").err(), Some("Source node not found: x".to_string()));
    assert_eq!(s.path("a", "y").err(), Some("Target node not found: y".to_string()));
    Ok(())
}

#[test]
fn reindex_rebuilds_the_model() -> Result<(), String> {
    let mut s = state();
    let fresh = ExtractionResult { nodes: vec![node("g")], edges: vec![edge("g", "g")] };
    s.reindex("a.rs", fresh);
    assert_eq!(ids_of(&s.graph_data.nodes), vec!["g"]);
    assert_eq!(s.graph_data.metadata.total_nodes, 1);
    assert_eq!(s.graph.edge_count(), 1);
    assert_eq!(s.query("nope").err(), Some("Node not found: nope".to_string()));
    let out = s.query_node("g", Some(3))?;
    assert_eq!(out.edges.len(), 1);
    let empty = GraphState::empty();
    assert!(empty.graph_data.nodes.is_empty());
    assert_eq!(empty.graph_data.metadata.version, "1.0");
    assert_eq!(unsupported_tool("x"), "Unsupported tool call: x");
    Ok(())
}

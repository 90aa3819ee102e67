use graphify::compose::{
    build_unified_graph, container_ids, container_node, is_compose_marker, node_exists, prefix_id,
    roots, workspace_node_count, LoadedManifest, MergeError, UnifiedGraph,
};
use graphify::manifest::{split_node_reference, AssemblyManifest, RelationEntry, WorkspaceEntry};
use graphify::manifest_check::{
    graphs_to_load, missing_graph_issues, node_reference_issues, node_references, relation_issues,
    validation_report, workspace_id_issues, LoadedGraph, ManifestIssue,
};
use graphify::types::{Edge, FileType, GraphMetadata, GraphOutput, Node, NodeId};

fn code_node(id: &str) -> Node {
    Node {
        id: NodeId(id.to_string()),
        label: id.to_string(),
        file_type: FileType::Code,
        kind: "function".to_string(),
        language: "rust".to_string(),
        source_file: id.to_string(),
        start_line: 1,
        end_line: 2,
        doc_comment: None,
        description: None,
        metadata: None,
    }
}

fn test_graph(node_local_id: &str) -> GraphOutput {
    GraphOutput {
        nodes: vec![code_node(node_local_id)],
        edges: vec![Edge {
            source: NodeId(node_local_id.to_string()),
            target: NodeId(node_local_id.to_string()),
            relation: "calls".to_string(),
            source_file: node_local_id.to_string(),
            confidence: "EXTRACTED".to_string(),
            source_location: String::new(),
            description: None,
        }],
        metadata: GraphMetadata::empty(),
    }
}

fn ws(id: &str, path: &str) -> WorkspaceEntry {
    WorkspaceEntry { id: id.to_string(), path: path.to_string() }
}

fn rel(from: &str, relation: &str, to: &str) -> RelationEntry {
    RelationEntry { from: from.to_string(), relation: relation.to_string(), to: to.to_string() }
}

fn loaded_with(workspaces: &[(&str, &str)], relations: Vec<RelationEntry>) -> LoadedManifest {
    LoadedManifest {
        manifest: AssemblyManifest {
            workspaces: workspaces.iter().map(|(id, path)| ws(id, path)).collect(),
            relations,
        },
        roots: workspaces
            .iter()
            .map(|(id, path)| ((*id).to_string(), (*path).to_string()))
            .collect(),
        manifest_path: "test.yaml".to_string(),
    }
}

#[test]
fn test_prefix_id_format() {
    assert_eq!(prefix_id("ws-a", "src/main.rs"), "ws-a::src/main.rs");
    let g = test_graph("src/main.rs");
    assert_eq!(g.nodes.len(), 1);
    assert_eq!(g.edges.len(), 1);
}

#[test]
fn test_container_node_fields() {
    let node = container_node("svc");
    assert_eq!(node.id, NodeId("svc".to_string()));
    assert_eq!(node.label, "svc");
    assert_eq!(node.language, "unknown");
    assert!(node.source_file.is_empty());
}

#[test]
fn test_compose_marker() {
    assert!(is_compose_marker("src/compose"));
    assert!(!is_compose_marker("src/extract"));
}

#[test]
fn test_loaded_with_carries_relations() {
    let loaded = loaded_with(&[("ws-a", "/tmp/a"), ("ws-b", "/tmp/b")], vec![rel("ws-a", "uses", "ws-b")]);
    assert_eq!(loaded.roots.len(), 2);
    assert_eq!(loaded.manifest.relations.len(), 1);
    assert_eq!(loaded.manifest.relations[0].relation, "uses");
}

#[test]
fn test_container_node_uses_document_file_type() {
    let node = container_node("ws-a");
    assert_eq!(node.kind, "workspace");
    assert!(matches!(node.file_type, FileType::Document));
}

#[test]
fn test_workspace_node_count_prefixes() {
    let mut main = code_node("ws-a::src/main.rs");
    main.label = "main".to_string();
    main.source_file = String::new();
    let unified = UnifiedGraph {
        nodes: vec![container_node("ws-a"), main, container_node("ws-b")],
        edges: vec![],
        workspace_count: 2,
        cross_edges: 0,
    };
    assert_eq!(workspace_node_count(&unified, "ws-a"), 1);
    assert_eq!(workspace_node_count(&unified, "ws-b"), 0);
    assert_eq!(container_ids(&unified), vec!["ws-a".to_string(), "ws-b".to_string()]);
}

#[test]
fn unified_graph_prefixes_ids_and_adds_composition_edges() -> Result<(), MergeError> {
    let loaded = loaded_with(
        &[("ws-a", "/a"), ("ws-b", "/b")],
        vec![rel("ws-a", "uses", "ws-b"), rel("ws-a::src/main.rs", "calls", "ws-b::lib.rs")],
    );
    let graphs = vec![test_graph("src/main.rs"), test_graph("lib.rs")];
    let u = build_unified_graph(&loaded, &graphs)?;
    let ids: Vec<&str> = u.nodes.iter().map(|n| n.id.0.as_str()).collect();
    assert_eq!(ids, vec!["ws-a", "ws-a::src/main.rs", "ws-b", "ws-b::lib.rs"]);
    assert_eq!(u.workspace_count, 2);
    assert_eq!(u.cross_edges, 2);
    assert_eq!(u.edges.len(), 4);
    assert_eq!(u.edges[0].source.0, "ws-a::src/main.rs");
    assert_eq!(u.edges[0].target.0, "ws-a::src/main.rs");
    let cross = &u.edges[2];
    assert_eq!(cross.source.0, "ws-a");
    assert_eq!(cross.target.0, "ws-b");
    assert_eq!(cross.relation, "uses");
    assert_eq!(cross.source_file, "test.yaml");
    assert_eq!(cross.confidence, "INFERRED");
    assert_eq!(u.edges[3].source.0, "ws-a::src/main.rs");
    assert_eq!(u.edges[3].target.0, "ws-b::lib.rs");
    Ok(())
}

#[test]
fn unified_graph_rejects_missing_endpoint() {
    let loaded = loaded_with(&[("ws-a", "/a")], vec![rel("ws-a::nope", "uses", "ws-a")]);
    let r = build_unified_graph(&loaded, &[test_graph("src/main.rs")]);
    assert_eq!(
        r.err(),
        Some(MergeError::MissingEndpoint {
            endpoint: "ws-a::nope".to_string(),
            from: "ws-a::nope".to_string(),
            to: "ws-a".to_string(),
        })
    );
}

#[test]
fn unified_graph_rejects_id_collision() {
    let mut g = test_graph("x");
    g.nodes.push(code_node("x"));
    let loaded = loaded_with(&[("ws-a", "/a")], vec![]);
    let r = build_unified_graph(&loaded, &[g]);
    assert_eq!(r.err(), Some(MergeError::IdCollision("ws-a::x".to_string())));
}

#[test]
fn node_exists_compares_ids() {
    let g = test_graph("a");
    assert!(node_exists(&g, &NodeId("a".to_string())));
    assert!(!node_exists(&g, &NodeId("b".to_string())));
}

#[test]
fn roots_join_paths_onto_the_manifest_directory() {
    let r = roots(&[ws("ws-a", "a"), ws("ws-b", "/abs/b")], "/m");
    assert_eq!(r, vec![("ws-a".to_string(), "/m/a".to_string()), ("ws-b".to_string(), "/abs/b".to_string())]);
    let loaded = loaded_with(&[("ws-a", "/tmp/a")], vec![]);
    assert_eq!(loaded.root_of("ws-a"), Some("/tmp/a"));
    assert_eq!(loaded.root_of("ws-z"), None);
}

#[test]
fn test_workspace_id_rejects_double_colon() {
    assert!(ws("bad::id", "./x").validate_id().is_err());
    assert!(ws("", "./x").validate_id().is_err());
    assert!(ws("agentshop", "./x").validate_id().is_ok());
}

#[test]
fn test_split_node_reference() {
    assert_eq!(
        split_node_reference("agentshop::src/main.rs:42"),
        Some(("agentshop".to_string(), "src/main.rs:42".to_string()))
    );
    assert_eq!(split_node_reference("agentshop"), None);
    assert_eq!(split_node_reference("a::b::c"), None);
    assert_eq!(split_node_reference("::node"), None);
    assert_eq!(split_node_reference("ws::"), None);
}

#[test]
fn duplicate_and_invalid_ids_are_reported() {
    let issues = workspace_id_issues(&[ws("a", "x"), ws("a", "y"), ws("b::c", "z")]);
    assert_eq!(issues.len(), 2);
    assert_eq!(issues[0], ManifestIssue::DuplicateId("a".to_string()));
    assert!(matches!(&issues[1], ManifestIssue::InvalidId { id, .. } if id == "b::c"));
}

#[test]
fn test_load_manifest_missing_workspace_path_rejected() {
    let issues = missing_graph_issues(&[ws("ws-a", "ws-a"), ws("ws-b", "ws-b")], "/m", &[true, false]);
    assert_eq!(issues.len(), 1);
    let msg = issues[0].message();
    assert!(msg.contains("ws-b"), "{msg}");
    assert!(msg.contains("graphify-out"), "{msg}");
    assert!(msg.contains("/m/ws-b"), "{msg}");
}

#[test]
fn test_load_manifest_unknown_relation_workspace_rejected() {
    let m = AssemblyManifest { workspaces: vec![ws("ws-a", "ws-a")], relations: vec![rel("ws-a", "uses", "ws-x")] };
    let issues = relation_issues(&m);
    assert_eq!(issues.len(), 1);
    assert_eq!(issues[0].message(), "relation to=`ws-x`: 未宣告的 workspace `ws-x`");
    let report = validation_report(&issues);
    assert_eq!(
        report,
        Some("manifest 驗證失敗（1 項）:\n  - relation to=`ws-x`: 未宣告的 workspace `ws-x`".to_string())
    );
}

#[test]
fn test_load_manifest_missing_node_reference_rejected() {
    let m = AssemblyManifest {
        workspaces: vec![ws("ws-a", "ws-a"), ws("ws-b", "ws-b")],
        relations: vec![rel("ws-a::no_such_node", "uses", "ws-b")],
    };
    let refs = node_references(&m);
    assert_eq!(refs, vec![("ws-a".to_string(), "no_such_node".to_string())]);
    let loaded = loaded_with(&[("ws-a", "/m/ws-a"), ("ws-b", "/m/ws-b")], m.relations.clone());
    assert_eq!(graphs_to_load(&refs, &loaded), vec![("ws-a".to_string(), "/m/ws-a".to_string())]);
    let graphs = vec![LoadedGraph { id: "ws-a".to_string(), nodes: Ok(vec!["src/main.rs".to_string()]) }];
    let issues = node_reference_issues(&refs, &graphs);
    assert_eq!(issues.len(), 1);
    let msg = issues[0].message();
    assert!(msg.contains("no_such_node"), "{msg}");
}

#[test]
fn test_load_manifest_minimal_ok() {
    let m = AssemblyManifest {
        workspaces: vec![ws("ws-a", "ws-a"), ws("ws-b", "ws-b")],
        relations: vec![rel("ws-a", "uses", "ws-b")],
    };
    let mut issues = workspace_id_issues(&m.workspaces);
    issues.extend(missing_graph_issues(&m.workspaces, "/m", &[true, true]));
    issues.extend(relation_issues(&m));
    assert!(node_references(&m).is_empty());
    assert_eq!(validation_report(&issues), None);
    assert_eq!(roots(&m.workspaces, "/m").len(), 2);
}

#[test]
fn graph_load_failures_are_reported() {
    let refs = vec![("ws-a".to_string(), "n".to_string())];
    let graphs = vec![LoadedGraph { id: "ws-a".to_string(), nodes: Err("broken".to_string()) }];
    let issues = node_reference_issues(&refs, &graphs);
    assert_eq!(issues.len(), 1);
    assert_eq!(issues[0].message(), "workspace `ws-a`: broken");
}

#[test]
fn merge_errors_read_as_text() {
    assert_eq!(MergeError::IdCollision("a::x".to_string()).message(), "合併時節點 id 衝突: a::x");
    let e = MergeError::MissingEndpoint { endpoint: "b::y".to_string(), from: "a".to_string(), to: "b::y".to_string() };
    assert_eq!(e.message(), "composition edge 端點不存在於合併圖: b::y（relation `a` → `b::y`）");
}

use graphify::compose::{container_node, UnifiedGraph};
use graphify::compose_render::{project, reports_error, BoxItem, Connection, MAX_CHILDREN_PER_WORKSPACE};
use graphify::domain_memory::{plugin_memory_dir, record_point_id, PluginDomainMemory};
use graphify::local_process::{asset_digest, qdrant_env, release_urls, resolve_path, resolve_under, ReleaseAsset};
use graphify::memory::{MemoryNode, MemoryQueryResult};
use graphify::memory_query::{parse_input, query_reply, MemoryQueryArgs, ParseInputError, DEFAULT_LIMIT};
use graphify::plugin::derive_workspace_key;
use graphify::types::{Edge, FileType, Node, NodeId};

fn code_node(id: &str, label: &str) -> Node {
    Node {
        id: NodeId(id.to_string()),
        label: label.to_string(),
        file_type: FileType::Code,
        kind: "function".to_string(),
        language: "rust".to_string(),
        source_file: String::new(),
        start_line: 0,
        end_line: 0,
        doc_comment: None,
        description: None,
        metadata: None,
    }
}

fn edge(s: &str, t: &str, rel: &str) -> Edge {
    Edge {
        source: NodeId(s.to_string()),
        target: NodeId(t.to_string()),
        relation: rel.to_string(),
        source_file: String::new(),
        confidence: "EXTRACTED".to_string(),
        source_location: String::new(),
        description: None,
    }
}

fn fixture_unified() -> UnifiedGraph {
    UnifiedGraph {
        nodes: vec![container_node("ws-a"), code_node("ws-a::src/main.rs", "main"), container_node("ws-b")],
        edges: vec![
            edge("ws-a::src/main.rs", "ws-a::src/main.rs", "calls"),
            edge("ws-a", "ws-b", "uses"),
        ],
        workspace_count: 2,
        cross_edges: 1,
    }
}

#[test]
fn test_projection_structure() {
    let projection = project(&fixture_unified());
    assert_eq!(projection.children.len(), 2);
    let ws_a = &projection.children[0];
    assert_eq!(ws_a.id, "ws-a");
    assert_eq!(ws_a.label, "ws-a");
    assert_eq!(
        ws_a.children,
        vec![BoxItem { id: "ws-a::src/main.rs".to_string(), label: "main".to_string() }]
    );
    assert!(projection.children[1].children.is_empty());
    assert_eq!(
        projection.connections,
        vec![Connection { from: "ws-a".to_string(), to: "ws-b".to_string(), label: "uses".to_string() }]
    );
}

#[test]
fn test_projection_caps_children() {
    let mut unified = fixture_unified();
    for i in 0..40 {
        unified.nodes.push(code_node(&format!("ws-a::src/file{i}.rs"), &format!("file{i}")));
    }
    let projection = project(&unified);
    let ws_a = &projection.children[0];
    assert_eq!(ws_a.children.len(), MAX_CHILDREN_PER_WORKSPACE + 1);
    let last = &ws_a.children[MAX_CHILDREN_PER_WORKSPACE];
    assert_eq!(last.id, "ws-a::_more");
    assert_eq!(last.label, "... 11 more");
}

#[test]
fn renderer_errors_are_found_on_any_line() {
    assert!(reports_error("ok\n   Error: bad input\n"));
    assert!(!reports_error("ok\nno Error: here\n"));
    assert!(!reports_error(""));
}

#[test]
fn resolve_path_absolute_unchanged() {
    assert_eq!(resolve_path("/tmp/x/qdrant-storage"), "/tmp/x/qdrant-storage");
}

#[test]
fn resolve_path_relative_joins_home() -> Result<(), String> {
    let home = dirs::home_dir().ok_or_else(|| "no home dir".to_string())?;
    let resolved = resolve_path(".cache/graphify/qdrant");
    assert_eq!(resolved, home.join(".cache/graphify/qdrant").to_string_lossy());
    Ok(())
}

#[test]
fn resolve_under_joins_relative_paths() {
    assert_eq!(resolve_under("a/b", Some("/home/u")), "/home/u/a/b");
    assert_eq!(resolve_under("a/b", None), "a/b");
    assert_eq!(resolve_under("/a", Some("/home/u")), "/a");
}

#[test]
fn spawn_command_carries_env_overrides() {
    let env = qdrant_env("/tmp/store", 16_333, 16_334);
    let get = |k: &str| env.iter().find(|(ek, _)| ek == k).map(|(_, v)| v.as_str());
    assert_eq!(get("QDRANT__SERVICE__HTTP_PORT"), Some("16333"));
    assert_eq!(get("QDRANT__SERVICE__GRPC_PORT"), Some("16334"));
    assert_eq!(get("QDRANT__STORAGE__STORAGE_PATH"), Some("/tmp/store"));
    assert_eq!(get("QDRANT__TELEMETRY_DISABLED"), Some("true"));
    assert_eq!(get("QDRANT__LOG_LEVEL"), Some("error"));
}

#[test]
fn release_addresses_and_digest_lookup() {
    let (asset, api) = release_urls("v1.19.0", "x86_64-unknown-linux-gnu");
    assert_eq!(
        asset,
        "https://github.com/qdrant/qdrant/releases/download/v1.19.0/qdrant-x86_64-unknown-linux-gnu.tar.gz"
    );
    assert_eq!(api, "https://api.github.com/repos/qdrant/qdrant/releases/tags/v1.19.0");
    let assets = vec![
        ReleaseAsset { name: Some("other.tar.gz".to_string()), digest: Some("x".to_string()) },
        ReleaseAsset { name: Some("qdrant-t.tar.gz".to_string()), digest: Some("sha256:ab".to_string()) },
    ];
    assert_eq!(asset_digest(&assets, "t"), Ok("sha256:ab".to_string()));
    assert_eq!(
        asset_digest(&assets, "u"),
        Err("release asset qdrant-u.tar.gz digest not found".to_string())
    );
    let no_digest = vec![ReleaseAsset { name: Some("qdrant-t.tar.gz".to_string()), digest: None }];
    assert!(asset_digest(&no_digest, "t").is_err());
}

#[test]
fn plugin_memory_dir_under_data_dir() {
    assert_eq!(plugin_memory_dir(Some("/d")), "/d/graphify/plugin-memory");
    assert_eq!(plugin_memory_dir(None), ".graphify-plugin-memory/graphify/plugin-memory");
    assert!(PluginDomainMemory::default_dir().ends_with("graphify/plugin-memory"));
}

#[test]
fn record_point_id_is_deterministic_and_workspace_scoped() {
    let a1 = record_point_id("ws-a", "rec-1");
    let a2 = record_point_id("ws-a", "rec-1");
    assert_eq!(a1, a2);
    let b = record_point_id("ws-b", "rec-1");
    assert_ne!(a1, b, "same record_id in different workspaces must not collide");
    let a2b = record_point_id("ws-a", "rec-2");
    assert_ne!(a1, a2b);
}

fn args(key: Option<&str>, query: Option<&str>, limit: Option<u64>) -> MemoryQueryArgs {
    MemoryQueryArgs { workspace_key: key.map(str::to_string), query: query.map(str::to_string), limit }
}

#[test]
fn parse_input_applies_defaults_and_clamps() -> Result<(), ParseInputError> {
    let cwd: Result<String, String> = Ok("/work".to_string());
    let input = parse_input(&args(Some("ws_backend"), Some("memory config"), None), &cwd)?;
    assert_eq!(input.workspace_key, "ws_backend");
    assert_eq!(input.query, "memory config");
    assert_eq!(input.limit, DEFAULT_LIMIT);
    let huge = parse_input(&args(Some("ws_backend"), Some("q"), Some(999_999)), &cwd)?;
    assert_eq!(huge.limit, 1000);
    let zero = parse_input(&args(Some("ws_backend"), Some("q"), Some(0)), &cwd)?;
    assert_eq!(zero.limit, 1);
    Ok(())
}

#[test]
fn parse_input_rejects_missing_or_empty_inputs() {
    let cwd: Result<String, String> = Ok("/work".to_string());
    let auto = parse_input(&args(None, Some("q"), None), &cwd);
    assert_eq!(auto.map(|i| i.workspace_key), Ok(derive_workspace_key("/work")));
    assert_eq!(parse_input(&args(Some("ws"), None, None), &cwd), Err(ParseInputError::MissingQuery));
    let blank_key = parse_input(&args(Some("  "), Some("q"), None), &cwd);
    assert!(blank_key.is_ok(), "blank workspace_key is auto-detected");
    assert_eq!(parse_input(&args(Some("ws"), Some("  "), None), &cwd), Err(ParseInputError::EmptyQuery));
    let no_dir: Result<String, String> = Err("gone".to_string());
    let e = parse_input(&args(None, Some("q"), None), &no_dir);
    assert_eq!(e, Err(ParseInputError::NoCurrentDir("gone".to_string())));
    assert_eq!(
        ParseInputError::NoCurrentDir("gone".to_string()).message(),
        "cannot determine current directory: gone"
    );
    assert!(parse_input(&args(Some("ws"), Some("q"), None), &no_dir).is_ok());
}

#[test]
fn query_reports_unavailable_when_memory_disabled() {
    let r = query_reply(MemoryQueryResult::Unavailable("Semantic memory is not enabled in configuration".to_string()));
    assert_eq!(
        r,
        Err("semantic memory unavailable: Semantic memory is not enabled in configuration".to_string())
    );
    assert_eq!(query_reply(MemoryQueryResult::NotFound), Ok(("not_found".to_string(), Vec::new())));
    let node = MemoryNode {
        id: "n".to_string(),
        label: "l".to_string(),
        file_type: "code".to_string(),
        kind: "struct".to_string(),
        language: "rust".to_string(),
        source_file: "a.rs".to_string(),
        start_line: 1,
        end_line: 2,
        description: None,
    };
    assert_eq!(
        query_reply(MemoryQueryResult::Found(vec![node.clone()])),
        Ok(("found".to_string(), vec![node]))
    );
}

use graphify::extract_plan::{assemble_graph, get_lang, is_skipped_dir, wants_toon};
use graphify::types::ExtractionResult;

#[test]
fn languages_come_from_lowercased_extensions() {
    assert_eq!(get_lang("main.rs"), Some("rust".to_string()));
    assert_eq!(get_lang("A.PY"), Some("python".to_string()));
    assert_eq!(get_lang("x.tsx"), Some("typescript".to_string()));
    assert_eq!(get_lang("x.h++"), Some("cpp".to_string()));
    assert_eq!(get_lang("x.H"), Some("c".to_string()));
    assert_eq!(get_lang("notes.Md"), Some("md".to_string()));
    assert_eq!(get_lang("archive.tar.gz"), Some("gz".to_string()));
    assert_eq!(get_lang(".bashrc"), None);
    assert_eq!(get_lang("Makefile"), None);
    assert_eq!(get_lang(".."), None);
    assert_eq!(get_lang("trailing."), Some(String::new()));
}

#[test]
fn file_walk_skips_hidden_and_build_directories() {
    assert!(is_skipped_dir(".git"));
    assert!(is_skipped_dir("target"));
    assert!(is_skipped_dir("node_modules"));
    assert!(!is_skipped_dir("src"));
}

#[test]
fn extraction_results_gather_into_one_graph() {
    let r1 = ExtractionResult { nodes: vec![code_node("a", "a")], edges: vec![edge("a", "a", "calls")] };
    let r2 = ExtractionResult { nodes: vec![code_node("b", "b"), code_node("c", "c")], edges: vec![] };
    let r3 = ExtractionResult { nodes: vec![code_node("d", "d")], edges: vec![] };
    let g = assemble_graph(vec![
        ("rust".to_string(), r1),
        ("python".to_string(), r2),
        ("rust".to_string(), r3),
    ]);
    let ids: Vec<&str> = g.nodes.iter().map(|n| n.id.0.as_str()).collect();
    assert_eq!(ids, vec!["a", "b", "c", "d"]);
    assert_eq!(g.edges.len(), 1);
    assert_eq!(g.metadata.total_nodes, 4);
    assert_eq!(g.metadata.total_edges, 1);
    assert_eq!(g.metadata.languages, vec!["rust".to_string(), "python".to_string()]);
    assert_eq!(g.metadata.version, "1.0.0");
    assert_eq!(g.metadata.generated_at, "0");
    assert!(wants_toon(Some("toon")));
    assert!(!wants_toon(Some("json")));
    assert!(!wants_toon(None));
}

use graphify::extract_plan::{index_plan, nodes_to_index, IndexPlan};

#[test]
fn index_runs_follow_the_snapshot_and_files() {
    assert_eq!(index_plan(false, false, true, true, true, false), IndexPlan::SkipUnchanged);
    assert_eq!(index_plan(false, false, false, true, true, false), IndexPlan::IncrementalExtract);
    assert_eq!(index_plan(true, false, true, true, true, false), IndexPlan::LoadOutput);
    assert_eq!(index_plan(false, true, false, false, true, true), IndexPlan::LoadLegacyJson);
    assert_eq!(index_plan(false, true, false, false, false, true), IndexPlan::AskForForce);
    assert_eq!(index_plan(true, true, false, false, false, false), IndexPlan::ExtractFresh);
}

#[test]
fn memory_indexes_configured_kinds_of_changed_files() {
    let mut a = code_node("a", "a");
    a.kind = "struct".to_string();
    a.source_file = "x.rs".to_string();
    let mut b = code_node("b", "b");
    b.kind = "function".to_string();
    b.source_file = "x.rs".to_string();
    let mut c = code_node("c", "c");
    c.kind = "struct".to_string();
    c.source_file = "y.rs".to_string();
    let nodes = vec![a, b, c];
    let kinds = vec!["struct".to_string()];
    assert_eq!(nodes_to_index(&nodes, &kinds, None), vec![0, 2]);
    let changed = vec!["y.rs".to_string()];
    assert_eq!(nodes_to_index(&nodes, &kinds, Some(&changed)), vec![2]);
}

use std::cell::RefCell;

use graphify::domain_memory::{
    join_paths, kept_on_upsert, plugin_collection_name, select_records, DomainMemoryError,
    PluginDomainMemory, RecordKey,
};
use graphify::memory::{
    choose_mode, default_index_kinds, hash_node_id, node_to_embed_text, query_outcome, query_plan,
    LongTermMemoryConfig, MemoryConfig, MemoryNode, MemoryQueryInput, MemoryQueryResult,
    MemorySearcher, NodePayload, QueryPlan, StorageMode, MAX_QUERY_LIMIT,
};
use graphify::types::{FileType, Node, NodeId};

struct MockSearcher {
    available: bool,
    recorded: RefCell<Vec<(String, String, usize)>>,
    results: Result<Vec<MemoryNode>, String>,
}

impl MockSearcher {
    fn new(results: Result<Vec<MemoryNode>, String>) -> Self {
        MockSearcher { available: true, recorded: RefCell::new(Vec::new()), results }
    }
}

impl MemorySearcher for MockSearcher {
    fn is_available(&self) -> bool {
        self.available
    }

    fn search(&self, workspace_key: &str, query: &str, limit: usize) -> Result<Vec<MemoryNode>, String> {
        self.recorded
            .borrow_mut()
            .push((workspace_key.to_string(), query.to_string(), limit));
        self.results.clone()
    }
}

fn sample_node() -> MemoryNode {
    MemoryNode {
        id: "node-1".to_string(),
        label: "memory_query".to_string(),
        file_type: "code".to_string(),
        kind: "function".to_string(),
        language: "rust".to_string(),
        source_file: "memory.rs".to_string(),
        start_line: 10,
        end_line: 20,
        description: None,
    }
}

fn input(workspace_key: &str, limit: usize) -> MemoryQueryInput {
    MemoryQueryInput {
        workspace_key: workspace_key.to_string(),
        query: "how does memory work".to_string(),
        limit,
    }
}

#[test]
fn test_choose_mode_healthy_prefers_server() {
    assert!(matches!(choose_mode(true, true), StorageMode::ServerUrl(_)));
    assert!(matches!(choose_mode(true, false), StorageMode::ServerUrl(_)));
}

#[test]
fn test_choose_mode_dead_server_with_fallback_goes_local() {
    assert!(matches!(choose_mode(false, true), StorageMode::LocalProcess));
}

#[test]
fn test_choose_mode_dead_server_without_fallback_stays_server() {
    assert!(matches!(choose_mode(false, false), StorageMode::ServerUrl(_)));
}

#[test]
fn test_query_scopes_to_workspace_key() {
    let searcher = MockSearcher::new(Ok(vec![sample_node()]));
    let result = searcher.query(input("ws-alpha", 5));
    assert!(matches!(result, MemoryQueryResult::Found(_)));
    let calls = searcher.recorded.borrow();
    assert_eq!(calls.len(), 1);
    assert_eq!(calls[0].0, "ws-alpha");
    assert_eq!(calls[0].2, 5);
}

#[test]
fn test_query_clamps_limit_to_max() {
    let searcher = MockSearcher::new(Ok(vec![sample_node()]));
    searcher.query(input("ws-alpha", MAX_QUERY_LIMIT + 100));
    assert_eq!(searcher.recorded.borrow()[0].2, MAX_QUERY_LIMIT);
}

#[test]
fn test_query_clamps_limit_to_min_one() {
    let searcher = MockSearcher::new(Ok(vec![sample_node()]));
    searcher.query(input("ws-alpha", 0));
    assert_eq!(searcher.recorded.borrow()[0].2, 1);
}

#[test]
fn test_query_unavailable_when_disabled() {
    let mut searcher = MockSearcher::new(Ok(Vec::new()));
    searcher.available = false;
    let result = searcher.query(input("ws-alpha", 5));
    assert!(matches!(result, MemoryQueryResult::Unavailable(_)));
    assert!(searcher.recorded.borrow().is_empty());
}

#[test]
fn test_query_rejects_empty_workspace_key() {
    let searcher = MockSearcher::new(Ok(Vec::new()));
    let result = searcher.query(input("", 5));
    assert!(matches!(result, MemoryQueryResult::Unavailable(_)));
    assert!(searcher.recorded.borrow().is_empty());
}

#[test]
fn test_query_not_found_on_empty_results() {
    let searcher = MockSearcher::new(Ok(Vec::new()));
    let result = searcher.query(input("ws-alpha", 5));
    assert!(matches!(result, MemoryQueryResult::NotFound));
}

#[test]
fn test_query_unavailable_on_search_error() {
    let searcher = MockSearcher::new(Err("provider down".to_string()));
    let result = searcher.query(input("ws-alpha", 5));
    assert!(matches!(result, MemoryQueryResult::Unavailable(msg) if msg.contains("provider down")));
}

#[test]
fn query_plan_names_each_refusal() {
    assert_eq!(
        query_plan(false, &input("ws", 5)),
        QueryPlan::Refuse("Semantic memory is not enabled in configuration".to_string())
    );
    assert_eq!(
        query_plan(true, &input("", 5)),
        QueryPlan::Refuse("workspace_key must not be empty".to_string())
    );
    let mut empty_query = input("ws", 5);
    empty_query.query = String::new();
    assert_eq!(query_plan(true, &empty_query), QueryPlan::Refuse("query must not be empty".to_string()));
    assert_eq!(query_plan(true, &input("ws", 1000)), QueryPlan::Search(1000));
    assert_eq!(query_plan(true, &input("ws", 1001)), QueryPlan::Search(1000));
}

#[test]
fn query_outcome_maps_each_case() {
    assert_eq!(query_outcome(Ok(Vec::new())), MemoryQueryResult::NotFound);
    assert_eq!(
        query_outcome(Ok(vec![sample_node()])),
        MemoryQueryResult::Found(vec![sample_node()])
    );
    assert_eq!(
        query_outcome(Err("down".to_string())),
        MemoryQueryResult::Unavailable("down".to_string())
    );
}

#[test]
fn node_from_payload_fills_absent_fields() {
    let payload = NodePayload {
        node_id: Some("n1".to_string()),
        label: None,
        file_type: Some("Code".to_string()),
        kind: None,
        language: Some("rust".to_string()),
        source_file: None,
        start_line: Some(7),
        end_line: Some(1 << 40),
        description: Some("d".to_string()),
    };
    let n = MemoryNode::from_payload(&payload);
    assert_eq!(n.id, "n1");
    assert_eq!(n.label, "");
    assert_eq!(n.file_type, "Code");
    assert_eq!(n.kind, "");
    assert_eq!(n.source_file, "");
    assert_eq!(n.start_line, 7);
    assert_eq!(n.end_line, 0);
    assert_eq!(n.description, Some("d".to_string()));
}

#[test]
fn point_id_is_deterministic() {
    assert_eq!(hash_node_id("a::b"), hash_node_id("a::b"));
    assert_ne!(hash_node_id("a::b"), hash_node_id("a::c"));
}

#[test]
fn embed_text_lists_every_field() {
    let node = Node {
        id: NodeId("src/lib.rs::f".to_string()),
        label: "f".to_string(),
        file_type: FileType::Code,
        kind: "function".to_string(),
        language: "rust".to_string(),
        source_file: "src/lib.rs".to_string(),
        start_line: 3,
        end_line: 12,
        doc_comment: Some("does f".to_string()),
        description: None,
        metadata: None,
    };
    assert_eq!(
        node_to_embed_text(&node),
        "ID: src/lib.rs::f\nLabel: f\nFileType: Code\nKind: function\nLanguage: rust\n\
         SourceFile: src/lib.rs\nLineRange: 3-12\nDoc: does f\nDescription: "
    );
}

#[test]
fn default_memory_config_values() {
    let c = MemoryConfig::default();
    assert!(!c.long_term.enabled);
    assert_eq!(c.long_term.qdrant.url, "http://localhost:6333");
    assert_eq!(c.long_term.qdrant.local_http_port, 16_333);
    assert_eq!(c.long_term.qdrant.local_grpc_port, 16_334);
    assert_eq!(c.long_term.qdrant.local_version, "v1.19.0");
    assert!(!c.long_term.qdrant.local_fallback_enabled);
    let lt = LongTermMemoryConfig::default();
    assert_eq!(lt.index_kinds, default_index_kinds());
}

#[test]
fn test_plugin_collection_name_derivation_and_rejection() -> Result<(), DomainMemoryError> {
    assert_eq!(plugin_collection_name("opendoc")?, "graphify_plugin_opendoc");
    assert!(plugin_collection_name("").is_err(), "empty rejected");
    assert!(plugin_collection_name("opendoc/evil").is_err(), "path separator rejected");
    assert!(plugin_collection_name("..").is_err(), "dot-dot rejected (traversal guard)");
    assert!(plugin_collection_name("opendoc.v2").is_err(), "dots rejected");
    assert!(plugin_collection_name(&"x".repeat(241)).is_err(), "overlong rejected");
    Ok(())
}

#[test]
fn collection_name_errors_name_their_cause() {
    assert_eq!(plugin_collection_name(""), Err(DomainMemoryError::EmptyPluginId));
    assert_eq!(
        plugin_collection_name(&"x".repeat(241)),
        Err(DomainMemoryError::PluginIdTooLong(241))
    );
    assert_eq!(plugin_collection_name("a.b"), Err(DomainMemoryError::InvalidPluginId));
    assert_eq!(plugin_collection_name(&"x".repeat(240)).map(|s| s.len()), Ok(256));
}

#[test]
fn test_core_write_rejection_is_structural() {
    let store = PluginDomainMemory::new("/tmp/nowhere");
    assert_eq!(store.base_dir(), "/tmp/nowhere");
}

#[test]
fn record_files_are_namespaced_per_plugin_and_workspace() {
    let store = PluginDomainMemory::new("/data/mem");
    assert_eq!(
        store.put_target("opendoc", "ws_a", "rec-1"),
        Ok("/data/mem/graphify_plugin_opendoc/ws_a.jsonl".to_string())
    );
    assert_eq!(
        store.query_target("review", "ws_a"),
        Ok("/data/mem/graphify_plugin_review/ws_a.jsonl".to_string())
    );
    assert_eq!(store.put_target("opendoc", "", "r"), Err(DomainMemoryError::EmptyWorkspaceKey));
    assert_eq!(store.put_target("opendoc", "ws", ""), Err(DomainMemoryError::EmptyRecordId));
    assert_eq!(store.query_target("", "ws"), Err(DomainMemoryError::EmptyPluginId));
}

#[test]
fn test_plugin_isolation() {
    let store = PluginDomainMemory::new("/data");
    assert_ne!(store.query_target("opendoc", "ws_a"), store.query_target("review", "ws_a"));
}

fn key(ws: &str, kind: &str) -> RecordKey {
    RecordKey { workspace_key: ws.to_string(), record_kind: kind.to_string() }
}

#[test]
fn test_workspace_partitioning() {
    let records = vec![key("ws_a", "doc_chunk_assoc"), key("ws_b", "doc_chunk_assoc")];
    assert_eq!(select_records(&records, "ws_a", None, 0), vec![0]);
    assert_eq!(select_records(&records, "ws_b", None, 0), vec![1]);
}

#[test]
fn test_record_kind_filter_and_limit() {
    let records = vec![key("ws_a", "snapshot"), key("ws_a", "task_state")];
    assert_eq!(select_records(&records, "ws_a", Some("snapshot"), 0), vec![0]);
    assert_eq!(select_records(&records, "ws_a", None, 1), vec![0]);
    assert_eq!(select_records(&records, "ws_a", None, 0), vec![0, 1]);
}

#[test]
fn test_upsert_by_record_id() {
    let ids = vec![Some("rec-1".to_string()), None, Some("rec-2".to_string())];
    assert_eq!(kept_on_upsert(&ids, "rec-1"), vec![2]);
    assert_eq!(kept_on_upsert(&ids, "rec-9"), vec![0, 2]);
}

#[test]
fn join_paths_follows_path_push() {
    assert_eq!(join_paths("/a", "b"), "/a/b");
    assert_eq!(join_paths("/a/", "b"), "/a/b");
    assert_eq!(join_paths("", "b"), "b");
    assert_eq!(join_paths("/a", "/abs"), "/abs");
}

#[test]
fn test_put_and_query_roundtrip() {
    let store = PluginDomainMemory::new("/data");
    let put = store.put_target("opendoc", "ws_a", "rec-1").unwrap();
    let query = store.query_target("opendoc", "ws_a").unwrap();
    assert_eq!(put, query);
    let records = vec![key("ws_a", "doc_chunk_assoc")];
    assert_eq!(select_records(&records, "ws_a", None, 0), vec![0]);
}

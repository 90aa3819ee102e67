use graphify::snapshot::{diff_hashes, file_digest, file_hashes, snapshot_insert, verify_sha256, DigestMismatch};
use graphify::toon::{from_toon, split_csv_line, to_toon};
use graphify::types::{Edge, FileType, GraphMetadata, GraphOutput, Node, NodeId};

fn sample_graph() -> GraphOutput {
    let mut metadata = GraphMetadata::empty();
    metadata.version = "1.0.0".to_string();
    metadata.generated_at = "2026-08-05".to_string();
    metadata.total_nodes = 2;
    metadata.total_edges = 1;
    metadata.languages = vec!["rust".to_string(), "python".to_string()];
    metadata.input_tokens = 1500;
    metadata.output_tokens = 300;
    GraphOutput {
        metadata,
        nodes: vec![
            Node {
                id: NodeId("node1".to_string()),
                label: "My Label".to_string(),
                file_type: FileType::Code,
                kind: "struct".to_string(),
                language: "rust".to_string(),
                source_file: "src/lib.rs".to_string(),
                start_line: 10,
                end_line: 25,
                doc_comment: Some("This is a doc\ncomment".to_string()),
                description: Some("My description with , commas".to_string()),
                metadata: None,
            },
            Node {
                id: NodeId("node2".to_string()),
                label: "Other".to_string(),
                file_type: FileType::Concept,
                kind: "concept".to_string(),
                language: "unknown".to_string(),
                source_file: "doc.md".to_string(),
                start_line: 0,
                end_line: 0,
                doc_comment: None,
                description: None,
                metadata: Some(r#"{"key":"val"}"#.to_string()),
            },
        ],
        edges: vec![Edge {
            source: NodeId("node1".to_string()),
            target: NodeId("node2".to_string()),
            relation: "depends_on".to_string(),
            source_file: "src/lib.rs".to_string(),
            confidence: "EXTRACTED".to_string(),
            source_location: "src/lib.rs:12".to_string(),
            description: Some("Some edge desc".to_string()),
        }],
    }
}

#[test]
fn test_toon_serialization_roundtrip() -> Result<(), String> {
    let original = sample_graph();
    let serialized = to_toon(&original);
    let deserialized = from_toon(&serialized).map_err(|e| e.message)?;

    assert_eq!(deserialized.metadata.version, original.metadata.version);
    assert_eq!(deserialized.metadata.generated_at, original.metadata.generated_at);
    assert_eq!(deserialized.metadata.total_nodes, original.metadata.total_nodes);
    assert_eq!(deserialized.metadata.total_edges, original.metadata.total_edges);
    assert_eq!(deserialized.metadata.languages, original.metadata.languages);
    assert_eq!(deserialized.metadata.input_tokens, original.metadata.input_tokens);
    assert_eq!(deserialized.metadata.output_tokens, original.metadata.output_tokens);

    assert_eq!(deserialized.nodes.len(), original.nodes.len());
    assert_eq!(deserialized.nodes[0].id, original.nodes[0].id);
    assert_eq!(deserialized.nodes[0].label, original.nodes[0].label);
    assert_eq!(deserialized.nodes[0].file_type, original.nodes[0].file_type);
    assert_eq!(deserialized.nodes[0].kind, original.nodes[0].kind);
    assert_eq!(deserialized.nodes[0].language, original.nodes[0].language);
    assert_eq!(deserialized.nodes[0].source_file, original.nodes[0].source_file);
    assert_eq!(deserialized.nodes[0].start_line, original.nodes[0].start_line);
    assert_eq!(deserialized.nodes[0].end_line, original.nodes[0].end_line);
    assert_eq!(deserialized.nodes[0].doc_comment, original.nodes[0].doc_comment);
    assert_eq!(deserialized.nodes[0].description, original.nodes[0].description);
    assert_eq!(deserialized.nodes[0].metadata, original.nodes[0].metadata);

    assert_eq!(deserialized.nodes[1].metadata, original.nodes[1].metadata);

    assert_eq!(deserialized.edges.len(), original.edges.len());
    assert_eq!(deserialized.edges[0].source, original.edges[0].source);
    assert_eq!(deserialized.edges[0].target, original.edges[0].target);
    assert_eq!(deserialized.edges[0].relation, original.edges[0].relation);
    assert_eq!(deserialized.edges[0].confidence, original.edges[0].confidence);
    assert_eq!(deserialized.edges[0].source_location, original.edges[0].source_location);
    assert_eq!(deserialized.edges[0].description, original.edges[0].description);
    Ok(())
}

#[test]
fn toon_roundtrip_preserves_whole_graph() -> Result<(), String> {
    let original = sample_graph();
    let back = from_toon(&to_toon(&original)).map_err(|e| e.message)?;
    assert_eq!(back, original);
    Ok(())
}

#[test]
fn toon_reader_skips_unknown_lines() -> Result<(), String> {
    let g = from_toon("garbage line\n\n").map_err(|e| e.message)?;
    assert!(g.nodes.is_empty());
    assert!(g.edges.is_empty());
    Ok(())
}

fn pairs(v: &[(&str, &str)]) -> Vec<(String, String)> {
    v.iter().map(|(a, b)| ((*a).to_string(), (*b).to_string())).collect()
}

#[test]
fn test_diff_detects_new_modified_deleted() {
    let old = pairs(&[("a.rs", "aa"), ("b.rs", "bb"), ("gone.rs", "gg")]);
    let current = pairs(&[("a.rs", "aa"), ("b.rs", "bb2"), ("new.rs", "nn")]);
    let changed = diff_hashes(&old, &current);
    assert_eq!(changed.len(), 3);
    assert!(changed.iter().any(|p| p == "b.rs"));
    assert!(changed.iter().any(|p| p == "new.rs"));
    assert!(changed.iter().any(|p| p == "gone.rs"));
    assert!(!changed.iter().any(|p| p == "a.rs"));
}

#[test]
fn diff_orders_current_changes_before_deletions() {
    let old = pairs(&[("gone.rs", "g"), ("b.rs", "b")]);
    let current = pairs(&[("new.rs", "n"), ("b.rs", "b2")]);
    assert_eq!(diff_hashes(&old, &current), vec!["new.rs".to_string(), "b.rs".to_string(), "gone.rs".to_string()]);
}

#[test]
fn diff_of_a_snapshot_with_itself_is_empty() {
    let s = pairs(&[("a.rs", "1"), ("b.rs", "2")]);
    assert!(diff_hashes(&s, &s).is_empty());
}

#[test]
fn sha256_digest_of_abc() {
    assert_eq!(
        file_digest(b"abc"),
        "ba7816bf8f01cfea414140de5dae2223b00361a396177a9cb410ff61f20015ad"
    );
}

#[test]
fn snapshot_insert_replaces_the_digest_of_a_path() {
    let mut s = pairs(&[("a.rs", "1")]);
    snapshot_insert(&mut s, "b.rs".to_string(), "2".to_string());
    snapshot_insert(&mut s, "a.rs".to_string(), "3".to_string());
    assert_eq!(s.len(), 2);
    assert!(s.contains(&("a.rs".to_string(), "3".to_string())));
    assert!(s.contains(&("b.rs".to_string(), "2".to_string())));
}

#[test]
fn file_hashes_digest_each_file() {
    let files = vec![("x".to_string(), b"abc".to_vec()), ("x".to_string(), b"".to_vec())];
    let h = file_hashes(&files);
    assert_eq!(
        h,
        vec![(
            "x".to_string(),
            "e3b0c44298fc1c149afbf4c8996fb92427ae41e4649b934ca495991b7852b855".to_string()
        )]
    );
}

#[test]
fn verify_sha256_mismatch_rejected() {
    let data = b"not the real binary";
    let wrong = "0".repeat(64);
    let r = verify_sha256(data, &wrong);
    assert_eq!(r, Err(DigestMismatch { expected: wrong.clone(), actual: file_digest(data) }));
}

#[test]
fn verify_sha256_match_accepted() {
    let data = b"hello";
    let digest = file_digest(data);
    assert!(verify_sha256(data, &digest).is_ok());
    let shouted = format!("  {}  ", digest.to_uppercase());
    assert!(verify_sha256(data, &shouted).is_ok());
    assert_eq!(digest, "2cf24dba5fb0a30e26e83b2ac5b9e29e1b161e5c1fa7425e73043362938b9824");
}

#[test]
fn csv_rows_split_at_unquoted_unescaped_commas_and_join_back() {
    let rows = ["a,\"b,c\",d\\,e", "", ",", "x\"y,z", "\\\\,q", "p\\\"q,r"];
    let expected: [&[&str]; 6] = [
        &["a", "\"b,c\"", "d\\,e"],
        &[""],
        &["", ""],
        &["x\"y,z"],
        &["\\\\", "q"],
        &["p\\\"q", "r"],
    ];
    for (row, want) in rows.iter().zip(expected.iter()) {
        let chars: Vec<char> = row.chars().collect();
        let fields: Vec<String> = split_csv_line(&chars).into_iter().map(|f| f.into_iter().collect()).collect();
        assert_eq!(fields, want.iter().map(|s| s.to_string()).collect::<Vec<_>>());
        assert_eq!(fields.join(","), *row);
    }
}

#[test]
fn node_metadata_reads_back_as_serde_writes_it() -> Result<(), String> {
    let mut g = sample_graph();
    g.nodes[1].metadata = Some(r#"{ "k" : [1, 2] }"#.to_string());
    g.nodes[0].metadata = Some("[1, 2]".to_string());
    g.metadata.plugin_data = vec![("p".to_string(), "{}".to_string())];
    let back = from_toon(&to_toon(&g)).map_err(|e| e.message)?;
    assert_eq!(back.nodes[1].metadata.as_deref(), Some(r#"{"k":[1,2]}"#));
    assert_eq!(back.nodes[0].metadata, None);
    assert!(back.metadata.plugin_data.is_empty());
    assert_eq!(back.nodes[0].label, g.nodes[0].label);
    assert_eq!(back.edges, g.edges);
    assert_eq!(back.metadata.version, g.metadata.version);
    Ok(())
}

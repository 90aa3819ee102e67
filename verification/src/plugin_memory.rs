//! Versioned data contracts for plugin-owned domain memory.
//!
//! An envelope wraps every plugin-domain record; each payload kind carries
//! its own `schema_version`, so payload schemas evolve independently of each
//! other and of the envelope.

use vstd::prelude::*;

verus! {

/// Versioned envelope wrapping every plugin-domain memory record.
#[derive(Debug, Clone, PartialEq, Eq)]
pub struct PluginMemoryEnvelope<T> {
    pub format_version: u32,
    pub workspace_key: String,
    pub plugin_id: String,
    pub record_id: String,
    pub record_kind: String,
    pub created_at: i64,
    pub source_refs: Vec<String>,
    pub payload: T,
}

impl<T> PluginMemoryEnvelope<T> {
    /// Current envelope contract version.
    pub const FORMAT_VERSION: u32 = 1;

    /// Builds an envelope stamped with the current `FORMAT_VERSION`.
    pub fn new(
        workspace_key: &str,
        plugin_id: &str,
        record_id: &str,
        record_kind: &str,
        created_at: i64,
        source_refs: Vec<String>,
        payload: T,
    ) -> (e: Self)
        ensures
            e.format_version == 1,
            e.workspace_key@ == workspace_key@,
            e.plugin_id@ == plugin_id@,
            e.record_id@ == record_id@,
            e.record_kind@ == record_kind@,
            e.created_at == created_at,
            e.source_refs == source_refs,
            e.payload == payload,
    {
        PluginMemoryEnvelope {
            format_version: Self::FORMAT_VERSION,
            workspace_key: String::from_str(workspace_key),
            plugin_id: String::from_str(plugin_id),
            record_id: String::from_str(record_id),
            record_kind: String::from_str(record_kind),
            created_at,
            source_refs,
            payload,
        }
    }
}

/// `OpenDoc` domain payload: document chunk associations and symbol links.
#[derive(Debug, Clone, PartialEq, Eq)]
pub struct OpenDocPayload {
    pub schema_version: u32,
    pub doc_identity: String,
    pub doc_version: String,
    pub chunk_index: usize,
    pub raw_content: String,
    pub linked_symbols: Vec<String>,
}

impl OpenDocPayload {
    pub const SCHEMA_VERSION: u32 = 1;
}

/// Review domain payload: historical review findings tied to symbols and commits.
#[derive(Debug, Clone, PartialEq, Eq)]
pub struct ReviewPayload {
    pub schema_version: u32,
    pub review_id: String,
    pub git_commit_sha: Option<String>,
    pub affected_symbols: Vec<String>,
    pub finding_severity: String,
    pub resolution_status: String,
    pub review_comment: String,
}

impl ReviewPayload {
    pub const SCHEMA_VERSION: u32 = 1;
}

/// Query conditions that reconstruct a memory neighborhood.  They stand in
/// for storage point identifiers, so re-running them re-finds the same
/// records after a re-index or a collection migration.
#[derive(Debug, Clone, Default, PartialEq, Eq)]
pub struct MemoryQueryCriteria {
    pub target_symbols: Vec<String>,
    pub domain_categories: Vec<String>,
    pub search_terms: Vec<String>,
}

/// Handoff domain payload: task state and reconstructable memory references.
#[derive(Debug, Clone, PartialEq, Eq)]
pub struct HandoffPayload {
    pub schema_version: u32,
    pub task_goal: String,
    pub pinned_node_ids: Vec<String>,
    pub focused_subgraph_toon: String,
    pub reconstructable_query_metadata: MemoryQueryCriteria,
}

impl HandoffPayload {
    pub const SCHEMA_VERSION: u32 = 1;
}

/// Session-tracking container wrapping a `HandoffPayload`; `expires_at`
/// carries the time-to-live window used for pruning.
#[derive(Debug, Clone, PartialEq, Eq)]
pub struct HandoffSnapshot {
    pub snapshot_id: String,
    pub session_id: String,
    pub workspace_key: String,
    pub created_at: i64,
    pub expires_at: i64,
    pub payload: HandoffPayload,
}

} // verus!

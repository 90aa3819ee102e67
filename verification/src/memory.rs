//! Semantic-memory configuration and query logic.
//!
//! The vector store and the embedding service are driven by the front ends;
//! this module holds what decides: the configuration defaults, the storage
//! mode choice, the restricted query (validation, limit clamping, outcome
//! mapping), the deterministic point identifier of a node and the text a
//! node is embedded as.

use vstd::prelude::*;
use crate::text::{dec, push_all, push_str, str_chars, chars_to_string, usize_to_dec};
use crate::types::{FileType, Node, NodeView};

verus! {

// ---------------------------------------------------------------------------
// Configuration
// ---------------------------------------------------------------------------

/// Short-term (conversation) memory settings.
#[derive(Debug, Clone, PartialEq, Eq)]
pub struct ShortTermMemoryConfig {
    pub max_messages: usize,
}

impl Default for ShortTermMemoryConfig {
    fn default() -> (c: Self)
        ensures
            c.max_messages == 20,
    {
        ShortTermMemoryConfig { max_messages: 20 }
    }
}

/// Default indexing threshold of a vector collection.
pub fn default_indexing_threshold() -> (n: usize)
    ensures
        n == 20000,
{
    20000
}

/// Local fallback is off unless configured.
pub fn default_local_fallback_enabled() -> (b: bool)
    ensures
        !b,
{
    false
}

/// Default directory of the managed local server binary (relative to home).
pub fn default_local_bin_dir() -> (s: String)
    ensures
        s@ == ".cache/graphify/qdrant"@,
{
    String::from_str(".cache/graphify/qdrant")
}

/// Default storage directory of the managed local server (relative to home).
pub fn default_local_storage_dir() -> (s: String)
    ensures
        s@ == ".local/share/graphify/qdrant-storage"@,
{
    String::from_str(".local/share/graphify/qdrant-storage")
}

/// Default version of the managed local server.
pub fn default_local_version() -> (s: String)
    ensures
        s@ == "v1.19.0"@,
{
    String::from_str("v1.19.0")
}

/// Default HTTP port of the managed local server.
pub fn default_local_http_port() -> (p: u16)
    ensures
        p == 16333,
{
    16333
}

/// Default gRPC port of the managed local server.
pub fn default_local_grpc_port() -> (p: u16)
    ensures
        p == 16334,
{
    16334
}

/// Vector-store connection settings.  The local directories are paths
/// relative to the home directory unless absolute.
#[derive(Debug, Clone, PartialEq, Eq)]
pub struct QdrantConfig {
    pub url: String,
    pub api_key: Option<String>,
    pub collection: String,
    pub distance: String,
    pub grpc: bool,
    pub indexing_threshold: usize,
    pub local_fallback_enabled: bool,
    pub local_bin_dir: String,
    pub local_storage_dir: String,
    pub local_version: String,
    pub local_http_port: u16,
    pub local_grpc_port: u16,
}

impl Default for QdrantConfig {
    fn default() -> (c: Self)
        ensures
            c.url@ == "http://localhost:6333"@,
            c.api_key is None,
            c.collection@ == "graphify_memory"@,
            c.distance@ == "Cosine"@,
            !c.grpc,
            c.indexing_threshold == 20000,
            !c.local_fallback_enabled,
            c.local_bin_dir@ == ".cache/graphify/qdrant"@,
            c.local_storage_dir@ == ".local/share/graphify/qdrant-storage"@,
            c.local_version@ == "v1.19.0"@,
            c.local_http_port == 16333,
            c.local_grpc_port == 16334,
    {
        QdrantConfig {
            url: String::from_str("http://localhost:6333"),
            api_key: None,
            collection: String::from_str("graphify_memory"),
            distance: String::from_str("Cosine"),
            grpc: false,
            indexing_threshold: 20000,
            local_fallback_enabled: false,
            local_bin_dir: default_local_bin_dir(),
            local_storage_dir: default_local_storage_dir(),
            local_version: default_local_version(),
            local_http_port: default_local_http_port(),
            local_grpc_port: default_local_grpc_port(),
        }
    }
}

/// Embedding-provider settings.
#[derive(Debug, Clone, PartialEq, Eq)]
pub struct EmbeddingConfig {
    pub provider: String,
    pub endpoint: String,
    pub model: String,
    pub vector_size: usize,
}

impl Default for EmbeddingConfig {
    fn default() -> (c: Self)
        ensures
            c.provider@ == "ollama"@,
            c.endpoint@ == "http://localhost:11434"@,
            c.model@ == "bge-m3"@,
            c.vector_size == 1024,
    {
        EmbeddingConfig {
            provider: String::from_str("ollama"),
            endpoint: String::from_str("http://localhost:11434"),
            model: String::from_str("bge-m3"),
            vector_size: 1024,
        }
    }
}

/// The node kinds indexed into long-term memory by default.
pub open spec fn default_kinds() -> Seq<Seq<char>> {
    seq!["module"@, "class"@, "struct"@, "trait"@, "interface"@]
}

/// The node kinds indexed into long-term memory by default.
pub fn default_index_kinds() -> (v: Vec<String>)
    ensures
        v@.map_values(|s: String| s@) == default_kinds(),
{
    let mut v: Vec<String> = Vec::new();
    v.push(String::from_str("module"));
    v.push(String::from_str("class"));
    v.push(String::from_str("struct"));
    v.push(String::from_str("trait"));
    v.push(String::from_str("interface"));
    assert(v@.map_values(|s: String| s@) =~= default_kinds());
    v
}

/// Long-term (semantic) memory settings.
#[derive(Debug, Clone, PartialEq, Eq)]
pub struct LongTermMemoryConfig {
    pub enabled: bool,
    pub provider: String,
    pub embedding: EmbeddingConfig,
    pub qdrant: QdrantConfig,
    pub index_kinds: Vec<String>,
}

impl Default for LongTermMemoryConfig {
    fn default() -> (c: Self)
        ensures
            !c.enabled,
            c.provider@ == "qdrant"@,
            c.embedding.provider@ == "ollama"@,
            c.embedding.vector_size == 1024,
            c.qdrant.url@ == "http://localhost:6333"@,
            c.qdrant.collection@ == "graphify_memory"@,
            !c.qdrant.local_fallback_enabled,
            c.index_kinds@.map_values(|s: String| s@) == default_kinds(),
    {
        LongTermMemoryConfig {
            enabled: false,
            provider: String::from_str("qdrant"),
            embedding: EmbeddingConfig::default(),
            qdrant: QdrantConfig::default(),
            index_kinds: default_index_kinds(),
        }
    }
}

/// Memory settings.
#[derive(Debug, Clone, PartialEq, Eq)]
pub struct MemoryConfig {
    pub short_term: ShortTermMemoryConfig,
    pub long_term: LongTermMemoryConfig,
}

impl Default for MemoryConfig {
    fn default() -> (c: Self)
        ensures
            c.short_term.max_messages == 20,
            !c.long_term.enabled,
            c.long_term.provider@ == "qdrant"@,
    {
        MemoryConfig {
            short_term: ShortTermMemoryConfig::default(),
            long_term: LongTermMemoryConfig::default(),
        }
    }
}

// ---------------------------------------------------------------------------
// Storage mode
// ---------------------------------------------------------------------------

/// Active storage backend of the vector store.
#[derive(Debug, Clone, PartialEq, Eq)]
pub enum StorageMode {
    /// Connected to the configured external server.
    ServerUrl(String),
    /// Serving from the managed local standalone process.
    LocalProcess,
}

/// Chooses the storage mode from the server's health and the fallback
/// setting: the server unless it is down and the local fallback is enabled.
/// With the fallback disabled a dead server stays selected, and its
/// unavailability surfaces at query time.
pub fn choose_mode(server_healthy: bool, fallback_enabled: bool) -> (m: StorageMode)
    ensures
        m is LocalProcess <==> (!server_healthy && fallback_enabled),
        m matches StorageMode::ServerUrl(u) ==> u@.len() == 0,
{
    if server_healthy || !fallback_enabled {
        StorageMode::ServerUrl(String::new())
    } else {
        StorageMode::LocalProcess
    }
}

// ---------------------------------------------------------------------------
// Restricted query
// ---------------------------------------------------------------------------

/// Maximum result limit of a memory query.
pub const MAX_QUERY_LIMIT: usize = 1000;

/// Input of a memory query, scoped to a workspace.
#[derive(Debug, Clone, PartialEq, Eq)]
pub struct MemoryQueryInput {
    /// Workspace key the query is scoped to.
    pub workspace_key: String,
    /// Query text for semantic search.
    pub query: String,
    /// Maximum number of results (clamped to `1..=MAX_QUERY_LIMIT`).
    pub limit: usize,
}

/// A memory node with the fields of a semantic search result; it carries no
/// storage internals.
#[derive(Debug, Clone, PartialEq, Eq)]
pub struct MemoryNode {
    pub id: String,
    pub label: String,
    pub file_type: String,
    pub kind: String,
    pub language: String,
    pub source_file: String,
    pub start_line: u32,
    pub end_line: u32,
    pub description: Option<String>,
}

/// The fields a stored point's payload may carry, as plain values (absent
/// or of the wrong JSON type: `None`).
#[derive(Debug, Clone, PartialEq, Eq)]
pub struct NodePayload {
    pub node_id: Option<String>,
    pub label: Option<String>,
    pub file_type: Option<String>,
    pub kind: Option<String>,
    pub language: Option<String>,
    pub source_file: Option<String>,
    pub start_line: Option<u64>,
    pub end_line: Option<u64>,
    pub description: Option<String>,
}

/// A text field, empty when absent.
pub open spec fn text_or_empty(o: Option<String>) -> Seq<char> {
    match o {
        Some(s) => s@,
        None => Seq::empty(),
    }
}

/// A line field: the number when it fits a `u32`, else 0.
pub open spec fn line_or_zero(o: Option<u64>) -> u32 {
    match o {
        Some(n) => if n <= u32::MAX {
            n as u32
        } else {
            0
        },
        None => 0,
    }
}

fn text_field(o: &Option<String>) -> (s: String)
    ensures
        s@ == text_or_empty(*o),
{
    match o {
        Some(s) => s.clone(),
        None => String::new(),
    }
}

fn line_field(o: Option<u64>) -> (n: u32)
    ensures
        n == line_or_zero(o),
{
    match o {
        Some(v) => if v <= 4294967295 {
            v as u32
        } else {
            0
        },
        None => 0,
    }
}

impl MemoryNode {
    /// The node a stored payload describes: absent text fields are empty,
    /// absent or oversized line numbers are 0.
    pub fn from_payload(payload: &NodePayload) -> (n: Self)
        ensures
            n.id@ == text_or_empty(payload.node_id),
            n.label@ == text_or_empty(payload.label),
            n.file_type@ == text_or_empty(payload.file_type),
            n.kind@ == text_or_empty(payload.kind),
            n.language@ == text_or_empty(payload.language),
            n.source_file@ == text_or_empty(payload.source_file),
            n.start_line == line_or_zero(payload.start_line),
            n.end_line == line_or_zero(payload.end_line),
            n.description == payload.description,
    {
        MemoryNode {
            id: text_field(&payload.node_id),
            label: text_field(&payload.label),
            file_type: text_field(&payload.file_type),
            kind: text_field(&payload.kind),
            language: text_field(&payload.language),
            source_file: text_field(&payload.source_file),
            start_line: line_field(payload.start_line),
            end_line: line_field(payload.end_line),
            description: payload.description.clone(),
        }
    }
}

/// Result of a memory query; it exposes no storage-specific types.
#[derive(Debug, Clone, PartialEq, Eq)]
pub enum MemoryQueryResult {
    /// Matching nodes.
    Found(Vec<MemoryNode>),
    /// No matching node.
    NotFound,
    /// Semantic memory is unavailable (disabled, invalid input or a failed
    /// search), with the reason.
    Unavailable(String),
}

/// What a query does before any search: refuse with a reason, or search
/// with a clamped limit.
#[derive(Debug, Clone, PartialEq, Eq)]
pub enum QueryPlan {
    Refuse(String),
    Search(usize),
}

/// `limit.clamp(1, MAX_QUERY_LIMIT)`.
pub open spec fn clamp_limit(limit: usize) -> usize {
    if limit < 1 {
        1
    } else if limit > MAX_QUERY_LIMIT {
        MAX_QUERY_LIMIT
    } else {
        limit
    }
}

/// Validates a query: memory must be available and the workspace key and the
/// query text non-empty; the limit is clamped to `1..=MAX_QUERY_LIMIT`.
pub fn query_plan(available: bool, input: &MemoryQueryInput) -> (p: QueryPlan)
    ensures
        !available ==> (p matches QueryPlan::Refuse(m) && m@
            == "Semantic memory is not enabled in configuration"@),
        available && input.workspace_key@.len() == 0 ==> (p matches QueryPlan::Refuse(m) && m@
            == "workspace_key must not be empty"@),
        available && input.workspace_key@.len() > 0 && input.query@.len() == 0 ==> (
        p matches QueryPlan::Refuse(m) && m@ == "query must not be empty"@),
        available && input.workspace_key@.len() > 0 && input.query@.len() > 0 ==> p
            == QueryPlan::Search(clamp_limit(input.limit)),
{
    if !available {
        return QueryPlan::Refuse(String::from_str("Semantic memory is not enabled in configuration"));
    }
    if input.workspace_key.as_str().is_empty() {
        return QueryPlan::Refuse(String::from_str("workspace_key must not be empty"));
    }
    if input.query.as_str().is_empty() {
        return QueryPlan::Refuse(String::from_str("query must not be empty"));
    }
    let limit = if input.limit < 1 {
        1
    } else if input.limit > MAX_QUERY_LIMIT {
        MAX_QUERY_LIMIT
    } else {
        input.limit
    };
    QueryPlan::Search(limit)
}

/// Maps a search outcome to a query result: no match is `NotFound`, a
/// failure is `Unavailable` with its message.
pub fn query_outcome(search: Result<Vec<MemoryNode>, String>) -> (r: MemoryQueryResult)
    ensures
        match search {
            Ok(nodes) => if nodes@.len() == 0 {
                r == MemoryQueryResult::NotFound
            } else {
                r == MemoryQueryResult::Found(nodes)
            },
            Err(msg) => r == MemoryQueryResult::Unavailable(msg),
        },
{
    match search {
        Ok(nodes) => if nodes.len() == 0 {
            MemoryQueryResult::NotFound
        } else {
            MemoryQueryResult::Found(nodes)
        },
        Err(msg) => MemoryQueryResult::Unavailable(msg),
    }
}

/// Why a query is refused before any search, if it is: memory switched
/// off, then an empty workspace key, then an empty query.
pub open spec fn refusal(available: bool, input: MemoryQueryInput) -> Option<Seq<char>> {
    if !available {
        Some("Semantic memory is not enabled in configuration"@)
    } else if input.workspace_key@.len() == 0 {
        Some("workspace_key must not be empty"@)
    } else if input.query@.len() == 0 {
        Some("query must not be empty"@)
    } else {
        None
    }
}

/// The query result a search outcome maps to (`query_outcome`).
pub open spec fn outcome_of(found: Result<Vec<MemoryNode>, String>) -> MemoryQueryResult {
    match found {
        Ok(nodes) => if nodes@.len() == 0 {
            MemoryQueryResult::NotFound
        } else {
            MemoryQueryResult::Found(nodes)
        },
        Err(msg) => MemoryQueryResult::Unavailable(msg),
    }
}

/// Storage-agnostic semantic search over core memory.  Implementations
/// supply the raw scoped search; the provided `query` validates the input,
/// clamps the limit and maps the outcome.
pub trait MemorySearcher {
    /// Whether semantic memory is currently available (by default it is).
    fn is_available(&self) -> (r: bool)
        default_ensures
            r,
    {
        true
    }

    /// A search scoped to `workspace_key` returning at most `limit` matches;
    /// implementations filter by `workspace_key`.
    fn search(&self, workspace_key: &str, query: &str, limit: usize) -> Result<
        Vec<MemoryNode>,
        String,
    >;

    /// The restricted query: a refused input is answered `Unavailable` with
    /// the reason and never searched; otherwise the search runs with the
    /// workspace key, the query text and the clamped limit, and its outcome is
    /// mapped by `query_outcome`.
    fn query(&self, input: MemoryQueryInput) -> (r: MemoryQueryResult)
        ensures
            exists|available: bool|
                #![trigger call_ensures(Self::is_available, (self,), available)]
                call_ensures(Self::is_available, (self,), available) && match refusal(available, input) {
                    Some(m) => (r matches MemoryQueryResult::Unavailable(x) && x@ == m),
                    None => exists|ws: &str, q: &str, found: Result<Vec<MemoryNode>, String>|
                        #![trigger call_ensures(Self::search, (self, ws, q, clamp_limit(input.limit)), found)]
                        ws@ == input.workspace_key@ && q@ == input.query@ && call_ensures(
                            Self::search,
                            (self, ws, q, clamp_limit(input.limit)),
                            found,
                        ) && r == outcome_of(found),
                },
    {
        let available = self.is_available();
        match query_plan(available, &input) {
            QueryPlan::Refuse(msg) => MemoryQueryResult::Unavailable(msg),
            QueryPlan::Search(limit) => {
                let found = self.search(input.workspace_key.as_str(), input.query.as_str(), limit);
                query_outcome(found)
            },
        }
    }
}

// ---------------------------------------------------------------------------
// Point identifiers and embedding text
// ---------------------------------------------------------------------------

/// The `DefaultHasher` (SipHash) digest of a string.
pub uninterp spec fn str_hash(s: Seq<char>) -> u64;

/// Hashes `s` with a fresh `std::collections::hash_map::DefaultHasher`.  A
/// fresh `DefaultHasher` is unseeded, so the digest depends on `s` alone.
#[verifier::external_body]
fn hash_str(s: &str) -> (h: u64)
    ensures
        h == str_hash(s@),
{
    let mut hasher = std::collections::hash_map::DefaultHasher::new();
    std::hash::Hash::hash(s, &mut hasher);
    std::hash::Hasher::finish(&hasher)
}

/// The deterministic point identifier of a node identifier, which makes
/// re-indexing idempotent.
pub fn hash_node_id(id: &str) -> (h: u64)
    ensures
        h == str_hash(id@),
{
    hash_str(id)
}

/// The `Debug` rendering of a file type (its variant name).
pub open spec fn file_type_name(t: FileType) -> Seq<char> {
    match t {
        FileType::Code => "Code"@,
        FileType::Document => "Document"@,
        FileType::Paper => "Paper"@,
        FileType::Image => "Image"@,
        FileType::Rationale => "Rationale"@,
        FileType::Concept => "Concept"@,
    }
}

fn file_type_name_str(t: FileType) -> (s: &'static str)
    ensures
        s@ == file_type_name(t),
{
    match t {
        FileType::Code => "Code",
        FileType::Document => "Document",
        FileType::Paper => "Paper",
        FileType::Image => "Image",
        FileType::Rationale => "Rationale",
        FileType::Concept => "Concept",
    }
}

pub open spec fn opt_or_empty(o: Option<Seq<char>>) -> Seq<char> {
    match o {
        Some(s) => s,
        None => Seq::empty(),
    }
}

/// The text a node is embedded as: one `Name: value` line per field.
pub open spec fn embed_text(n: NodeView) -> Seq<char> {
    "ID: "@ + n.id + "\nLabel: "@ + n.label + "\nFileType: "@ + file_type_name(n.file_type)
        + "\nKind: "@ + n.kind + "\nLanguage: "@ + n.language + "\nSourceFile: "@
        + n.source_file + "\nLineRange: "@ + dec(n.start_line as nat) + "-"@ + dec(
        n.end_line as nat,
    ) + "\nDoc: "@ + opt_or_empty(n.doc_comment) + "\nDescription: "@ + opt_or_empty(
        n.description,
    )
}

fn push_opt(v: &mut Vec<char>, o: &Option<String>)
    ensures
        final(v)@ == old(v)@ + opt_or_empty(crate::types::opt_view(*o)),
{
    match o {
        Some(s) => push_str(v, s.as_str()),
        None => {
            assert(old(v)@ + Seq::<char>::empty() =~= old(v)@);
        },
    }
}

/// The text a node is embedded as, shared by every transport.
pub fn node_to_embed_text(node: &Node) -> (s: String)
    ensures
        s@ == embed_text(node@),
{
    let mut v: Vec<char> = Vec::new();
    push_str(&mut v, "ID: ");
    push_str(&mut v, node.id.0.as_str());
    push_str(&mut v, "\nLabel: ");
    push_str(&mut v, node.label.as_str());
    push_str(&mut v, "\nFileType: ");
    push_str(&mut v, file_type_name_str(node.file_type));
    push_str(&mut v, "\nKind: ");
    push_str(&mut v, node.kind.as_str());
    push_str(&mut v, "\nLanguage: ");
    push_str(&mut v, node.language.as_str());
    push_str(&mut v, "\nSourceFile: ");
    push_str(&mut v, node.source_file.as_str());
    push_str(&mut v, "\nLineRange: ");
    let a = usize_to_dec(node.start_line);
    push_all(&mut v, a.as_slice());
    push_str(&mut v, "-");
    let b = usize_to_dec(node.end_line);
    push_all(&mut v, b.as_slice());
    push_str(&mut v, "\nDoc: ");
    push_opt(&mut v, &node.doc_comment);
    push_str(&mut v, "\nDescription: ");
    push_opt(&mut v, &node.description);
    assert(v@ =~= embed_text(node@));
    chars_to_string(v.as_slice())
}

} // verus!

//! The graph data model: nodes, edges, metadata and graph outputs.
//!
//! Every type has a view over mathematical values (`Seq<char>` for text) that
//! the contracts speak of.  A node's plugin-free `metadata` is held as the
//! text of a JSON object.

use vstd::prelude::*;

verus! {

/// Stable identifier of a node.
#[derive(Debug, Clone, PartialEq, Eq, Hash)]
pub struct NodeId(pub String);

impl View for NodeId {
    type V = Seq<char>;

    open spec fn view(&self) -> Seq<char> {
        self.0@
    }
}

/// The kind of source a node was extracted from.
#[derive(Debug, Clone, Copy, PartialEq, Eq, Structural)]
pub enum FileType {
    Code,
    Document,
    Paper,
    Image,
    Rationale,
    Concept,
}

/// Default language of a node (`"unknown"`).
pub fn default_language() -> (s: String)
    ensures
        s@ == "unknown"@,
{
    String::from_str("unknown")
}

/// Default confidence of an edge (`"EXTRACTED"`).
pub fn default_confidence() -> (s: String)
    ensures
        s@ == "EXTRACTED"@,
{
    String::from_str("EXTRACTED")
}

pub open spec fn opt_view(o: Option<String>) -> Option<Seq<char>> {
    match o {
        Some(s) => Some(s@),
        None => None,
    }
}

/// A graph node.  `metadata`, when present, is the text of a JSON object.
#[derive(Debug, Clone, PartialEq, Eq)]
pub struct Node {
    pub id: NodeId,
    pub label: String,
    pub file_type: FileType,
    pub kind: String,
    pub language: String,
    pub source_file: String,
    pub start_line: usize,
    pub end_line: usize,
    pub doc_comment: Option<String>,
    pub description: Option<String>,
    pub metadata: Option<String>,
}

pub struct NodeView {
    pub id: Seq<char>,
    pub label: Seq<char>,
    pub file_type: FileType,
    pub kind: Seq<char>,
    pub language: Seq<char>,
    pub source_file: Seq<char>,
    pub start_line: usize,
    pub end_line: usize,
    pub doc_comment: Option<Seq<char>>,
    pub description: Option<Seq<char>>,
    pub metadata: Option<Seq<char>>,
}

impl View for Node {
    type V = NodeView;

    open spec fn view(&self) -> NodeView {
        NodeView {
            id: self.id@,
            label: self.label@,
            file_type: self.file_type,
            kind: self.kind@,
            language: self.language@,
            source_file: self.source_file@,
            start_line: self.start_line,
            end_line: self.end_line,
            doc_comment: opt_view(self.doc_comment),
            description: opt_view(self.description),
            metadata: opt_view(self.metadata),
        }
    }
}

/// A directed, labelled edge between two nodes.
#[derive(Debug, Clone, PartialEq, Eq)]
pub struct Edge {
    pub source: NodeId,
    pub target: NodeId,
    pub relation: String,
    pub source_file: String,
    pub confidence: String,
    pub source_location: String,
    pub description: Option<String>,
}

pub struct EdgeView {
    pub source: Seq<char>,
    pub target: Seq<char>,
    pub relation: Seq<char>,
    pub source_file: Seq<char>,
    pub confidence: Seq<char>,
    pub source_location: Seq<char>,
    pub description: Option<Seq<char>>,
}

impl View for Edge {
    type V = EdgeView;

    open spec fn view(&self) -> EdgeView {
        EdgeView {
            source: self.source@,
            target: self.target@,
            relation: self.relation@,
            source_file: self.source_file@,
            confidence: self.confidence@,
            source_location: self.source_location@,
            description: opt_view(self.description),
        }
    }
}

/// Graph-level metadata.  `plugin_data` is a reserved, plugin-owned
/// container keyed by plugin id, each value the text of a JSON value; the
/// core never interprets it.
#[derive(Debug, Clone, PartialEq, Eq)]
pub struct GraphMetadata {
    pub version: String,
    pub generated_at: String,
    pub total_nodes: usize,
    pub total_edges: usize,
    pub languages: Vec<String>,
    pub input_tokens: usize,
    pub output_tokens: usize,
    pub plugin_data: Vec<(String, String)>,
}

pub struct MetadataView {
    pub version: Seq<char>,
    pub generated_at: Seq<char>,
    pub total_nodes: usize,
    pub total_edges: usize,
    pub languages: Seq<Seq<char>>,
    pub input_tokens: usize,
    pub output_tokens: usize,
    pub plugin_data: Seq<(Seq<char>, Seq<char>)>,
}

pub open spec fn strings_view(v: Seq<String>) -> Seq<Seq<char>> {
    v.map_values(|s: String| s@)
}

impl View for GraphMetadata {
    type V = MetadataView;

    open spec fn view(&self) -> MetadataView {
        MetadataView {
            version: self.version@,
            generated_at: self.generated_at@,
            total_nodes: self.total_nodes,
            total_edges: self.total_edges,
            languages: strings_view(self.languages@),
            input_tokens: self.input_tokens,
            output_tokens: self.output_tokens,
            plugin_data: self.plugin_data@.map_values(|p: (String, String)| (p.0@, p.1@)),
        }
    }
}

impl GraphMetadata {
    /// Empty metadata: empty strings, zero counts, no languages, no plugin
    /// data (what `Default` gives a metadata record).
    pub fn empty() -> (m: GraphMetadata)
        ensures
            m@.version.len() == 0,
            m@.generated_at.len() == 0,
            m@.total_nodes == 0,
            m@.total_edges == 0,
            m@.languages.len() == 0,
            m@.input_tokens == 0,
            m@.output_tokens == 0,
            m@.plugin_data.len() == 0,
    {
        GraphMetadata {
            version: String::new(),
            generated_at: String::new(),
            total_nodes: 0,
            total_edges: 0,
            languages: Vec::new(),
            input_tokens: 0,
            output_tokens: 0,
            plugin_data: Vec::new(),
        }
    }
}

/// A whole graph: nodes, edges and metadata.
#[derive(Debug, Clone, PartialEq, Eq)]
pub struct GraphOutput {
    pub nodes: Vec<Node>,
    pub edges: Vec<Edge>,
    pub metadata: GraphMetadata,
}

pub struct GraphView {
    pub nodes: Seq<NodeView>,
    pub edges: Seq<EdgeView>,
    pub metadata: MetadataView,
}

pub open spec fn nodes_view(v: Seq<Node>) -> Seq<NodeView> {
    v.map_values(|n: Node| n@)
}

pub open spec fn edges_view(v: Seq<Edge>) -> Seq<EdgeView> {
    v.map_values(|e: Edge| e@)
}

impl View for GraphOutput {
    type V = GraphView;

    open spec fn view(&self) -> GraphView {
        GraphView {
            nodes: nodes_view(self.nodes@),
            edges: edges_view(self.edges@),
            metadata: self.metadata@,
        }
    }
}

/// What one source file's extraction yields.
#[derive(Debug, Clone, PartialEq, Eq)]
pub struct ExtractionResult {
    pub nodes: Vec<Node>,
    pub edges: Vec<Edge>,
}

/// A copy of an optional string.
pub fn copy_opt(o: &Option<String>) -> (r: Option<String>)
    ensures
        opt_view(r) == opt_view(*o),
{
    match o {
        Some(s) => Some(s.clone()),
        None => None,
    }
}

impl Node {
    /// A field-by-field copy.
    pub fn copy(&self) -> (r: Node)
        ensures
            r@ == self@,
    {
        Node {
            id: NodeId(self.id.0.clone()),
            label: self.label.clone(),
            file_type: self.file_type,
            kind: self.kind.clone(),
            language: self.language.clone(),
            source_file: self.source_file.clone(),
            start_line: self.start_line,
            end_line: self.end_line,
            doc_comment: copy_opt(&self.doc_comment),
            description: copy_opt(&self.description),
            metadata: copy_opt(&self.metadata),
        }
    }
}

impl Edge {
    /// A field-by-field copy.
    pub fn copy(&self) -> (r: Edge)
        ensures
            r@ == self@,
    {
        Edge {
            source: NodeId(self.source.0.clone()),
            target: NodeId(self.target.0.clone()),
            relation: self.relation.clone(),
            source_file: self.source_file.clone(),
            confidence: self.confidence.clone(),
            source_location: self.source_location.clone(),
            description: copy_opt(&self.description),
        }
    }
}

} // verus!

//! Migration of graphs saved in the legacy JSON layout.
//!
//! A graph file that does not parse as the current schema is read as loose
//! JSON; each node and edge field is taken when present with the expected
//! JSON type (the caller extracts them) and defaulted otherwise.

use vstd::prelude::*;
use crate::types::{Edge, EdgeView, FileType, GraphMetadata, GraphOutput, Node, NodeId, NodeView, copy_opt, opt_view};

verus! {

/// A field of a legacy JSON entry that an older key can stand in for.
#[derive(Debug, Clone, PartialEq, Eq)]
pub enum JsonField {
    /// The key is absent: the older key is read instead.
    Absent,
    /// The key is present with another JSON type than a string.
    NotText,
    /// The key holds this string.
    Text(String),
}

/// The fields of a legacy node, each `None` when absent or of another JSON
/// type.  `metadata` is the text of a JSON object.
#[derive(Debug, Clone, PartialEq, Eq)]
pub struct LegacyNode {
    pub id: Option<String>,
    pub label: Option<String>,
    pub file_type: Option<String>,
    pub kind: Option<String>,
    pub language: Option<String>,
    /// `source_file`; when it is absent the older `file_path` is read.
    pub source_file: JsonField,
    /// The older `file_path`.
    pub file_path: Option<String>,
    pub start_line: Option<u64>,
    pub end_line: Option<u64>,
    pub doc_comment: Option<String>,
    pub description: Option<String>,
    pub metadata: Option<String>,
}

/// The fields of a legacy edge, each `None` when absent or of another JSON
/// type.
#[derive(Debug, Clone, PartialEq, Eq)]
pub struct LegacyEdge {
    pub source: Option<String>,
    pub target: Option<String>,
    /// `relation`; when it is absent the older `kind` is read.
    pub relation: JsonField,
    /// The older `kind`.
    pub kind: Option<String>,
    pub source_file: Option<String>,
    pub confidence: Option<String>,
    pub source_location: Option<String>,
    pub description: Option<String>,
}

/// The text of a field, or a default.
pub open spec fn or_text(o: Option<String>, d: Seq<char>) -> Seq<char> {
    match o {
        Some(s) => s@,
        None => d,
    }
}

/// The text of a field that an older key stands in for: the field's string;
/// the default when the field holds another JSON type; the older key's
/// string (or the default) when the field is absent.
pub open spec fn aliased_or(primary: JsonField, older: Option<String>, d: Seq<char>) -> Seq<char> {
    match primary {
        JsonField::Text(s) => s@,
        JsonField::NotText => d,
        JsonField::Absent => or_text(older, d),
    }
}

/// A line number: the value when it fits a `usize`, else 0.
pub open spec fn line_of(o: Option<u64>) -> usize {
    match o {
        Some(v) => if v <= usize::MAX {
            v as usize
        } else {
            0
        },
        None => 0,
    }
}

/// The file type a `file_type` text names, if any.
pub open spec fn named_type(t: Seq<char>) -> Option<FileType> {
    if t == "code"@ {
        Some(FileType::Code)
    } else if t == "document"@ {
        Some(FileType::Document)
    } else if t == "paper"@ {
        Some(FileType::Paper)
    } else if t == "image"@ {
        Some(FileType::Image)
    } else if t == "rationale"@ {
        Some(FileType::Rationale)
    } else if t == "concept"@ {
        Some(FileType::Concept)
    } else {
        None
    }
}

/// The file type a `file_type` field names, if any.
pub open spec fn named_field(ft: Option<String>) -> Option<FileType> {
    match ft {
        Some(s) => named_type(s@),
        None => None,
    }
}

/// The file type of a legacy node: its `file_type` when it names one, else
/// `document` for file and module nodes and `code` for the rest.
pub open spec fn legacy_file_type(ft: Option<String>, kind: Option<String>) -> FileType {
    match named_field(ft) {
        Some(t) => t,
        None => {
            let k = or_text(kind, Seq::empty());
            if k == "file"@ || k == "module"@ {
                FileType::Document
            } else {
                FileType::Code
            }
        },
    }
}

fn text_or(o: &Option<String>, d: &str) -> (s: String)
    ensures
        s@ == or_text(*o, d@),
{
    match o {
        Some(x) => x.clone(),
        None => String::from_str(d),
    }
}

fn aliased_text_or(primary: &JsonField, older: &Option<String>, d: &str) -> (s: String)
    ensures
        s@ == aliased_or(*primary, *older, d@),
{
    match primary {
        JsonField::Text(x) => x.clone(),
        JsonField::NotText => String::from_str(d),
        JsonField::Absent => text_or(older, d),
    }
}

fn line(o: Option<u64>) -> (n: usize)
    ensures
        n == line_of(o),
{
    match o {
        Some(v) => if v <= usize::MAX as u64 {
            v as usize
        } else {
            0
        },
        None => 0,
    }
}

fn eq_text(s: &str, lit: &str) -> (r: bool)
    ensures
        r == (s@ == lit@),
{
    crate::text::str_eq(s, lit)
}

fn named_file_type(s: &str) -> (t: Option<FileType>)
    ensures
        t == named_type(s@),
{
    if eq_text(s, "code") {
        Some(FileType::Code)
    } else if eq_text(s, "document") {
        Some(FileType::Document)
    } else if eq_text(s, "paper") {
        Some(FileType::Paper)
    } else if eq_text(s, "image") {
        Some(FileType::Image)
    } else if eq_text(s, "rationale") {
        Some(FileType::Rationale)
    } else if eq_text(s, "concept") {
        Some(FileType::Concept)
    } else {
        None
    }
}

fn file_type_of(ft: &Option<String>, kind: &Option<String>) -> (t: FileType)
    ensures
        t == legacy_file_type(*ft, *kind),
{
    proof {
        reveal_strlit("");
    }
    let named = match ft {
        Some(s) => {
            let r = named_file_type(s.as_str());
            assert(ft == Some(*s));
            r
        },
        None => None,
    };
    assert(named == named_field(*ft));
    match named {
        Some(ty) => {
            assert(named_field(*ft) == Some(ty));
            assert(legacy_file_type(*ft, *kind) == ty);
            ty
        },
        None => {
            let k = text_or(kind, "");
            assert(k@ == or_text(*kind, Seq::empty()));
            assert(named_field(*ft) is None);
            if eq_text(k.as_str(), "file") || eq_text(k.as_str(), "module") {
                FileType::Document
            } else {
                FileType::Code
            }
        },
    }
}

/// The node a legacy entry migrates to, as a view.
pub open spec fn legacy_node_view(n: LegacyNode) -> NodeView {
    NodeView {
        id: or_text(n.id, Seq::empty()),
        label: or_text(n.label, Seq::empty()),
        file_type: legacy_file_type(n.file_type, n.kind),
        kind: or_text(n.kind, "unknown"@),
        language: or_text(n.language, "unknown"@),
        source_file: aliased_or(n.source_file, n.file_path, Seq::empty()),
        start_line: line_of(n.start_line),
        end_line: line_of(n.end_line),
        doc_comment: opt_view(n.doc_comment),
        description: opt_view(n.description),
        metadata: opt_view(n.metadata),
    }
}

/// The edge a legacy entry migrates to, as a view.
pub open spec fn legacy_edge_view(e: LegacyEdge) -> EdgeView {
    EdgeView {
        source: or_text(e.source, Seq::empty()),
        target: or_text(e.target, Seq::empty()),
        relation: aliased_or(e.relation, e.kind, "calls"@),
        source_file: or_text(e.source_file, Seq::empty()),
        confidence: or_text(e.confidence, "EXTRACTED"@),
        source_location: or_text(e.source_location, Seq::empty()),
        description: opt_view(e.description),
    }
}

/// The node a legacy entry migrates to: empty id, label and source file,
/// `unknown` kind and language, and line 0 when absent; the source file read
/// from `file_path` when `source_file` is absent.
pub fn legacy_node(n: &LegacyNode) -> (r: Node)
    ensures
        r.id@ == or_text(n.id, Seq::empty()),
        r.label@ == or_text(n.label, Seq::empty()),
        r.file_type == legacy_file_type(n.file_type, n.kind),
        r.kind@ == or_text(n.kind, "unknown"@),
        r.language@ == or_text(n.language, "unknown"@),
        r.source_file@ == aliased_or(n.source_file, n.file_path, Seq::empty()),
        r.start_line == line_of(n.start_line),
        r.end_line == line_of(n.end_line),
        opt_view(r.doc_comment) == opt_view(n.doc_comment),
        opt_view(r.description) == opt_view(n.description),
        opt_view(r.metadata) == opt_view(n.metadata),
        r@ == legacy_node_view(*n),
{
    proof {
        reveal_strlit("");
    }
    let r = Node {
        id: NodeId(text_or(&n.id, "")),
        label: text_or(&n.label, ""),
        file_type: file_type_of(&n.file_type, &n.kind),
        kind: text_or(&n.kind, "unknown"),
        language: text_or(&n.language, "unknown"),
        source_file: aliased_text_or(&n.source_file, &n.file_path, ""),
        start_line: line(n.start_line),
        end_line: line(n.end_line),
        doc_comment: copy_opt(&n.doc_comment),
        description: copy_opt(&n.description),
        metadata: copy_opt(&n.metadata),
    };
    assert(r@.id == legacy_node_view(*n).id);
    assert(r@.label == legacy_node_view(*n).label);
    assert(r@.file_type == legacy_node_view(*n).file_type);
    assert(r@.kind == legacy_node_view(*n).kind);
    assert(r@.language == legacy_node_view(*n).language);
    assert(r@.source_file == legacy_node_view(*n).source_file);
    assert(r@.start_line == legacy_node_view(*n).start_line);
    assert(r@.doc_comment == legacy_node_view(*n).doc_comment);
    assert(r@.metadata == legacy_node_view(*n).metadata);
    assert(r@ =~= legacy_node_view(*n));
    r
}

/// The edge a legacy entry migrates to: empty endpoints, source file and
/// location, a `calls` relation and `EXTRACTED` confidence when absent; the
/// relation read from `kind` when `relation` is absent.
pub fn legacy_edge(e: &LegacyEdge) -> (r: Edge)
    ensures
        r.source@ == or_text(e.source, Seq::empty()),
        r.target@ == or_text(e.target, Seq::empty()),
        r.relation@ == aliased_or(e.relation, e.kind, "calls"@),
        r.source_file@ == or_text(e.source_file, Seq::empty()),
        r.confidence@ == or_text(e.confidence, "EXTRACTED"@),
        r.source_location@ == or_text(e.source_location, Seq::empty()),
        opt_view(r.description) == opt_view(e.description),
        r@ == legacy_edge_view(*e),
{
    proof {
        reveal_strlit("");
    }
    let r = Edge {
        source: NodeId(text_or(&e.source, "")),
        target: NodeId(text_or(&e.target, "")),
        relation: aliased_text_or(&e.relation, &e.kind, "calls"),
        source_file: text_or(&e.source_file, ""),
        confidence: text_or(&e.confidence, "EXTRACTED"),
        source_location: text_or(&e.source_location, ""),
        description: copy_opt(&e.description),
    };
    assert(r@.source == legacy_edge_view(*e).source);
    assert(r@.target == legacy_edge_view(*e).target);
    assert(r@.relation == legacy_edge_view(*e).relation);
    assert(r@.source_file == legacy_edge_view(*e).source_file);
    assert(r@.confidence == legacy_edge_view(*e).confidence);
    assert(r@.source_location == legacy_edge_view(*e).source_location);
    assert(r@.description == legacy_edge_view(*e).description);
    assert(r@ =~= legacy_edge_view(*e));
    r
}

/// The graph a legacy file migrates to: its nodes and edges in order, the
/// totals counted, version `1.0.0` and generation time `0` when absent,
/// the languages given, zero token counts and no plugin data.
pub fn legacy_graph(
    nodes: &[LegacyNode],
    edges: &[LegacyEdge],
    version: &Option<String>,
    generated_at: &Option<String>,
    languages: Vec<String>,
) -> (g: GraphOutput)
    ensures
        g.nodes@.len() == nodes@.len(),
        forall|i: int| 0 <= i < nodes@.len() ==> (#[trigger] g.nodes@[i])@ == legacy_node_view(nodes@[i]),
        g.edges@.len() == edges@.len(),
        forall|i: int| 0 <= i < edges@.len() ==> (#[trigger] g.edges@[i])@ == legacy_edge_view(edges@[i]),
        g.metadata.version@ == or_text(*version, "1.0.0"@),
        g.metadata.generated_at@ == or_text(*generated_at, "0"@),
        g.metadata.total_nodes == nodes@.len(),
        g.metadata.total_edges == edges@.len(),
        g.metadata.languages == languages,
        g.metadata.input_tokens == 0,
        g.metadata.output_tokens == 0,
        g.metadata.plugin_data@.len() == 0,
{
    let mut ns: Vec<Node> = Vec::new();
    let mut i: usize = 0;
    while i < nodes.len()
        invariant
            i <= nodes@.len(),
            ns@.len() == i,
            forall|j: int| 0 <= j < i ==> (#[trigger] ns@[j])@ == legacy_node_view(nodes@[j]),
        decreases nodes@.len() - i,
    {
        ns.push(legacy_node(&nodes[i]));
        i = i + 1;
    }
    let mut es: Vec<Edge> = Vec::new();
    let mut j: usize = 0;
    while j < edges.len()
        invariant
            j <= edges@.len(),
            es@.len() == j,
            forall|k: int| 0 <= k < j ==> (#[trigger] es@[k])@ == legacy_edge_view(edges@[k]),
        decreases edges@.len() - j,
    {
        es.push(legacy_edge(&edges[j]));
        j = j + 1;
    }
    let total_nodes = ns.len();
    let total_edges = es.len();
    GraphOutput {
        nodes: ns,
        edges: es,
        metadata: GraphMetadata {
            version: text_or(version, "1.0.0"),
            generated_at: text_or(generated_at, "0"),
            total_nodes,
            total_edges,
            languages,
            input_tokens: 0,
            output_tokens: 0,
            plugin_data: Vec::new(),
        },
    }
}

} // verus!

//! Workspace composition: resolving a manifest's workspaces and merging
//! their graphs into one unified graph.
//!
//! Node ids get a `{ws_id}::` prefix so identical local ids of different
//! workspaces cannot collide; each workspace gets a container node named by
//! its id; manifest relations become composition edges between prefixed
//! nodes (`ws::node` endpoints) or container nodes (bare `ws` endpoints).

use vstd::prelude::*;
use crate::domain_memory::{join_path, join_paths};
use crate::manifest::{AssemblyManifest, RelationEntry, WorkspaceEntry, node_reference_parts, split_node_reference};
use crate::text::{chars_to_string, push_str, str_chars, str_eq, starts_with, starts_with_str};
use crate::types::{Edge, EdgeView, FileType, GraphOutput, Node, NodeId, NodeView, edges_view, nodes_view};

verus! {

// ---------------------------------------------------------------------------
// Loaded manifests
// ---------------------------------------------------------------------------

/// A parsed manifest with its workspace roots resolved.
#[derive(Debug, Clone, PartialEq, Eq)]
pub struct LoadedManifest {
    pub manifest: AssemblyManifest,
    /// `workspace id -> workspace root`, in declaration order.
    pub roots: Vec<(String, String)>,
    /// Path of the manifest file itself (recorded on composition edges).
    pub manifest_path: String,
}

/// The root of the first entry of `roots` with id `ws_id`.
pub open spec fn root_in(roots: Seq<(String, String)>, ws_id: Seq<char>) -> Option<Seq<char>>
    decreases roots.len(),
{
    if roots.len() == 0 {
        None
    } else if roots[0].0@ == ws_id {
        Some(roots[0].1@)
    } else {
        root_in(roots.drop_first(), ws_id)
    }
}

impl LoadedManifest {
    /// The root of a declared workspace id.
    pub fn root_of(&self, ws_id: &str) -> (r: Option<&str>)
        ensures
            match r {
                Some(p) => root_in(self.roots@, ws_id@) == Some(p@),
                None => root_in(self.roots@, ws_id@) is None,
            },
    {
        let mut i: usize = 0;
        assert(self.roots@.skip(0) =~= self.roots@);
        while i < self.roots.len()
            invariant
                i <= self.roots@.len(),
                root_in(self.roots@, ws_id@) == root_in(self.roots@.skip(i as int), ws_id@),
            decreases self.roots@.len() - i,
        {
            assert(self.roots@.skip(i as int).drop_first() =~= self.roots@.skip(i + 1));
            if str_eq(self.roots[i].0.as_str(), ws_id) {
                return Some(self.roots[i].1.as_str());
            }
            i = i + 1;
        }
        None
    }
}

/// Each declared workspace id with its root: the workspace path joined onto
/// the manifest's directory.
pub fn roots(workspaces: &[WorkspaceEntry], base_dir: &str) -> (r: Vec<(String, String)>)
    ensures
        r@.len() == workspaces@.len(),
        forall|i: int|
            0 <= i < r@.len() ==> (#[trigger] r@[i]).0@ == workspaces@[i].id@ && r@[i].1@
                == join_path(base_dir@, workspaces@[i].path@),
{
    let mut out: Vec<(String, String)> = Vec::new();
    let mut i: usize = 0;
    while i < workspaces.len()
        invariant
            i <= workspaces@.len(),
            out@.len() == i,
            forall|j: int|
                0 <= j < i ==> (#[trigger] out@[j]).0@ == workspaces@[j].id@ && out@[j].1@
                    == join_path(base_dir@, workspaces@[j].path@),
        decreases workspaces@.len() - i,
    {
        let root = join_paths(base_dir, workspaces[i].path.as_str());
        out.push((workspaces[i].id.clone(), root));
        i = i + 1;
    }
    out
}

// ---------------------------------------------------------------------------
// Unified graph
// ---------------------------------------------------------------------------

/// A merged, flattened view: all workspace nodes and edges plus the
/// composition edges.
#[derive(Debug, Clone, PartialEq, Eq)]
pub struct UnifiedGraph {
    pub nodes: Vec<Node>,
    pub edges: Vec<Edge>,
    /// Number of workspaces merged in.
    pub workspace_count: usize,
    /// Number of composition edges added from the manifest.
    pub cross_edges: usize,
}

/// The file type of workspace container nodes.
pub fn container_file_type() -> (t: FileType)
    ensures
        t == FileType::Document,
{
    FileType::Document
}

/// `{ws_id}::{local}`.
pub open spec fn prefixed(ws_id: Seq<char>, local: Seq<char>) -> Seq<char> {
    ws_id + "::"@ + local
}

/// The prefixed id of a node local to a workspace.
pub fn prefix_id(ws_id: &str, local: &str) -> (s: String)
    ensures
        s@ == prefixed(ws_id@, local@),
{
    let mut v: Vec<char> = Vec::new();
    push_str(&mut v, ws_id);
    push_str(&mut v, "::");
    push_str(&mut v, local);
    chars_to_string(v.as_slice())
}

/// The container node of a workspace.
pub open spec fn container_view(ws_id: Seq<char>) -> NodeView {
    NodeView {
        id: ws_id,
        label: ws_id,
        file_type: FileType::Document,
        kind: "workspace"@,
        language: "unknown"@,
        source_file: Seq::empty(),
        start_line: 0,
        end_line: 0,
        doc_comment: None,
        description: None,
        metadata: None,
    }
}

/// The synthetic container node of a workspace (`kind: workspace`).
pub fn container_node(ws_id: &str) -> (n: Node)
    ensures
        n@ == container_view(ws_id@),
{
    Node {
        id: NodeId(String::from_str(ws_id)),
        label: String::from_str(ws_id),
        file_type: container_file_type(),
        kind: String::from_str("workspace"),
        language: String::from_str("unknown"),
        source_file: String::new(),
        start_line: 0,
        end_line: 0,
        doc_comment: None,
        description: None,
        metadata: None,
    }
}

pub open spec fn prefixed_node(ws_id: Seq<char>, n: NodeView) -> NodeView {
    NodeView { id: prefixed(ws_id, n.id), ..n }
}

pub open spec fn prefixed_edge(ws_id: Seq<char>, e: EdgeView) -> EdgeView {
    EdgeView { source: prefixed(ws_id, e.source), target: prefixed(ws_id, e.target), ..e }
}

/// The merge in progress: nodes, edges, and the ids taken.
pub struct MergeView {
    pub nodes: Seq<NodeView>,
    pub edges: Seq<EdgeView>,
    pub seen: Set<Seq<char>>,
}

/// Why a merge fails.
#[derive(Debug, Clone, PartialEq, Eq)]
pub enum MergeError {
    /// Two nodes got the same prefixed id (given).
    IdCollision(String),
    /// A relation endpoint (given) is not a node of the merged graph.
    MissingEndpoint { endpoint: String, from: String, to: String },
}

pub enum MergeErrorView {
    IdCollision(Seq<char>),
    MissingEndpoint { endpoint: Seq<char>, from: Seq<char>, to: Seq<char> },
}

impl View for MergeError {
    type V = MergeErrorView;

    open spec fn view(&self) -> MergeErrorView {
        match self {
            MergeError::IdCollision(s) => MergeErrorView::IdCollision(s@),
            MergeError::MissingEndpoint { endpoint, from, to } => MergeErrorView::MissingEndpoint {
                endpoint: endpoint@,
                from: from@,
                to: to@,
            },
        }
    }
}

/// The text of a merge error.
pub open spec fn merge_error_text(e: MergeErrorView) -> Seq<char> {
    match e {
        MergeErrorView::IdCollision(id) => "合併時節點 id 衝突: "@ + id,
        MergeErrorView::MissingEndpoint { endpoint, from, to } => "composition edge 端點不存在於合併圖: "@ + endpoint
            + "（relation `"@ + from + "` → `"@ + to + "`）"@,
    }
}

impl MergeError {
    /// The text of the error.
    pub fn message(&self) -> (s: String)
        ensures
            s@ == merge_error_text(self@),
    {
        let mut v: Vec<char> = Vec::new();
        match self {
            MergeError::IdCollision(id) => {
                push_str(&mut v, "合併時節點 id 衝突: ");
                push_str(&mut v, id.as_str());
            },
            MergeError::MissingEndpoint { endpoint, from, to } => {
                push_str(&mut v, "composition edge 端點不存在於合併圖: ");
                push_str(&mut v, endpoint.as_str());
                push_str(&mut v, "（relation `");
                push_str(&mut v, from.as_str());
                push_str(&mut v, "` → `");
                push_str(&mut v, to.as_str());
                push_str(&mut v, "`）");
            },
        }
        chars_to_string(v.as_slice())
    }
}

/// Adds the prefixed nodes of one workspace, failing on the first id taken.
pub open spec fn merge_nodes(ws_id: Seq<char>, ns: Seq<NodeView>, st: MergeView) -> Result<
    MergeView,
    MergeErrorView,
>
    decreases ns.len(),
{
    if ns.len() == 0 {
        Ok(st)
    } else {
        match merge_nodes(ws_id, ns.drop_last(), st) {
            Err(e) => Err(e),
            Ok(s) => {
                let p = prefixed(ws_id, ns.last().id);
                if s.seen.contains(p) {
                    Err(MergeErrorView::IdCollision(p))
                } else {
                    Ok(
                        MergeView {
                            nodes: s.nodes.push(prefixed_node(ws_id, ns.last())),
                            edges: s.edges,
                            seen: s.seen.insert(p),
                        },
                    )
                }
            },
        }
    }
}

/// Adds one workspace: its container node, its prefixed nodes and edges.
pub open spec fn merge_workspace(ws_id: Seq<char>, g: crate::types::GraphView, st: MergeView) -> Result<
    MergeView,
    MergeErrorView,
> {
    let st1 = MergeView {
        nodes: st.nodes.push(container_view(ws_id)),
        edges: st.edges,
        seen: st.seen.insert(ws_id),
    };
    match merge_nodes(ws_id, g.nodes, st1) {
        Err(e) => Err(e),
        Ok(s) => Ok(
            MergeView {
                nodes: s.nodes,
                edges: s.edges + g.edges.map_values(|e: EdgeView| prefixed_edge(ws_id, e)),
                seen: s.seen,
            },
        ),
    }
}

/// Merges the first `n` workspaces.
pub open spec fn merge_workspaces(
    ids: Seq<Seq<char>>,
    gs: Seq<crate::types::GraphView>,
    n: int,
) -> Result<MergeView, MergeErrorView>
    decreases n,
{
    if n <= 0 {
        Ok(MergeView { nodes: Seq::empty(), edges: Seq::empty(), seen: Set::empty() })
    } else {
        match merge_workspaces(ids, gs, n - 1) {
            Err(e) => Err(e),
            Ok(s) => merge_workspace(ids[n - 1], gs[n - 1], s),
        }
    }
}

/// A relation endpoint as a node id of the merged graph.
pub open spec fn resolve_endpoint(ep: Seq<char>) -> Seq<char> {
    match node_reference_parts(ep) {
        Some((ws, node)) => prefixed(ws, node),
        None => ep,
    }
}

/// The composition edge of a relation.
pub open spec fn composition_edge(r: RelationEntry, manifest_path: Seq<char>) -> EdgeView {
    EdgeView {
        source: resolve_endpoint(r.from@),
        target: resolve_endpoint(r.to@),
        relation: r.relation@,
        source_file: manifest_path,
        confidence: "INFERRED"@,
        source_location: Seq::empty(),
        description: None,
    }
}

/// Adds the composition edges of the first `n` relations, failing on the
/// first endpoint that is not a merged node.
pub open spec fn merge_relations(
    rels: Seq<RelationEntry>,
    manifest_path: Seq<char>,
    st: MergeView,
    n: int,
) -> Result<MergeView, MergeErrorView>
    decreases n,
{
    if n <= 0 {
        Ok(st)
    } else {
        match merge_relations(rels, manifest_path, st, n - 1) {
            Err(e) => Err(e),
            Ok(s) => {
                let r = rels[n - 1];
                let f = resolve_endpoint(r.from@);
                let t = resolve_endpoint(r.to@);
                if !s.seen.contains(f) {
                    Err(MergeErrorView::MissingEndpoint { endpoint: f, from: r.from@, to: r.to@ })
                } else if !s.seen.contains(t) {
                    Err(MergeErrorView::MissingEndpoint { endpoint: t, from: r.from@, to: r.to@ })
                } else {
                    Ok(
                        MergeView {
                            nodes: s.nodes,
                            edges: s.edges.push(composition_edge(r, manifest_path)),
                            seen: s.seen,
                        },
                    )
                }
            },
        }
    }
}

/// The workspace ids of a list of roots.
pub open spec fn root_ids(roots: Seq<(String, String)>) -> Seq<Seq<char>> {
    roots.map_values(|r: (String, String)| r.0@)
}

/// The views of a list of graphs.
pub open spec fn graph_views(gs: Seq<GraphOutput>) -> Seq<crate::types::GraphView> {
    gs.map_values(|g: GraphOutput| g@)
}

/// The unified graph of a loaded manifest whose workspace graphs are `gs`
/// (one per root, in order), or why there is none.
pub open spec fn unify(loaded: LoadedManifest, gs: Seq<crate::types::GraphView>) -> Result<
    MergeView,
    MergeErrorView,
> {
    let ids = root_ids(loaded.roots@);
    match merge_workspaces(ids, gs, ids.len() as int) {
        Err(e) => Err(e),
        Ok(s) => merge_relations(
            loaded.manifest.relations@,
            loaded.manifest_path@,
            s,
            loaded.manifest.relations@.len() as int,
        ),
    }
}

/// The set of texts of a sequence of strings.
pub open spec fn text_set(v: Seq<String>) -> Set<Seq<char>> {
    Set::new(|k: Seq<char>| exists|i: int| 0 <= i < v.len() && (#[trigger] v[i])@ == k)
}

fn contains_text(v: &Vec<String>, s: &str) -> (r: bool)
    ensures
        r == text_set(v@).contains(s@),
{
    let mut i: usize = 0;
    while i < v.len()
        invariant
            i <= v@.len(),
            forall|j: int| 0 <= j < i ==> (#[trigger] v@[j])@ != s@,
        decreases v@.len() - i,
    {
        if str_eq(v[i].as_str(), s) {
            return true;
        }
        i = i + 1;
    }
    false
}

proof fn lemma_text_set_push(v: Seq<String>, x: String)
    ensures
        text_set(v.push(x)) == text_set(v).insert(x@),
{
    assert forall|k: Seq<char>| #[trigger] text_set(v.push(x)).contains(k) == text_set(v).insert(
        x@,
    ).contains(k) by {
        if text_set(v.push(x)).contains(k) {
            let i = choose|i: int| 0 <= i < v.push(x).len() && (#[trigger] v.push(x)[i])@ == k;
            if i < v.len() {
                assert(v[i] == v.push(x)[i]);
            }
        }
        if text_set(v).contains(k) {
            let i = choose|i: int| 0 <= i < v.len() && (#[trigger] v[i])@ == k;
            assert(v.push(x)[i] == v[i]);
        }
        if k == x@ {
            assert(v.push(x)[v.len() as int] == x);
        }
    }
    assert(text_set(v.push(x)) =~= text_set(v).insert(x@));
}

/// Resolves a relation endpoint to a node id of the merged graph.
fn resolve(endpoint: &str) -> (r: String)
    ensures
        r@ == resolve_endpoint(endpoint@),
{
    match split_node_reference(endpoint) {
        Some((ws, node)) => prefix_id(ws.as_str(), node.as_str()),
        None => String::from_str(endpoint),
    }
}

/// Merges the workspace graphs `graphs` (one per root of `loaded`, in order)
/// and the manifest relations into the unified graph.
pub fn build_unified_graph(loaded: &LoadedManifest, graphs: &[GraphOutput]) -> (r: Result<
    UnifiedGraph,
    MergeError,
>)
    requires
        graphs@.len() == loaded.roots@.len(),
    ensures
        match r {
            Ok(u) => unify(*loaded, graph_views(graphs@)) matches Ok(m) && nodes_view(u.nodes@)
                == m.nodes && edges_view(u.edges@) == m.edges && u.workspace_count
                == loaded.roots@.len() && u.cross_edges == loaded.manifest.relations@.len(),
            Err(e) => unify(*loaded, graph_views(graphs@)) == Err::<
                MergeView,
                MergeErrorView,
            >(e@),
        },
{
    let ghost ids = root_ids(loaded.roots@);
    let ghost gs = graph_views(graphs@);
    let mut nodes: Vec<Node> = Vec::new();
    let mut edges: Vec<Edge> = Vec::new();
    let mut seen: Vec<String> = Vec::new();
    let mut k: usize = 0;
    assert(text_set(seen@) =~= Set::<Seq<char>>::empty());
    assert(nodes_view(nodes@) =~= Seq::<NodeView>::empty());
    assert(edges_view(edges@) =~= Seq::<EdgeView>::empty());
    while k < loaded.roots.len()
        invariant
            k <= loaded.roots@.len(),
            graphs@.len() == loaded.roots@.len(),
            ids == root_ids(loaded.roots@),
            gs == graph_views(graphs@),
            merge_workspaces(ids, gs, k as int) == Ok::<MergeView, MergeErrorView>(
                MergeView {
                    nodes: nodes_view(nodes@),
                    edges: edges_view(edges@),
                    seen: text_set(seen@),
                },
            ),
        decreases loaded.roots@.len() - k,
    {
        let ws_id = loaded.roots[k].0.as_str();
        let graph = &graphs[k];
        let ghost st0 = MergeView {
            nodes: nodes_view(nodes@),
            edges: edges_view(edges@),
            seen: text_set(seen@),
        };
        assert(ids[k as int] == ws_id@);
        assert(gs[k as int] == graph@);
        nodes.push(container_node(ws_id));
        proof {
            lemma_text_set_push(seen@, loaded.roots@[k as int].0);
        }
        seen.push(loaded.roots[k].0.clone());
        let ghost st1 = MergeView {
            nodes: st0.nodes.push(container_view(ws_id@)),
            edges: st0.edges,
            seen: st0.seen.insert(ws_id@),
        };
        assert(nodes_view(nodes@) =~= st1.nodes);
        let mut i: usize = 0;
        assert(graph@.nodes.subrange(0, 0) =~= Seq::<NodeView>::empty());
        while i < graph.nodes.len()
            invariant
                i <= graph.nodes@.len(),
                k < loaded.roots@.len(),
                graphs@.len() == loaded.roots@.len(),
                ids == root_ids(loaded.roots@),
                gs == graph_views(graphs@),
                merge_workspaces(ids, gs, k as int) == Ok::<MergeView, MergeErrorView>(st0),
                st1 == (MergeView {
                    nodes: st0.nodes.push(container_view(ws_id@)),
                    edges: st0.edges,
                    seen: st0.seen.insert(ws_id@),
                }),
                graph == &graphs[k as int],
                gs[k as int] == graph@,
                ws_id@ == ids[k as int],
                merge_nodes(ws_id@, graph@.nodes.subrange(0, i as int), st1) == Ok::<
                    MergeView,
                    MergeErrorView,
                >(MergeView { nodes: nodes_view(nodes@), edges: st1.edges, seen: text_set(seen@) }),
                edges_view(edges@) == st1.edges,
            decreases graph.nodes@.len() - i,
        {
            let node = &graph.nodes[i];
            let p = prefix_id(ws_id, node.id.0.as_str());
            assert(graph@.nodes.subrange(0, i + 1).drop_last() =~= graph@.nodes.subrange(
                0,
                i as int,
            ));
            assert(graph@.nodes.subrange(0, i + 1).last() == node@);
            if contains_text(&seen, p.as_str()) {
                proof {
                    assert(merge_nodes(ws_id@, graph@.nodes.subrange(0, i + 1), st1)
                        == Err::<MergeView, MergeErrorView>(MergeErrorView::IdCollision(p@)));
                    lemma_merge_nodes_err_extends(ws_id@, graph@.nodes, st1, i as int + 1);
                    assert(merge_workspace(ids[k as int], gs[k as int], st0)
                        == Err::<MergeView, MergeErrorView>(MergeErrorView::IdCollision(p@)));
                    lemma_merge_workspaces_err(ids, gs, k as int);
                }
                return Err(MergeError::IdCollision(p));
            }
            let mut n = node.copy();
            n.id = NodeId(p.clone());
            proof {
                lemma_text_set_push(seen@, p);
                assert(n@ == prefixed_node(ws_id@, node@));
            }
            let ghost old_nodes = nodes@;
            nodes.push(n);
            seen.push(p);
            assert(nodes_view(nodes@) =~= nodes_view(old_nodes).push(prefixed_node(ws_id@, node@)));
            i = i + 1;
        }
        assert(graph@.nodes.subrange(0, graph@.nodes.len() as int) =~= graph@.nodes);
        let ghost base_edges = edges@;
        let ghost after_nodes = MergeView {
            nodes: nodes_view(nodes@),
            edges: st1.edges,
            seen: text_set(seen@),
        };
        assert(merge_nodes(ws_id@, graph@.nodes, st1) == Ok::<MergeView, MergeErrorView>(
            after_nodes,
        ));
        let mut j: usize = 0;
        while j < graph.edges.len()
            invariant
                j <= graph.edges@.len(),
                k < loaded.roots@.len(),
                graphs@.len() == loaded.roots@.len(),
                ids == root_ids(loaded.roots@),
                gs == graph_views(graphs@),
                merge_workspaces(ids, gs, k as int) == Ok::<MergeView, MergeErrorView>(st0),
                st1 == (MergeView {
                    nodes: st0.nodes.push(container_view(ws_id@)),
                    edges: st0.edges,
                    seen: st0.seen.insert(ws_id@),
                }),
                merge_nodes(ws_id@, graph@.nodes, st1) == Ok::<MergeView, MergeErrorView>(
                    after_nodes,
                ),
                after_nodes.nodes == nodes_view(nodes@),
                after_nodes.seen == text_set(seen@),
                after_nodes.edges == edges_view(base_edges),
                graph == &graphs[k as int],
                gs[k as int] == graph@,
                ws_id@ == ids[k as int],
                edges_view(edges@) == edges_view(base_edges) + graph@.edges.subrange(
                    0,
                    j as int,
                ).map_values(|e: EdgeView| prefixed_edge(ws_id@, e)),
            decreases graph.edges@.len() - j,
        {
            let e = &graph.edges[j];
            let mut c = e.copy();
            c.source = NodeId(prefix_id(ws_id, e.source.0.as_str()));
            c.target = NodeId(prefix_id(ws_id, e.target.0.as_str()));
            let ghost old_edges = edges@;
            edges.push(c);
            assert(graph@.edges.subrange(0, j + 1).map_values(
                |e: EdgeView| prefixed_edge(ws_id@, e),
            ) =~= graph@.edges.subrange(0, j as int).map_values(
                |e: EdgeView| prefixed_edge(ws_id@, e),
            ).push(prefixed_edge(ws_id@, e@)));
            assert(edges_view(edges@) =~= edges_view(old_edges).push(prefixed_edge(ws_id@, e@)));
            j = j + 1;
        }
        assert(graph@.edges.subrange(0, graph@.edges.len() as int) =~= graph@.edges);
        assert(merge_workspaces(ids, gs, k + 1) == merge_workspace(ids[k as int], gs[k as int], st0));
        k = k + 1;
    }
    assert(ids.len() == loaded.roots@.len());
    let rels = &loaded.manifest.relations;
    let ghost ms = MergeView {
        nodes: nodes_view(nodes@),
        edges: edges_view(edges@),
        seen: text_set(seen@),
    };
    let mut cross: usize = 0;
    let mut t: usize = 0;
    while t < rels.len()
        invariant
            t <= rels@.len(),
            cross == t,
            rels == &loaded.manifest.relations,
            ids == root_ids(loaded.roots@),
            gs == graph_views(graphs@),
            merge_workspaces(ids, gs, ids.len() as int) == Ok::<MergeView, MergeErrorView>(ms),
            ids.len() == loaded.roots@.len(),
            merge_relations(rels@, loaded.manifest_path@, ms, t as int) == Ok::<
                MergeView,
                MergeErrorView,
            >(MergeView { nodes: nodes_view(nodes@), edges: edges_view(edges@), seen: ms.seen }),
            text_set(seen@) == ms.seen,
        decreases rels@.len() - t,
    {
        let rel = &rels[t];
        let f = resolve(rel.from.as_str());
        let g = resolve(rel.to.as_str());
        if !contains_text(&seen, f.as_str()) {
            proof {
                assert(rels@[t as int] == *rel);
                assert(merge_relations(rels@, loaded.manifest_path@, ms, t as int + 1) == Err::<
                    MergeView,
                    MergeErrorView,
                >(MergeErrorView::MissingEndpoint { endpoint: f@, from: rel.from@, to: rel.to@ }));
                lemma_merge_relations_err(rels@, loaded.manifest_path@, ms, t as int + 1);
                assert(merge_workspaces(ids, gs, ids.len() as int) == Ok::<MergeView, MergeErrorView>(ms));
                assert(unify(*loaded, gs) == Err::<
                    MergeView,
                    MergeErrorView,
                >(MergeErrorView::MissingEndpoint { endpoint: f@, from: rel.from@, to: rel.to@ }));
            }
            let err = MergeError::MissingEndpoint { endpoint: f, from: rel.from.clone(), to: rel.to.clone() };
            assert(err@ == MergeErrorView::MissingEndpoint { endpoint: f@, from: rel.from@, to: rel.to@ });
            return Err(err);
        }
        if !contains_text(&seen, g.as_str()) {
            proof {
                assert(rels@[t as int] == *rel);
                assert(merge_relations(rels@, loaded.manifest_path@, ms, t as int + 1) == Err::<
                    MergeView,
                    MergeErrorView,
                >(MergeErrorView::MissingEndpoint { endpoint: g@, from: rel.from@, to: rel.to@ }));
                lemma_merge_relations_err(rels@, loaded.manifest_path@, ms, t as int + 1);
                assert(merge_workspaces(ids, gs, ids.len() as int) == Ok::<MergeView, MergeErrorView>(ms));
                assert(unify(*loaded, gs) == Err::<
                    MergeView,
                    MergeErrorView,
                >(MergeErrorView::MissingEndpoint { endpoint: g@, from: rel.from@, to: rel.to@ }));
            }
            let err = MergeError::MissingEndpoint { endpoint: g, from: rel.from.clone(), to: rel.to.clone() };
            assert(err@ == MergeErrorView::MissingEndpoint { endpoint: g@, from: rel.from@, to: rel.to@ });
            return Err(err);
        }
        let ghost old_edges = edges@;
        edges.push(
            Edge {
                source: NodeId(f),
                target: NodeId(g),
                relation: rel.relation.clone(),
                source_file: loaded.manifest_path.clone(),
                confidence: String::from_str("INFERRED"),
                source_location: String::new(),
                description: None,
            },
        );
        assert(edges_view(edges@) =~= edges_view(old_edges).push(
            composition_edge(*rel, loaded.manifest_path@),
        ));
        cross = cross + 1;
        t = t + 1;
    }
    Ok(UnifiedGraph { nodes, edges, workspace_count: loaded.roots.len(), cross_edges: cross })
}

proof fn lemma_merge_nodes_err_extends(ws: Seq<char>, ns: Seq<NodeView>, st: MergeView, n: int)
    requires
        0 <= n <= ns.len(),
        merge_nodes(ws, ns.subrange(0, n), st) is Err,
    ensures
        merge_nodes(ws, ns, st) == merge_nodes(ws, ns.subrange(0, n), st),
    decreases ns.len() - n,
{
    if n < ns.len() {
        assert(ns.subrange(0, n + 1).drop_last() =~= ns.subrange(0, n));
        lemma_merge_nodes_err_extends(ws, ns, st, n + 1);
    } else {
        assert(ns.subrange(0, n) =~= ns);
    }
}

proof fn lemma_merge_workspaces_err(ids: Seq<Seq<char>>, gs: Seq<crate::types::GraphView>, k: int)
    requires
        0 <= k < ids.len(),
        merge_workspaces(ids, gs, k) is Ok,
        merge_workspace(ids[k], gs[k], merge_workspaces(ids, gs, k)->Ok_0) is Err,
    ensures
        merge_workspaces(ids, gs, ids.len() as int) == merge_workspace(
            ids[k],
            gs[k],
            merge_workspaces(ids, gs, k)->Ok_0,
        ),
    decreases ids.len() - k,
{
    lemma_merge_workspaces_err_from(ids, gs, k + 1, ids.len() as int);
}

proof fn lemma_merge_workspaces_err_from(ids: Seq<Seq<char>>, gs: Seq<crate::types::GraphView>, a: int, b: int)
    requires
        1 <= a <= b,
        merge_workspaces(ids, gs, a) is Err,
    ensures
        merge_workspaces(ids, gs, b) == merge_workspaces(ids, gs, a),
    decreases b - a,
{
    if a < b {
        lemma_merge_workspaces_err_from(ids, gs, a, b - 1);
    }
}

proof fn lemma_merge_relations_err(rels: Seq<RelationEntry>, mp: Seq<char>, st: MergeView, a: int)
    requires
        1 <= a <= rels.len(),
        merge_relations(rels, mp, st, a) is Err,
    ensures
        merge_relations(rels, mp, st, rels.len() as int) == merge_relations(rels, mp, st, a),
    decreases rels.len() - a,
{
    if a < rels.len() {
        lemma_merge_relations_err(rels, mp, st, a + 1);
    }
}

// ---------------------------------------------------------------------------
// The unique-id law
// ---------------------------------------------------------------------------

/// The node ids of a merge are distinct.
pub open spec fn ids_distinct(ns: Seq<NodeView>) -> bool {
    forall|i: int, j: int| 0 <= i < j < ns.len() ==> (#[trigger] ns[i]).id != (#[trigger] ns[j]).id
}

/// The ids of a sequence of nodes.
pub open spec fn node_ids(ns: Seq<NodeView>) -> Set<Seq<char>> {
    Set::new(|k: Seq<char>| exists|i: int| 0 <= i < ns.len() && (#[trigger] ns[i]).id == k)
}

/// A merge state after the workspaces `done`: distinct node ids, `seen`
/// holding exactly them, each a workspace id of `done` or a prefixed id.
pub open spec fn merge_state_ok(st: MergeView, done: Seq<Seq<char>>) -> bool {
    &&& ids_distinct(st.nodes)
    &&& st.seen == node_ids(st.nodes)
    &&& forall|k: Seq<char>| #[trigger] st.seen.contains(k) ==> done.contains(k) || crate::manifest::contains_sep(k)
}

proof fn lemma_push_node(st: MergeView, n: NodeView)
    requires
        ids_distinct(st.nodes),
        st.seen == node_ids(st.nodes),
        !st.seen.contains(n.id),
    ensures
        ids_distinct(st.nodes.push(n)),
        st.seen.insert(n.id) == node_ids(st.nodes.push(n)),
{
    let ns = st.nodes.push(n);
    assert forall|i: int, j: int| 0 <= i < j < ns.len() implies (#[trigger] ns[i]).id != (
    #[trigger] ns[j]).id by {
        if j == ns.len() - 1 {
            assert(ns[i] == st.nodes[i]);
            assert(node_ids(st.nodes).contains(st.nodes[i].id));
        } else {
            assert(ns[i] == st.nodes[i] && ns[j] == st.nodes[j]);
        }
    }
    assert forall|k: Seq<char>| #[trigger] node_ids(ns).contains(k) == st.seen.insert(n.id).contains(k) by {
        if node_ids(ns).contains(k) {
            let i = choose|i: int| 0 <= i < ns.len() && (#[trigger] ns[i]).id == k;
            if i < st.nodes.len() {
                assert(ns[i] == st.nodes[i]);
                assert(node_ids(st.nodes).contains(k));
            }
        }
        if node_ids(st.nodes).contains(k) {
            let i = choose|i: int| 0 <= i < st.nodes.len() && (#[trigger] st.nodes[i]).id == k;
            assert(ns[i] == st.nodes[i]);
        }
        if k == n.id {
            assert(ns[ns.len() - 1] == n);
        }
    }
    assert(st.seen.insert(n.id) =~= node_ids(ns));
}

proof fn lemma_prefixed_has_sep(ws: Seq<char>, local: Seq<char>)
    ensures
        crate::manifest::contains_sep(prefixed(ws, local)),
{
    let p = prefixed(ws, local);
    reveal_strlit("::");
    assert(p[ws.len() as int] == ':' && p[ws.len() as int + 1] == ':');
    assert(crate::manifest::sep_at(p, ws.len() as int));
}

proof fn lemma_merge_nodes_ok(ws: Seq<char>, ns: Seq<NodeView>, st: MergeView, done: Seq<Seq<char>>)
    requires
        merge_state_ok(st, done),
    ensures
        merge_nodes(ws, ns, st) matches Ok(s) ==> merge_state_ok(s, done) && s.edges == st.edges,
    decreases ns.len(),
{
    if ns.len() > 0 {
        lemma_merge_nodes_ok(ws, ns.drop_last(), st, done);
        if let Ok(s) = merge_nodes(ws, ns.drop_last(), st) {
            let p = prefixed(ws, ns.last().id);
            if !s.seen.contains(p) {
                lemma_push_node(s, prefixed_node(ws, ns.last()));
                lemma_prefixed_has_sep(ws, ns.last().id);
            }
        }
    }
}

proof fn lemma_merge_workspaces_ok(ids: Seq<Seq<char>>, gs: Seq<crate::types::GraphView>, n: int)
    requires
        0 <= n <= ids.len(),
        forall|i: int, j: int| 0 <= i < j < ids.len() ==> ids[i] != ids[j],
        forall|i: int| 0 <= i < ids.len() ==> !crate::manifest::contains_sep(#[trigger] ids[i]),
    ensures
        merge_workspaces(ids, gs, n) matches Ok(s) ==> merge_state_ok(s, ids.subrange(0, n)),
    decreases n,
{
    if n <= 0 {
        let e = MergeView { nodes: Seq::empty(), edges: Seq::empty(), seen: Set::empty() };
        assert(node_ids(e.nodes) =~= Set::<Seq<char>>::empty());
    } else {
        lemma_merge_workspaces_ok(ids, gs, n - 1);
        if let Ok(s) = merge_workspaces(ids, gs, n - 1) {
            let ws = ids[n - 1];
            let done0 = ids.subrange(0, n - 1);
            let done = ids.subrange(0, n);
            assert(!s.seen.contains(ws)) by {
                if s.seen.contains(ws) {
                    if done0.contains(ws) {
                        let j = choose|j: int| 0 <= j < done0.len() && done0[j] == ws;
                        assert(ids[j] == ws);
                    }
                }
            }
            lemma_push_node(s, container_view(ws));
            let st1 = MergeView {
                nodes: s.nodes.push(container_view(ws)),
                edges: s.edges,
                seen: s.seen.insert(ws),
            };
            assert(merge_state_ok(st1, done)) by {
                assert forall|k: Seq<char>| #[trigger] st1.seen.contains(k) implies done.contains(k)
                    || crate::manifest::contains_sep(k) by {
                    if k == ws {
                        assert(done[n - 1] == ws);
                    } else if done0.contains(k) {
                        let j = choose|j: int| 0 <= j < done0.len() && done0[j] == k;
                        assert(done[j] == k);
                    }
                }
            }
            lemma_merge_nodes_ok(ws, gs[n - 1].nodes, st1, done);
        }
    }
}

proof fn lemma_merge_relations_keeps_nodes(
    rels: Seq<RelationEntry>,
    mp: Seq<char>,
    st: MergeView,
    n: int,
)
    ensures
        merge_relations(rels, mp, st, n) matches Ok(s) ==> s.nodes == st.nodes && s.seen == st.seen,
    decreases n,
{
    if n > 0 {
        lemma_merge_relations_keeps_nodes(rels, mp, st, n - 1);
    }
}

/// Every node id of a unified graph is unique, when the manifest's
/// workspace ids are distinct and free of `::` (what manifest validation
/// establishes): workspace containers keep their ids, workspace nodes get
/// `{ws_id}::` ids, and a collision among the latter fails the merge.
pub proof fn lemma_unified_ids_unique(loaded: LoadedManifest, gs: Seq<crate::types::GraphView>)
    requires
        forall|i: int, j: int|
            0 <= i < j < loaded.roots@.len() ==> (#[trigger] loaded.roots@[i]).0@ != (
            #[trigger] loaded.roots@[j]).0@,
        forall|i: int|
            0 <= i < loaded.roots@.len() ==> crate::manifest::valid_workspace_id(
                (#[trigger] loaded.roots@[i]).0@,
            ),
    ensures
        unify(loaded, gs) matches Ok(m) ==> ids_distinct(m.nodes),
{
    let ids = root_ids(loaded.roots@);
    assert forall|i: int| 0 <= i < ids.len() implies !crate::manifest::contains_sep(#[trigger] ids[i]) by {
        assert(ids[i] == loaded.roots@[i].0@);
    }
    assert forall|i: int, j: int| 0 <= i < j < ids.len() implies ids[i] != ids[j] by {
        assert(ids[i] == loaded.roots@[i].0@ && ids[j] == loaded.roots@[j].0@);
    }
    lemma_merge_workspaces_ok(ids, gs, ids.len() as int);
    if let Ok(s) = merge_workspaces(ids, gs, ids.len() as int) {
        lemma_merge_relations_keeps_nodes(
            loaded.manifest.relations@,
            loaded.manifest_path@,
            s,
            loaded.manifest.relations@.len() as int,
        );
    }
}

proof fn lemma_merge_nodes_keeps_edges(ws_id: Seq<char>, ns: Seq<NodeView>, st: MergeView)
    ensures
        merge_nodes(ws_id, ns, st) matches Ok(s) ==> s.edges == st.edges,
    decreases ns.len(),
{
    if ns.len() > 0 {
        lemma_merge_nodes_keeps_edges(ws_id, ns.drop_last(), st);
    }
}

proof fn lemma_merge_relations_extends_edges(
    rels: Seq<RelationEntry>,
    mp: Seq<char>,
    st: MergeView,
    n: int,
)
    ensures
        merge_relations(rels, mp, st, n) matches Ok(s) ==> s.edges.len() >= st.edges.len() && forall|
            k: int,
        | 0 <= k < st.edges.len() ==> #[trigger] s.edges[k] == st.edges[k],
    decreases n,
{
    if n > 0 {
        lemma_merge_relations_extends_edges(rels, mp, st, n - 1);
    }
}

/// Some edge of `es` runs from `source` to `target` with `relation`.
pub open spec fn has_edge(es: Seq<EdgeView>, source: Seq<char>, target: Seq<char>, relation: Seq<char>) -> bool {
    exists|k: int|
        0 <= k < es.len() && (#[trigger] es[k]).source == source && es[k].target == target
            && es[k].relation == relation
}

proof fn lemma_merge_workspaces_edge(
    ids: Seq<Seq<char>>,
    gs: Seq<crate::types::GraphView>,
    n: int,
    w: int,
    j: int,
)
    requires
        0 <= w < n,
        0 <= j < gs[w].edges.len(),
    ensures
        merge_workspaces(ids, gs, n) matches Ok(s) ==> has_edge(
            s.edges,
            ids[w] + "::"@ + gs[w].edges[j].source,
            ids[w] + "::"@ + gs[w].edges[j].target,
            gs[w].edges[j].relation,
        ),
    decreases n,
{
    if let Ok(s) = merge_workspaces(ids, gs, n) {
        let prev = merge_workspaces(ids, gs, n - 1);
        let e = gs[w].edges[j];
        let p = ids[w] + "::"@ + e.source;
        let q = ids[w] + "::"@ + e.target;
        if let Ok(s0) = prev {
            let id = ids[n - 1];
            let g = gs[n - 1];
            let st1 = MergeView {
                nodes: s0.nodes.push(container_view(id)),
                edges: s0.edges,
                seen: s0.seen.insert(id),
            };
            lemma_merge_nodes_keeps_edges(id, g.nodes, st1);
            let s1 = merge_nodes(id, g.nodes, st1)->Ok_0;
            let added = g.edges.map_values(|x: EdgeView| prefixed_edge(id, x));
            assert(s.edges == s1.edges + added);
            if w == n - 1 {
                let k = s0.edges.len() + j;
                assert(s.edges[k] == added[j]);
                assert(added[j] == prefixed_edge(id, e));
                assert(s.edges[k].source == p && s.edges[k].target == q && s.edges[k].relation
                    == e.relation);
            } else {
                lemma_merge_workspaces_edge(ids, gs, n - 1, w, j);
                let k = choose|k: int|
                    0 <= k < s0.edges.len() && (#[trigger] s0.edges[k]).source == p && s0.edges[k].target
                        == q && s0.edges[k].relation == e.relation;
                assert(s.edges[k] == s0.edges[k]);
            }
        }
    }
}

proof fn lemma_merge_nodes_shape(ws_id: Seq<char>, ns: Seq<NodeView>, st: MergeView)
    ensures
        merge_nodes(ws_id, ns, st) matches Ok(s) ==> {
            &&& s.nodes.len() == st.nodes.len() + ns.len()
            &&& forall|k: int| 0 <= k < st.nodes.len() ==> #[trigger] s.nodes[k] == st.nodes[k]
            &&& forall|i: int|
                0 <= i < ns.len() ==> #[trigger] s.nodes[st.nodes.len() + i] == (NodeView {
                    id: ws_id + "::"@ + ns[i].id,
                    ..ns[i]
                })
        },
    decreases ns.len(),
{
    if ns.len() > 0 {
        let pre = ns.drop_last();
        lemma_merge_nodes_shape(ws_id, pre, st);
        if let Ok(s) = merge_nodes(ws_id, ns, st) {
            let s0 = merge_nodes(ws_id, pre, st)->Ok_0;
            assert(s.nodes == s0.nodes.push(prefixed_node(ws_id, ns.last())));
            assert forall|i: int| 0 <= i < ns.len() implies #[trigger] s.nodes[st.nodes.len() + i] == (
            NodeView { id: ws_id + "::"@ + ns[i].id, ..ns[i] }) by {
                if i < pre.len() {
                    assert(s.nodes[st.nodes.len() + i] == s0.nodes[st.nodes.len() + i]);
                    assert(pre[i] == ns[i]);
                }
            }
        }
    }
}

proof fn lemma_merge_workspaces_nodes(
    ids: Seq<Seq<char>>,
    gs: Seq<crate::types::GraphView>,
    n: int,
    w: int,
    i: int,
)
    requires
        0 <= w < n,
    ensures
        merge_workspaces(ids, gs, n) matches Ok(s) ==> (exists|k: int|
            0 <= k < s.nodes.len() && (#[trigger] s.nodes[k]).id == ids[w] && s.nodes[k].kind
                == "workspace"@),
        0 <= i < gs[w].nodes.len() ==> (merge_workspaces(ids, gs, n) matches Ok(s) ==> s.nodes.contains(
            NodeView { id: ids[w] + "::"@ + gs[w].nodes[i].id, ..gs[w].nodes[i] },
        )),
    decreases n,
{
    if let Ok(s) = merge_workspaces(ids, gs, n) {
        let s0 = merge_workspaces(ids, gs, n - 1)->Ok_0;
        let id = ids[n - 1];
        let g = gs[n - 1];
        let st1 = MergeView {
            nodes: s0.nodes.push(container_view(id)),
            edges: s0.edges,
            seen: s0.seen.insert(id),
        };
        lemma_merge_nodes_shape(id, g.nodes, st1);
        let s1 = merge_nodes(id, g.nodes, st1)->Ok_0;
        assert(s.nodes == s1.nodes);
        if w == n - 1 {
            reveal_strlit("workspace");
            assert(s.nodes[s0.nodes.len() as int] == st1.nodes[s0.nodes.len() as int]);
            assert(s.nodes[s0.nodes.len() as int].id == ids[w]);
            if 0 <= i < gs[w].nodes.len() {
                assert(s.nodes[st1.nodes.len() + i] == (NodeView {
                    id: ids[w] + "::"@ + gs[w].nodes[i].id,
                    ..gs[w].nodes[i]
                }));
            }
        } else {
            lemma_merge_workspaces_nodes(ids, gs, n - 1, w, i);
            let k = choose|k: int|
                0 <= k < s0.nodes.len() && (#[trigger] s0.nodes[k]).id == ids[w] && s0.nodes[k].kind
                    == "workspace"@;
            assert(s.nodes[k] == st1.nodes[k]);
            if 0 <= i < gs[w].nodes.len() {
                let x = NodeView { id: ids[w] + "::"@ + gs[w].nodes[i].id, ..gs[w].nodes[i] };
                let k2 = choose|k2: int| 0 <= k2 < s0.nodes.len() && s0.nodes[k2] == x;
                assert(s.nodes[k2] == st1.nodes[k2]);
            }
        }
    }
}

/// Every workspace has its container node (its id, kind `workspace`) in the
/// unified graph, and every node of its graph is there under the id
/// `{ws}::{id}`, every other field kept.
pub proof fn lemma_unified_nodes_kept(
    loaded: LoadedManifest,
    gs: Seq<crate::types::GraphView>,
    w: int,
    i: int,
)
    requires
        gs.len() == loaded.roots@.len(),
        0 <= w < loaded.roots@.len(),
    ensures
        unify(loaded, gs) matches Ok(m) ==> exists|k: int|
            0 <= k < m.nodes.len() && (#[trigger] m.nodes[k]).id == loaded.roots@[w].0@ && m.nodes[k].kind
                == "workspace"@,
        0 <= i < gs[w].nodes.len() ==> (unify(loaded, gs) matches Ok(m) ==> m.nodes.contains(
            NodeView { id: loaded.roots@[w].0@ + "::"@ + gs[w].nodes[i].id, ..gs[w].nodes[i] },
        )),
{
    let ids = root_ids(loaded.roots@);
    assert(ids[w] == loaded.roots@[w].0@);
    lemma_merge_workspaces_nodes(ids, gs, ids.len() as int, w, i);
    if let Ok(s) = merge_workspaces(ids, gs, ids.len() as int) {
        lemma_merge_relations_keeps_nodes(
            loaded.manifest.relations@,
            loaded.manifest_path@,
            s,
            loaded.manifest.relations@.len() as int,
        );
    }
}

/// The node id a relation endpoint names: `{ws}::{node}` for a `ws::node`
/// reference, the text itself otherwise.
pub open spec fn endpoint_id(ep: Seq<char>) -> Seq<char> {
    match node_reference_parts(ep) {
        Some((ws, node)) => ws + "::"@ + node,
        None => ep,
    }
}

proof fn lemma_merge_relations_edge(
    rels: Seq<RelationEntry>,
    mp: Seq<char>,
    st: MergeView,
    n: int,
    t: int,
)
    requires
        0 <= t < n <= rels.len(),
    ensures
        merge_relations(rels, mp, st, n) matches Ok(s) ==> exists|k: int|
            0 <= k < s.edges.len() && (#[trigger] s.edges[k]).source == endpoint_id(rels[t].from@)
                && s.edges[k].target == endpoint_id(rels[t].to@) && s.edges[k].relation
                == rels[t].relation@ && s.edges[k].source_file == mp && s.edges[k].confidence
                == "INFERRED"@,
    decreases n,
{
    if let Ok(s) = merge_relations(rels, mp, st, n) {
        let s0 = merge_relations(rels, mp, st, n - 1)->Ok_0;
        assert(s.edges == s0.edges.push(composition_edge(rels[n - 1], mp)));
        if t == n - 1 {
            assert(s.edges[s0.edges.len() as int] == composition_edge(rels[t], mp));
        } else {
            lemma_merge_relations_edge(rels, mp, st, n - 1, t);
            let k = choose|k: int|
                0 <= k < s0.edges.len() && (#[trigger] s0.edges[k]).source == endpoint_id(rels[t].from@)
                    && s0.edges[k].target == endpoint_id(rels[t].to@) && s0.edges[k].relation
                    == rels[t].relation@ && s0.edges[k].source_file == mp && s0.edges[k].confidence
                    == "INFERRED"@;
            assert(s.edges[k] == s0.edges[k]);
        }
    }
}

/// Every manifest relation becomes a composition edge of the unified graph,
/// from the node its `from` names to the node its `to` names, with its
/// relation, the manifest as source file, and `INFERRED` confidence.
pub proof fn lemma_unified_relation_edges(loaded: LoadedManifest, gs: Seq<crate::types::GraphView>, t: int)
    requires
        0 <= t < loaded.manifest.relations@.len(),
    ensures
        unify(loaded, gs) matches Ok(m) ==> exists|k: int|
            0 <= k < m.edges.len() && (#[trigger] m.edges[k]).source == endpoint_id(
                loaded.manifest.relations@[t].from@,
            ) && m.edges[k].target == endpoint_id(loaded.manifest.relations@[t].to@)
                && m.edges[k].relation == loaded.manifest.relations@[t].relation@
                && m.edges[k].source_file == loaded.manifest_path@ && m.edges[k].confidence
                == "INFERRED"@,
{
    let ids = root_ids(loaded.roots@);
    if let Ok(s) = merge_workspaces(ids, gs, ids.len() as int) {
        lemma_merge_relations_edge(
            loaded.manifest.relations@,
            loaded.manifest_path@,
            s,
            loaded.manifest.relations@.len() as int,
            t,
        );
    }
}

/// Every edge of every workspace graph is in the unified graph with its
/// direction and relation kept: from `{ws}::{source}` to `{ws}::{target}`.
pub proof fn lemma_unified_edges_keep_direction(
    loaded: LoadedManifest,
    gs: Seq<crate::types::GraphView>,
    w: int,
    j: int,
)
    requires
        gs.len() == loaded.roots@.len(),
        0 <= w < loaded.roots@.len(),
        0 <= j < gs[w].edges.len(),
    ensures
        unify(loaded, gs) matches Ok(m) ==> exists|k: int|
            0 <= k < m.edges.len() && (#[trigger] m.edges[k]).source == loaded.roots@[w].0@ + "::"@
                + gs[w].edges[j].source && m.edges[k].target == loaded.roots@[w].0@ + "::"@
                + gs[w].edges[j].target && m.edges[k].relation == gs[w].edges[j].relation,
{
    let ids = root_ids(loaded.roots@);
    assert(ids[w] == loaded.roots@[w].0@);
    lemma_merge_workspaces_edge(ids, gs, ids.len() as int, w, j);
    if let Ok(s) = merge_workspaces(ids, gs, ids.len() as int) {
        lemma_merge_relations_extends_edges(
            loaded.manifest.relations@,
            loaded.manifest_path@,
            s,
            loaded.manifest.relations@.len() as int,
        );
        if let Ok(m) = unify(loaded, gs) {
            let e = gs[w].edges[j];
            let k = choose|k: int|
                0 <= k < s.edges.len() && (#[trigger] s.edges[k]).source == ids[w] + "::"@ + e.source
                    && s.edges[k].target == ids[w] + "::"@ + e.target && s.edges[k].relation
                    == e.relation;
            assert(m.edges[k] == s.edges[k]);
        }
    }
}

// ---------------------------------------------------------------------------
// Queries on the unified graph
// ---------------------------------------------------------------------------

/// The container node ids of a unified graph, in order.
pub open spec fn container_ids_upto(ns: Seq<NodeView>, n: int) -> Seq<Seq<char>>
    decreases n,
{
    if n <= 0 {
        Seq::empty()
    } else if ns[n - 1].kind == "workspace"@ {
        container_ids_upto(ns, n - 1).push(ns[n - 1].id)
    } else {
        container_ids_upto(ns, n - 1)
    }
}

/// The ids of the nodes of kind `workspace`, in order.
pub fn container_ids(unified: &UnifiedGraph) -> (r: Vec<String>)
    ensures
        r@.map_values(|s: String| s@) == container_ids_upto(
            nodes_view(unified.nodes@),
            unified.nodes@.len() as int,
        ),
{
    let ghost ns = nodes_view(unified.nodes@);
    let mut out: Vec<String> = Vec::new();
    let mut i: usize = 0;
    while i < unified.nodes.len()
        invariant
            i <= unified.nodes@.len(),
            ns == nodes_view(unified.nodes@),
            out@.map_values(|s: String| s@) == container_ids_upto(ns, i as int),
        decreases unified.nodes@.len() - i,
    {
        let n = &unified.nodes[i];
        assert(ns[i as int] == n@);
        if str_eq(n.kind.as_str(), "workspace") {
            let ghost before = out@;
            out.push(n.id.0.clone());
            assert(out@.map_values(|s: String| s@) =~= before.map_values(|s: String| s@).push(n.id@));
        }
        i = i + 1;
    }
    out
}

/// The number of the first `n` nodes whose id starts with `p`.
pub open spec fn count_prefixed(ns: Seq<NodeView>, p: Seq<char>, n: int) -> nat
    decreases n,
{
    if n <= 0 {
        0
    } else {
        count_prefixed(ns, p, n - 1) + if starts_with(ns[n - 1].id, p) {
            1nat
        } else {
            0nat
        }
    }
}

/// The number of nodes of one workspace (ids prefixed `{ws_id}::`; the
/// container node is not counted).
pub fn workspace_node_count(unified: &UnifiedGraph, ws_id: &str) -> (c: usize)
    ensures
        c == count_prefixed(
            nodes_view(unified.nodes@),
            ws_id@ + "::"@,
            unified.nodes@.len() as int,
        ),
{
    let ghost ns = nodes_view(unified.nodes@);
    let mut pv: Vec<char> = Vec::new();
    push_str(&mut pv, ws_id);
    push_str(&mut pv, "::");
    let mut count: usize = 0;
    let mut i: usize = 0;
    while i < unified.nodes.len()
        invariant
            i <= unified.nodes@.len(),
            ns == nodes_view(unified.nodes@),
            pv@ == ws_id@ + "::"@,
            count == count_prefixed(ns, pv@, i as int),
            count <= i,
        decreases unified.nodes@.len() - i,
    {
        let idv = str_chars(unified.nodes[i].id.0.as_str());
        assert(ns[i as int].id == idv@);
        if crate::text::starts_with_chars(idv.as_slice(), pv.as_slice()) {
            count = count + 1;
        }
        i = i + 1;
    }
    count
}

/// Whether a node with this id exists in the graph.
pub fn node_exists(graph: &GraphOutput, id: &NodeId) -> (r: bool)
    ensures
        r == exists|i: int| 0 <= i < graph.nodes@.len() && (#[trigger] graph.nodes@[i]).id@ == id@,
{
    let mut i: usize = 0;
    while i < graph.nodes.len()
        invariant
            i <= graph.nodes@.len(),
            forall|j: int| 0 <= j < i ==> (#[trigger] graph.nodes@[j]).id@ != id@,
        decreases graph.nodes@.len() - i,
    {
        if str_eq(graph.nodes[i].id.0.as_str(), id.0.as_str()) {
            return true;
        }
        i = i + 1;
    }
    false
}

/// The segments (split at `'/'`) of `p[0..n]`, empty and `.` ones dropped,
/// and the trailing segment not yet closed.
pub open spec fn segs_state(p: Seq<char>, n: int) -> (Seq<Seq<char>>, Seq<char>)
    decreases n,
{
    if n <= 0 {
        (Seq::empty(), Seq::empty())
    } else {
        let st = segs_state(p, n - 1);
        if p[n - 1] == '/' {
            (close_seg(st.0, st.1), Seq::empty())
        } else {
            (st.0, st.1.push(p[n - 1]))
        }
    }
}

pub open spec fn close_seg(done: Seq<Seq<char>>, cur: Seq<char>) -> Seq<Seq<char>> {
    if cur.len() == 0 || cur == "."@ {
        done
    } else {
        done.push(cur)
    }
}

pub open spec fn segs_upto(p: Seq<char>, n: int) -> Seq<Seq<char>> {
    let st = segs_state(p, n);
    close_seg(st.0, st.1)
}

/// `Path::ends_with("compose")`: the last normal component is `compose`.
pub open spec fn is_compose_path(p: Seq<char>) -> bool {
    let segs = segs_upto(p, p.len() as int);
    segs.len() > 0 && segs.last() == "compose"@
}

/// Whether the path's last component is `compose` (the compose module).
pub fn is_compose_marker(path: &str) -> (r: bool)
    ensures
        r == is_compose_path(path@),
{
    let p = str_chars(path);
    let mut done_last: Vec<char> = Vec::new();
    let mut have_done = false;
    let mut cur: Vec<char> = Vec::new();
    let mut i: usize = 0;
    while i < p.len()
        invariant
            i <= p@.len(),
            p@ == path@,
            segs_state(p@, i as int).1 == cur@,
            have_done == (segs_state(p@, i as int).0.len() > 0),
            have_done ==> done_last@ == segs_state(p@, i as int).0.last(),
        decreases p@.len() - i,
    {
        if p[i] == '/' {
            let keep = !(cur.len() == 0 || (cur.len() == 1 && cur[0] == '.'));
            proof {
                assert(keep == !(cur@.len() == 0 || cur@ == "."@)) by {
                    reveal_strlit(".");
                    if cur@.len() == 1 && cur@[0] == '.' {
                        assert(cur@ =~= "."@);
                    }
                }
            }
            if keep {
                done_last = cur;
                have_done = true;
            }
            cur = Vec::new();
        } else {
            cur.push(p[i]);
        }
        i = i + 1;
    }
    let keep = !(cur.len() == 0 || (cur.len() == 1 && cur[0] == '.'));
    proof {
        assert(keep == !(cur@.len() == 0 || cur@ == "."@)) by {
            reveal_strlit(".");
            if cur@.len() == 1 && cur@[0] == '.' {
                assert(cur@ =~= "."@);
            }
        }
    }
    let last: Vec<char> = if keep {
        cur
    } else {
        done_last
    };
    let any = keep || have_done;
    any && crate::text::chars_eq_str(last.as_slice(), "compose")
}

} // verus!

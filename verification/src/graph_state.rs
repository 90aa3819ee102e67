//! The graph the MCP gateway serves: the graph data, its `petgraph` model
//! and id index kept in step, and the built-in graph tools over them.

use vstd::prelude::*;
use crate::graph::{
    bfs_view, build_graph, connected, find_shortest_path, graph_edges, graph_nodes, graph_wf,
    id_seq, id_texts, kept_edges, last_index, path_ids, query_bfs, shortest_path, NodeMap,
};
use crate::mcp::{
    edges_not_from, find_node_by_id_or_label, first_ci_match, nodes_not_from, reindex_file,
    resolve_node,
};
use crate::text::{chars_to_string, push_str};
use crate::types::{edges_view, nodes_view, Edge, ExtractionResult, GraphMetadata, GraphOutput, Node, NodeId, NodeView};
use petgraph::graph::Graph;
use petgraph::Directed;

verus! {

/// The served graph with its model.
pub struct GraphState {
    pub graph_data: GraphOutput,
    pub graph: Graph<Node, Edge, Directed, u32>,
    pub node_map: NodeMap,
}

impl GraphState {
    /// The model and the index are those `build_graph` makes of the data.
    pub open spec fn wf(&self) -> bool {
        let ns = nodes_view(self.graph_data.nodes@);
        let es = edges_view(self.graph_data.edges@);
        &&& self.graph_data.nodes@.len() < u32::MAX
        &&& self.graph_data.edges@.len() < u32::MAX
        &&& graph_nodes(self.graph) == ns
        &&& self.node_map.ids() == id_seq(ns)
        &&& graph_edges(self.graph) == kept_edges(ns, es, es.len() as int)
        &&& graph_wf(self.graph)
    }

    /// The node index the id `id` maps to.
    pub open spec fn index_of(&self, id: Seq<char>) -> Option<usize> {
        last_index(self.node_map.ids(), id, self.node_map.ids().len() as int)
    }

    /// Serves `graph_data`, building its model.
    pub fn new(graph_data: GraphOutput) -> (s: Self)
        requires
            graph_data.nodes@.len() < u32::MAX,
            graph_data.edges@.len() < u32::MAX,
        ensures
            s.wf(),
            s.graph_data == graph_data,
    {
        let (graph, node_map) = build_graph(graph_data.nodes.as_slice(), graph_data.edges.as_slice());
        GraphState { graph_data, graph, node_map }
    }

    /// An empty graph, version `1.0` generated at `0`.
    pub fn empty() -> (s: Self)
        ensures
            s.wf(),
            s.graph_data.nodes@.len() == 0,
            s.graph_data.edges@.len() == 0,
            s.graph_data.metadata.version@ == "1.0"@,
            s.graph_data.metadata.generated_at@ == "0"@,
            s.graph_data.metadata.total_nodes == 0,
            s.graph_data.metadata.total_edges == 0,
    {
        let mut metadata = GraphMetadata::empty();
        metadata.version = String::from_str("1.0");
        metadata.generated_at = String::from_str("0");
        let graph_data = GraphOutput { nodes: Vec::new(), edges: Vec::new(), metadata };
        GraphState::new(graph_data)
    }

    /// Rebuilds the model after the data changed.
    pub fn rebuild_graph(&mut self)
        requires
            old(self).graph_data.nodes@.len() < u32::MAX,
            old(self).graph_data.edges@.len() < u32::MAX,
        ensures
            final(self).wf(),
            final(self).graph_data == old(self).graph_data,
    {
        let (graph, node_map) = build_graph(self.graph_data.nodes.as_slice(), self.graph_data.edges.as_slice());
        self.graph = graph;
        self.node_map = node_map;
    }

    /// The neighbourhood of the node an input names (by id, else by label
    /// or id ignoring case) up to `depth` edges away.
    fn neighbourhood(&self, input: &str, depth: usize) -> (r: Result<GraphOutput, String>)
        requires
            self.wf(),
        ensures
            match resolve_node(nodes_view(self.graph_data.nodes@), input@) {
                None => r matches Err(m) && m@ == "Node not found: "@ + input@,
                Some(id) => self.index_of(id) is Some && (r matches Ok(out) && out@ == bfs_view(
                    self.graph,
                    self.index_of(id)->0,
                    depth as nat,
                )),
            },
    {
        let resolved = find_node_by_id_or_label(&self.graph_data, &NodeId(String::from_str(input)));
        match resolved {
            None => {
                let mut v: Vec<char> = Vec::new();
                push_str(&mut v, "Node not found: ");
                push_str(&mut v, input);
                Err(chars_to_string(v.as_slice()))
            },
            Some(id) => {
                proof {
                    let ns = nodes_view(self.graph_data.nodes@);
                    lemma_resolved_present(ns, input@);
                    lemma_present_indexed(ns, id@);
                }
                match query_bfs(&self.graph, &self.node_map, &id, depth) {
                    Ok(out) => Ok(out),
                    Err(e) => Err(e.message()),
                }
            },
        }
    }

    /// `graphify_graph_query`: the neighbourhood two edges deep of the node
    /// the question names.
    pub fn query(&self, question: &str) -> (r: Result<GraphOutput, String>)
        requires
            self.wf(),
        ensures
            match resolve_node(nodes_view(self.graph_data.nodes@), question@) {
                None => r matches Err(m) && m@ == "Node not found: "@ + question@,
                Some(id) => self.index_of(id) is Some && (r matches Ok(out) && out@ == bfs_view(
                    self.graph,
                    self.index_of(id)->0,
                    2,
                )),
            },
    {
        self.neighbourhood(question, 2)
    }

    /// `graphify_graph_query_node`: the neighbourhood of the named node,
    /// `depth` edges deep (1 when not given).
    pub fn query_node(&self, node_id: &str, depth: Option<usize>) -> (r: Result<GraphOutput, String>)
        requires
            self.wf(),
        ensures
            match resolve_node(nodes_view(self.graph_data.nodes@), node_id@) {
                None => r matches Err(m) && m@ == "Node not found: "@ + node_id@,
                Some(id) => self.index_of(id) is Some && (r matches Ok(out) && out@ == bfs_view(
                    self.graph,
                    self.index_of(id)->0,
                    match depth {
                        Some(d) => d as nat,
                        None => 1,
                    },
                )),
            },
    {
        let d = match depth {
            Some(d) => d,
            None => 1,
        };
        self.neighbourhood(node_id, d)
    }

    /// `graphify_graph_path` and `graphify_graph_trace_path`: the ids along
    /// a shortest path between the two named nodes, along the edges'
    /// direction (`None` when there is none).
    pub fn path(&self, source: &str, target: &str) -> (r: Result<Option<Vec<String>>, String>)
        requires
            self.wf(),
        ensures
            match (
                resolve_node(nodes_view(self.graph_data.nodes@), source@),
                resolve_node(nodes_view(self.graph_data.nodes@), target@),
            ) {
                (None, _) => r matches Err(m) && m@ == "Source node not found: "@ + source@,
                (Some(_), None) => r matches Err(m) && m@ == "Target node not found: "@ + target@,
                (Some(a), Some(b)) => self.index_of(a) is Some && self.index_of(b) is Some && match r {
                    Ok(None) => !connected(graph_edges(self.graph), self.index_of(a)->0, self.index_of(b)->0),
                    Ok(Some(ids)) => exists|p: Seq<usize>|
                        shortest_path(graph_edges(self.graph), p, self.index_of(a)->0, self.index_of(b)->0)
                            && id_texts(ids@) == path_ids(graph_nodes(self.graph), p),
                    Err(_) => false,
                },
            },
    {
        let ns = &self.graph_data;
        let a = match find_node_by_id_or_label(ns, &NodeId(String::from_str(source))) {
            Some(a) => a,
            None => {
                let mut v: Vec<char> = Vec::new();
                push_str(&mut v, "Source node not found: ");
                push_str(&mut v, source);
                return Err(chars_to_string(v.as_slice()));
            },
        };
        let b = match find_node_by_id_or_label(ns, &NodeId(String::from_str(target))) {
            Some(b) => b,
            None => {
                let mut v: Vec<char> = Vec::new();
                push_str(&mut v, "Target node not found: ");
                push_str(&mut v, target);
                return Err(chars_to_string(v.as_slice()));
            },
        };
        proof {
            let nv = nodes_view(self.graph_data.nodes@);
            lemma_resolved_present(nv, source@);
            lemma_present_indexed(nv, a@);
            lemma_resolved_present(nv, target@);
            lemma_present_indexed(nv, b@);
        }
        match find_shortest_path(&self.graph, &self.node_map, &a, &b) {
            Ok(p) => Ok(p),
            Err(e) => Err(e.message()),
        }
    }

    /// `graphify_graph_reindex`: replaces what the graph holds of one file
    /// by a fresh extraction and rebuilds the model.
    pub fn reindex(&mut self, file_path: &str, extracted: ExtractionResult)
        requires
            old(self).wf(),
            old(self).graph_data.nodes@.len() + extracted.nodes@.len() < u32::MAX,
            old(self).graph_data.edges@.len() + extracted.edges@.len() < u32::MAX,
        ensures
            final(self).wf(),
            nodes_view(final(self).graph_data.nodes@) == nodes_not_from(
                nodes_view(old(self).graph_data.nodes@),
                file_path@,
                old(self).graph_data.nodes@.len() as int,
            ) + nodes_view(extracted.nodes@),
            edges_view(final(self).graph_data.edges@) == edges_not_from(
                edges_view(old(self).graph_data.edges@),
                file_path@,
                old(self).graph_data.edges@.len() as int,
            ) + edges_view(extracted.edges@),
            final(self).graph_data.metadata.total_nodes == final(self).graph_data.nodes@.len(),
            final(self).graph_data.metadata.total_edges == final(self).graph_data.edges@.len(),
            final(self).graph_data.metadata.version == old(self).graph_data.metadata.version,
            final(self).graph_data.metadata.generated_at == old(self).graph_data.metadata.generated_at,
            final(self).graph_data.metadata.languages == old(self).graph_data.metadata.languages,
            final(self).graph_data.metadata.input_tokens == old(self).graph_data.metadata.input_tokens,
            final(self).graph_data.metadata.output_tokens == old(self).graph_data.metadata.output_tokens,
            final(self).graph_data.metadata.plugin_data == old(self).graph_data.metadata.plugin_data,
    {
        proof {
            lemma_not_from_len(nodes_view(self.graph_data.nodes@), file_path@, self.graph_data.nodes@.len() as int);
            lemma_edges_not_from_len(edges_view(self.graph_data.edges@), file_path@, self.graph_data.edges@.len() as int);
        }
        let ghost old_edges = edges_view(self.graph_data.edges@);
        let ghost new_edges = edges_view(extracted.edges@);
        let ghost old_nodes = nodes_view(self.graph_data.nodes@);
        let ghost new_nodes = nodes_view(extracted.nodes@);
        assert(old_edges.len() == self.graph_data.edges@.len() && new_edges.len() == extracted.edges@.len());
        assert(old_nodes.len() == self.graph_data.nodes@.len() && new_nodes.len() == extracted.nodes@.len());
        reindex_file(&mut self.graph_data, file_path, extracted);
        assert(self.graph_data.edges@.len() == edges_view(self.graph_data.edges@).len());
        assert(edges_view(self.graph_data.edges@).len() == edges_not_from(old_edges, file_path@, old_edges.len() as int).len() + new_edges.len());
        assert(self.graph_data.nodes@.len() == nodes_view(self.graph_data.nodes@).len());
        assert(nodes_view(self.graph_data.nodes@).len() == nodes_not_from(old_nodes, file_path@, old_nodes.len() as int).len() + new_nodes.len());
        self.rebuild_graph();
    }
}

/// The node a resolved input names is a node of the graph.
proof fn lemma_resolved_present(ns: Seq<NodeView>, input: Seq<char>)
    ensures
        resolve_node(ns, input) matches Some(id) ==> exists|i: int| 0 <= i < ns.len() && (#[trigger] ns[i]).id == id,
{
    if !(exists|i: int| 0 <= i < ns.len() && (#[trigger] ns[i]).id == input) {
        lemma_first_ci_match_range(ns, crate::snapshot::lowercase(input), 0);
        if let Some(i) = first_ci_match(ns, crate::snapshot::lowercase(input), 0) {
            assert(ns[i].id == ns[i].id);
        }
    }
}

proof fn lemma_first_ci_match_range(ns: Seq<NodeView>, li: Seq<char>, i: int)
    ensures
        first_ci_match(ns, li, i) matches Some(k) ==> i <= k < ns.len() && k >= 0,
    decreases ns.len() - i,
{
    if 0 <= i < ns.len() {
        lemma_first_ci_match_range(ns, li, i + 1);
    }
}

/// An id some node has is mapped to a node index.
proof fn lemma_present_indexed(ns: Seq<NodeView>, id: Seq<char>)
    requires
        exists|i: int| 0 <= i < ns.len() && (#[trigger] ns[i]).id == id,
        ns.len() <= usize::MAX,
    ensures
        last_index(id_seq(ns), id, ns.len() as int) is Some,
{
    let i = choose|i: int| 0 <= i < ns.len() && (#[trigger] ns[i]).id == id;
    lemma_last_index_found(id_seq(ns), id, ns.len() as int, i);
}

proof fn lemma_last_index_found(ids: Seq<Seq<char>>, id: Seq<char>, n: int, i: int)
    requires
        0 <= i < n <= ids.len(),
        ids[i] == id,
    ensures
        last_index(ids, id, n) is Some,
    decreases n,
{
    if ids[n - 1] != id {
        lemma_last_index_found(ids, id, n - 1, i);
    }
}

proof fn lemma_not_from_len(ns: Seq<NodeView>, path: Seq<char>, n: int)
    requires
        0 <= n <= ns.len(),
    ensures
        nodes_not_from(ns, path, n).len() <= n,
    decreases n,
{
    if n > 0 {
        lemma_not_from_len(ns, path, n - 1);
    }
}

proof fn lemma_edges_not_from_len(es: Seq<crate::types::EdgeView>, path: Seq<char>, n: int)
    requires
        0 <= n <= es.len(),
    ensures
        edges_not_from(es, path, n).len() <= n,
    decreases n,
{
    if n > 0 {
        lemma_edges_not_from_len(es, path, n - 1);
    }
}

/// The error of a tool no handler serves.
pub fn unsupported_tool(name: &str) -> (m: String)
    ensures
        m@ == "Unsupported tool call: "@ + name@,
{
    let mut v: Vec<char> = Vec::new();
    push_str(&mut v, "Unsupported tool call: ");
    push_str(&mut v, name);
    chars_to_string(v.as_slice())
}

} // verus!

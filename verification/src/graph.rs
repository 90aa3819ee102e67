//! The in-memory knowledge graph: a `petgraph` directed graph of the nodes
//! and edges, the id index beside it, the bounded breadth-first query and
//! the shortest path between two nodes.

use vstd::prelude::*;
use crate::types::{Edge, EdgeView, Node, NodeView};
use crate::types::{edges_view, nodes_view, GraphMetadata, GraphOutput, GraphView, MetadataView, NodeId};
use crate::text::{chars_to_string, push_str, str_eq};
use petgraph::graph::{EdgeIndex, Graph, NodeIndex};
use petgraph::visit::EdgeRef;
use petgraph::{Directed, Direction};

verus! {

// ---------------------------------------------------------------------------
// The outside graph type and its contents
// ---------------------------------------------------------------------------

#[verifier::external_type_specification]
#[verifier::external_body]
#[verifier::reject_recursive_types(N)]
#[verifier::reject_recursive_types(E)]
#[verifier::reject_recursive_types(Ty)]
#[verifier::reject_recursive_types(Ix)]
pub struct ExGraph<N, E, Ty, Ix>(Graph<N, E, Ty, Ix>);

#[verifier::external_type_specification]
#[verifier::external_body]
pub struct ExDirected(Directed);

/// The node weights of a graph, by node index.
pub uninterp spec fn graph_nodes(g: Graph<Node, Edge, Directed, u32>) -> Seq<NodeView>;

/// The edges of a graph, by edge index: source index, target index, weight.
pub uninterp spec fn graph_edges(g: Graph<Node, Edge, Directed, u32>) -> Seq<(usize, usize, EdgeView)>;

/// `Graph::with_capacity`: an empty graph.
#[verifier::external_body]
fn new_graph(nodes: usize, edges: usize) -> (g: Graph<Node, Edge, Directed, u32>)
    ensures
        graph_nodes(g) == Seq::<NodeView>::empty(),
        graph_edges(g) == Seq::<(usize, usize, EdgeView)>::empty(),
{
    Graph::with_capacity(nodes, edges)
}

/// `Graph::add_node`: appends a node and returns its index, the number of
/// nodes before.  It panics when the index would reach `u32::MAX`.
#[verifier::external_body]
fn add_node(g: &mut Graph<Node, Edge, Directed, u32>, weight: Node) -> (i: usize)
    requires
        graph_nodes(*old(g)).len() < u32::MAX,
    ensures
        graph_nodes(*final(g)) == graph_nodes(*old(g)).push(weight@),
        graph_edges(*final(g)) == graph_edges(*old(g)),
        i == graph_nodes(*old(g)).len(),
{
    g.add_node(weight).index()
}

/// `Graph::add_edge`: appends an edge from `a` to `b` and returns its index,
/// the number of edges before.  It panics when an endpoint is not a node or
/// the index would reach `u32::MAX`.
#[verifier::external_body]
fn add_edge(g: &mut Graph<Node, Edge, Directed, u32>, a: usize, b: usize, weight: Edge) -> (e: usize)
    requires
        a < graph_nodes(*old(g)).len(),
        b < graph_nodes(*old(g)).len(),
        graph_edges(*old(g)).len() < u32::MAX,
    ensures
        graph_edges(*final(g)) == graph_edges(*old(g)).push((a, b, weight@)),
        graph_nodes(*final(g)) == graph_nodes(*old(g)),
        e == graph_edges(*old(g)).len(),
{
    g.add_edge(NodeIndex::new(a), NodeIndex::new(b), weight).index()
}

/// `Graph::node_count`.
#[verifier::external_body]
fn node_count(g: &Graph<Node, Edge, Directed, u32>) -> (n: usize)
    ensures
        n == graph_nodes(*g).len(),
{
    g.node_count()
}

/// `Graph::edge_count`.
#[verifier::external_body]
fn edge_count(g: &Graph<Node, Edge, Directed, u32>) -> (n: usize)
    ensures
        n == graph_edges(*g).len(),
{
    g.edge_count()
}

/// `graph[NodeIndex]`: the weight of node `i`.
#[verifier::external_body]
fn node_at(g: &Graph<Node, Edge, Directed, u32>, i: usize) -> (r: &Node)
    requires
        i < graph_nodes(*g).len(),
    ensures
        r@ == graph_nodes(*g)[i as int],
{
    &g[NodeIndex::new(i)]
}

/// `graph[EdgeIndex]`: the weight of edge `i`.
#[verifier::external_body]
fn edge_at(g: &Graph<Node, Edge, Directed, u32>, i: usize) -> (r: &Edge)
    requires
        i < graph_edges(*g).len(),
    ensures
        r@ == graph_edges(*g)[i as int].2,
{
    &g[EdgeIndex::new(i)]
}

/// The edges among the first `n` that leave `a`, as `(edge, target)`, the
/// most recently added first.
pub open spec fn out_list(es: Seq<(usize, usize, EdgeView)>, a: usize, n: int) -> Seq<(usize, usize)>
    decreases n,
{
    if n <= 0 {
        Seq::empty()
    } else if es[n - 1].0 == a {
        seq![((n - 1) as usize, es[n - 1].1)] + out_list(es, a, n - 1)
    } else {
        out_list(es, a, n - 1)
    }
}

/// The edges among the first `n` that enter `a`, as `(edge, source)`, the
/// most recently added first.
pub open spec fn in_list(es: Seq<(usize, usize, EdgeView)>, a: usize, n: int) -> Seq<(usize, usize)>
    decreases n,
{
    if n <= 0 {
        Seq::empty()
    } else if es[n - 1].1 == a {
        seq![((n - 1) as usize, es[n - 1].0)] + in_list(es, a, n - 1)
    } else {
        in_list(es, a, n - 1)
    }
}

/// `Graph::edges_directed(a, Outgoing)`: the edges leaving `a`, as
/// `(edge index, target index)`, in reverse order of addition.
#[verifier::external_body]
fn out_edges(g: &Graph<Node, Edge, Directed, u32>, a: usize) -> (r: Vec<(usize, usize)>)
    requires
        a < graph_nodes(*g).len(),
    ensures
        r@ == out_list(graph_edges(*g), a, graph_edges(*g).len() as int),
{
    g.edges_directed(NodeIndex::new(a), Direction::Outgoing).map(|r| (r.id().index(), r.target().index())).collect()
}

/// `Graph::edges_directed(a, Incoming)`: the edges entering `a`, as
/// `(edge index, source index)`, in reverse order of addition.
#[verifier::external_body]
fn in_edges(g: &Graph<Node, Edge, Directed, u32>, a: usize) -> (r: Vec<(usize, usize)>)
    requires
        a < graph_nodes(*g).len(),
    ensures
        r@ == in_list(graph_edges(*g), a, graph_edges(*g).len() as int),
{
    g.edges_directed(NodeIndex::new(a), Direction::Incoming).map(|r| (r.id().index(), r.source().index())).collect()
}

// ---------------------------------------------------------------------------
// Building the graph
// ---------------------------------------------------------------------------

/// The last index below `n` whose id is `k`.
pub open spec fn last_index(ids: Seq<Seq<char>>, k: Seq<char>, n: int) -> Option<usize>
    decreases n,
{
    if n <= 0 {
        None
    } else if ids[n - 1] == k {
        Some((n - 1) as usize)
    } else {
        last_index(ids, k, n - 1)
    }
}

proof fn lemma_last_index_bound(ids: Seq<Seq<char>>, k: Seq<char>, n: int)
    requires
        n <= usize::MAX,
    ensures
        last_index(ids, k, n) matches Some(i) ==> i < n && ids[i as int] == k,
    decreases n,
{
    if n > 0 && ids[n - 1] != k {
        lemma_last_index_bound(ids, k, n - 1);
    }
}

/// The texts of a sequence of strings.
pub open spec fn id_texts(v: Seq<String>) -> Seq<Seq<char>> {
    v.map_values(|s: String| s@)
}

/// The ids of a sequence of nodes.
pub open spec fn id_seq(ns: Seq<NodeView>) -> Seq<Seq<char>> {
    ns.map_values(|n: NodeView| n.id)
}

/// Node ids mapped to node indices; a later node of the same id replaces
/// an earlier one.
pub struct NodeMap {
    ids: Vec<String>,
}

impl NodeMap {
    /// The id of each node index.
    pub closed spec fn ids(&self) -> Seq<Seq<char>> {
        id_texts(self.ids@)
    }

    /// The index of the node with id `id`: the last one added.
    pub fn get(&self, id: &str) -> (r: Option<usize>)
        ensures
            r == last_index(self.ids(), id@, self.ids().len() as int),
            r matches Some(i) ==> i < self.ids().len() && self.ids()[i as int] == id@,
    {
        let mut i: usize = self.ids.len();
        proof {
            lemma_last_index_bound(self.ids(), id@, self.ids().len() as int);
        }
        while i > 0
            invariant
                i <= self.ids@.len(),
                last_index(self.ids(), id@, self.ids().len() as int) == last_index(
                    self.ids(),
                    id@,
                    i as int,
                ),
            decreases i,
        {
            assert(self.ids()[i - 1] == self.ids@[i - 1]@);
            if str_eq(self.ids[i - 1].as_str(), id) {
                return Some(i - 1);
            }
            i = i - 1;
        }
        None
    }

    /// The number of indexed nodes.
    pub fn len(&self) -> (n: usize)
        ensures
            n == self.ids().len(),
    {
        self.ids.len()
    }
}

/// The edges the graph keeps among the first `k`: those whose endpoints
/// both name nodes, joining the nodes the ids map to.
pub open spec fn kept_edges(ns: Seq<NodeView>, es: Seq<EdgeView>, k: int) -> Seq<(usize, usize, EdgeView)>
    decreases k,
{
    if k <= 0 {
        Seq::empty()
    } else {
        let pre = kept_edges(ns, es, k - 1);
        match (
            last_index(id_seq(ns), es[k - 1].source, ns.len() as int),
            last_index(id_seq(ns), es[k - 1].target, ns.len() as int),
        ) {
            (Some(a), Some(b)) => pre.push((a, b, es[k - 1])),
            _ => pre,
        }
    }
}

/// Every edge of the graph joins two of its nodes.
pub open spec fn graph_wf(g: Graph<Node, Edge, Directed, u32>) -> bool {
    forall|e: int|
        0 <= e < graph_edges(g).len() ==> (#[trigger] graph_edges(g)[e]).0 < graph_nodes(g).len()
            && graph_edges(g)[e].1 < graph_nodes(g).len()
}

/// Builds the graph of `nodes` and `edges` with the id index: every node,
/// in order, and every edge whose endpoints both name nodes.
pub fn build_graph(nodes: &[Node], edges: &[Edge]) -> (r: (Graph<Node, Edge, Directed, u32>, NodeMap))
    requires
        nodes@.len() < u32::MAX,
        edges@.len() < u32::MAX,
    ensures
        graph_nodes(r.0) == nodes_view(nodes@),
        r.1.ids() == id_seq(nodes_view(nodes@)),
        graph_edges(r.0) == kept_edges(nodes_view(nodes@), edges_view(edges@), edges@.len() as int),
        graph_wf(r.0),
{
    let ghost ns = nodes_view(nodes@);
    let ghost es = edges_view(edges@);
    let mut g = new_graph(nodes.len(), edges.len());
    let mut ids: Vec<String> = Vec::new();
    let mut i: usize = 0;
    while i < nodes.len()
        invariant
            i <= nodes@.len(),
            nodes@.len() < u32::MAX,
            ns == nodes_view(nodes@),
            graph_nodes(g) == ns.subrange(0, i as int),
            graph_edges(g) == Seq::<(usize, usize, EdgeView)>::empty(),
            id_texts(ids@) == id_seq(ns).subrange(0, i as int),
        decreases nodes@.len() - i,
    {
        let n = nodes[i].copy();
        let ghost before = ids@;
        let idc = nodes[i].id.0.clone();
        ids.push(idc);
        add_node(&mut g, n);
        assert(graph_nodes(g) =~= ns.subrange(0, i + 1));
        assert(ids@ == before.push(idc));
        assert(id_texts(ids@) =~= id_texts(before).push(idc@));
        assert(id_seq(ns)[i as int] == nodes@[i as int].id@);
        assert(id_texts(ids@) =~= id_seq(ns).subrange(0, i + 1));
        i = i + 1;
    }
    assert(graph_nodes(g) =~= ns);
    let map = NodeMap { ids };
    assert(map.ids() =~= id_seq(ns));
    let mut k: usize = 0;
    while k < edges.len()
        invariant
            k <= edges@.len(),
            edges@.len() < u32::MAX,
            es == edges_view(edges@),
            graph_nodes(g) == ns,
            map.ids() == id_seq(ns),
            id_seq(ns).len() == ns.len(),
            graph_edges(g) == kept_edges(ns, es, k as int),
            graph_edges(g).len() <= k,
            graph_wf(g),
        decreases edges@.len() - k,
    {
        let e = &edges[k];
        let a = map.get(e.source.0.as_str());
        let b = map.get(e.target.0.as_str());
        assert(es[k as int].source == e.source@ && es[k as int].target == e.target@);
        match (a, b) {
            (Some(x), Some(y)) => {
                let w = e.copy();
                add_edge(&mut g, x, y, w);
            },
            _ => {},
        }
        i = i;
        k = k + 1;
    }
    (g, map)
}

// ---------------------------------------------------------------------------
// Breadth-first neighbourhood
// ---------------------------------------------------------------------------

/// Edge `e` joins `u` and `v`, in either direction.
pub open spec fn joins(es: Seq<(usize, usize, EdgeView)>, e: int, u: usize, v: usize) -> bool {
    0 <= e < es.len() && ((es[e].0 == u && es[e].1 == v) || (es[e].1 == u && es[e].0 == v))
}

/// The nodes one edge away from a node of `r`, the edge followed either way.
pub open spec fn neighbors(es: Seq<(usize, usize, EdgeView)>, r: Set<usize>) -> Set<usize> {
    Set::new(|v: usize| exists|u: usize, e: int| r.contains(u) && #[trigger] joins(es, e, u, v))
}

/// The nodes at most `k` edges away from `s`, edges followed either way.
pub open spec fn within(es: Seq<(usize, usize, EdgeView)>, s: usize, k: nat) -> Set<usize>
    decreases k,
{
    if k == 0 {
        Set::empty().insert(s)
    } else {
        let r = within(es, s, (k - 1) as nat);
        r.union(neighbors(es, r))
    }
}

/// The nodes exactly `k` edges away from `s`.
pub open spec fn layer(es: Seq<(usize, usize, EdgeView)>, s: usize, k: nat) -> Set<usize> {
    if k == 0 {
        within(es, s, 0)
    } else {
        within(es, s, k).difference(within(es, s, (k - 1) as nat))
    }
}

/// Edge `e` has an endpoint in `r`.
pub open spec fn touches(es: Seq<(usize, usize, EdgeView)>, e: int, r: Set<usize>) -> bool {
    r.contains(es[e].0) || r.contains(es[e].1)
}

/// The node indices below `n` within `d` edges of `s`, in increasing order.
pub open spec fn reached_upto(es: Seq<(usize, usize, EdgeView)>, s: usize, d: nat, n: int) -> Seq<usize>
    decreases n,
{
    if n <= 0 {
        Seq::empty()
    } else {
        let pre = reached_upto(es, s, d, n - 1);
        if within(es, s, d).contains((n - 1) as usize) {
            pre.push((n - 1) as usize)
        } else {
            pre
        }
    }
}

/// The edge indices below `m` that a query of depth `d` from `s` follows,
/// in increasing order: those with an endpoint within `d - 1` edges of `s`.
pub open spec fn traversed_upto(es: Seq<(usize, usize, EdgeView)>, s: usize, d: nat, m: int) -> Seq<usize>
    decreases m,
{
    if m <= 0 {
        Seq::empty()
    } else {
        let pre = traversed_upto(es, s, d, m - 1);
        if d > 0 && touches(es, m - 1, within(es, s, (d - 1) as nat)) {
            pre.push((m - 1) as usize)
        } else {
            pre
        }
    }
}

/// The nodes at the given indices.
pub open spec fn pick_nodes(ns: Seq<NodeView>, idx: Seq<usize>) -> Seq<NodeView> {
    idx.map_values(|i: usize| ns[i as int])
}

/// The edge weights at the given indices.
pub open spec fn pick_edges(es: Seq<(usize, usize, EdgeView)>, idx: Seq<usize>) -> Seq<EdgeView> {
    idx.map_values(|i: usize| es[i as int].2)
}

/// Each step adds the neighbours of the last layer.
proof fn lemma_within_step(es: Seq<(usize, usize, EdgeView)>, s: usize, k: nat)
    ensures
        within(es, s, k + 1) == within(es, s, k).union(neighbors(es, layer(es, s, k))),
        within(es, s, k).subset_of(within(es, s, k + 1)),
{
    let w = within(es, s, k);
    let l = layer(es, s, k);
    assert(within(es, s, (k + 1) as nat) == w.union(neighbors(es, w)));
    assert forall|v: usize| #[trigger] within(es, s, k + 1).contains(v) implies w.union(
        neighbors(es, l),
    ).contains(v) by {
        if !w.contains(v) {
            assert(neighbors(es, w).contains(v));
            let (u, e) = choose|u: usize, e: int| w.contains(u) && #[trigger] joins(es, e, u, v);
            if l.contains(u) {
                assert(neighbors(es, l).contains(v));
            } else {
                assert(k > 0);
                let p = within(es, s, (k - 1) as nat);
                assert(p.contains(u));
                assert(neighbors(es, p).contains(v));
                assert(w.contains(v));
            }
        }
    }
    assert forall|v: usize| #[trigger] w.union(neighbors(es, l)).contains(v) implies within(
        es,
        s,
        k + 1,
    ).contains(v) by {
        if neighbors(es, l).contains(v) && !w.contains(v) {
            let (u, e) = choose|u: usize, e: int| l.contains(u) && #[trigger] joins(es, e, u, v);
            assert(w.contains(u));
            assert(neighbors(es, w).contains(v));
        }
    }
    assert(within(es, s, k + 1) =~= w.union(neighbors(es, l)));
}

/// The nodes within `k` edges are the previous ones and the last layer.
proof fn lemma_within_layers(es: Seq<(usize, usize, EdgeView)>, s: usize, k: nat)
    requires
        k > 0,
    ensures
        within(es, s, k) == within(es, s, (k - 1) as nat).union(layer(es, s, k)),
{
    lemma_within_step(es, s, (k - 1) as nat);
    assert(within(es, s, k) =~= within(es, s, (k - 1) as nat).union(layer(es, s, k)));
}

/// Once a step adds nothing, no later step does.
proof fn lemma_within_fixpoint(es: Seq<(usize, usize, EdgeView)>, s: usize, k: nat, j: nat)
    requires
        within(es, s, k + 1) == within(es, s, k),
        k <= j,
    ensures
        within(es, s, j) == within(es, s, k),
    decreases j - k,
{
    if j > k {
        lemma_within_fixpoint(es, s, k, (j - 1) as nat);
        assert(within(es, s, j) == within(es, s, (j - 1) as nat).union(
            neighbors(es, within(es, s, (j - 1) as nat)),
        ));
    }
}

/// With every edge between nodes below `n` and `s < n`, every node within
/// reach is below `n`.
proof fn lemma_within_bounded(es: Seq<(usize, usize, EdgeView)>, s: usize, k: nat, n: usize)
    requires
        s < n,
        forall|e: int| 0 <= e < es.len() ==> (#[trigger] es[e]).0 < n && es[e].1 < n,
    ensures
        forall|v: usize| #[trigger] within(es, s, k).contains(v) ==> v < n,
    decreases k,
{
    if k > 0 {
        lemma_within_bounded(es, s, (k - 1) as nat, n);
        let p = within(es, s, (k - 1) as nat);
        assert forall|v: usize| #[trigger] within(es, s, k).contains(v) implies v < n by {
            if !p.contains(v) {
                let (u, e) = choose|u: usize, e: int| p.contains(u) && #[trigger] joins(es, e, u, v);
                assert(es[e].0 < n && es[e].1 < n);
            }
        }
    }
}

/// What the list of the edges leaving `a` holds.
proof fn lemma_out_list(es: Seq<(usize, usize, EdgeView)>, a: usize, n: int)
    requires
        0 <= n <= es.len(),
        n <= usize::MAX,
    ensures
        forall|t: int|
            0 <= t < out_list(es, a, n).len() ==> (#[trigger] out_list(es, a, n)[t]).0 < n
                && es[out_list(es, a, n)[t].0 as int].0 == a && es[out_list(es, a, n)[t].0 as int].1
                == out_list(es, a, n)[t].1,
        forall|e: int|
            #![trigger es[e]]
            0 <= e < n && es[e].0 == a ==> exists|t: int|
                0 <= t < out_list(es, a, n).len() && out_list(es, a, n)[t] == (e as usize, es[e].1),
    decreases n,
{
    if n > 0 {
        lemma_out_list(es, a, n - 1);
        let pre = out_list(es, a, n - 1);
        if es[n - 1].0 == a {
            let l = seq![((n - 1) as usize, es[n - 1].1)] + pre;
            assert(out_list(es, a, n) == l);
            assert forall|e: int| #![trigger es[e]] 0 <= e < n && es[e].0 == a implies exists|t: int|
                0 <= t < l.len() && l[t] == (e as usize, es[e].1) by {
                if e == n - 1 {
                    assert(l[0] == (e as usize, es[e].1));
                } else {
                    let t = choose|t: int| 0 <= t < pre.len() && pre[t] == (e as usize, es[e].1);
                    assert(l[t + 1] == pre[t]);
                }
            }
        } else {
            assert(out_list(es, a, n) == pre);
        }
    }
}

/// What the list of the edges entering `a` holds.
proof fn lemma_in_list(es: Seq<(usize, usize, EdgeView)>, a: usize, n: int)
    requires
        0 <= n <= es.len(),
        n <= usize::MAX,
    ensures
        forall|t: int|
            0 <= t < in_list(es, a, n).len() ==> (#[trigger] in_list(es, a, n)[t]).0 < n
                && es[in_list(es, a, n)[t].0 as int].1 == a && es[in_list(es, a, n)[t].0 as int].0
                == in_list(es, a, n)[t].1,
        forall|e: int|
            #![trigger es[e]]
            0 <= e < n && es[e].1 == a ==> exists|t: int|
                0 <= t < in_list(es, a, n).len() && in_list(es, a, n)[t] == (e as usize, es[e].0),
    decreases n,
{
    if n > 0 {
        lemma_in_list(es, a, n - 1);
        let pre = in_list(es, a, n - 1);
        if es[n - 1].1 == a {
            let l = seq![((n - 1) as usize, es[n - 1].0)] + pre;
            assert(in_list(es, a, n) == l);
            assert forall|e: int| #![trigger es[e]] 0 <= e < n && es[e].1 == a implies exists|t: int|
                0 <= t < l.len() && l[t] == (e as usize, es[e].0) by {
                if e == n - 1 {
                    assert(l[0] == (e as usize, es[e].0));
                } else {
                    let t = choose|t: int| 0 <= t < pre.len() && pre[t] == (e as usize, es[e].0);
                    assert(l[t + 1] == pre[t]);
                }
            }
        } else {
            assert(in_list(es, a, n) == pre);
        }
    }
}

/// Some pair of the list has `v` second.
pub open spec fn hits(list: Seq<(usize, usize)>, v: usize) -> bool {
    exists|t: int| 0 <= t < list.len() && (#[trigger] list[t]).1 == v
}

/// Some pair of the list has `e` first.
pub open spec fn names_edge(list: Seq<(usize, usize)>, e: int) -> bool {
    exists|t: int| 0 <= t < list.len() && (#[trigger] list[t]).0 == e
}

/// Marks every edge of `list` seen and every node of it visited, queueing
/// the nodes not visited before.
fn visit_list(
    list: &Vec<(usize, usize)>,
    visited: &mut Vec<bool>,
    seen: &mut Vec<bool>,
    next: &mut Vec<usize>,
)
    requires
        forall|t: int|
            0 <= t < list@.len() ==> (#[trigger] list@[t]).0 < old(seen)@.len() && list@[t].1
                < old(visited)@.len(),
        forall|i: int| 0 <= i < old(next)@.len() ==> (#[trigger] old(next)@[i]) < old(visited)@.len(),
    ensures
        final(visited)@.len() == old(visited)@.len(),
        final(seen)@.len() == old(seen)@.len(),
        forall|v: usize|
            v < old(visited)@.len() ==> (#[trigger] final(visited)@[v as int]) == (old(
                visited,
            )@[v as int] || hits(list@, v)),
        forall|e: usize|
            e < old(seen)@.len() ==> (#[trigger] final(seen)@[e as int]) == (old(seen)@[e as int]
                || names_edge(list@, e as int)),
        forall|v: usize|
            #[trigger] final(next)@.contains(v) == (old(next)@.contains(v) || (v < old(visited)@.len()
                && !old(visited)@[v as int] && hits(list@, v))),
        forall|i: int| 0 <= i < final(next)@.len() ==> (#[trigger] final(next)@[i]) < old(visited)@.len(),
{
    let ghost v0 = visited@;
    let ghost s0 = seen@;
    let ghost n0 = next@;
    let mut t: usize = 0;
    while t < list.len()
        invariant
            t <= list@.len(),
            visited@.len() == v0.len(),
            seen@.len() == s0.len(),
            forall|k: int|
                0 <= k < list@.len() ==> (#[trigger] list@[k]).0 < s0.len() && list@[k].1 < v0.len(),
            forall|v: usize|
                v < v0.len() ==> (#[trigger] visited@[v as int]) == (v0[v as int] || hits(
                    list@.subrange(0, t as int),
                    v,
                )),
            forall|e: usize|
                e < s0.len() ==> (#[trigger] seen@[e as int]) == (s0[e as int] || names_edge(
                    list@.subrange(0, t as int),
                    e as int,
                )),
            forall|v: usize|
                #[trigger] next@.contains(v) == (n0.contains(v) || (v < v0.len() && !v0[v as int]
                    && hits(list@.subrange(0, t as int), v))),
            forall|i: int| 0 <= i < next@.len() ==> (#[trigger] next@[i]) < v0.len(),
        decreases list@.len() - t,
    {
        let (e, v) = list[t];
        let ghost pre = list@.subrange(0, t as int);
        let ghost cur = list@.subrange(0, t + 1);
        assert(cur[t as int] == (e, v));
        assert forall|w: usize| #[trigger] hits(cur, w) == (hits(pre, w) || w == v) by {
            if hits(pre, w) {
                let k = choose|k: int| 0 <= k < pre.len() && (#[trigger] pre[k]).1 == w;
                assert(cur[k] == pre[k]);
            }
            if hits(cur, w) && w != v {
                let k = choose|k: int| 0 <= k < cur.len() && (#[trigger] cur[k]).1 == w;
                assert(pre[k] == cur[k]);
            }
        }
        assert forall|x: int| #[trigger] names_edge(cur, x) == (names_edge(pre, x) || x == e) by {
            if names_edge(pre, x) {
                let k = choose|k: int| 0 <= k < pre.len() && (#[trigger] pre[k]).0 == x;
                assert(cur[k] == pre[k]);
            }
            if names_edge(cur, x) && x != e {
                let k = choose|k: int| 0 <= k < cur.len() && (#[trigger] cur[k]).0 == x;
                assert(pre[k] == cur[k]);
            }
        }
        let ghost vis_before = visited@;
        let ghost next_before = next@;
        seen.set(e, true);
        if !visited[v] {
            visited.set(v, true);
            next.push(v);
            assert forall|w: usize| #[trigger] next@.contains(w) == (next_before.contains(w) || w == v) by {
                if next_before.contains(w) {
                    let k = choose|k: int| 0 <= k < next_before.len() && next_before[k] == w;
                    assert(next@[k] == w);
                }
                if w == v {
                    assert(next@[next_before.len() as int] == w);
                }
                if next@.contains(w) && w != v {
                    let k = choose|k: int| 0 <= k < next@.len() && next@[k] == w;
                    assert(k < next_before.len());
                    assert(next_before[k] == w);
                }
            }
        }
        assert forall|v2: usize| v2 < v0.len() implies (#[trigger] visited@[v2 as int]) == (v0[v2 as int]
            || hits(cur, v2)) by {
            assert(hits(cur, v2) == (hits(pre, v2) || v2 == v));
            assert(vis_before[v2 as int] == (v0[v2 as int] || hits(pre, v2)));
        }
        assert forall|e2: usize| e2 < s0.len() implies (#[trigger] seen@[e2 as int]) == (s0[e2 as int]
            || names_edge(cur, e2 as int)) by {
            assert(names_edge(cur, e2 as int) == (names_edge(pre, e2 as int) || e2 == e));
        }
        assert forall|w: usize| #[trigger] next@.contains(w) == (n0.contains(w) || (w < v0.len()
            && !v0[w as int] && hits(cur, w))) by {
            assert(hits(cur, w) == (hits(pre, w) || w == v));
            assert(next_before.contains(w) == (n0.contains(w) || (w < v0.len() && !v0[w as int]
                && hits(pre, w))));
            assert(vis_before[v as int] == (v0[v as int] || hits(pre, v)));
        }
        t = t + 1;
    }
    assert(list@.subrange(0, list@.len() as int) =~= list@);
}

/// Node `v` is joined to `u` by some edge.
pub open spec fn adjacent(es: Seq<(usize, usize, EdgeView)>, u: usize, v: usize) -> bool {
    exists|e: int| #[trigger] joins(es, e, u, v)
}

/// Edge `e` has `u` as an endpoint.
pub open spec fn incident(es: Seq<(usize, usize, EdgeView)>, e: int, u: usize) -> bool {
    0 <= e < es.len() && (es[e].0 == u || es[e].1 == u)
}

/// The edges leaving and entering `u` together name every edge at `u` and
/// reach every node joined to `u`.
proof fn lemma_incident_lists(es: Seq<(usize, usize, EdgeView)>, u: usize)
    requires
        es.len() <= usize::MAX,
    ensures
        forall|v: usize|
            #[trigger] adjacent(es, u, v) == (hits(out_list(es, u, es.len() as int), v) || hits(
                in_list(es, u, es.len() as int),
                v,
            )),
        forall|e: int|
            #[trigger] incident(es, e, u) == (names_edge(out_list(es, u, es.len() as int), e)
                || names_edge(in_list(es, u, es.len() as int), e)),
{
    let n = es.len() as int;
    let o = out_list(es, u, n);
    let i = in_list(es, u, n);
    lemma_out_list(es, u, n);
    lemma_in_list(es, u, n);
    assert forall|v: usize| #[trigger] adjacent(es, u, v) == (hits(o, v) || hits(i, v)) by {
        if adjacent(es, u, v) {
            let e = choose|e: int| #[trigger] joins(es, e, u, v);
            if es[e].0 == u && es[e].1 == v {
                let t = choose|t: int| 0 <= t < o.len() && o[t] == (e as usize, es[e].1);
                assert(o[t].1 == v);
            } else {
                let t = choose|t: int| 0 <= t < i.len() && i[t] == (e as usize, es[e].0);
                assert(i[t].1 == v);
            }
        }
        if hits(o, v) {
            let t = choose|t: int| 0 <= t < o.len() && (#[trigger] o[t]).1 == v;
            assert(joins(es, o[t].0 as int, u, v));
        }
        if hits(i, v) {
            let t = choose|t: int| 0 <= t < i.len() && (#[trigger] i[t]).1 == v;
            assert(joins(es, i[t].0 as int, u, v));
        }
    }
    assert forall|e: int| #[trigger] incident(es, e, u) == (names_edge(o, e) || names_edge(i, e)) by {
        if incident(es, e, u) {
            if es[e].0 == u {
                let t = choose|t: int| 0 <= t < o.len() && o[t] == (e as usize, es[e].1);
                assert(o[t].0 == e);
            } else {
                let t = choose|t: int| 0 <= t < i.len() && i[t] == (e as usize, es[e].0);
                assert(i[t].0 == e);
            }
        }
        if names_edge(o, e) {
            let t = choose|t: int| 0 <= t < o.len() && (#[trigger] o[t]).0 == e;
            assert(o[t].0 < n);
        }
        if names_edge(i, e) {
            let t = choose|t: int| 0 <= t < i.len() && (#[trigger] i[t]).0 == e;
            assert(i[t].0 < n);
        }
    }
}

/// Some of the first `k` nodes of `f` is joined to `v`.
pub open spec fn adj_upto(es: Seq<(usize, usize, EdgeView)>, f: Seq<usize>, k: int, v: usize) -> bool {
    exists|j: int| 0 <= j < k && #[trigger] adjacent(es, f[j], v)
}

/// Edge `e` has one of the first `k` nodes of `f` as an endpoint.
pub open spec fn inc_upto(es: Seq<(usize, usize, EdgeView)>, f: Seq<usize>, k: int, e: int) -> bool {
    exists|j: int| 0 <= j < k && #[trigger] incident(es, e, f[j])
}

/// One breadth-first step from the layer `d` nodes in `frontier`: marks the
/// nodes within `d + 1` edges visited and the edges touching a node within
/// `d` edges seen, and returns layer `d + 1`.
fn expand_layer(
    graph: &Graph<Node, Edge, Directed, u32>,
    frontier: &Vec<usize>,
    visited: &mut Vec<bool>,
    seen: &mut Vec<bool>,
    Ghost(s): Ghost<usize>,
    Ghost(d): Ghost<nat>,
) -> (next: Vec<usize>)
    requires
        graph_wf(*graph),
        old(visited)@.len() == graph_nodes(*graph).len(),
        old(seen)@.len() == graph_edges(*graph).len(),
        forall|v: usize|
            v < graph_nodes(*graph).len() ==> (#[trigger] old(visited)@[v as int]) == within(
                graph_edges(*graph),
                s,
                d,
            ).contains(v),
        forall|e: usize|
            e < graph_edges(*graph).len() ==> (#[trigger] old(seen)@[e as int]) == (d > 0 && touches(
                graph_edges(*graph),
                e as int,
                within(graph_edges(*graph), s, (d - 1) as nat),
            )),
        forall|v: usize| #[trigger] frontier@.contains(v) == layer(graph_edges(*graph), s, d).contains(v),
        forall|i: int| 0 <= i < frontier@.len() ==> (#[trigger] frontier@[i]) < graph_nodes(*graph).len(),
    ensures
        final(visited)@.len() == graph_nodes(*graph).len(),
        final(seen)@.len() == graph_edges(*graph).len(),
        forall|v: usize|
            v < graph_nodes(*graph).len() ==> (#[trigger] final(visited)@[v as int]) == within(
                graph_edges(*graph),
                s,
                d + 1,
            ).contains(v),
        forall|e: usize|
            e < graph_edges(*graph).len() ==> (#[trigger] final(seen)@[e as int]) == touches(
                graph_edges(*graph),
                e as int,
                within(graph_edges(*graph), s, d),
            ),
        forall|v: usize| #[trigger] next@.contains(v) == layer(graph_edges(*graph), s, d + 1).contains(v),
        forall|i: int| 0 <= i < next@.len() ==> (#[trigger] next@[i]) < graph_nodes(*graph).len(),
{
    let ghost es = graph_edges(*graph);
    let ghost n = graph_nodes(*graph).len();
    let ghost w = within(es, s, d);
    let ghost l = layer(es, s, d);
    let m = seen.len();
    let mut next: Vec<usize> = Vec::new();
    let mut fi: usize = 0;
    while fi < frontier.len()
        invariant
            fi <= frontier@.len(),
            m == es.len(),
            es == graph_edges(*graph),
            n == graph_nodes(*graph).len(),
            graph_wf(*graph),
            w == within(es, s, d),
            visited@.len() == n,
            seen@.len() == es.len(),
            forall|i: int| 0 <= i < frontier@.len() ==> (#[trigger] frontier@[i]) < n,
            forall|v: usize|
                v < n ==> (#[trigger] visited@[v as int]) == (w.contains(v) || adj_upto(
                    es,
                    frontier@,
                    fi as int,
                    v,
                )),
            forall|e: usize|
                e < es.len() ==> (#[trigger] seen@[e as int]) == ((d > 0 && touches(
                    es,
                    e as int,
                    within(es, s, (d - 1) as nat),
                )) || inc_upto(es, frontier@, fi as int, e as int)),
            forall|v: usize|
                #[trigger] next@.contains(v) == (!w.contains(v) && adj_upto(es, frontier@, fi as int, v)),
            forall|i: int| 0 <= i < next@.len() ==> (#[trigger] next@[i]) < n,
        decreases frontier@.len() - fi,
    {
        let u = frontier[fi];
        let outs = out_edges(graph, u);
        let ins = in_edges(graph, u);
        proof {
            lemma_incident_lists(es, u);
            lemma_out_list(es, u, es.len() as int);
            lemma_in_list(es, u, es.len() as int);
        }
        let ghost vis0 = visited@;
        let ghost seen0 = seen@;
        let ghost next0 = next@;
        visit_list(&outs, visited, seen, &mut next);
        let ghost vis1 = visited@;
        let ghost next1 = next@;
        visit_list(&ins, visited, seen, &mut next);
        assert forall|v: usize| #[trigger] adj_upto(es, frontier@, fi + 1, v) == (adj_upto(
            es,
            frontier@,
            fi as int,
            v,
        ) || adjacent(es, u, v)) by {
            if adj_upto(es, frontier@, fi + 1, v) && !adjacent(es, u, v) {
                let j = choose|j: int| 0 <= j < fi + 1 && #[trigger] adjacent(es, frontier@[j], v);
                assert(j < fi);
            }
            if adjacent(es, u, v) {
                assert(adjacent(es, frontier@[fi as int], v));
            }
        }
        assert forall|e: int| #[trigger] inc_upto(es, frontier@, fi + 1, e) == (inc_upto(
            es,
            frontier@,
            fi as int,
            e,
        ) || incident(es, e, u)) by {
            if inc_upto(es, frontier@, fi + 1, e) && !incident(es, e, u) {
                let j = choose|j: int| 0 <= j < fi + 1 && #[trigger] incident(es, e, frontier@[j]);
                assert(j < fi);
            }
            if incident(es, e, u) {
                assert(incident(es, e, frontier@[fi as int]));
            }
        }
        assert forall|v: usize| adjacent(es, u, v) implies v < n by {
            let e = choose|e: int| #[trigger] joins(es, e, u, v);
            assert(es[e].0 < n && es[e].1 < n);
        }
        assert forall|v: usize| v < n implies (#[trigger] visited@[v as int]) == (w.contains(v)
            || adj_upto(es, frontier@, fi + 1, v)) by {
            assert(adjacent(es, u, v) == (hits(outs@, v) || hits(ins@, v)));
        }
        assert forall|e: usize| e < es.len() implies (#[trigger] seen@[e as int]) == ((d > 0 && touches(
            es,
            e as int,
            within(es, s, (d - 1) as nat),
        )) || inc_upto(es, frontier@, fi + 1, e as int)) by {
            assert(incident(es, e as int, u) == (names_edge(outs@, e as int) || names_edge(
                ins@,
                e as int,
            )));
        }
        assert forall|v: usize| #[trigger] next@.contains(v) == (!w.contains(v) && adj_upto(
            es,
            frontier@,
            fi + 1,
            v,
        )) by {
            assert(adjacent(es, u, v) == (hits(outs@, v) || hits(ins@, v)));
            if v < n {
                assert(vis0[v as int] == (w.contains(v) || adj_upto(es, frontier@, fi as int, v)));
                assert(vis1[v as int] == (vis0[v as int] || hits(outs@, v)));
            }
        }
        fi = fi + 1;
    }
    proof {
        assert forall|v: usize| #[trigger] adj_upto(es, frontier@, frontier@.len() as int, v)
            == neighbors(es, l).contains(v) by {
            if adj_upto(es, frontier@, frontier@.len() as int, v) {
                let j = choose|j: int| 0 <= j < frontier@.len() && #[trigger] adjacent(es, frontier@[j], v);
                let e = choose|e: int| #[trigger] joins(es, e, frontier@[j], v);
                assert(frontier@.contains(frontier@[j]));
                assert(l.contains(frontier@[j]));
            }
            if neighbors(es, l).contains(v) {
                let (u, e) = choose|u: usize, e: int| l.contains(u) && #[trigger] joins(es, e, u, v);
                assert(frontier@.contains(u));
                let j = choose|j: int| 0 <= j < frontier@.len() && frontier@[j] == u;
                assert(adjacent(es, frontier@[j], v));
            }
        }
        assert forall|e: int| 0 <= e < es.len() implies #[trigger] inc_upto(es, frontier@, frontier@.len() as int, e)
            == touches(es, e, l) by {
            if inc_upto(es, frontier@, frontier@.len() as int, e) {
                let j = choose|j: int| 0 <= j < frontier@.len() && #[trigger] incident(es, e, frontier@[j]);
                assert(frontier@.contains(frontier@[j]));
            }
            if touches(es, e, l) {
                if l.contains(es[e].0) {
                    assert(frontier@.contains(es[e].0));
                    let j = choose|j: int| 0 <= j < frontier@.len() && frontier@[j] == es[e].0;
                    assert(incident(es, e, frontier@[j]));
                } else {
                    assert(frontier@.contains(es[e].1));
                    let j = choose|j: int| 0 <= j < frontier@.len() && frontier@[j] == es[e].1;
                    assert(incident(es, e, frontier@[j]));
                }
            }
        }
        lemma_within_step(es, s, d);
        if d > 0 {
            lemma_within_layers(es, s, d);
        }
        assert forall|e: usize| e < es.len() implies (#[trigger] seen@[e as int]) == touches(es, e as int, w) by {
            assert(inc_upto(es, frontier@, frontier@.len() as int, e as int) == touches(es, e as int, l));
        }
        assert forall|v: usize| #[trigger] next@.contains(v) == layer(es, s, d + 1).contains(v) by {
            assert(adj_upto(es, frontier@, frontier@.len() as int, v) == neighbors(es, l).contains(v));
        }
        assert forall|v: usize| v < n implies (#[trigger] visited@[v as int]) == within(es, s, d + 1).contains(v) by {
            assert(adj_upto(es, frontier@, frontier@.len() as int, v) == neighbors(es, l).contains(v));
        }
    }
    next
}

// ---------------------------------------------------------------------------
// Queries
// ---------------------------------------------------------------------------

/// Why a graph query fails.
#[derive(Debug, Clone, PartialEq, Eq)]
pub enum GraphError {
    /// The start node of a neighbourhood query (given) is not in the graph.
    NodeNotFound(String),
    /// The source node of a path (given) is not in the graph.
    SourceNotFound(String),
    /// The target node of a path (given) is not in the graph.
    TargetNotFound(String),
}

/// The text of a graph error, naming the node id as `NodeId("<id>")`.
pub open spec fn graph_error_text(e: GraphError) -> Seq<char> {
    match e {
        GraphError::NodeNotFound(id) => "Node not found: NodeId(\""@ + id@ + "\")"@,
        GraphError::SourceNotFound(id) => "Source node not found: NodeId(\""@ + id@ + "\")"@,
        GraphError::TargetNotFound(id) => "Target node not found: NodeId(\""@ + id@ + "\")"@,
    }
}

impl GraphError {
    /// The text of the error.
    pub fn message(&self) -> (s: String)
        ensures
            s@ == graph_error_text(*self),
    {
        let mut v: Vec<char> = Vec::new();
        match self {
            GraphError::NodeNotFound(id) => {
                push_str(&mut v, "Node not found: NodeId(\"");
                push_str(&mut v, id.as_str());
            },
            GraphError::SourceNotFound(id) => {
                push_str(&mut v, "Source node not found: NodeId(\"");
                push_str(&mut v, id.as_str());
            },
            GraphError::TargetNotFound(id) => {
                push_str(&mut v, "Target node not found: NodeId(\"");
                push_str(&mut v, id.as_str());
            },
        }
        push_str(&mut v, "\")");
        chars_to_string(v.as_slice())
    }
}

/// The subgraph a neighbourhood query of depth `d` from node `s` returns:
/// the nodes within `d` edges (edges followed either way) and the edges
/// with an endpoint within `d - 1` edges, both in index order, under
/// version `1.0` and generation time `0`.
pub open spec fn bfs_view(g: Graph<Node, Edge, Directed, u32>, s: usize, d: nat) -> GraphView {
    let es = graph_edges(g);
    let ni = reached_upto(es, s, d, graph_nodes(g).len() as int);
    let ei = traversed_upto(es, s, d, es.len() as int);
    GraphView {
        nodes: pick_nodes(graph_nodes(g), ni),
        edges: pick_edges(es, ei),
        metadata: MetadataView {
            version: "1.0"@,
            generated_at: "0"@,
            total_nodes: ni.len() as usize,
            total_edges: ei.len() as usize,
            languages: Seq::empty(),
            input_tokens: 0,
            output_tokens: 0,
            plugin_data: Seq::empty(),
        },
    }
}

/// The neighbourhood of a node: every node within `max_depth` edges of it,
/// edges followed in both directions, and every edge followed on the way
/// (those with an endpoint within `max_depth - 1` edges).
pub fn query_bfs(
    graph: &Graph<Node, Edge, Directed, u32>,
    node_map: &NodeMap,
    start_node: &NodeId,
    max_depth: usize,
) -> (r: Result<GraphOutput, GraphError>)
    requires
        graph_wf(*graph),
        node_map.ids().len() <= graph_nodes(*graph).len(),
    ensures
        match last_index(node_map.ids(), start_node@, node_map.ids().len() as int) {
            None => r matches Err(GraphError::NodeNotFound(id)) && id@ == start_node@,
            Some(s) => r matches Ok(out) && out@ == bfs_view(*graph, s, max_depth as nat),
        },
{
    let s = match node_map.get(start_node.0.as_str()) {
        Some(i) => i,
        None => {
            return Err(GraphError::NodeNotFound(start_node.0.clone()));
        },
    };
    let ghost es = graph_edges(*graph);
    let ghost gn = graph_nodes(*graph);
    let n = node_count(graph);
    let m = edge_count(graph);
    let mut visited: Vec<bool> = Vec::new();
    while visited.len() < n
        invariant
            visited@.len() <= n,
            forall|v: int| 0 <= v < visited@.len() ==> !(#[trigger] visited@[v]),
        decreases n - visited@.len(),
    {
        visited.push(false);
    }
    visited.set(s, true);
    let mut seen: Vec<bool> = Vec::new();
    while seen.len() < m
        invariant
            seen@.len() <= m,
            forall|e: int| 0 <= e < seen@.len() ==> !(#[trigger] seen@[e]),
        decreases m - seen@.len(),
    {
        seen.push(false);
    }
    let mut frontier: Vec<usize> = Vec::new();
    frontier.push(s);
    proof {
        assert(within(es, s, 0) =~= Set::empty().insert(s));
        assert forall|v: usize| #[trigger] frontier@.contains(v) == layer(es, s, 0).contains(v) by {
            if v == s {
                assert(frontier@[0] == s);
            }
        }
    }
    let mut depth: usize = 0;
    while depth < max_depth && frontier.len() > 0
        invariant
            n == gn.len(),
            m == es.len(),
            es == graph_edges(*graph),
            gn == graph_nodes(*graph),
            graph_wf(*graph),
            s < n,
            depth <= max_depth,
            visited@.len() == n,
            seen@.len() == m,
            forall|v: usize| v < n ==> (#[trigger] visited@[v as int]) == within(es, s, depth as nat).contains(v),
            forall|e: usize|
                e < m ==> (#[trigger] seen@[e as int]) == (depth > 0 && touches(
                    es,
                    e as int,
                    within(es, s, (depth - 1) as nat),
                )),
            forall|v: usize| #[trigger] frontier@.contains(v) == layer(es, s, depth as nat).contains(v),
            forall|i: int| 0 <= i < frontier@.len() ==> (#[trigger] frontier@[i]) < n,
        decreases max_depth - depth,
    {
        let next = expand_layer(graph, &frontier, &mut visited, &mut seen, Ghost(s), Ghost(depth as nat));
        frontier = next;
        depth = depth + 1;
    }
    proof {
        if depth < max_depth {
            assert(frontier@.len() == 0);
            if depth == 0 {
                assert(layer(es, s, 0).contains(s));
                assert(frontier@.contains(s));
            }
            let k = (depth - 1) as nat;
            lemma_within_step(es, s, k);
            assert forall|v: usize| #[trigger] within(es, s, depth as nat).contains(v) implies within(
                es,
                s,
                k,
            ).contains(v) by {
                assert(!frontier@.contains(v));
            }
            assert(within(es, s, k + 1) =~= within(es, s, k));
            lemma_within_fixpoint(es, s, k, max_depth as nat);
            lemma_within_fixpoint(es, s, k, (max_depth - 1) as nat);
        }
    }
    let mut nodes: Vec<Node> = Vec::new();
    let mut v: usize = 0;
    while v < n
        invariant
            v <= n,
            n == gn.len(),
            gn == graph_nodes(*graph),
            visited@.len() == n,
            forall|x: usize| x < n ==> (#[trigger] visited@[x as int]) == within(es, s, max_depth as nat).contains(x),
            nodes_view(nodes@) == pick_nodes(gn, reached_upto(es, s, max_depth as nat, v as int)),
            reached_upto(es, s, max_depth as nat, v as int).len() <= v,
        decreases n - v,
    {
        let ghost pre = reached_upto(es, s, max_depth as nat, v as int);
        if visited[v] {
            let node = node_at(graph, v).copy();
            let ghost before = nodes@;
            let ghost nv = node@;
            nodes.push(node);
            assert(nodes_view(nodes@) =~= nodes_view(before).push(nv));
            assert(pick_nodes(gn, pre.push(v)) =~= pick_nodes(gn, pre).push(gn[v as int]));
        }
        v = v + 1;
    }
    let mut edges: Vec<Edge> = Vec::new();
    let mut e: usize = 0;
    while e < m
        invariant
            e <= m,
            m == es.len(),
            es == graph_edges(*graph),
            seen@.len() == m,
            forall|x: usize|
                x < m ==> (#[trigger] seen@[x as int]) == (max_depth > 0 && touches(
                    es,
                    x as int,
                    within(es, s, (max_depth - 1) as nat),
                )),
            edges_view(edges@) == pick_edges(es, traversed_upto(es, s, max_depth as nat, e as int)),
            traversed_upto(es, s, max_depth as nat, e as int).len() <= e,
        decreases m - e,
    {
        let ghost pre = traversed_upto(es, s, max_depth as nat, e as int);
        if seen[e] {
            let edge = edge_at(graph, e).copy();
            let ghost before = edges@;
            let ghost ev = edge@;
            edges.push(edge);
            assert(edges_view(edges@) =~= edges_view(before).push(ev));
            assert(pick_edges(es, pre.push(e)) =~= pick_edges(es, pre).push(es[e as int].2));
        }
        e = e + 1;
    }
    let total_nodes = nodes.len();
    let total_edges = edges.len();
    let metadata = GraphMetadata {
        version: String::from_str("1.0"),
        generated_at: String::from_str("0"),
        total_nodes,
        total_edges,
        languages: Vec::new(),
        input_tokens: 0,
        output_tokens: 0,
        plugin_data: Vec::new(),
    };
    let out = GraphOutput { nodes, edges, metadata };
    proof {
        assert(out@.metadata.languages =~= Seq::<Seq<char>>::empty());
        assert(out@.metadata.plugin_data =~= Seq::<(Seq<char>, Seq<char>)>::empty());
    }
    Ok(out)
}

// ---------------------------------------------------------------------------
// Shortest path
// ---------------------------------------------------------------------------

/// Some edge leads from `u` to `v`.
pub open spec fn leads(es: Seq<(usize, usize, EdgeView)>, u: usize, v: usize) -> bool {
    exists|e: int| 0 <= e < es.len() && (#[trigger] es[e]).0 == u && es[e].1 == v
}

/// Step `i` of `p` follows an edge.
pub open spec fn path_step(es: Seq<(usize, usize, EdgeView)>, p: Seq<usize>, i: int) -> bool {
    leads(es, p[i], p[i + 1])
}

/// `p` is a path of nodes from `a` to `b`, each step along an edge's
/// direction.
pub open spec fn is_path(es: Seq<(usize, usize, EdgeView)>, p: Seq<usize>, a: usize, b: usize) -> bool {
    &&& p.len() >= 1
    &&& p[0] == a
    &&& p.last() == b
    &&& forall|i: int| 0 <= i < p.len() - 1 ==> #[trigger] path_step(es, p, i)
}

/// `p` is a path from `a` to `b` with no more nodes than any other.
pub open spec fn shortest_path(es: Seq<(usize, usize, EdgeView)>, p: Seq<usize>, a: usize, b: usize) -> bool {
    &&& is_path(es, p, a, b)
    &&& forall|q: Seq<usize>| #[trigger] is_path(es, q, a, b) ==> p.len() <= q.len()
}

/// Some path leads from `a` to `b`.
pub open spec fn connected(es: Seq<(usize, usize, EdgeView)>, a: usize, b: usize) -> bool {
    exists|q: Seq<usize>| #[trigger] is_path(es, q, a, b)
}

/// Whether a node is the goal of a path search.
fn is_goal(node: usize, goal: usize) -> (r: bool)
    ensures
        r == (node == goal),
{
    node == goal
}

/// `petgraph::algo::astar` with every edge costing 1 and a zero estimate
/// (admissible, so the search is Dijkstra's): the cost and nodes of a
/// shortest path from `start` to `goal` along the edges' direction, or
/// `None` when no path exists.  Which of several shortest paths comes back
/// is left open.
#[verifier::external_body]
fn astar_path(g: &Graph<Node, Edge, Directed, u32>, start: usize, goal: usize) -> (r: Option<(usize, Vec<usize>)>)
    requires
        start < graph_nodes(*g).len(),
        goal < graph_nodes(*g).len(),
    ensures
        match r {
            Some((c, p)) => shortest_path(graph_edges(*g), p@, start, goal) && c == p@.len() - 1,
            None => !connected(graph_edges(*g), start, goal),
        },
{
    petgraph::algo::astar(g, NodeIndex::new(start), |f: NodeIndex<u32>| is_goal(f.index(), goal), |_| 1usize, |_| 0usize)
        .map(|(c, p)| (c, p.into_iter().map(|i| i.index()).collect()))
}

/// The ids of the nodes of a path.
pub open spec fn path_ids(ns: Seq<NodeView>, p: Seq<usize>) -> Seq<Seq<char>> {
    p.map_values(|i: usize| ns[i as int].id)
}

/// The ids along a shortest path from one node to another, following the
/// edges' direction: `None` when no path exists.
pub fn find_shortest_path(
    graph: &Graph<Node, Edge, Directed, u32>,
    node_map: &NodeMap,
    start_node: &NodeId,
    end_node: &NodeId,
) -> (r: Result<Option<Vec<String>>, GraphError>)
    requires
        graph_wf(*graph),
        node_map.ids().len() <= graph_nodes(*graph).len(),
    ensures
        match (
            last_index(node_map.ids(), start_node@, node_map.ids().len() as int),
            last_index(node_map.ids(), end_node@, node_map.ids().len() as int),
        ) {
            (None, _) => r matches Err(GraphError::SourceNotFound(id)) && id@ == start_node@,
            (Some(_), None) => r matches Err(GraphError::TargetNotFound(id)) && id@ == end_node@,
            (Some(a), Some(b)) => match r {
                Ok(None) => !connected(graph_edges(*graph), a, b),
                Ok(Some(ids)) => exists|p: Seq<usize>|
                    shortest_path(graph_edges(*graph), p, a, b) && id_texts(ids@) == path_ids(
                        graph_nodes(*graph),
                        p,
                    ),
                Err(_) => false,
            },
        },
{
    let a = match node_map.get(start_node.0.as_str()) {
        Some(i) => i,
        None => {
            return Err(GraphError::SourceNotFound(start_node.0.clone()));
        },
    };
    let b = match node_map.get(end_node.0.as_str()) {
        Some(i) => i,
        None => {
            return Err(GraphError::TargetNotFound(end_node.0.clone()));
        },
    };
    let ghost es = graph_edges(*graph);
    let ghost gn = graph_nodes(*graph);
    match astar_path(graph, a, b) {
        None => Ok(None),
        Some((_cost, path)) => {
            let mut ids: Vec<String> = Vec::new();
            let mut i: usize = 0;
            while i < path.len()
                invariant
                    i <= path@.len(),
                    es == graph_edges(*graph),
                    gn == graph_nodes(*graph),
                    graph_wf(*graph),
                    a < gn.len(),
                    is_path(es, path@, a, b),
                    id_texts(ids@) == path_ids(gn, path@.subrange(0, i as int)),
                decreases path@.len() - i,
            {
                let x = path[i];
                proof {
                    if i > 0 {
                        assert(path_step(es, path@, i - 1));
                        let e = choose|e: int| 0 <= e < es.len() && (#[trigger] es[e]).0 == path@[i - 1]
                            && es[e].1 == path@[i as int];
                        assert(es[e].1 < gn.len());
                    }
                }
                let id = node_at(graph, x).id.0.clone();
                let ghost before = ids@;
                ids.push(id);
                assert(id_texts(ids@) =~= id_texts(before).push(gn[x as int].id));
                assert(path_ids(gn, path@.subrange(0, i + 1)) =~= path_ids(gn, path@.subrange(0, i as int)).push(
                    gn[x as int].id,
                ));
                i = i + 1;
            }
            assert(path@.subrange(0, path@.len() as int) =~= path@);
            Ok(Some(ids))
        },
    }
}

// ---------------------------------------------------------------------------
// Laws
// ---------------------------------------------------------------------------

/// A deeper neighbourhood query holds every node of a shallower one.
pub proof fn lemma_within_monotone(es: Seq<(usize, usize, EdgeView)>, s: usize, d: nat, k: nat)
    requires
        d <= k,
    ensures
        within(es, s, d).subset_of(within(es, s, k)),
    decreases k - d,
{
    if d < k {
        lemma_within_monotone(es, s, d, (k - 1) as nat);
        lemma_within_step(es, s, (k - 1) as nat);
    }
}

/// Every edge a neighbourhood query follows joins two nodes it returns:
/// the result is a subgraph.
pub proof fn lemma_traversed_edges_join_reached_nodes(es: Seq<(usize, usize, EdgeView)>, s: usize, d: nat, e: int)
    requires
        0 <= e < es.len(),
        d > 0,
        touches(es, e, within(es, s, (d - 1) as nat)),
    ensures
        within(es, s, d).contains(es[e].0),
        within(es, s, d).contains(es[e].1),
{
    let p = within(es, s, (d - 1) as nat);
    assert(within(es, s, d) == p.union(neighbors(es, p)));
    if p.contains(es[e].0) {
        assert(joins(es, e, es[e].0, es[e].1));
        assert(neighbors(es, p).contains(es[e].1));
    } else {
        assert(joins(es, e, es[e].1, es[e].0));
        assert(neighbors(es, p).contains(es[e].0));
    }
}

/// The shortest path from a node to itself is that node alone.
pub proof fn lemma_shortest_path_to_self(es: Seq<(usize, usize, EdgeView)>, a: usize, p: Seq<usize>)
    requires
        shortest_path(es, p, a, a),
    ensures
        p == seq![a],
{
    let q = seq![a];
    assert(is_path(es, q, a, a));
    assert(p.len() <= q.len());
    assert(p =~= q);
}

} // verus!

//! The box diagram of a unified graph: one box per workspace holding its
//! nodes, and the composition edges between boxes.

use vstd::prelude::*;
use crate::compose::UnifiedGraph;
use crate::manifest::{node_reference_parts, split_node_reference};
use crate::text::{
    chars_to_string, dec, push_all, push_str, starts_with, starts_with_chars, str_chars, str_eq,
    usize_to_dec,
};
use crate::types::{nodes_view, edges_view, EdgeView, NodeView};

verus! {

/// The most node boxes drawn inside one workspace box; the rest collapse
/// into one placeholder.
pub const MAX_CHILDREN_PER_WORKSPACE: usize = 30;

/// A box with an id and a label.
#[derive(Debug, Clone, PartialEq, Eq)]
pub struct BoxItem {
    pub id: String,
    pub label: String,
}

/// A workspace box and the node boxes inside it.
#[derive(Debug, Clone, PartialEq, Eq)]
pub struct WorkspaceBox {
    pub id: String,
    pub label: String,
    pub children: Vec<BoxItem>,
}

/// A labelled connection between two boxes.
#[derive(Debug, Clone, PartialEq, Eq)]
pub struct Connection {
    pub from: String,
    pub to: String,
    pub label: String,
}

/// The diagram: workspace boxes and connections.
#[derive(Debug, Clone, PartialEq, Eq)]
pub struct Projection {
    pub children: Vec<WorkspaceBox>,
    pub connections: Vec<Connection>,
}

pub struct BoxView {
    pub id: Seq<char>,
    pub label: Seq<char>,
    pub children: Seq<(Seq<char>, Seq<char>)>,
}

pub open spec fn items_view(v: Seq<BoxItem>) -> Seq<(Seq<char>, Seq<char>)> {
    v.map_values(|b: BoxItem| (b.id@, b.label@))
}

pub open spec fn box_view(b: WorkspaceBox) -> BoxView {
    BoxView { id: b.id@, label: b.label@, children: items_view(b.children@) }
}

pub open spec fn boxes_view(v: Seq<WorkspaceBox>) -> Seq<BoxView> {
    v.map_values(|b: WorkspaceBox| box_view(b))
}

pub open spec fn connections_view(v: Seq<Connection>) -> Seq<(Seq<char>, Seq<char>, Seq<char>)> {
    v.map_values(|c: Connection| (c.from@, c.to@, c.label@))
}

/// The `(id, label)` of the nodes among the first `n` whose id starts with
/// `prefix`.
pub open spec fn members_upto(ns: Seq<NodeView>, prefix: Seq<char>, n: int) -> Seq<(Seq<char>, Seq<char>)>
    decreases n,
{
    if n <= 0 {
        Seq::empty()
    } else if starts_with(ns[n - 1].id, prefix) {
        members_upto(ns, prefix, n - 1).push((ns[n - 1].id, ns[n - 1].label))
    } else {
        members_upto(ns, prefix, n - 1)
    }
}

/// The node boxes of a workspace: its first 30 members, then, when there
/// are more, a placeholder `<ws>::_more` labelled `... <rest> more`.
pub open spec fn child_items(ms: Seq<(Seq<char>, Seq<char>)>, prefix: Seq<char>) -> Seq<(Seq<char>, Seq<char>)> {
    if ms.len() <= MAX_CHILDREN_PER_WORKSPACE {
        ms
    } else {
        ms.subrange(0, MAX_CHILDREN_PER_WORKSPACE as int).push(
            (prefix + "_more"@, "... "@ + dec((ms.len() - MAX_CHILDREN_PER_WORKSPACE) as nat) + " more"@),
        )
    }
}

/// The box of workspace `ws` in a graph of nodes `ns`.
pub open spec fn ws_box(ns: Seq<NodeView>, ws: Seq<char>) -> BoxView {
    let prefix = ws + "::"@;
    BoxView { id: ws, label: ws, children: child_items(members_upto(ns, prefix, ns.len() as int), prefix) }
}

/// The boxes of the workspace nodes among the first `n`.
pub open spec fn boxes_upto(ns: Seq<NodeView>, n: int) -> Seq<BoxView>
    decreases n,
{
    if n <= 0 {
        Seq::empty()
    } else if ns[n - 1].kind == "workspace"@ {
        boxes_upto(ns, n - 1).push(ws_box(ns, ns[n - 1].id))
    } else {
        boxes_upto(ns, n - 1)
    }
}

/// The workspace an edge endpoint belongs to: the workspace part of a node
/// reference, else the endpoint itself.
pub open spec fn ws_of(endpoint: Seq<char>) -> Seq<char> {
    match node_reference_parts(endpoint) {
        Some((ws, _)) => ws,
        None => endpoint,
    }
}

/// The connections of the first `k` edges: those between two workspaces.
pub open spec fn connections_upto(es: Seq<EdgeView>, k: int) -> Seq<(Seq<char>, Seq<char>, Seq<char>)>
    decreases k,
{
    if k <= 0 {
        Seq::empty()
    } else if ws_of(es[k - 1].source) != ws_of(es[k - 1].target) {
        connections_upto(es, k - 1).push((es[k - 1].source, es[k - 1].target, es[k - 1].relation))
    } else {
        connections_upto(es, k - 1)
    }
}

fn workspace_box(nodes: &Vec<crate::types::Node>, ws_id: &str) -> (b: WorkspaceBox)
    ensures
        box_view(b) == ws_box(nodes_view(nodes@), ws_id@),
{
    let ghost ns = nodes_view(nodes@);
    let mut pv: Vec<char> = Vec::new();
    push_str(&mut pv, ws_id);
    push_str(&mut pv, "::");
    let ghost prefix = pv@;
    let mut items: Vec<BoxItem> = Vec::new();
    let mut count: usize = 0;
    let mut i: usize = 0;
    while i < nodes.len()
        invariant
            i <= nodes@.len(),
            ns == nodes_view(nodes@),
            pv@ == prefix,
            prefix == ws_id@ + "::"@,
            count == members_upto(ns, prefix, i as int).len(),
            count <= i,
            items_view(items@) == if count <= MAX_CHILDREN_PER_WORKSPACE {
                members_upto(ns, prefix, i as int)
            } else {
                members_upto(ns, prefix, i as int).subrange(0, MAX_CHILDREN_PER_WORKSPACE as int)
            },
        decreases nodes@.len() - i,
    {
        let idv = str_chars(nodes[i].id.0.as_str());
        assert(ns[i as int].id == idv@);
        let ghost pre = members_upto(ns, prefix, i as int);
        if starts_with_chars(idv.as_slice(), pv.as_slice()) {
            let ghost next = pre.push((ns[i as int].id, ns[i as int].label));
            assert(members_upto(ns, prefix, i + 1) == next);
            if count < MAX_CHILDREN_PER_WORKSPACE {
                let ghost before = items@;
                let item = BoxItem { id: nodes[i].id.0.clone(), label: nodes[i].label.clone() };
                items.push(item);
                assert(items_view(items@) =~= items_view(before).push((ns[i as int].id, ns[i as int].label)));
                assert(items_view(items@) =~= next);
            } else {
                assert(next.subrange(0, MAX_CHILDREN_PER_WORKSPACE as int) =~= if count
                    <= MAX_CHILDREN_PER_WORKSPACE {
                    pre
                } else {
                    pre.subrange(0, MAX_CHILDREN_PER_WORKSPACE as int)
                });
            }
            count = count + 1;
        }
        i = i + 1;
    }
    let ghost ms = members_upto(ns, prefix, nodes@.len() as int);
    if count > MAX_CHILDREN_PER_WORKSPACE {
        let mut mid: Vec<char> = pv.clone();
        push_str(&mut mid, "_more");
        let mut lab: Vec<char> = Vec::new();
        push_str(&mut lab, "... ");
        let d = usize_to_dec(count - MAX_CHILDREN_PER_WORKSPACE);
        push_all(&mut lab, d.as_slice());
        push_str(&mut lab, " more");
        let ghost before = items@;
        items.push(BoxItem { id: chars_to_string(mid.as_slice()), label: chars_to_string(lab.as_slice()) });
        assert(items_view(items@) =~= items_view(before).push(
            (prefix + "_more"@, "... "@ + dec((ms.len() - MAX_CHILDREN_PER_WORKSPACE) as nat) + " more"@),
        ));
    }
    WorkspaceBox { id: String::from_str(ws_id), label: String::from_str(ws_id), children: items }
}

/// The endpoint's workspace.
fn endpoint_ws(endpoint: &str) -> (w: String)
    ensures
        w@ == ws_of(endpoint@),
{
    match split_node_reference(endpoint) {
        Some((ws, _)) => ws,
        None => String::from_str(endpoint),
    }
}

/// Projects a unified graph into a box diagram: each workspace container
/// node becomes a box holding its member nodes (at most 30, then a
/// placeholder), and each edge between two workspaces a connection labelled
/// with its relation.
pub fn project(unified: &UnifiedGraph) -> (p: Projection)
    ensures
        boxes_view(p.children@) == boxes_upto(nodes_view(unified.nodes@), unified.nodes@.len() as int),
        connections_view(p.connections@) == connections_upto(
            edges_view(unified.edges@),
            unified.edges@.len() as int,
        ),
{
    let ghost ns = nodes_view(unified.nodes@);
    let ghost es = edges_view(unified.edges@);
    let mut children: Vec<WorkspaceBox> = Vec::new();
    let mut i: usize = 0;
    while i < unified.nodes.len()
        invariant
            i <= unified.nodes@.len(),
            ns == nodes_view(unified.nodes@),
            boxes_view(children@) == boxes_upto(ns, i as int),
        decreases unified.nodes@.len() - i,
    {
        let n = &unified.nodes[i];
        assert(ns[i as int] == n@);
        if str_eq(n.kind.as_str(), "workspace") {
            let b = workspace_box(&unified.nodes, n.id.0.as_str());
            let ghost before = children@;
            let ghost bv = box_view(b);
            children.push(b);
            assert(boxes_view(children@) =~= boxes_view(before).push(bv));
        }
        i = i + 1;
    }
    let mut connections: Vec<Connection> = Vec::new();
    let mut k: usize = 0;
    while k < unified.edges.len()
        invariant
            k <= unified.edges@.len(),
            es == edges_view(unified.edges@),
            connections_view(connections@) == connections_upto(es, k as int),
        decreases unified.edges@.len() - k,
    {
        let e = &unified.edges[k];
        assert(es[k as int] == e@);
        let a = endpoint_ws(e.source.0.as_str());
        let b = endpoint_ws(e.target.0.as_str());
        if !str_eq(a.as_str(), b.as_str()) {
            let ghost before = connections@;
            let c = Connection { from: e.source.0.clone(), to: e.target.0.clone(), label: e.relation.clone() };
            let ghost cv = (c.from@, c.to@, c.label@);
            connections.push(c);
            assert(connections_view(connections@) =~= connections_view(before).push(cv));
        }
        k = k + 1;
    }
    Projection { children, connections }
}

/// `line` starts with `Error:` after leading whitespace.
pub open spec fn error_line(line: Seq<char>) -> bool {
    starts_with(crate::text::trim_start(line), "Error:"@)
}

/// Whether a renderer's output reports an error on some line (it exits 0
/// even on malformed input).
pub fn reports_error(stdout: &str) -> (r: bool)
    ensures
        r == exists|i: int| 0 <= i < crate::text::lines(stdout@).len() && #[trigger] error_line(
            crate::text::lines(stdout@)[i],
        ),
{
    let v = str_chars(stdout);
    let ls = crate::text::split_lines(v.as_slice());
    let ghost lv = ls@.map_values(|l: Vec<char>| l@);
    let mut i: usize = 0;
    while i < ls.len()
        invariant
            i <= ls@.len(),
            lv == ls@.map_values(|l: Vec<char>| l@),
            lv == crate::text::lines(stdout@),
            forall|j: int| 0 <= j < i ==> !#[trigger] error_line(lv[j]),
        decreases ls@.len() - i,
    {
        let t = crate::text::trim_start_chars(ls[i].as_slice());
        assert(lv[i as int] == ls@[i as int]@);
        if crate::text::starts_with_str(t.as_slice(), "Error:") {
            assert(error_line(lv[i as int]));
            return true;
        }
        i = i + 1;
    }
    false
}

} // verus!

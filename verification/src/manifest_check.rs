//! Semantic validation of an assembly manifest.
//!
//! Validation never stops at the first problem: every issue is collected
//! and reported together, and no declared workspace or relation endpoint is
//! silently skipped.  The checks, in report order: workspace ids (format and
//! duplicates), each workspace having a graph output, relation endpoints
//! naming declared workspaces, and node references existing in the graph of
//! their workspace.  Which files exist and what the graphs hold is read by
//! the caller and handed in.

use vstd::prelude::*;
use crate::domain_memory::{join_path, join_paths};
use crate::manifest::{
    AssemblyManifest, RelationEntry, WorkspaceEntry, node_reference_parts, split_node_reference,
    valid_workspace_id, contains_sep, id_empty_reason, id_sep_reason,
};
use crate::text::{chars_to_string, push_str, str_eq, usize_to_dec, push_all, dec};

verus! {

/// One problem found in a manifest.
#[derive(Debug, Clone, PartialEq, Eq)]
pub enum ManifestIssue {
    /// A workspace id is invalid, with the reason.
    InvalidId { id: String, reason: String },
    /// A workspace id is declared more than once.
    DuplicateId(String),
    /// A workspace root holds neither `graphify-out/graph.toon` nor
    /// `graphify-out/graph.json`.
    MissingGraph { id: String, root: String },
    /// A relation endpoint (`from` or `to`) names an undeclared workspace.
    UnknownWorkspace { role: String, endpoint: String, workspace: String },
    /// The graph of a workspace could not be loaded, with the reason.
    GraphLoad { id: String, reason: String },
    /// A node reference names a node missing from its workspace graph.
    MissingNode { workspace: String, node: String },
}

/// `ManifestIssue` with its texts as character sequences.
pub enum IssueView {
    InvalidId { id: Seq<char>, reason: Seq<char> },
    DuplicateId(Seq<char>),
    MissingGraph { id: Seq<char>, root: Seq<char> },
    UnknownWorkspace { role: Seq<char>, endpoint: Seq<char>, workspace: Seq<char> },
    GraphLoad { id: Seq<char>, reason: Seq<char> },
    MissingNode { workspace: Seq<char>, node: Seq<char> },
}

impl View for ManifestIssue {
    type V = IssueView;

    open spec fn view(&self) -> IssueView {
        match self {
            ManifestIssue::InvalidId { id, reason } => IssueView::InvalidId {
                id: id@,
                reason: reason@,
            },
            ManifestIssue::DuplicateId(id) => IssueView::DuplicateId(id@),
            ManifestIssue::MissingGraph { id, root } => IssueView::MissingGraph {
                id: id@,
                root: root@,
            },
            ManifestIssue::UnknownWorkspace { role, endpoint, workspace } =>
                IssueView::UnknownWorkspace { role: role@, endpoint: endpoint@, workspace: workspace@ },
            ManifestIssue::GraphLoad { id, reason } => IssueView::GraphLoad {
                id: id@,
                reason: reason@,
            },
            ManifestIssue::MissingNode { workspace, node } => IssueView::MissingNode {
                workspace: workspace@,
                node: node@,
            },
        }
    }
}

pub open spec fn issues_view(v: Seq<ManifestIssue>) -> Seq<IssueView> {
    v.map_values(|i: ManifestIssue| i@)
}

// ---------------------------------------------------------------------------
// Workspace ids
// ---------------------------------------------------------------------------

/// Some workspace before index `i` has the id of workspace `i`.
pub open spec fn declared_before(ws: Seq<WorkspaceEntry>, i: int) -> bool {
    exists|j: int| 0 <= j < i && (#[trigger] ws[j]).id@ == ws[i].id@
}

/// The id issues of one workspace: an invalid id, then a repeated one.
pub open spec fn id_issues_at(ws: Seq<WorkspaceEntry>, i: int) -> Seq<IssueView> {
    let id = ws[i].id@;
    let invalid: Seq<IssueView> = if id.len() == 0 {
        seq![IssueView::InvalidId { id, reason: id_empty_reason() }]
    } else if contains_sep(id) {
        seq![IssueView::InvalidId { id, reason: id_sep_reason() }]
    } else {
        Seq::empty()
    };
    let dup: Seq<IssueView> = if declared_before(ws, i) {
        seq![IssueView::DuplicateId(id)]
    } else {
        Seq::empty()
    };
    invalid + dup
}

/// The id issues of the first `n` workspaces.
pub open spec fn id_issues(ws: Seq<WorkspaceEntry>, n: int) -> Seq<IssueView>
    decreases n,
{
    if n <= 0 {
        Seq::empty()
    } else {
        id_issues(ws, n - 1) + id_issues_at(ws, n - 1)
    }
}

/// The issues of the workspace ids: each invalid id, and each id declared
/// again, in declaration order.
pub fn workspace_id_issues(ws: &[WorkspaceEntry]) -> (r: Vec<ManifestIssue>)
    ensures
        issues_view(r@) == id_issues(ws@, ws@.len() as int),
{
    let mut out: Vec<ManifestIssue> = Vec::new();
    let mut i: usize = 0;
    while i < ws.len()
        invariant
            i <= ws@.len(),
            issues_view(out@) == id_issues(ws@, i as int),
        decreases ws@.len() - i,
    {
        let ghost before = issues_view(out@);
        let entry = &ws[i];
        match entry.validate_id() {
            Err(e) => {
                out.push(ManifestIssue::InvalidId { id: entry.id.clone(), reason: e.reason });
            },
            Ok(()) => {},
        }
        let ghost mid = issues_view(out@);
        let mut dup = false;
        let mut j: usize = 0;
        while j < i
            invariant
                j <= i < ws@.len(),
                dup == exists|a: int| 0 <= a < j && (#[trigger] ws@[a]).id@ == ws@[i as int].id@,
            decreases i - j,
        {
            if str_eq(ws[j].id.as_str(), ws[i].id.as_str()) {
                dup = true;
            }
            j = j + 1;
        }
        if dup {
            out.push(ManifestIssue::DuplicateId(entry.id.clone()));
        }
        proof {
            let id = ws@[i as int].id@;
            let inv: Seq<IssueView> = if id.len() == 0 {
                seq![IssueView::InvalidId { id, reason: id_empty_reason() }]
            } else if contains_sep(id) {
                seq![IssueView::InvalidId { id, reason: id_sep_reason() }]
            } else {
                Seq::empty()
            };
            assert(mid =~= before + inv);
            if dup {
                assert(issues_view(out@) =~= mid.push(IssueView::DuplicateId(id)));
            } else {
                assert(issues_view(out@) =~= mid);
            }
            assert(issues_view(out@) =~= before + id_issues_at(ws@, i as int));
        }
        i = i + 1;
    }
    out
}

// ---------------------------------------------------------------------------
// Graph outputs
// ---------------------------------------------------------------------------

/// The missing-graph issues of the first `n` workspaces: those whose root
/// (`has_graph[i]` false) holds no graph output.
pub open spec fn graph_issues(
    ws: Seq<WorkspaceEntry>,
    base_dir: Seq<char>,
    has_graph: Seq<bool>,
    n: int,
) -> Seq<IssueView>
    decreases n,
{
    if n <= 0 {
        Seq::empty()
    } else {
        let pre = graph_issues(ws, base_dir, has_graph, n - 1);
        if has_graph[n - 1] {
            pre
        } else {
            pre.push(
                IssueView::MissingGraph {
                    id: ws[n - 1].id@,
                    root: join_path(base_dir, ws[n - 1].path@),
                },
            )
        }
    }
}

/// An issue for each workspace whose root holds no graph output
/// (`has_graph[i]` tells whether the root of workspace `i` holds one).
pub fn missing_graph_issues(ws: &[WorkspaceEntry], base_dir: &str, has_graph: &[bool]) -> (r: Vec<
    ManifestIssue,
>)
    requires
        has_graph@.len() == ws@.len(),
    ensures
        issues_view(r@) == graph_issues(ws@, base_dir@, has_graph@, ws@.len() as int),
{
    let mut out: Vec<ManifestIssue> = Vec::new();
    let mut i: usize = 0;
    while i < ws.len()
        invariant
            i <= ws@.len(),
            has_graph@.len() == ws@.len(),
            issues_view(out@) == graph_issues(ws@, base_dir@, has_graph@, i as int),
        decreases ws@.len() - i,
    {
        if !has_graph[i] {
            let root = join_paths(base_dir, ws[i].path.as_str());
            let ghost before = issues_view(out@);
            out.push(ManifestIssue::MissingGraph { id: ws[i].id.clone(), root });
            assert(issues_view(out@) =~= before.push(
                IssueView::MissingGraph { id: ws@[i as int].id@, root: join_path(base_dir@, ws@[i as int].path@) },
            ));
        }
        i = i + 1;
    }
    out
}

// ---------------------------------------------------------------------------
// Relation endpoints
// ---------------------------------------------------------------------------

/// The workspace an endpoint names: the workspace of a node reference, else
/// the endpoint itself.
pub open spec fn endpoint_workspace(ep: Seq<char>) -> Seq<char> {
    match node_reference_parts(ep) {
        Some((w, _)) => w,
        None => ep,
    }
}

/// Some workspace is declared with this id.
pub open spec fn is_declared(ws: Seq<WorkspaceEntry>, id: Seq<char>) -> bool {
    exists|j: int| 0 <= j < ws.len() && (#[trigger] ws[j]).id@ == id
}

pub open spec fn endpoint_issue(
    ws: Seq<WorkspaceEntry>,
    role: Seq<char>,
    ep: Seq<char>,
) -> Seq<IssueView> {
    if is_declared(ws, endpoint_workspace(ep)) {
        Seq::empty()
    } else {
        seq![IssueView::UnknownWorkspace { role, endpoint: ep, workspace: endpoint_workspace(ep) }]
    }
}

/// The endpoint issues of the first `n` relations (`from` before `to`).
pub open spec fn relation_issues_upto(
    ws: Seq<WorkspaceEntry>,
    rels: Seq<RelationEntry>,
    n: int,
) -> Seq<IssueView>
    decreases n,
{
    if n <= 0 {
        Seq::empty()
    } else {
        relation_issues_upto(ws, rels, n - 1) + endpoint_issue(ws, "from"@, rels[n - 1].from@)
            + endpoint_issue(ws, "to"@, rels[n - 1].to@)
    }
}

fn declared(ws: &[WorkspaceEntry], id: &str) -> (r: bool)
    ensures
        r == is_declared(ws@, id@),
{
    let mut i: usize = 0;
    while i < ws.len()
        invariant
            i <= ws@.len(),
            forall|j: int| 0 <= j < i ==> (#[trigger] ws@[j]).id@ != id@,
        decreases ws@.len() - i,
    {
        if str_eq(ws[i].id.as_str(), id) {
            return true;
        }
        i = i + 1;
    }
    false
}

fn endpoint_check(ws: &[WorkspaceEntry], role: &str, ep: &str, out: &mut Vec<ManifestIssue>)
    ensures
        issues_view(final(out)@) == issues_view(old(out)@) + endpoint_issue(ws@, role@, ep@),
{
    let w = match split_node_reference(ep) {
        Some((w, _)) => w,
        None => String::from_str(ep),
    };
    let ghost before = issues_view(out@);
    if !declared(ws, w.as_str()) {
        out.push(
            ManifestIssue::UnknownWorkspace {
                role: String::from_str(role),
                endpoint: String::from_str(ep),
                workspace: w,
            },
        );
        assert(issues_view(out@) =~= before + endpoint_issue(ws@, role@, ep@));
    } else {
        assert(issues_view(out@) =~= before + endpoint_issue(ws@, role@, ep@));
    }
}

/// An issue for each relation endpoint naming an undeclared workspace.
pub fn relation_issues(m: &AssemblyManifest) -> (r: Vec<ManifestIssue>)
    ensures
        issues_view(r@) == relation_issues_upto(
            m.workspaces@,
            m.relations@,
            m.relations@.len() as int,
        ),
{
    let mut out: Vec<ManifestIssue> = Vec::new();
    let mut i: usize = 0;
    while i < m.relations.len()
        invariant
            i <= m.relations@.len(),
            issues_view(out@) == relation_issues_upto(m.workspaces@, m.relations@, i as int),
        decreases m.relations@.len() - i,
    {
        let rel = &m.relations[i];
        endpoint_check(m.workspaces.as_slice(), "from", rel.from.as_str(), &mut out);
        endpoint_check(m.workspaces.as_slice(), "to", rel.to.as_str(), &mut out);
        i = i + 1;
    }
    out
}

// ---------------------------------------------------------------------------
// Node references
// ---------------------------------------------------------------------------

pub open spec fn ref_of(ep: Seq<char>) -> Seq<(Seq<char>, Seq<char>)> {
    match node_reference_parts(ep) {
        Some(p) => seq![p],
        None => Seq::empty(),
    }
}

/// The node references of the first `n` relations, `from` before `to`.
pub open spec fn node_refs_upto(rels: Seq<RelationEntry>, n: int) -> Seq<(Seq<char>, Seq<char>)>
    decreases n,
{
    if n <= 0 {
        Seq::empty()
    } else {
        node_refs_upto(rels, n - 1) + ref_of(rels[n - 1].from@) + ref_of(rels[n - 1].to@)
    }
}

pub open spec fn pairs_view(v: Seq<(String, String)>) -> Seq<(Seq<char>, Seq<char>)> {
    v.map_values(|p: (String, String)| (p.0@, p.1@))
}

fn push_ref(out: &mut Vec<(String, String)>, ep: &str)
    ensures
        pairs_view(final(out)@) == pairs_view(old(out)@) + ref_of(ep@),
{
    let ghost before = pairs_view(out@);
    match split_node_reference(ep) {
        Some((w, n)) => {
            out.push((w, n));
            assert(pairs_view(out@) =~= before + ref_of(ep@));
        },
        None => {
            assert(pairs_view(out@) =~= before + ref_of(ep@));
        },
    }
}

/// The `(workspace, node)` references among the relation endpoints.
pub fn node_references(m: &AssemblyManifest) -> (r: Vec<(String, String)>)
    ensures
        pairs_view(r@) == node_refs_upto(m.relations@, m.relations@.len() as int),
{
    let mut out: Vec<(String, String)> = Vec::new();
    let mut i: usize = 0;
    while i < m.relations.len()
        invariant
            i <= m.relations@.len(),
            pairs_view(out@) == node_refs_upto(m.relations@, i as int),
        decreases m.relations@.len() - i,
    {
        push_ref(&mut out, m.relations[i].from.as_str());
        push_ref(&mut out, m.relations[i].to.as_str());
        i = i + 1;
    }
    out
}

/// A workspace graph the caller loaded: its id, and its node ids or the
/// reason it could not be loaded.
#[derive(Debug, PartialEq, Eq)]
pub struct LoadedGraph {
    pub id: String,
    pub nodes: Result<Vec<String>, String>,
}

/// The first loaded graph of workspace `id` (loaded successfully) holds no
/// node `node`.
pub open spec fn node_missing(gs: Seq<LoadedGraph>, id: Seq<char>, node: Seq<char>) -> bool
    decreases gs.len(),
{
    if gs.len() == 0 {
        false
    } else if gs[0].id@ == id && gs[0].nodes is Ok {
        !exists|k: int|
            0 <= k < gs[0].nodes->Ok_0@.len() && (#[trigger] gs[0].nodes->Ok_0@[k])@ == node
    } else {
        node_missing(gs.drop_first(), id, node)
    }
}

/// The load failures among the first `n` graphs.
pub open spec fn load_issues(gs: Seq<LoadedGraph>, n: int) -> Seq<IssueView>
    decreases n,
{
    if n <= 0 {
        Seq::empty()
    } else {
        match gs[n - 1].nodes {
            Err(reason) => load_issues(gs, n - 1).push(
                IssueView::GraphLoad { id: gs[n - 1].id@, reason: reason@ },
            ),
            Ok(_) => load_issues(gs, n - 1),
        }
    }
}

/// The missing-node issues of the first `n` references.
pub open spec fn missing_node_issues(
    refs: Seq<(Seq<char>, Seq<char>)>,
    gs: Seq<LoadedGraph>,
    n: int,
) -> Seq<IssueView>
    decreases n,
{
    if n <= 0 {
        Seq::empty()
    } else {
        let pre = missing_node_issues(refs, gs, n - 1);
        if node_missing(gs, refs[n - 1].0, refs[n - 1].1) {
            pre.push(IssueView::MissingNode { workspace: refs[n - 1].0, node: refs[n - 1].1 })
        } else {
            pre
        }
    }
}

fn text_in(v: &Vec<String>, s: &str) -> (r: bool)
    ensures
        r == exists|k: int| 0 <= k < v@.len() && (#[trigger] v@[k])@ == s@,
{
    let mut i: usize = 0;
    while i < v.len()
        invariant
            i <= v@.len(),
            forall|k: int| 0 <= k < i ==> (#[trigger] v@[k])@ != s@,
        decreases v@.len() - i,
    {
        if str_eq(v[i].as_str(), s) {
            return true;
        }
        i = i + 1;
    }
    false
}

fn is_node_missing(gs: &[LoadedGraph], id: &str, node: &str) -> (r: bool)
    ensures
        r == node_missing(gs@, id@, node@),
{
    let mut i: usize = 0;
    assert(gs@.skip(0) =~= gs@);
    while i < gs.len()
        invariant
            i <= gs@.len(),
            node_missing(gs@, id@, node@) == node_missing(gs@.skip(i as int), id@, node@),
        decreases gs@.len() - i,
    {
        assert(gs@.skip(i as int).drop_first() =~= gs@.skip(i + 1));
        assert(gs@.skip(i as int)[0] == gs@[i as int]);
        let g = &gs[i];
        if str_eq(g.id.as_str(), id) {
            match &g.nodes {
                Ok(ids) => {
                    let present = text_in(ids, node);
                    proof {
                        let t = gs@.skip(i as int);
                        assert(t[0] == gs@[i as int]);
                    }
                    return !present;
                },
                Err(_) => {},
            }
        }
        i = i + 1;
    }
    false
}

/// The issues of the node references: each graph that failed to load, then
/// each reference whose node is missing from its (loaded) workspace graph.
pub fn node_reference_issues(refs: &[(String, String)], graphs: &[LoadedGraph]) -> (r: Vec<
    ManifestIssue,
>)
    ensures
        issues_view(r@) == load_issues(graphs@, graphs@.len() as int) + missing_node_issues(
            pairs_view(refs@),
            graphs@,
            refs@.len() as int,
        ),
{
    let mut out: Vec<ManifestIssue> = Vec::new();
    let mut i: usize = 0;
    while i < graphs.len()
        invariant
            i <= graphs@.len(),
            issues_view(out@) == load_issues(graphs@, i as int),
        decreases graphs@.len() - i,
    {
        match &graphs[i].nodes {
            Err(reason) => {
                let ghost before = issues_view(out@);
                out.push(ManifestIssue::GraphLoad { id: graphs[i].id.clone(), reason: reason.clone() });
                assert(issues_view(out@) =~= before.push(
                    IssueView::GraphLoad { id: graphs@[i as int].id@, reason: reason@ },
                ));
            },
            Ok(_) => {},
        }
        i = i + 1;
    }
    let ghost loads = issues_view(out@);
    let mut j: usize = 0;
    assert(loads + missing_node_issues(pairs_view(refs@), graphs@, 0) =~= loads);
    while j < refs.len()
        invariant
            j <= refs@.len(),
            loads == load_issues(graphs@, graphs@.len() as int),
            issues_view(out@) == loads + missing_node_issues(pairs_view(refs@), graphs@, j as int),
        decreases refs@.len() - j,
    {
        let ghost before = issues_view(out@);
        assert(pairs_view(refs@)[j as int] == (refs@[j as int].0@, refs@[j as int].1@));
        if is_node_missing(graphs, refs[j].0.as_str(), refs[j].1.as_str()) {
            out.push(ManifestIssue::MissingNode { workspace: refs[j].0.clone(), node: refs[j].1.clone() });
            assert(issues_view(out@) =~= before.push(
                IssueView::MissingNode { workspace: refs@[j as int].0@, node: refs@[j as int].1@ },
            ));
        }
        j = j + 1;
    }
    out
}

/// The workspaces whose graphs the first `n` node references need: each
/// declared workspace once, in the order of its first reference, with its
/// root.
pub open spec fn load_list(
    refs: Seq<(Seq<char>, Seq<char>)>,
    roots: Seq<(String, String)>,
    n: int,
) -> Seq<(Seq<char>, Seq<char>)>
    decreases n,
{
    if n <= 0 {
        Seq::empty()
    } else {
        let pre = load_list(refs, roots, n - 1);
        let id = refs[n - 1].0;
        if exists|k: int| 0 <= k < pre.len() && (#[trigger] pre[k]).0 == id {
            pre
        } else {
            match crate::compose::root_in(roots, id) {
                Some(root) => pre.push((id, root)),
                None => pre,
            }
        }
    }
}

/// The workspaces whose graphs the node references need, each declared one
/// once, in the order of first reference, with its root.
pub fn graphs_to_load(refs: &[(String, String)], loaded: &crate::compose::LoadedManifest) -> (r: Vec<
    (String, String),
>)
    ensures
        pairs_view(r@) == load_list(pairs_view(refs@), loaded.roots@, refs@.len() as int),
{
    let mut out: Vec<(String, String)> = Vec::new();
    let mut a: usize = 0;
    while a < refs.len()
        invariant
            a <= refs@.len(),
            pairs_view(out@) == load_list(pairs_view(refs@), loaded.roots@, a as int),
        decreases refs@.len() - a,
    {
        let id = refs[a].0.as_str();
        assert(pairs_view(refs@)[a as int].0 == id@);
        let ghost pre = pairs_view(out@);
        let mut seen = false;
        let mut i: usize = 0;
        while i < out.len()
            invariant
                i <= out@.len(),
                pre == pairs_view(out@),
                seen == exists|k: int| 0 <= k < i && (#[trigger] pre[k]).0 == id@,
            decreases out@.len() - i,
        {
            assert(pre[i as int].0 == out@[i as int].0@);
            if str_eq(out[i].0.as_str(), id) {
                seen = true;
            }
            i = i + 1;
        }
        if !seen {
            match loaded.root_of(id) {
                Some(root) => {
                    out.push((String::from_str(id), String::from_str(root)));
                    assert(pairs_view(out@) =~= pre.push((id@, root@)));
                },
                None => {},
            }
        }
        a = a + 1;
    }
    out
}

/// A manifest whose workspace ids raise no issue has valid, distinct ids —
/// what the merge's unique-id law needs.
pub proof fn lemma_no_id_issues(ws: Seq<WorkspaceEntry>, n: int)
    requires
        0 <= n <= ws.len(),
        id_issues(ws, n).len() == 0,
    ensures
        forall|i: int| 0 <= i < n ==> valid_workspace_id(#[trigger] ws[i].id@),
        forall|i: int, j: int| 0 <= i < j < n ==> (#[trigger] ws[i]).id@ != (#[trigger] ws[j]).id@,
    decreases n,
{
    if n > 0 {
        let a = id_issues(ws, n - 1);
        let b = id_issues_at(ws, n - 1);
        assert(id_issues(ws, n) == a + b);
        assert(a.len() == 0 && b.len() == 0);
        lemma_no_id_issues(ws, n - 1);
        assert(!declared_before(ws, n - 1));
        assert forall|i: int, j: int| 0 <= i < j < n implies (#[trigger] ws[i]).id@ != (
        #[trigger] ws[j]).id@ by {
            if j == n - 1 && ws[i].id@ == ws[j].id@ {
                assert(declared_before(ws, n - 1));
            }
        }
    }
}

// ---------------------------------------------------------------------------
// The report
// ---------------------------------------------------------------------------

/// The text of an issue.
pub open spec fn issue_text(i: IssueView) -> Seq<char> {
    match i {
        IssueView::InvalidId { id, reason } => "workspace `"@ + id + "`: invalid workspace id `"@
            + id + "`: "@ + reason,
        IssueView::DuplicateId(id) => "workspace `"@ + id + "`: id 重複宣告"@,
        IssueView::MissingGraph { id, root } => "workspace `"@ + id + "`: 路徑 `"@ + root
            + "` 下找不到 graphify-out/graph.toon 或 graph.json（先在該 workspace 執行 `graphify index`）"@,
        IssueView::UnknownWorkspace { role, endpoint, workspace } => "relation "@ + role + "=`"@
            + endpoint + "`: 未宣告的 workspace `"@ + workspace + "`"@,
        IssueView::GraphLoad { id, reason } => "workspace `"@ + id + "`: "@ + reason,
        IssueView::MissingNode { workspace, node } => "節點引用 `"@ + workspace + "::"@ + node
            + "` 在 workspace `"@ + workspace + "` 的 graph 中不存在"@,
    }
}

impl ManifestIssue {
    /// The text of the issue.
    pub fn message(&self) -> (s: String)
        ensures
            s@ == issue_text(self@),
    {
        let mut v: Vec<char> = Vec::new();
        match self {
            ManifestIssue::InvalidId { id, reason } => {
                push_str(&mut v, "workspace `");
                push_str(&mut v, id.as_str());
                push_str(&mut v, "`: invalid workspace id `");
                push_str(&mut v, id.as_str());
                push_str(&mut v, "`: ");
                push_str(&mut v, reason.as_str());
            },
            ManifestIssue::DuplicateId(id) => {
                push_str(&mut v, "workspace `");
                push_str(&mut v, id.as_str());
                push_str(&mut v, "`: id 重複宣告");
            },
            ManifestIssue::MissingGraph { id, root } => {
                push_str(&mut v, "workspace `");
                push_str(&mut v, id.as_str());
                push_str(&mut v, "`: 路徑 `");
                push_str(&mut v, root.as_str());
                push_str(
                    &mut v,
                    "` 下找不到 graphify-out/graph.toon 或 graph.json（先在該 workspace 執行 `graphify index`）",
                );
            },
            ManifestIssue::UnknownWorkspace { role, endpoint, workspace } => {
                push_str(&mut v, "relation ");
                push_str(&mut v, role.as_str());
                push_str(&mut v, "=`");
                push_str(&mut v, endpoint.as_str());
                push_str(&mut v, "`: 未宣告的 workspace `");
                push_str(&mut v, workspace.as_str());
                push_str(&mut v, "`");
            },
            ManifestIssue::GraphLoad { id, reason } => {
                push_str(&mut v, "workspace `");
                push_str(&mut v, id.as_str());
                push_str(&mut v, "`: ");
                push_str(&mut v, reason.as_str());
            },
            ManifestIssue::MissingNode { workspace, node } => {
                push_str(&mut v, "節點引用 `");
                push_str(&mut v, workspace.as_str());
                push_str(&mut v, "::");
                push_str(&mut v, node.as_str());
                push_str(&mut v, "` 在 workspace `");
                push_str(&mut v, workspace.as_str());
                push_str(&mut v, "` 的 graph 中不存在");
            },
        }
        assert(v@ =~= issue_text(self@));
        chars_to_string(v.as_slice())
    }
}

/// The issue lines of the first `n` issues, joined by `'\n'`.
pub open spec fn issue_lines(is: Seq<IssueView>, n: int) -> Seq<char>
    decreases n,
{
    if n <= 0 {
        Seq::empty()
    } else if n == 1 {
        "  - "@ + issue_text(is[0])
    } else {
        issue_lines(is, n - 1) + "\n  - "@ + issue_text(is[n - 1])
    }
}

/// The validation report: `None` when there is no issue, else a heading
/// with the issue count and one `  - ` line per issue.
pub open spec fn report_text(is: Seq<IssueView>) -> Option<Seq<char>> {
    if is.len() == 0 {
        None
    } else {
        Some("manifest 驗證失敗（"@ + dec(is.len()) + " 項）:\n"@ + issue_lines(is, is.len() as int))
    }
}

/// The validation report of the collected issues (`None` when valid).
pub fn validation_report(issues: &[ManifestIssue]) -> (r: Option<String>)
    ensures
        match r {
            Some(s) => report_text(issues_view(issues@)) == Some(s@),
            None => report_text(issues_view(issues@)) is None,
        },
{
    let n = issues.len();
    if n == 0 {
        return None;
    }
    let ghost iv = issues_view(issues@);
    let mut v: Vec<char> = Vec::new();
    push_str(&mut v, "manifest 驗證失敗（");
    let d = usize_to_dec(n);
    push_all(&mut v, d.as_slice());
    push_str(&mut v, " 項）:\n");
    let ghost head = v@;
    let mut i: usize = 0;
    while i < n
        invariant
            i <= n,
            n == issues@.len(),
            iv == issues_view(issues@),
            v@ == head + issue_lines(iv, i as int),
        decreases n - i,
    {
        if i > 0 {
            push_str(&mut v, "\n");
        }
        push_str(&mut v, "  - ");
        let m = issues[i].message();
        push_str(&mut v, m.as_str());
        proof {
            assert(iv[i as int] == issues@[i as int]@);
            if i == 0 {
                assert(issue_lines(iv, 0) =~= Seq::<char>::empty());
                assert(v@ =~= head + issue_lines(iv, 1));
            } else {
                reveal_strlit("\n");
                reveal_strlit("  - ");
                reveal_strlit("\n  - ");
                assert("\n"@ + "  - "@ =~= "\n  - "@);
                assert(v@ =~= head + issue_lines(iv, i + 1));
            }
        }
        i = i + 1;
    }
    assert(v@ =~= "manifest 驗證失敗（"@ + dec(n as nat) + " 項）:\n"@ + issue_lines(iv, n as int));
    Some(chars_to_string(v.as_slice()))
}

} // verus!

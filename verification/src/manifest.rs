//! Assembly manifests: which workspaces to compose and the relations
//! between them.
//!
//! Relation endpoints are workspace ids, or node references written
//! `ws-id::node_id`; workspace ids must therefore be non-empty and free of
//! the `::` separator.

use vstd::prelude::*;
use crate::text::{chars_to_string, copy_range, str_chars};

verus! {

/// One workspace entry of a manifest.
#[derive(Debug, Clone, PartialEq, Eq)]
pub struct WorkspaceEntry {
    /// Short identifier used in relations and node references.
    pub id: String,
    /// Filesystem path of the workspace root (relative paths resolve against
    /// the manifest file's directory).
    pub path: String,
}

/// One cross-workspace relation between two endpoints.
#[derive(Debug, Clone, PartialEq, Eq)]
pub struct RelationEntry {
    /// Source endpoint: workspace id or `ws-id::node_id`.
    pub from: String,
    /// Semantic relation type (e.g. `uses`, `audits`, `executes_via`).
    pub relation: String,
    /// Target endpoint: workspace id or `ws-id::node_id`.
    pub to: String,
}

/// The composition instruction sheet.
#[derive(Debug, Clone, PartialEq, Eq)]
pub struct AssemblyManifest {
    pub workspaces: Vec<WorkspaceEntry>,
    pub relations: Vec<RelationEntry>,
}

impl AssemblyManifest {
    /// A manifest with no workspaces and no relations.
    pub fn empty() -> (m: AssemblyManifest)
        ensures
            m.workspaces@.len() == 0,
            m.relations@.len() == 0,
    {
        AssemblyManifest { workspaces: Vec::new(), relations: Vec::new() }
    }
}

/// An invalid workspace id, with the reason.
#[derive(Debug, Clone, PartialEq, Eq)]
pub struct ManifestIdError {
    pub id: String,
    pub reason: String,
}

/// `s` holds the separator `::` starting at `i`.
pub open spec fn sep_at(s: Seq<char>, i: int) -> bool {
    0 <= i && i + 1 < s.len() && s[i] == ':' && s[i + 1] == ':'
}

/// `s` holds the separator `::`.
pub open spec fn contains_sep(s: Seq<char>) -> bool {
    exists|i: int| sep_at(s, i)
}

/// The position of the first `::` in `s`, if any.
pub open spec fn first_sep(s: Seq<char>) -> Option<int>
    decreases s.len(),
{
    if s.len() < 2 {
        None
    } else if s[0] == ':' && s[1] == ':' {
        Some(0)
    } else {
        match first_sep(s.drop_first()) {
            Some(i) => Some(i + 1),
            None => None,
        }
    }
}

pub proof fn lemma_first_sep(s: Seq<char>)
    ensures
        first_sep(s) is Some ==> sep_at(s, first_sep(s)->0) && forall|j: int|
            0 <= j < first_sep(s)->0 ==> !sep_at(s, j),
        first_sep(s) is None ==> !contains_sep(s),
    decreases s.len(),
{
    if s.len() >= 2 && !(s[0] == ':' && s[1] == ':') {
        let t = s.drop_first();
        lemma_first_sep(t);
        assert forall|j: int| 1 <= j implies sep_at(s, j) == sep_at(t, j - 1) by {}
        if first_sep(t) is None {
            assert forall|j: int| !sep_at(s, j) by {
                if j >= 1 {
                    assert(sep_at(s, j) == sep_at(t, j - 1));
                }
            }
        }
    } else if s.len() < 2 {
        assert forall|j: int| !sep_at(s, j) by {}
    }
}

/// Lemma: the first separator is pinned by the positions before it.
pub proof fn lemma_first_sep_at(s: Seq<char>, i: int)
    requires
        sep_at(s, i),
        forall|j: int| 0 <= j < i ==> !sep_at(s, j),
    ensures
        first_sep(s) == Some(i),
{
    lemma_first_sep(s);
    match first_sep(s) {
        Some(k) => {
            if k < i {
                assert(!sep_at(s, k));
            }
            if k > i {
                assert(!sep_at(s, i));
            }
        },
        None => {
            assert(contains_sep(s));
        },
    }
}

/// Position of the first `::` in `s`.
pub fn find_sep(s: &[char]) -> (r: Option<usize>)
    ensures
        match r {
            Some(i) => first_sep(s@) == Some(i as int),
            None => first_sep(s@) is None,
        },
{
    let n = s.len();
    if n < 2 {
        assert(!contains_sep(s@));
        return None;
    }
    let mut i: usize = 0;
    while i < n - 1
        invariant
            n == s@.len(),
            n >= 2,
            forall|j: int| 0 <= j < i ==> !sep_at(s@, j),
        decreases n - i,
    {
        if s[i] == ':' && s[i + 1] == ':' {
            proof {
                lemma_first_sep_at(s@, i as int);
            }
            return Some(i);
        }
        i = i + 1;
    }
    assert(!contains_sep(s@)) by {
        if contains_sep(s@) {
            let k = choose|k: int| sep_at(s@, k);
            assert(k < i || k + 1 >= n);
        }
    }
    proof {
        lemma_first_sep(s@);
    }
    None
}

pub fn has_sep(s: &[char]) -> (r: bool)
    ensures
        r == contains_sep(s@),
{
    proof {
        lemma_first_sep(s@);
    }
    match find_sep(s) {
        Some(i) => true,
        None => false,
    }
}

pub open spec fn id_empty_reason() -> Seq<char> {
    "id must not be empty"@
}

pub open spec fn id_sep_reason() -> Seq<char> {
    "id must not contain `::` (reserved for node references)"@
}

/// A workspace id is valid when it is non-empty and free of `::`.
pub open spec fn valid_workspace_id(id: Seq<char>) -> bool {
    id.len() > 0 && !contains_sep(id)
}

impl WorkspaceEntry {
    /// Validates the workspace id: non-empty and free of `::`.
    pub fn validate_id(&self) -> (r: Result<(), ManifestIdError>)
        ensures
            r is Ok <==> valid_workspace_id(self.id@),
            self.id@.len() == 0 ==> (r matches Err(e) && e.id@ == self.id@ && e.reason@
                == id_empty_reason()),
            self.id@.len() > 0 && contains_sep(self.id@) ==> (r matches Err(e) && e.id@
                == self.id@ && e.reason@ == id_sep_reason()),
    {
        let v = str_chars(self.id.as_str());
        if v.len() == 0 {
            return Err(
                ManifestIdError {
                    id: self.id.clone(),
                    reason: String::from_str("id must not be empty"),
                },
            );
        }
        if has_sep(v.as_slice()) {
            return Err(
                ManifestIdError {
                    id: self.id.clone(),
                    reason: String::from_str(
                        "id must not contain `::` (reserved for node references)",
                    ),
                },
            );
        }
        Ok(())
    }
}

/// What `split_node_reference` gives for a reference.
pub open spec fn node_reference_parts(s: Seq<char>) -> Option<(Seq<char>, Seq<char>)> {
    match first_sep(s) {
        None => None,
        Some(i) => {
            let ws = s.subrange(0, i);
            let node = s.subrange(i + 2, s.len() as int);
            if contains_sep(node) || ws.len() == 0 || node.len() == 0 {
                None
            } else {
                Some((ws, node))
            }
        },
    }
}

/// Splits a node reference `ws-id::node_id` at its first `::`.  A plain
/// workspace id, an empty side, or a second `::` gives `None`.
pub fn split_node_reference(reference: &str) -> (r: Option<(String, String)>)
    ensures
        match r {
            Some((ws, node)) => node_reference_parts(reference@) == Some((ws@, node@)),
            None => node_reference_parts(reference@) is None,
        },
{
    let s = str_chars(reference);
    match find_sep(s.as_slice()) {
        None => None,
        Some(i) => {
            let n = s.len();
            assert(i + 1 < n) by {
                lemma_first_sep(s@);
            }
            let ws = copy_range(s.as_slice(), 0, i);
            let node = copy_range(s.as_slice(), i + 2, n);
            if has_sep(node.as_slice()) || ws.len() == 0 || node.len() == 0 {
                None
            } else {
                Some((chars_to_string(ws.as_slice()), chars_to_string(node.as_slice())))
            }
        },
    }
}

/// The text of a node reference `ws::node`.
pub open spec fn node_reference(ws: Seq<char>, node: Seq<char>) -> Seq<char> {
    ws + seq![':', ':'] + node
}

/// Law: a node reference built from a workspace id and a node id splits
/// back into them, provided neither part holds `::`, the workspace id does
/// not end in `:` (else the separator would start earlier), and both parts
/// are non-empty.
pub proof fn lemma_split_node_reference(ws: Seq<char>, node: Seq<char>)
    requires
        ws.len() > 0,
        node.len() > 0,
        !contains_sep(ws),
        ws.last() != ':',
        !contains_sep(node),
    ensures
        node_reference_parts(node_reference(ws, node)) == Some((ws, node)),
{
    let s = node_reference(ws, node);
    let k = ws.len() as int;
    assert(sep_at(s, k));
    assert forall|j: int| 0 <= j < k implies !sep_at(s, j) by {
        if j + 1 < k {
            assert(s[j] == ws[j]);
            assert(s[j + 1] == ws[j + 1]);
            if sep_at(s, j) {
                assert(sep_at(ws, j));
            }
        } else {
            assert(s[j] == ws[ws.len() - 1]);
        }
    }
    lemma_first_sep_at(s, k);
    assert(s.subrange(0, k) =~= ws);
    assert(s.subrange(k + 2, s.len() as int) =~= node);
}

} // verus!

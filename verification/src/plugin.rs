//! The embedded plugin contract, the workspace identity a plugin binds to,
//! and the graph-update event plugins receive.

use vstd::prelude::*;
use crate::text::{chars_to_string, hex, is_lower_hex_digit, lemma_hex_u64_shape, u64_to_hex};
use crate::types::NodeId;

verus! {

/// Identity and routing context for a bound workspace.
#[derive(Debug, Clone, PartialEq, Eq)]
pub struct WorkspaceContext {
    /// Stable routing identifier, e.g. `"w-9f8a2b1c-8e7d-4c3b"`.
    pub workspace_key: String,
    /// Human-readable workspace name.
    pub workspace_name: String,
    /// Absolute filesystem root of the workspace.
    pub root_path: String,
    /// Unix epoch seconds at context creation.
    pub timestamp: i64,
}

/// The context timestamp for a clock reading: the seconds when they fit in
/// an `i64`, `i64::MAX` when they do not, 0 for a clock before the epoch.
pub fn timestamp_of(secs: Option<u64>) -> (t: i64)
    ensures
        t == match secs {
            None => 0,
            Some(v) => if v <= i64::MAX {
                v as int
            } else {
                i64::MAX as int
            },
        },
{
    match secs {
        None => 0,
        Some(v) => if v <= 0x7fff_ffff_ffff_ffffu64 {
            v as i64
        } else {
            i64::MAX
        },
    }
}

/// Seconds since the Unix epoch: [`timestamp_of`] the system clock's reading.
pub fn now_epoch_seconds() -> (t: i64)
    ensures
        t >= 0,
{
    timestamp_of(crate::clock::epoch_seconds())
}

impl WorkspaceContext {
    /// Creates a context stamped with the current Unix time.
    pub fn new(workspace_key: &str, workspace_name: &str, root_path: &str) -> (c: Self)
        ensures
            c.workspace_key@ == workspace_key@,
            c.workspace_name@ == workspace_name@,
            c.root_path@ == root_path@,
            c.timestamp >= 0,
    {
        WorkspaceContext {
            workspace_key: String::from_str(workspace_key),
            workspace_name: String::from_str(workspace_name),
            root_path: String::from_str(root_path),
            timestamp: now_epoch_seconds(),
        }
    }
}

/// The `DefaultHasher` (SipHash) digest of a filesystem path.
pub uninterp spec fn path_hash(p: Seq<char>) -> u64;

/// Hashes `Path::new(p)` with a fresh `std::collections::hash_map::DefaultHasher`.
/// The contract names the digest: a fresh `DefaultHasher` is unseeded, so the
/// digest depends on the path alone.
#[verifier::external_body]
fn hash_path(p: &str) -> (h: u64)
    ensures
        h == path_hash(p@),
{
    let mut hasher = std::collections::hash_map::DefaultHasher::new();
    std::hash::Hash::hash(std::path::Path::new(p), &mut hasher);
    std::hash::Hasher::finish(&hasher)
}

/// Derives the stable `workspace_key` of a workspace from its canonical root
/// path: the lower-case hexadecimal `DefaultHasher` digest of the path.
pub fn derive_workspace_key(canonical_root: &str) -> (k: String)
    ensures
        k@ == hex(path_hash(canonical_root@) as nat),
        1 <= k@.len() <= 16,
        forall|i: int| 0 <= i < k@.len() ==> is_lower_hex_digit(#[trigger] k@[i]),
{
    proof {
        lemma_workspace_key_shape(canonical_root@, canonical_root@);
    }
    let h = hash_path(canonical_root);
    let v = u64_to_hex(h);
    chars_to_string(v.as_slice())
}

/// The workspace key of any path is 1 to 16 lower-case hexadecimal digits,
/// and the same path always gives the same key.
pub proof fn lemma_workspace_key_shape(canonical_root: Seq<char>, other: Seq<char>)
    ensures
        1 <= hex(path_hash(canonical_root) as nat).len() <= 16,
        forall|i: int|
            0 <= i < hex(path_hash(canonical_root) as nat).len() ==> is_lower_hex_digit(
                #[trigger] hex(path_hash(canonical_root) as nat)[i],
            ),
        other == canonical_root ==> hex(path_hash(other) as nat) == hex(
            path_hash(canonical_root) as nat,
        ),
{
    lemma_hex_u64_shape(path_hash(canonical_root));
}

/// What triggered a graph update broadcast.
#[derive(Debug, Clone, Copy, PartialEq, Eq, Structural)]
#[non_exhaustive]
pub enum GraphUpdateKind {
    /// A `graphify index` run completed.
    Indexed,
    /// A `graphify extract` run completed.
    Extracted,
    /// An explicit user or script trigger.
    Manual,
}

/// A graph-update notification delivered to bound plugins.
#[derive(Debug, Clone, PartialEq, Eq)]
pub struct GraphUpdateEvent {
    /// The workspace the update belongs to (routing key).
    pub workspace_key: String,
    /// Node identifiers affected by this update.
    pub modified_nodes: Vec<NodeId>,
    /// What triggered this update.
    pub event: GraphUpdateKind,
}

impl GraphUpdateEvent {
    /// Creates a new graph-update event.
    pub fn new(workspace_key: &str, modified_nodes: Vec<NodeId>, event: GraphUpdateKind) -> (e:
        Self)
        ensures
            e.workspace_key@ == workspace_key@,
            e.modified_nodes == modified_nodes,
            e.event == event,
    {
        GraphUpdateEvent { workspace_key: String::from_str(workspace_key), modified_nodes, event }
    }
}

/// The embedded plugin contract.  A plugin is bound to one workspace with
/// `bind`, after which `get_workspace_key` returns that workspace's key; it
/// returns an empty string before binding.
pub trait GraphifyPlugin {
    /// The plugin's unique identifier, e.g. `"graphify-plugin-handoff"`.
    fn get_id(&self) -> &str;

    /// Binds this plugin to a workspace context.
    fn bind(&mut self, ctx: WorkspaceContext);

    /// The workspace key this plugin is bound to (empty before `bind`).
    fn get_workspace_key(&self) -> &str;

    /// Synchronizes a `.toon` payload (`Some`: passive sync of an external
    /// payload; `None`: proactive sync from the bound context) and returns the
    /// processed output.
    fn sync_toon(&mut self, opt_toon: Option<Vec<u8>>) -> Vec<u8>;

    /// Receives a graph-update notification; does nothing unless overridden.
    fn on_graph_updated(&mut self, event: &GraphUpdateEvent) {
    }
}

} // verus!

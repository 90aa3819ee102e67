//! Plugin-domain memory: isolated, workspace-scoped, versioned records.
//!
//! Plugins identify themselves by `plugin_id` only; no operation accepts a
//! raw storage name.  The storage name is derived here, and only
//! `[a-zA-Z0-9_-]` identifiers are accepted, so a derived name can neither
//! traverse the file system nor name the core-memory collection.  Records
//! live in one JSON-lines file per plugin collection and workspace,
//! `<base>/<collection>/<workspace_key>.jsonl`, upserted by `record_id`.

use vstd::prelude::*;
use vstd::utf8::encode_utf8;
use crate::text::{chars_to_string, push_str, str_chars, str_eq};

verus! {

/// Why a plugin-domain memory request is refused.
#[derive(Debug, Clone, PartialEq, Eq)]
pub enum DomainMemoryError {
    /// `plugin_id` is empty.
    EmptyPluginId,
    /// `plugin_id` is longer than 240 bytes (its length given).
    PluginIdTooLong(usize),
    /// `plugin_id` holds a character outside `[a-zA-Z0-9_-]`.
    InvalidPluginId,
    /// `workspace_key` is empty.
    EmptyWorkspaceKey,
    /// `record_id` is empty.
    EmptyRecordId,
}

/// Maximum byte length of a plugin identifier.
pub const MAX_PLUGIN_ID_BYTES: usize = 240;

/// `[a-zA-Z0-9_-]`.
pub open spec fn id_char(c: char) -> bool {
    ('a' <= c && c <= 'z') || ('A' <= c && c <= 'Z') || ('0' <= c && c <= '9') || c == '_' || c
        == '-'
}

/// `graphify_plugin_`.
pub open spec fn collection_prefix() -> Seq<char> {
    "graphify_plugin_"@
}

/// The storage name of a plugin's domain memory, or why there is none.
pub open spec fn collection_name(plugin_id: Seq<char>) -> Result<Seq<char>, DomainMemoryError> {
    if plugin_id.len() == 0 {
        Err(DomainMemoryError::EmptyPluginId)
    } else if encode_utf8(plugin_id).len() > MAX_PLUGIN_ID_BYTES {
        Err(DomainMemoryError::PluginIdTooLong(encode_utf8(plugin_id).len() as usize))
    } else if exists|i: int| 0 <= i < plugin_id.len() && !id_char(#[trigger] plugin_id[i]) {
        Err(DomainMemoryError::InvalidPluginId)
    } else {
        Ok(collection_prefix() + plugin_id)
    }
}

/// Derives the system-managed storage name of a plugin's domain memory:
/// `graphify_plugin_<plugin_id>`, for a non-empty identifier of at most 240
/// bytes made of `[a-zA-Z0-9_-]`.
pub fn plugin_collection_name(plugin_id: &str) -> (r: Result<String, DomainMemoryError>)
    ensures
        match r {
            Ok(s) => collection_name(plugin_id@) == Ok::<Seq<char>, DomainMemoryError>(s@),
            Err(e) => collection_name(plugin_id@) == Err::<Seq<char>, DomainMemoryError>(e),
        },
{
    let cs = str_chars(plugin_id);
    if cs.len() == 0 {
        return Err(DomainMemoryError::EmptyPluginId);
    }
    let n = plugin_id.as_bytes().len();
    if n > MAX_PLUGIN_ID_BYTES {
        return Err(DomainMemoryError::PluginIdTooLong(n));
    }
    let mut i: usize = 0;
    while i < cs.len()
        invariant
            i <= cs@.len(),
            cs@ == plugin_id@,
            plugin_id@.len() > 0,
            encode_utf8(plugin_id@).len() <= MAX_PLUGIN_ID_BYTES,
            forall|j: int| 0 <= j < i ==> id_char(#[trigger] cs@[j]),
        decreases cs@.len() - i,
    {
        let c = cs[i];
        let ok = ('a' <= c && c <= 'z') || ('A' <= c && c <= 'Z') || ('0' <= c && c <= '9') || c
            == '_' || c == '-';
        if !ok {
            assert(!id_char(plugin_id@[i as int]));
            assert(exists|j: int| 0 <= j < plugin_id@.len() && !id_char(#[trigger] plugin_id@[j]));
            assert(encode_utf8(plugin_id@).len() <= MAX_PLUGIN_ID_BYTES);
            return Err(DomainMemoryError::InvalidPluginId);
        }
        i = i + 1;
    }
    let mut v: Vec<char> = Vec::new();
    push_str(&mut v, "graphify_plugin_");
    push_str(&mut v, plugin_id);
    Ok(chars_to_string(v.as_slice()))
}

/// `PathBuf::push` on Unix: an absolute segment replaces the path; otherwise
/// a `'/'` separates the two unless the path is empty or already ends with
/// one.
pub open spec fn join_path(base: Seq<char>, seg: Seq<char>) -> Seq<char> {
    if seg.len() > 0 && seg[0] == '/' {
        seg
    } else if base.len() > 0 && base.last() != '/' {
        base + seq!['/'] + seg
    } else {
        base + seg
    }
}

/// `Path::join` of two paths given as text (Unix).
pub fn join_paths(base: &str, seg: &str) -> (r: String)
    ensures
        r@ == join_path(base@, seg@),
{
    let b = str_chars(base);
    let s = str_chars(seg);
    if s.len() > 0 && s[0] == '/' {
        return chars_to_string(s.as_slice());
    }
    let mut v = b;
    if v.len() > 0 && v[v.len() - 1] != '/' {
        v.push('/');
    }
    push_str(&mut v, seg);
    proof {
        if base@.len() > 0 && base@.last() != '/' {
            assert(v@ =~= base@ + seq!['/'] + seg@);
        } else {
            assert(v@ =~= base@ + seg@);
        }
    }
    chars_to_string(v.as_slice())
}

/// The key fields of a stored record.
#[derive(Debug, Clone, PartialEq, Eq)]
pub struct RecordKey {
    pub workspace_key: String,
    pub record_kind: String,
}

/// File-backed plugin-domain memory rooted at a base directory.
#[derive(Debug, Clone, PartialEq, Eq)]
pub struct PluginDomainMemory {
    base_dir: String,
}

/// The record file of a collection and workspace under `base`.
pub open spec fn record_file(base: Seq<char>, collection: Seq<char>, workspace_key: Seq<char>) -> Seq<
    char,
> {
    join_path(join_path(base, collection), workspace_key + ".jsonl"@)
}

/// The data directory (`dirs::data_dir`), as text.
#[verifier::external_body]
fn data_dir() -> (d: Option<String>) {
    dirs::data_dir().map(|p| p.to_string_lossy().into_owned())
}

/// `<data>/graphify/plugin-memory`, with `.graphify-plugin-memory` for the
/// data directory when there is none.
pub open spec fn memory_dir_under(data: Option<Seq<char>>) -> Seq<char> {
    join_path(
        join_path(
            match data {
                Some(d) => d,
                None => ".graphify-plugin-memory"@,
            },
            "graphify"@,
        ),
        "plugin-memory"@,
    )
}

/// The plugin-memory directory under a given data directory.
pub fn plugin_memory_dir(data: Option<&str>) -> (p: String)
    ensures
        p@ == memory_dir_under(
            match data {
                Some(d) => Some(d@),
                None => None,
            },
        ),
{
    let base = match data {
        Some(d) => d,
        None => ".graphify-plugin-memory",
    };
    let a = join_paths(base, "graphify");
    join_paths(a.as_str(), "plugin-memory")
}

/// The `DefaultHasher` (SipHash) digest of two strings hashed in turn.
pub uninterp spec fn pair_hash(a: Seq<char>, b: Seq<char>) -> u64;

/// Hashes `a` then `b` with a fresh `std::collections::hash_map::DefaultHasher`;
/// a fresh `DefaultHasher` is unseeded, so the digest depends on the two
/// texts alone.
#[verifier::external_body]
fn hash_pair(a: &str, b: &str) -> (h: u64)
    ensures
        h == pair_hash(a@, b@),
{
    let mut hasher = std::collections::hash_map::DefaultHasher::new();
    std::hash::Hash::hash(a, &mut hasher);
    std::hash::Hash::hash(b, &mut hasher);
    std::hash::Hasher::finish(&hasher)
}

/// The deterministic point id of a record: the digest of its workspace key
/// and record id, so the same record id in two workspaces gets two points.
pub fn record_point_id(workspace_key: &str, record_id: &str) -> (h: u64)
    ensures
        h == pair_hash(workspace_key@, record_id@),
{
    hash_pair(workspace_key, record_id)
}

impl PluginDomainMemory {
    pub closed spec fn base(&self) -> Seq<char> {
        self.base_dir@
    }

    /// The default store directory: `graphify/plugin-memory` under the data
    /// directory, or under `.graphify-plugin-memory` without one.
    pub fn default_dir() -> (p: String)
        ensures
            p@ == memory_dir_under(None) || exists|d: Seq<char>| p@ == memory_dir_under(Some(d)),
    {
        let data = data_dir();
        match data {
            Some(d) => plugin_memory_dir(Some(d.as_str())),
            None => plugin_memory_dir(None),
        }
    }

    /// A store rooted at `base_dir`.
    pub fn new(base_dir: &str) -> (m: Self)
        ensures
            m.base() == base_dir@,
    {
        PluginDomainMemory { base_dir: String::from_str(base_dir) }
    }

    /// The root directory.
    pub fn base_dir(&self) -> (s: &str)
        ensures
            s@ == self.base(),
    {
        self.base_dir.as_str()
    }

    /// `<base>/<collection>/<workspace_key>.jsonl`.
    pub fn file_path(&self, collection: &str, workspace_key: &str) -> (p: String)
        ensures
            p@ == record_file(self.base(), collection@, workspace_key@),
    {
        let dir = join_paths(self.base_dir.as_str(), collection);
        let mut name: Vec<char> = Vec::new();
        push_str(&mut name, workspace_key);
        push_str(&mut name, ".jsonl");
        let name_s = chars_to_string(name.as_slice());
        join_paths(dir.as_str(), name_s.as_str())
    }

    /// The file a record of `plugin_id` in `workspace_key` with `record_id`
    /// is written to, after validating the three.
    pub fn put_target(&self, plugin_id: &str, workspace_key: &str, record_id: &str) -> (r: Result<
        String,
        DomainMemoryError,
    >)
        ensures
            match collection_name(plugin_id@) {
                Err(e) => r == Err::<String, DomainMemoryError>(e),
                Ok(c) => if workspace_key@.len() == 0 {
                    r == Err::<String, DomainMemoryError>(DomainMemoryError::EmptyWorkspaceKey)
                } else if record_id@.len() == 0 {
                    r == Err::<String, DomainMemoryError>(DomainMemoryError::EmptyRecordId)
                } else {
                    r matches Ok(p) && p@ == record_file(self.base(), c, workspace_key@)
                },
            },
    {
        let collection = match plugin_collection_name(plugin_id) {
            Ok(c) => c,
            Err(e) => {
                return Err(e);
            },
        };
        if workspace_key.is_empty() {
            return Err(DomainMemoryError::EmptyWorkspaceKey);
        }
        if record_id.is_empty() {
            return Err(DomainMemoryError::EmptyRecordId);
        }
        Ok(self.file_path(collection.as_str(), workspace_key))
    }

    /// The file the records of `plugin_id` in `workspace_key` are read from,
    /// after validating the two.
    pub fn query_target(&self, plugin_id: &str, workspace_key: &str) -> (r: Result<
        String,
        DomainMemoryError,
    >)
        ensures
            match collection_name(plugin_id@) {
                Err(e) => r == Err::<String, DomainMemoryError>(e),
                Ok(c) => if workspace_key@.len() == 0 {
                    r == Err::<String, DomainMemoryError>(DomainMemoryError::EmptyWorkspaceKey)
                } else {
                    r matches Ok(p) && p@ == record_file(self.base(), c, workspace_key@)
                },
            },
    {
        let collection = match plugin_collection_name(plugin_id) {
            Ok(c) => c,
            Err(e) => {
                return Err(e);
            },
        };
        if workspace_key.is_empty() {
            return Err(DomainMemoryError::EmptyWorkspaceKey);
        }
        Ok(self.file_path(collection.as_str(), workspace_key))
    }
}

/// A record is kept by a query when it belongs to the workspace and, when a
/// kind is asked for, is of that kind.
pub open spec fn record_selected(r: RecordKey, workspace_key: Seq<char>, kind: Option<Seq<char>>) -> bool {
    r.workspace_key@ == workspace_key && match kind {
        Some(k) => r.record_kind@ == k,
        None => true,
    }
}

/// The indices below `n` of the selected records, in order.
pub open spec fn selected_upto(
    rs: Seq<RecordKey>,
    workspace_key: Seq<char>,
    kind: Option<Seq<char>>,
    n: int,
) -> Seq<usize>
    decreases n,
{
    if n <= 0 {
        Seq::empty()
    } else {
        let pre = selected_upto(rs, workspace_key, kind, n - 1);
        if record_selected(rs[n - 1], workspace_key, kind) {
            pre.push((n - 1) as usize)
        } else {
            pre
        }
    }
}

/// At most the first `k` elements of `s`.
pub open spec fn take_at_most<A>(s: Seq<A>, k: int) -> Seq<A> {
    if s.len() <= k {
        s
    } else {
        s.subrange(0, k)
    }
}

/// The effective query limit: 100 when 0 is asked for.
pub open spec fn effective_limit(limit: usize) -> usize {
    if limit == 0 {
        100
    } else {
        limit
    }
}

/// The indices of the records a query returns, in file order: those of the
/// workspace (and of the kind, when given), capped at the limit (100 when 0).
pub fn select_records(
    records: &[RecordKey],
    workspace_key: &str,
    record_kind: Option<&str>,
    limit: usize,
) -> (r: Vec<usize>)
    ensures
        r@ == take_at_most(
            selected_upto(
                records@,
                workspace_key@,
                match record_kind {
                    Some(k) => Some(k@),
                    None => None,
                },
                records@.len() as int,
            ),
            effective_limit(limit) as int,
        ),
{
    let ghost kind = match record_kind {
        Some(k) => Some(k@),
        None => None,
    };
    let lim: usize = if limit == 0 {
        100
    } else {
        limit
    };
    let mut out: Vec<usize> = Vec::new();
    let mut i: usize = 0;
    while i < records.len()
        invariant
            i <= records@.len(),
            lim == effective_limit(limit),
            kind == match record_kind {
                Some(k) => Some(k@),
                None => None::<Seq<char>>,
            },
            out@ == take_at_most(selected_upto(records@, workspace_key@, kind, i as int), lim as int),
        decreases records@.len() - i,
    {
        let r = &records[i];
        let mut keep = str_eq(r.workspace_key.as_str(), workspace_key);
        match record_kind {
            Some(k) => {
                keep = keep && str_eq(r.record_kind.as_str(), k);
            },
            None => {},
        }
        let ghost pre = selected_upto(records@, workspace_key@, kind, i as int);
        assert(keep == record_selected(records@[i as int], workspace_key@, kind));
        if keep && out.len() < lim {
            out.push(i);
        }
        proof {
            let next = selected_upto(records@, workspace_key@, kind, i + 1);
            if keep {
                assert(next == pre.push(i));
                if pre.len() < lim {
                    assert(out@ =~= take_at_most(next, lim as int));
                } else {
                    assert(take_at_most(next, lim as int) =~= take_at_most(pre, lim as int));
                }
            } else {
                assert(next == pre);
            }
        }
        i = i + 1;
    }
    out
}

/// The indices of the stored lines an upsert of `record_id` keeps: those
/// whose record parsed (`Some`) with another `record_id`.
pub open spec fn kept_upto(ids: Seq<Option<String>>, record_id: Seq<char>, n: int) -> Seq<usize>
    decreases n,
{
    if n <= 0 {
        Seq::empty()
    } else {
        let pre = kept_upto(ids, record_id, n - 1);
        if ids[n - 1] matches Some(r) && r@ != record_id {
            pre.push((n - 1) as usize)
        } else {
            pre
        }
    }
}

/// The stored lines an upsert of `record_id` keeps before appending the new
/// record: every line whose record parsed and has another `record_id`.
pub fn kept_on_upsert(ids: &[Option<String>], record_id: &str) -> (r: Vec<usize>)
    ensures
        r@ == kept_upto(ids@, record_id@, ids@.len() as int),
{
    let mut out: Vec<usize> = Vec::new();
    let mut i: usize = 0;
    while i < ids.len()
        invariant
            i <= ids@.len(),
            out@ == kept_upto(ids@, record_id@, i as int),
        decreases ids@.len() - i,
    {
        match &ids[i] {
            Some(r) => {
                if !str_eq(r.as_str(), record_id) {
                    out.push(i);
                }
            },
            None => {},
        }
        i = i + 1;
    }
    out
}

// ---------------------------------------------------------------------------
// Laws
// ---------------------------------------------------------------------------

/// A derived storage name carries the plugin prefix, holds neither `'/'`
/// nor `'.'` (no path traversal), differs from every name without the
/// prefix (such as the core-memory collection), and differs between
/// plugins.
pub proof fn lemma_collection_name_isolated(id: Seq<char>, other_id: Seq<char>, core: Seq<char>)
    requires
        !(core.len() >= collection_prefix().len() && core.subrange(
            0,
            collection_prefix().len() as int,
        ) == collection_prefix()),
    ensures
        collection_name(id) matches Ok(c) ==> {
            &&& c.subrange(0, collection_prefix().len() as int) == collection_prefix()
            &&& c != core
            &&& forall|i: int|
                collection_prefix().len() <= i < c.len() ==> c[i] != '/' && c[i] != '.'
        },
        id != other_id && collection_name(id) is Ok && collection_name(other_id) is Ok
            ==> collection_name(id) != collection_name(other_id),
{
    if let Ok(c) = collection_name(id) {
        let p = collection_prefix();
        assert(c.subrange(0, p.len() as int) =~= p);
        assert forall|i: int| p.len() <= i < c.len() implies c[i] != '/' && c[i] != '.' by {
            assert(c[i] == id[i - p.len()]);
            assert(id_char(id[i - p.len()]));
        }
        if let Ok(d) = collection_name(other_id) {
            if c == d {
                assert(id =~= c.subrange(p.len() as int, c.len() as int));
                assert(other_id =~= d.subrange(p.len() as int, d.len() as int));
            }
        }
    }
}

/// Every record a query selects belongs to the asked workspace (and kind),
/// and a query returns at most its effective limit.
pub proof fn lemma_selected_records_scoped(
    rs: Seq<RecordKey>,
    workspace_key: Seq<char>,
    kind: Option<Seq<char>>,
    n: int,
    limit: usize,
)
    requires
        0 <= n <= rs.len() <= usize::MAX,
    ensures
        forall|j: int|
            0 <= j < selected_upto(rs, workspace_key, kind, n).len() ==> {
                let i = #[trigger] selected_upto(rs, workspace_key, kind, n)[j];
                i < n && record_selected(rs[i as int], workspace_key, kind)
            },
        take_at_most(selected_upto(rs, workspace_key, kind, n), effective_limit(limit) as int).len()
            <= effective_limit(limit),
    decreases n,
{
    if n > 0 {
        lemma_selected_records_scoped(rs, workspace_key, kind, n - 1, limit);
        let pre = selected_upto(rs, workspace_key, kind, n - 1);
        let cur = selected_upto(rs, workspace_key, kind, n);
        assert forall|j: int| 0 <= j < cur.len() implies (#[trigger] cur[j]) < n && record_selected(
            rs[cur[j] as int],
            workspace_key,
            kind,
        ) by {
            if j < pre.len() {
                assert(cur[j] == pre[j]);
            } else {
                assert(cur[j] == (n - 1) as usize);
            }
        }
    }
}

} // verus!

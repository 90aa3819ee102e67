//! The managed local vector-store process: where its files live, the
//! environment it is started with, and where its release is fetched from.

use vstd::prelude::*;
use crate::domain_memory::{join_path, join_paths};
use crate::text::{chars_to_string, dec, push_str, str_eq, usize_to_dec};

verus! {

/// The home directory (`dirs::home_dir`), as text.
#[verifier::external_body]
fn home_dir() -> (h: Option<String>) {
    dirs::home_dir().map(|p| p.to_string_lossy().into_owned())
}

/// `Path::is_absolute` on Unix.
pub open spec fn is_absolute(p: Seq<char>) -> bool {
    p.len() > 0 && p[0] == '/'
}

/// A path resolved against a home directory: an absolute path as it is,
/// else joined onto the home directory, or as it is without one.
pub open spec fn resolved_under(path: Seq<char>, home: Option<Seq<char>>) -> Seq<char> {
    if is_absolute(path) {
        path
    } else {
        match home {
            Some(h) => join_path(h, path),
            None => path,
        }
    }
}

/// Resolves a possibly relative path against the given home directory.
pub fn resolve_under(path: &str, home: Option<&str>) -> (r: String)
    ensures
        r@ == resolved_under(
            path@,
            match home {
                Some(h) => Some(h@),
                None => None,
            },
        ),
{
    let v = crate::text::str_chars(path);
    if v.len() > 0 && v[0] == '/' {
        return String::from_str(path);
    }
    match home {
        Some(h) => join_paths(h, path),
        None => String::from_str(path),
    }
}

/// Resolves a possibly relative path against `$HOME`: an absolute path is
/// kept, a relative one joined onto the home directory (kept when there is
/// none).
pub fn resolve_path(path: &str) -> (r: String)
    ensures
        is_absolute(path@) ==> r@ == path@,
        !is_absolute(path@) ==> r@ == path@ || exists|h: Seq<char>| r@ == join_path(h, path@),
{
    let home = home_dir();
    match home {
        Some(h) => resolve_under(path, Some(h.as_str())),
        None => resolve_under(path, None),
    }
}

/// The environment overrides the process is started with: HTTP and gRPC
/// ports, storage path, telemetry off and error-level logging.
pub open spec fn qdrant_env_spec(storage_dir: Seq<char>, http_port: u16, grpc_port: u16) -> Seq<
    (Seq<char>, Seq<char>),
> {
    seq![
        ("QDRANT__SERVICE__HTTP_PORT"@, dec(http_port as nat)),
        ("QDRANT__SERVICE__GRPC_PORT"@, dec(grpc_port as nat)),
        ("QDRANT__STORAGE__STORAGE_PATH"@, storage_dir),
        ("QDRANT__TELEMETRY_DISABLED"@, "true"@),
        ("QDRANT__LOG_LEVEL"@, "error"@),
    ]
}

pub open spec fn env_view(v: Seq<(String, String)>) -> Seq<(Seq<char>, Seq<char>)> {
    v.map_values(|p: (String, String)| (p.0@, p.1@))
}

fn port_text(p: u16) -> (s: String)
    ensures
        s@ == dec(p as nat),
{
    let d = usize_to_dec(p as usize);
    chars_to_string(d.as_slice())
}

/// The environment of the spawned process, `(name, value)` in order.
pub fn qdrant_env(storage_dir: &str, http_port: u16, grpc_port: u16) -> (r: Vec<(String, String)>)
    ensures
        env_view(r@) == qdrant_env_spec(storage_dir@, http_port, grpc_port),
{
    let mut r: Vec<(String, String)> = Vec::new();
    r.push((String::from_str("QDRANT__SERVICE__HTTP_PORT"), port_text(http_port)));
    r.push((String::from_str("QDRANT__SERVICE__GRPC_PORT"), port_text(grpc_port)));
    r.push((String::from_str("QDRANT__STORAGE__STORAGE_PATH"), String::from_str(storage_dir)));
    r.push((String::from_str("QDRANT__TELEMETRY_DISABLED"), String::from_str("true")));
    r.push((String::from_str("QDRANT__LOG_LEVEL"), String::from_str("error")));
    assert(env_view(r@) =~= qdrant_env_spec(storage_dir@, http_port, grpc_port));
    r
}

/// `qdrant-<target>.tar.gz`.
pub open spec fn asset_name(target: Seq<char>) -> Seq<char> {
    "qdrant-"@ + target + ".tar.gz"@
}

fn asset_name_of(target: &str) -> (s: String)
    ensures
        s@ == asset_name(target@),
{
    let mut v: Vec<char> = Vec::new();
    push_str(&mut v, "qdrant-");
    push_str(&mut v, target);
    push_str(&mut v, ".tar.gz");
    chars_to_string(v.as_slice())
}

/// The release asset address and the release metadata address of a
/// version and target.
pub fn release_urls(version: &str, target: &str) -> (r: (String, String))
    ensures
        r.0@ == "https://github.com/qdrant/qdrant/releases/download/"@ + version@ + "/"@ + asset_name(
            target@,
        ),
        r.1@ == "https://api.github.com/repos/qdrant/qdrant/releases/tags/"@ + version@,
{
    let mut a: Vec<char> = Vec::new();
    push_str(&mut a, "https://github.com/qdrant/qdrant/releases/download/");
    push_str(&mut a, version);
    push_str(&mut a, "/");
    let name = asset_name_of(target);
    push_str(&mut a, name.as_str());
    let mut b: Vec<char> = Vec::new();
    push_str(&mut b, "https://api.github.com/repos/qdrant/qdrant/releases/tags/");
    push_str(&mut b, version);
    (chars_to_string(a.as_slice()), chars_to_string(b.as_slice()))
}

/// One asset of a release: its name and digest, each `None` when absent or
/// not text.
#[derive(Debug, Clone, PartialEq, Eq)]
pub struct ReleaseAsset {
    pub name: Option<String>,
    pub digest: Option<String>,
}

/// The index of the first asset named `name`.
pub open spec fn first_named(assets: Seq<ReleaseAsset>, name: Seq<char>, i: int) -> Option<int>
    decreases assets.len() - i,
{
    if i < 0 || i >= assets.len() {
        None
    } else if assets[i].name matches Some(n) && n@ == name {
        Some(i)
    } else {
        first_named(assets, name, i + 1)
    }
}

/// The digest of the release asset for `target`: that of the first asset
/// with its name, or an error naming the asset when there is none or it
/// has no digest.
pub fn asset_digest(assets: &[ReleaseAsset], target: &str) -> (r: Result<String, String>)
    ensures
        match first_named(assets@, asset_name(target@), 0) {
            Some(i) => match assets@[i].digest {
                Some(d) => r matches Ok(x) && x@ == d@,
                None => r matches Err(m) && m@ == "release asset "@ + asset_name(target@)
                    + " digest not found"@,
            },
            None => r matches Err(m) && m@ == "release asset "@ + asset_name(target@)
                + " digest not found"@,
        },
{
    let name = asset_name_of(target);
    let mut err: Vec<char> = Vec::new();
    push_str(&mut err, "release asset ");
    push_str(&mut err, name.as_str());
    push_str(&mut err, " digest not found");
    let mut i: usize = 0;
    while i < assets.len()
        invariant
            i <= assets@.len(),
            name@ == asset_name(target@),
            err@ == "release asset "@ + asset_name(target@) + " digest not found"@,
            first_named(assets@, name@, 0) == first_named(assets@, name@, i as int),
        decreases assets@.len() - i,
    {
        match &assets[i].name {
            Some(n) => {
                if str_eq(n.as_str(), name.as_str()) {
                    return match &assets[i].digest {
                        Some(d) => Ok(d.clone()),
                        None => Err(chars_to_string(err.as_slice())),
                    };
                }
            },
            None => {},
        }
        i = i + 1;
    }
    Err(chars_to_string(err.as_slice()))
}

} // verus!

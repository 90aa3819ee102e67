//! Which files an extraction reads and how their results are gathered into
//! one graph.

use vstd::prelude::*;
use crate::snapshot::{lowercase, to_lowercase};
use crate::text::{chars_to_string, copy_range, str_chars, str_eq};
use crate::types::{edges_view, nodes_view, EdgeView, ExtractionResult, GraphMetadata, GraphOutput, NodeView};

verus! {

/// The position of the last `'.'` of `s` below `n`.
pub open spec fn last_dot(s: Seq<char>, n: int) -> Option<int>
    decreases n,
{
    if n <= 0 {
        None
    } else if s[n - 1] == '.' {
        Some(n - 1)
    } else {
        last_dot(s, n - 1)
    }
}

/// `Path::extension` of a file name: the text after its last `'.'`, unless
/// there is none, the name starts with its only dot, or the name is `..`.
pub open spec fn extension(name: Seq<char>) -> Option<Seq<char>> {
    if name == ".."@ {
        None
    } else {
        match last_dot(name, name.len() as int) {
            None => None,
            Some(i) => if i == 0 {
                None
            } else {
                Some(name.subrange(i + 1, name.len() as int))
            },
        }
    }
}

/// The language named by a lower-cased extension: the known ones by name,
/// any other as the extension itself.
pub open spec fn lang_for(ext: Seq<char>) -> Seq<char> {
    if ext == "py"@ {
        "python"@
    } else if ext == "rs"@ {
        "rust"@
    } else if ext == "go"@ {
        "go"@
    } else if ext == "js"@ || ext == "jsx"@ || ext == "mjs"@ {
        "javascript"@
    } else if ext == "ts"@ || ext == "tsx"@ || ext == "mts"@ {
        "typescript"@
    } else if ext == "c"@ || ext == "h"@ {
        "c"@
    } else if ext == "cpp"@ || ext == "cc"@ || ext == "cxx"@ || ext == "hpp"@ || ext == "h++"@ || ext
        == "hh"@ {
        "cpp"@
    } else if ext == "php"@ {
        "php"@
    } else {
        ext
    }
}

fn is_one_of(v: &str, names: &[&str]) -> (r: bool)
    ensures
        r == exists|i: int| 0 <= i < names@.len() && (#[trigger] names@[i])@ == v@,
{
    let mut i: usize = 0;
    while i < names.len()
        invariant
            i <= names@.len(),
            forall|j: int| 0 <= j < i ==> (#[trigger] names@[j])@ != v@,
        decreases names@.len() - i,
    {
        if str_eq(names[i], v) {
            return true;
        }
        i = i + 1;
    }
    false
}

fn lang_name(ext: &str) -> (r: String)
    ensures
        r@ == lang_for(ext@),
{
    let js = ["js", "jsx", "mjs"];
    let ts = ["ts", "tsx", "mts"];
    let c = ["c", "h"];
    let cpp = ["cpp", "cc", "cxx", "hpp", "h++", "hh"];
    proof {
        assert(js@ =~= seq!["js", "jsx", "mjs"]);
        assert(ts@ =~= seq!["ts", "tsx", "mts"]);
        assert(c@ =~= seq!["c", "h"]);
        assert(cpp@ =~= seq!["cpp", "cc", "cxx", "hpp", "h++", "hh"]);
    }
    if str_eq(ext, "py") {
        String::from_str("python")
    } else if str_eq(ext, "rs") {
        String::from_str("rust")
    } else if str_eq(ext, "go") {
        String::from_str("go")
    } else if is_one_of(ext, &js) {
        proof {
            let i = choose|i: int| 0 <= i < js@.len() && (#[trigger] js@[i])@ == ext@;
            assert(ext@ == "js"@ || ext@ == "jsx"@ || ext@ == "mjs"@);
        }
        String::from_str("javascript")
    } else if is_one_of(ext, &ts) {
        proof {
            let i = choose|i: int| 0 <= i < ts@.len() && (#[trigger] ts@[i])@ == ext@;
            assert(ext@ == "ts"@ || ext@ == "tsx"@ || ext@ == "mts"@);
            assert(!(ext@ == "js"@ || ext@ == "jsx"@ || ext@ == "mjs"@)) by {
                if ext@ == "js"@ {
                    assert(js@[0]@ == ext@);
                }
                if ext@ == "jsx"@ {
                    assert(js@[1]@ == ext@);
                }
                if ext@ == "mjs"@ {
                    assert(js@[2]@ == ext@);
                }
            }
        }
        String::from_str("typescript")
    } else if is_one_of(ext, &c) {
        proof {
            assert(!(ext@ == "js"@ || ext@ == "jsx"@ || ext@ == "mjs"@)) by {
                if ext@ == "js"@ { assert(js@[0]@ == ext@); }
                if ext@ == "jsx"@ { assert(js@[1]@ == ext@); }
                if ext@ == "mjs"@ { assert(js@[2]@ == ext@); }
            }
            assert(!(ext@ == "ts"@ || ext@ == "tsx"@ || ext@ == "mts"@)) by {
                if ext@ == "ts"@ { assert(ts@[0]@ == ext@); }
                if ext@ == "tsx"@ { assert(ts@[1]@ == ext@); }
                if ext@ == "mts"@ { assert(ts@[2]@ == ext@); }
            }
        }
        String::from_str("c")
    } else if is_one_of(ext, &cpp) {
        proof {
            assert(!(ext@ == "js"@ || ext@ == "jsx"@ || ext@ == "mjs"@)) by {
                if ext@ == "js"@ { assert(js@[0]@ == ext@); }
                if ext@ == "jsx"@ { assert(js@[1]@ == ext@); }
                if ext@ == "mjs"@ { assert(js@[2]@ == ext@); }
            }
            assert(!(ext@ == "ts"@ || ext@ == "tsx"@ || ext@ == "mts"@)) by {
                if ext@ == "ts"@ { assert(ts@[0]@ == ext@); }
                if ext@ == "tsx"@ { assert(ts@[1]@ == ext@); }
                if ext@ == "mts"@ { assert(ts@[2]@ == ext@); }
            }
            assert(!(ext@ == "c"@ || ext@ == "h"@)) by {
                if ext@ == "c"@ { assert(c@[0]@ == ext@); }
                if ext@ == "h"@ { assert(c@[1]@ == ext@); }
            }
        }
        String::from_str("cpp")
    } else if str_eq(ext, "php") {
        proof {
            assert(!(ext@ == "js"@ || ext@ == "jsx"@ || ext@ == "mjs"@)) by {
                if ext@ == "js"@ { assert(js@[0]@ == ext@); }
                if ext@ == "jsx"@ { assert(js@[1]@ == ext@); }
                if ext@ == "mjs"@ { assert(js@[2]@ == ext@); }
            }
            assert(!(ext@ == "ts"@ || ext@ == "tsx"@ || ext@ == "mts"@)) by {
                if ext@ == "ts"@ { assert(ts@[0]@ == ext@); }
                if ext@ == "tsx"@ { assert(ts@[1]@ == ext@); }
                if ext@ == "mts"@ { assert(ts@[2]@ == ext@); }
            }
            assert(!(ext@ == "c"@ || ext@ == "h"@)) by {
                if ext@ == "c"@ { assert(c@[0]@ == ext@); }
                if ext@ == "h"@ { assert(c@[1]@ == ext@); }
            }
            assert(!(ext@ == "cpp"@ || ext@ == "cc"@ || ext@ == "cxx"@ || ext@ == "hpp"@ || ext@ == "h++"@ || ext@ == "hh"@)) by {
                if ext@ == "cpp"@ { assert(cpp@[0]@ == ext@); }
                if ext@ == "cc"@ { assert(cpp@[1]@ == ext@); }
                if ext@ == "cxx"@ { assert(cpp@[2]@ == ext@); }
                if ext@ == "hpp"@ { assert(cpp@[3]@ == ext@); }
                if ext@ == "h++"@ { assert(cpp@[4]@ == ext@); }
                if ext@ == "hh"@ { assert(cpp@[5]@ == ext@); }
            }
        }
        String::from_str("php")
    } else {
        proof {
            assert(!(ext@ == "js"@ || ext@ == "jsx"@ || ext@ == "mjs"@)) by {
                if ext@ == "js"@ { assert(js@[0]@ == ext@); }
                if ext@ == "jsx"@ { assert(js@[1]@ == ext@); }
                if ext@ == "mjs"@ { assert(js@[2]@ == ext@); }
            }
            assert(!(ext@ == "ts"@ || ext@ == "tsx"@ || ext@ == "mts"@)) by {
                if ext@ == "ts"@ { assert(ts@[0]@ == ext@); }
                if ext@ == "tsx"@ { assert(ts@[1]@ == ext@); }
                if ext@ == "mts"@ { assert(ts@[2]@ == ext@); }
            }
            assert(!(ext@ == "c"@ || ext@ == "h"@)) by {
                if ext@ == "c"@ { assert(c@[0]@ == ext@); }
                if ext@ == "h"@ { assert(c@[1]@ == ext@); }
            }
            assert(!(ext@ == "cpp"@ || ext@ == "cc"@ || ext@ == "cxx"@ || ext@ == "hpp"@ || ext@ == "h++"@ || ext@ == "hh"@)) by {
                if ext@ == "cpp"@ { assert(cpp@[0]@ == ext@); }
                if ext@ == "cc"@ { assert(cpp@[1]@ == ext@); }
                if ext@ == "cxx"@ { assert(cpp@[2]@ == ext@); }
                if ext@ == "hpp"@ { assert(cpp@[3]@ == ext@); }
                if ext@ == "h++"@ { assert(cpp@[4]@ == ext@); }
                if ext@ == "hh"@ { assert(cpp@[5]@ == ext@); }
            }
        }
        String::from_str(ext)
    }
}

/// The language of a file, from the lower-cased extension of its name
/// (`None` without an extension).
pub fn get_lang(file_name: &str) -> (r: Option<String>)
    ensures
        match extension(file_name@) {
            None => r is None,
            Some(e) => r matches Some(l) && l@ == lang_for(lowercase(e)),
        },
{
    let v = str_chars(file_name);
    proof {
        reveal_strlit("..");
    }
    if v.len() == 2 && v[0] == '.' && v[1] == '.' {
        assert(v@ =~= ".."@);
        return None;
    }
    assert(v@ != ".."@) by {
        if v@ == ".."@ {
            assert(v@.len() == 2 && v@[0] == '.' && v@[1] == '.');
        }
    }
    let n = v.len();
    let mut i: usize = n;
    while i > 0 && v[i - 1] != '.'
        invariant
            i <= n,
            n == v@.len(),
            last_dot(v@, n as int) == last_dot(v@, i as int),
        decreases i,
    {
        i = i - 1;
    }
    if i == 0 {
        return None;
    }
    if i == 1 {
        return None;
    }
    let ext = copy_range(v.as_slice(), i, n);
    let es = chars_to_string(ext.as_slice());
    let lower = to_lowercase(es.as_str());
    Some(lang_name(lower.as_str()))
}

/// Directories a recursive file walk skips: hidden ones, `target` and
/// `node_modules`.
pub open spec fn skipped_dir(name: Seq<char>) -> bool {
    (name.len() > 0 && name[0] == '.') || name == "target"@ || name == "node_modules"@
}

/// Whether a recursive file walk skips a directory of this name.
pub fn is_skipped_dir(name: &str) -> (r: bool)
    ensures
        r == skipped_dir(name@),
{
    let v = str_chars(name);
    (v.len() > 0 && v[0] == '.') || str_eq(name, "target") || str_eq(name, "node_modules")
}

/// The nodes of the first `k` results, in order.
pub open spec fn all_nodes(rs: Seq<(String, ExtractionResult)>, k: int) -> Seq<NodeView>
    decreases k,
{
    if k <= 0 {
        Seq::empty()
    } else {
        all_nodes(rs, k - 1) + nodes_view(rs[k - 1].1.nodes@)
    }
}

/// The edges of the first `k` results, in order.
pub open spec fn all_edges(rs: Seq<(String, ExtractionResult)>, k: int) -> Seq<EdgeView>
    decreases k,
{
    if k <= 0 {
        Seq::empty()
    } else {
        all_edges(rs, k - 1) + edges_view(rs[k - 1].1.edges@)
    }
}

/// The languages of the first `k` results, each once, in order of first
/// appearance.
pub open spec fn langs_upto(rs: Seq<(String, ExtractionResult)>, k: int) -> Seq<Seq<char>>
    decreases k,
{
    if k <= 0 {
        Seq::empty()
    } else if langs_upto(rs, k - 1).contains(rs[k - 1].0@) {
        langs_upto(rs, k - 1)
    } else {
        langs_upto(rs, k - 1).push(rs[k - 1].0@)
    }
}

/// Gathers per-file extraction results (language, result) into one graph:
/// every node and edge in order, the totals counted, each language once,
/// version `1.0.0` and generation time `0`.
pub fn assemble_graph(results: Vec<(String, ExtractionResult)>) -> (g: GraphOutput)
    requires
        all_nodes(results@, results@.len() as int).len() <= usize::MAX,
        all_edges(results@, results@.len() as int).len() <= usize::MAX,
    ensures
        nodes_view(g.nodes@) == all_nodes(results@, results@.len() as int),
        edges_view(g.edges@) == all_edges(results@, results@.len() as int),
        crate::types::strings_view(g.metadata.languages@) == langs_upto(results@, results@.len() as int),
        g.metadata.total_nodes == g.nodes@.len(),
        g.metadata.total_edges == g.edges@.len(),
        g.metadata.version@ == "1.0.0"@,
        g.metadata.generated_at@ == "0"@,
        g.metadata.input_tokens == 0,
        g.metadata.output_tokens == 0,
        g.metadata.plugin_data@.len() == 0,
{
    let ghost rs = results@;
    let mut nodes: Vec<crate::types::Node> = Vec::new();
    let mut edges: Vec<crate::types::Edge> = Vec::new();
    let mut languages: Vec<String> = Vec::new();
    let mut i: usize = 0;
    while i < results.len()
        invariant
            i <= rs.len(),
            rs == results@,
            all_nodes(rs, rs.len() as int).len() <= usize::MAX,
            all_edges(rs, rs.len() as int).len() <= usize::MAX,
            nodes_view(nodes@) == all_nodes(rs, i as int),
            edges_view(edges@) == all_edges(rs, i as int),
            crate::types::strings_view(languages@) == langs_upto(rs, i as int),
        decreases rs.len() - i,
    {
        proof {
            lemma_all_grow(rs, i as int + 1, rs.len() as int);
        }
        let (lang, res) = (&results[i].0, &results[i].1);
        let mut k: usize = 0;
        let ghost n0 = nodes_view(nodes@);
        while k < res.nodes.len()
            invariant
                k <= res.nodes@.len(),
                n0 + nodes_view(res.nodes@).subrange(0, k as int) == nodes_view(nodes@),
                n0.len() + res.nodes@.len() <= usize::MAX,
            decreases res.nodes@.len() - k,
        {
            let ghost before = nodes@;
            let c = res.nodes[k].copy();
            let ghost cv = c@;
            nodes.push(c);
            assert(nodes_view(nodes@) =~= nodes_view(before).push(cv));
            assert(nodes_view(res.nodes@).subrange(0, k + 1) =~= nodes_view(res.nodes@).subrange(0, k as int).push(cv));
            assert(nodes_view(nodes@) =~= n0 + nodes_view(res.nodes@).subrange(0, k + 1));
            k = k + 1;
        }
        let mut j: usize = 0;
        let ghost e0 = edges_view(edges@);
        while j < res.edges.len()
            invariant
                j <= res.edges@.len(),
                e0 + edges_view(res.edges@).subrange(0, j as int) == edges_view(edges@),
                e0.len() + res.edges@.len() <= usize::MAX,
            decreases res.edges@.len() - j,
        {
            let ghost before = edges@;
            let c = res.edges[j].copy();
            let ghost cv = c@;
            edges.push(c);
            assert(edges_view(edges@) =~= edges_view(before).push(cv));
            assert(edges_view(res.edges@).subrange(0, j + 1) =~= edges_view(res.edges@).subrange(0, j as int).push(cv));
            assert(edges_view(edges@) =~= e0 + edges_view(res.edges@).subrange(0, j + 1));
            j = j + 1;
        }
        assert(nodes_view(res.nodes@).subrange(0, res.nodes@.len() as int) =~= nodes_view(res.nodes@));
        assert(edges_view(res.edges@).subrange(0, res.edges@.len() as int) =~= edges_view(res.edges@));
        let mut seen = false;
        let mut t: usize = 0;
        let ghost ls = crate::types::strings_view(languages@);
        while t < languages.len()
            invariant
                t <= languages@.len(),
                ls == crate::types::strings_view(languages@),
                seen == exists|u: int| 0 <= u < t && ls[u] == lang@,
            decreases languages@.len() - t,
        {
            assert(ls[t as int] == languages@[t as int]@);
            if str_eq(languages[t].as_str(), lang.as_str()) {
                seen = true;
            }
            t = t + 1;
        }
        if !seen {
            languages.push(lang.clone());
            assert(crate::types::strings_view(languages@) =~= ls.push(lang@));
        } else {
            assert(ls.contains(lang@));
        }
        i = i + 1;
    }
    let total_nodes = nodes.len();
    let total_edges = edges.len();
    let mut metadata = GraphMetadata::empty();
    metadata.version = String::from_str("1.0.0");
    metadata.generated_at = String::from_str("0");
    metadata.total_nodes = total_nodes;
    metadata.total_edges = total_edges;
    metadata.languages = languages;
    GraphOutput { nodes, edges, metadata }
}

proof fn lemma_all_grow(rs: Seq<(String, ExtractionResult)>, k: int, n: int)
    requires
        0 <= k <= n <= rs.len(),
    ensures
        all_nodes(rs, k).len() <= all_nodes(rs, n).len(),
        all_edges(rs, k).len() <= all_edges(rs, n).len(),
    decreases n - k,
{
    if k < n {
        lemma_all_grow(rs, k, n - 1);
    }
}

/// What an index run over a directory does with its graph file.
#[derive(Debug, Clone, Copy, PartialEq, Eq, Structural)]
pub enum IndexPlan {
    /// A snapshot exists and no source file changed: nothing to do.
    SkipUnchanged,
    /// A snapshot exists and files changed: re-extract, then sync only
    /// the changed files.
    IncrementalExtract,
    /// Load the existing graph file and index all of it.
    LoadOutput,
    /// Load the legacy JSON graph in place of the missing default file.
    LoadLegacyJson,
    /// No graph file exists: ask for a forced run.
    AskForForce,
    /// No graph file exists and the run is forced: extract from scratch.
    ExtractFresh,
}

/// The plan of an index run over a directory, from the force flag, the
/// previous snapshot and change set, and which graph files exist.
pub open spec fn index_plan_spec(
    force: bool,
    snapshot_empty: bool,
    nothing_changed: bool,
    output_exists: bool,
    output_is_default: bool,
    legacy_json_exists: bool,
) -> IndexPlan {
    if !force && !snapshot_empty {
        if nothing_changed {
            IndexPlan::SkipUnchanged
        } else {
            IndexPlan::IncrementalExtract
        }
    } else if output_exists {
        IndexPlan::LoadOutput
    } else if output_is_default && legacy_json_exists {
        IndexPlan::LoadLegacyJson
    } else if !force {
        IndexPlan::AskForForce
    } else {
        IndexPlan::ExtractFresh
    }
}

/// Decides what an index run over a directory does.
pub fn index_plan(
    force: bool,
    snapshot_empty: bool,
    nothing_changed: bool,
    output_exists: bool,
    output_is_default: bool,
    legacy_json_exists: bool,
) -> (p: IndexPlan)
    ensures
        p == index_plan_spec(force, snapshot_empty, nothing_changed, output_exists, output_is_default, legacy_json_exists),
{
    if !force && !snapshot_empty {
        if nothing_changed {
            IndexPlan::SkipUnchanged
        } else {
            IndexPlan::IncrementalExtract
        }
    } else if output_exists {
        IndexPlan::LoadOutput
    } else if output_is_default && legacy_json_exists {
        IndexPlan::LoadLegacyJson
    } else if !force {
        IndexPlan::AskForForce
    } else {
        IndexPlan::ExtractFresh
    }
}

/// The nodes among the first `n` that are indexed: those of a kind in
/// `kinds` and, when a change set is given, from a changed file.
pub open spec fn indexed_upto(
    ns: Seq<NodeView>,
    kinds: Seq<Seq<char>>,
    changed: Option<Seq<Seq<char>>>,
    n: int,
) -> Seq<usize>
    decreases n,
{
    if n <= 0 {
        Seq::empty()
    } else {
        let pre = indexed_upto(ns, kinds, changed, n - 1);
        let keep = kinds.contains(ns[n - 1].kind) && match changed {
            Some(c) => c.contains(ns[n - 1].source_file),
            None => true,
        };
        if keep {
            pre.push((n - 1) as usize)
        } else {
            pre
        }
    }
}

fn contains_text(v: &Vec<String>, t: &str) -> (r: bool)
    ensures
        r == crate::types::strings_view(v@).contains(t@),
{
    let ghost sv = crate::types::strings_view(v@);
    let mut i: usize = 0;
    while i < v.len()
        invariant
            i <= v@.len(),
            sv == crate::types::strings_view(v@),
            forall|j: int| 0 <= j < i ==> sv[j] != t@,
        decreases v@.len() - i,
    {
        assert(sv[i as int] == v@[i as int]@);
        if str_eq(v[i].as_str(), t) {
            assert(sv[i as int] == t@);
            return true;
        }
        i = i + 1;
    }
    false
}

/// The indices of the nodes a memory index run embeds, in order: those of
/// a configured kind and, in an incremental run, from a changed file.
pub fn nodes_to_index(
    nodes: &Vec<crate::types::Node>,
    index_kinds: &Vec<String>,
    changed_files: Option<&Vec<String>>,
) -> (r: Vec<usize>)
    ensures
        r@ == indexed_upto(
            nodes_view(nodes@),
            crate::types::strings_view(index_kinds@),
            match changed_files {
                Some(c) => Some(crate::types::strings_view(c@)),
                None => None,
            },
            nodes@.len() as int,
        ),
{
    let ghost ns = nodes_view(nodes@);
    let ghost changed = match changed_files {
        Some(c) => Some(crate::types::strings_view(c@)),
        None => None::<Seq<Seq<char>>>,
    };
    let mut out: Vec<usize> = Vec::new();
    let mut i: usize = 0;
    while i < nodes.len()
        invariant
            i <= nodes@.len(),
            ns == nodes_view(nodes@),
            changed == match changed_files {
                Some(c) => Some(crate::types::strings_view(c@)),
                None => None::<Seq<Seq<char>>>,
            },
            out@ == indexed_upto(ns, crate::types::strings_view(index_kinds@), changed, i as int),
        decreases nodes@.len() - i,
    {
        let n = &nodes[i];
        assert(ns[i as int] == n@);
        let mut keep = contains_text(index_kinds, n.kind.as_str());
        match changed_files {
            Some(c) => {
                keep = keep && contains_text(c, n.source_file.as_str());
            },
            None => {},
        }
        if keep {
            out.push(i);
        }
        i = i + 1;
    }
    out
}

/// Whether an output path asks for `.toon` (else JSON is written).
pub fn wants_toon(extension: Option<&str>) -> (r: bool)
    ensures
        r == (extension matches Some(e) && e@ == "toon"@),
{
    match extension {
        Some(e) => str_eq(e, "toon"),
        None => false,
    }
}

} // verus!

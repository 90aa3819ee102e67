//! Source extraction: the nodes and edges a parsed source file yields.
//!
//! A parser front end turns the source into a `SyntaxNode` tree (each node
//! with its grammar kind, source text, rows, and children with their field
//! names); the per-language rules here walk that tree.

use vstd::prelude::*;
use crate::skill::{contains_text, has_substring};
use crate::parse::{parse_source, syntax_tree};
use crate::snapshot::{lowercase, to_lowercase};
use crate::text::{chars_to_string, dec, push_all, push_str, starts_with, str_chars, str_eq, usize_to_dec};
use crate::types::{Edge, EdgeView, ExtractionResult, FileType, Node, NodeId, NodeView, edges_view, nodes_view};

verus! {

/// A node of a concrete syntax tree.
#[derive(Debug, PartialEq, Eq)]
pub struct SyntaxNode {
    /// The grammar kind, such as `function_definition`.
    pub kind: String,
    /// The source text the node spans.
    pub text: String,
    /// Zero-based first and last rows.
    pub start_row: usize,
    pub end_row: usize,
    pub children: Vec<SyntaxNode>,
    /// The field name of each child, where the grammar gives one.
    pub child_fields: Vec<Option<String>>,
}

/// Every row of the tree has a successor (one-based line numbers fit).
pub open spec fn rows_fit(n: SyntaxNode) -> bool
    decreases n,
{
    &&& n.start_row < usize::MAX
    &&& n.end_row < usize::MAX
    &&& children_fit(n.children@, n.children@.len() as int)
}

pub open spec fn children_fit(cs: Seq<SyntaxNode>, k: int) -> bool
    decreases cs, k,
{
    if k <= 0 || k > cs.len() {
        true
    } else {
        children_fit(cs, k - 1) && rows_fit(cs[k - 1])
    }
}

proof fn lemma_child_fits(cs: Seq<SyntaxNode>, k: int, i: int)
    requires
        children_fit(cs, k),
        0 <= i < k <= cs.len(),
    ensures
        rows_fit(cs[i]),
    decreases k,
{
    if i < k - 1 {
        lemma_child_fits(cs, k - 1, i);
    }
}

/// The first child of `n` in field `name`.
pub open spec fn field_child_from(n: SyntaxNode, name: Seq<char>, i: int) -> Option<SyntaxNode>
    decreases n.children@.len() - i,
{
    if i < 0 || i >= n.children@.len() {
        None
    } else if i < n.child_fields@.len() && (n.child_fields@[i] matches Some(f) && f@ == name) {
        Some(n.children@[i])
    } else {
        field_child_from(n, name, i + 1)
    }
}

pub open spec fn field_child(n: SyntaxNode, name: Seq<char>) -> Option<SyntaxNode> {
    field_child_from(n, name, 0)
}

/// The first child of `n` in field `name` (`child_by_field_name`).
pub fn child_by_field<'a>(n: &'a SyntaxNode, name: &str) -> (r: Option<&'a SyntaxNode>)
    ensures
        match field_child(*n, name@) {
            Some(c) => r matches Some(x) && *x == c,
            None => r is None,
        },
{
    let mut i: usize = 0;
    while i < n.children.len()
        invariant
            i <= n.children@.len(),
            field_child(*n, name@) == field_child_from(*n, name@, i as int),
        decreases n.children@.len() - i,
    {
        if i < n.child_fields.len() {
            match &n.child_fields[i] {
                Some(f) => {
                    if str_eq(f.as_str(), name) {
                        return Some(&n.children[i]);
                    }
                },
                None => {},
            }
        }
        i = i + 1;
    }
    None
}

/// A one-based line number.
pub open spec fn line_of(row: usize) -> nat {
    (row + 1) as nat
}

/// A code entity node: id `<file>:<tag>:<name>`, labelled with its name,
/// spanning the syntax node's lines.
pub open spec fn entity(
    file: Seq<char>,
    tag: Seq<char>,
    name: Seq<char>,
    kind: Seq<char>,
    lang: Seq<char>,
    n: SyntaxNode,
    desc: Seq<char>,
) -> NodeView {
    NodeView {
        id: file + ":"@ + tag + ":"@ + name,
        label: name,
        file_type: FileType::Code,
        kind: kind,
        language: lang,
        source_file: file,
        start_line: (n.start_row + 1) as usize,
        end_line: (n.end_row + 1) as usize,
        doc_comment: None,
        description: Some(desc),
        metadata: None,
    }
}

/// An edge located at `<file>:<line>`.
pub open spec fn link(
    source: Seq<char>,
    target: Seq<char>,
    relation: Seq<char>,
    file: Seq<char>,
    confidence: Seq<char>,
    line: nat,
    desc: Option<Seq<char>>,
) -> EdgeView {
    EdgeView {
        source,
        target,
        relation,
        source_file: file,
        confidence,
        source_location: file + ":"@ + dec(line),
        description: desc,
    }
}

fn text_of(parts: &[&str]) -> (s: String)
    ensures
        s@ == concat_strs(parts@, parts@.len() as int),
{
    let mut v: Vec<char> = Vec::new();
    let mut i: usize = 0;
    while i < parts.len()
        invariant
            i <= parts@.len(),
            v@ == concat_strs(parts@, i as int),
        decreases parts@.len() - i,
    {
        push_str(&mut v, parts[i]);
        i = i + 1;
    }
    chars_to_string(v.as_slice())
}

/// The texts of the first `k` parts, joined.
pub open spec fn concat_strs(parts: Seq<&str>, k: int) -> Seq<char>
    decreases k,
{
    if k <= 0 {
        Seq::empty()
    } else {
        concat_strs(parts, k - 1) + parts[k - 1]@
    }
}

fn location(file: &str, row: usize) -> (s: String)
    requires
        row < usize::MAX,
    ensures
        s@ == file@ + ":"@ + dec(line_of(row)),
{
    let mut v: Vec<char> = Vec::new();
    push_str(&mut v, file);
    push_str(&mut v, ":");
    let d = usize_to_dec(row + 1);
    push_all(&mut v, d.as_slice());
    chars_to_string(v.as_slice())
}

fn make_entity(
    file: &str,
    tag: &str,
    name: &str,
    kind: &str,
    lang: &str,
    n: &SyntaxNode,
    desc: String,
) -> (r: Node)
    requires
        n.start_row < usize::MAX,
        n.end_row < usize::MAX,
    ensures
        r@ == entity(file@, tag@, name@, kind@, lang@, *n, desc@),
{
    let id = text_of(&[file, ":", tag, ":", name]);
    proof {
        reveal_with_fuel(concat_strs, 6);
        assert(id@ =~= file@ + ":"@ + tag@ + ":"@ + name@);
    }
    Node {
        id: NodeId(id),
        label: String::from_str(name),
        file_type: FileType::Code,
        kind: String::from_str(kind),
        language: String::from_str(lang),
        source_file: String::from_str(file),
        start_line: n.start_row + 1,
        end_line: n.end_row + 1,
        doc_comment: None,
        description: Some(desc),
        metadata: None,
    }
}

fn make_link(
    source: &str,
    target: String,
    relation: &str,
    file: &str,
    confidence: &str,
    row: usize,
    desc: Option<String>,
) -> (r: Edge)
    requires
        row < usize::MAX,
    ensures
        r@ == link(
            source@,
            target@,
            relation@,
            file@,
            confidence@,
            line_of(row),
            match desc {
                Some(d) => Some(d@),
                None => None,
            },
        ),
{
    Edge {
        source: NodeId(String::from_str(source)),
        target: NodeId(target),
        relation: String::from_str(relation),
        source_file: String::from_str(file),
        confidence: String::from_str(confidence),
        source_location: location(file, row),
        description: desc,
    }
}

/// `c` occurs in `s`.
fn has_char_exec(s: &str, c: char) -> (r: bool)
    ensures
        r == crate::text::has_char(s@, c),
{
    let v = str_chars(s);
    let mut i: usize = 0;
    while i < v.len()
        invariant
            i <= v@.len(),
            v@ == s@,
            forall|j: int| 0 <= j < i ==> v@[j] != c,
        decreases v@.len() - i,
    {
        if v[i] == c {
            assert(s@[i as int] == c);
            return true;
        }
        i = i + 1;
    }
    false
}

/// `str::trim_start_matches` with a non-empty text pattern.
pub open spec fn trim_prefix_all(s: Seq<char>, p: Seq<char>) -> Seq<char>
    decreases s.len(),
{
    if p.len() > 0 && starts_with(s, p) {
        trim_prefix_all(s.subrange(p.len() as int, s.len() as int), p)
    } else {
        s
    }
}

/// `str::trim_end_matches` with a character.
pub open spec fn trim_suffix_char(s: Seq<char>, c: char) -> Seq<char>
    decreases s.len(),
{
    if s.len() > 0 && s.last() == c {
        trim_suffix_char(s.drop_last(), c)
    } else {
        s
    }
}

fn trim_prefix_all_exec(s: &str, p: &str) -> (r: String)
    ensures
        r@ == trim_prefix_all(s@, p@),
{
    let v = str_chars(s);
    let pv = str_chars(p);
    let n = v.len();
    let m = pv.len();
    let mut i: usize = 0;
    assert(v@.subrange(0, n as int) =~= v@);
    while m > 0 && m <= n - i && crate::text::starts_with_chars(crate::text::copy_range(v.as_slice(), i, n).as_slice(), pv.as_slice())
        invariant
            i <= n,
            n == v@.len(),
            m == pv@.len(),
            trim_prefix_all(s@, p@) == trim_prefix_all(v@.subrange(i as int, n as int), p@),
            v@ == s@,
            pv@ == p@,
        decreases n - i,
    {
        let ghost cur = v@.subrange(i as int, n as int);
        assert(cur.subrange(m as int, cur.len() as int) =~= v@.subrange(i + m, n as int));
        i = i + m;
    }
    let rest = crate::text::copy_range(v.as_slice(), i, n);
    proof {
        let cur = v@.subrange(i as int, n as int);
        if m > 0 && m > n - i {
            assert(!starts_with(cur, p@));
        }
    }
    chars_to_string(rest.as_slice())
}

fn trim_suffix_char_exec(s: &str, c: char) -> (r: String)
    ensures
        r@ == trim_suffix_char(s@, c),
{
    let v = str_chars(s);
    let mut j: usize = v.len();
    assert(v@.subrange(0, j as int) =~= v@);
    while j > 0 && v[j - 1] == c
        invariant
            j <= v@.len(),
            trim_suffix_char(s@, c) == trim_suffix_char(v@.subrange(0, j as int), c),
            v@ == s@,
        decreases j,
    {
        assert(v@.subrange(0, j as int).drop_last() =~= v@.subrange(0, j - 1));
        j = j - 1;
    }
    let rest = crate::text::copy_range(v.as_slice(), 0, j);
    chars_to_string(rest.as_slice())
}

// ---------------------------------------------------------------------------
// The module node
// ---------------------------------------------------------------------------

/// The node of a whole source file: `<file>:module`, spanning its lines.
pub open spec fn module_entity(file: Seq<char>, lang: Seq<char>, title: Seq<char>, content: Seq<char>) -> NodeView {
    NodeView {
        id: file + ":module"@,
        label: file,
        file_type: FileType::Code,
        kind: "module"@,
        language: lang,
        source_file: file,
        start_line: 0,
        end_line: crate::text::lines(content).len() as usize,
        doc_comment: None,
        description: Some(title + " module: "@ + file),
        metadata: None,
    }
}

fn make_module(file: &str, lang: &str, title: &str, content: &str) -> (r: Node)
    ensures
        r@ == module_entity(file@, lang@, title@, content@),
{
    let v = str_chars(content);
    let ls = crate::text::split_lines(v.as_slice());
    let id = text_of(&[file, ":module"]);
    let desc = text_of(&[title, " module: ", file]);
    proof {
        reveal_with_fuel(concat_strs, 4);
        assert(id@ =~= file@ + ":module"@);
        assert(desc@ =~= title@ + " module: "@ + file@);
        assert(ls@.map_values(|l: Vec<char>| l@).len() == ls@.len());
        assert(v@ == content@);
    }
    Node {
        id: NodeId(id),
        label: String::from_str(file),
        file_type: FileType::Code,
        kind: String::from_str("module"),
        language: String::from_str(lang),
        source_file: String::from_str(file),
        start_line: 0,
        end_line: ls.len(),
        doc_comment: None,
        description: Some(desc),
        metadata: None,
    }
}

// ---------------------------------------------------------------------------
// Python
// ---------------------------------------------------------------------------

/// A call of a plain name (no `'.'` or `':'`) in the subtree of a Python
/// or Rust function: an edge to `<file>:function:<name>`.
pub open spec fn plain_call(n: SyntaxNode, file: Seq<char>, caller: Seq<char>) -> Option<EdgeView> {
    if n.kind@ == "call_expression"@ {
        match field_child(n, "function"@) {
            Some(f) => if f.text@.len() > 0 && !crate::text::has_char(f.text@, '.') && !crate::text::has_char(
                f.text@,
                ':',
            ) {
                Some(
                    link(
                        caller,
                        file + ":function:"@ + f.text@,
                        "calls"@,
                        file,
                        "EXTRACTED"@,
                        line_of(n.start_row),
                        Some("calls "@ + f.text@),
                    ),
                )
            } else {
                None
            },
            None => None,
        }
    } else {
        None
    }
}

/// The call edges of a subtree visited as a depth-first stack does: the
/// node, then its children from last to first.
pub open spec fn plain_calls(n: SyntaxNode, file: Seq<char>, caller: Seq<char>, acc: Seq<EdgeView>) -> Seq<EdgeView>
    decreases n,
{
    let here = match plain_call(n, file, caller) {
        Some(e) => acc.push(e),
        None => acc,
    };
    plain_calls_rev(n.children@, n.children@.len() as int, file, caller, here)
}

pub open spec fn plain_calls_rev(
    cs: Seq<SyntaxNode>,
    k: int,
    file: Seq<char>,
    caller: Seq<char>,
    acc: Seq<EdgeView>,
) -> Seq<EdgeView>
    decreases cs, k,
{
    if k <= 0 || k > cs.len() {
        acc
    } else {
        plain_calls_rev(cs, k - 1, file, caller, plain_calls(cs[k - 1], file, caller, acc))
    }
}

fn plain_call_exec(n: &SyntaxNode, file: &str, caller: &str) -> (r: Option<Edge>)
    requires
        n.start_row < usize::MAX,
    ensures
        match plain_call(*n, file@, caller@) {
            Some(e) => r matches Some(x) && x@ == e,
            None => r is None,
        },
{
    if !str_eq(n.kind.as_str(), "call_expression") {
        return None;
    }
    match child_by_field(n, "function") {
        Some(f) => {
            let name = f.text.as_str();
            if !name.is_empty() && !has_char_exec(name, '.') && !has_char_exec(name, ':') {
                let target = text_of(&[file, ":function:", name]);
                let desc = text_of(&["calls ", name]);
                proof {
                    reveal_with_fuel(concat_strs, 4);
                    assert(target@ =~= file@ + ":function:"@ + name@);
                    assert(desc@ =~= "calls "@ + name@);
                }
                Some(make_link(caller, target, "calls", file, "EXTRACTED", n.start_row, Some(desc)))
            } else {
                None
            }
        },
        None => None,
    }
}

fn plain_calls_exec(n: &SyntaxNode, file: &str, caller: &str, edges: &mut Vec<Edge>)
    requires
        rows_fit(*n),
    ensures
        edges_view(final(edges)@) == plain_calls(*n, file@, caller@, edges_view(old(edges)@)),
    decreases n,
{
    let ghost acc0 = edges_view(edges@);
    match plain_call_exec(n, file, caller) {
        Some(e) => {
            let ghost ev = e@;
            edges.push(e);
            assert(edges_view(edges@) =~= acc0.push(ev));
        },
        None => {},
    }
    let ghost here = edges_view(edges@);
    let len = n.children.len();
    let mut j: usize = len;
    while j > 0
        invariant
            j <= len,
            len == n.children@.len(),
            children_fit(n.children@, n.children@.len() as int),
            plain_calls_rev(n.children@, len as int, file@, caller@, here) == plain_calls_rev(
                n.children@,
                j as int,
                file@,
                caller@,
                edges_view(edges@),
            ),
        decreases j,
    {
        proof {
            lemma_child_fits(n.children@, n.children@.len() as int, j - 1);
        }
        plain_calls_exec(&n.children[j - 1], file, caller, edges);
        j = j - 1;
    }
}

/// What one Python syntax node adds: a class or function node with its
/// `contains` edge from the module (and a function's call edges), or an
/// `imports` edge.
pub open spec fn py_here(
    n: SyntaxNode,
    file: Seq<char>,
    module: Seq<char>,
    acc: (Seq<NodeView>, Seq<EdgeView>),
) -> (Seq<NodeView>, Seq<EdgeView>) {
    let line = line_of(n.start_row);
    if n.kind@ == "class_definition"@ {
        match field_child(n, "name"@) {
            Some(c) => (
                acc.0.push(entity(file, "class"@, c.text@, "class"@, "python"@, n, "class "@ + c.text@)),
                acc.1.push(link(module, file + ":class:"@ + c.text@, "contains"@, file, "EXTRACTED"@, line, None)),
            ),
            None => acc,
        }
    } else if n.kind@ == "function_definition"@ {
        match field_child(n, "name"@) {
            Some(c) => {
                let id = file + ":function:"@ + c.text@;
                (
                    acc.0.push(entity(file, "function"@, c.text@, "function"@, "python"@, n, "def "@ + c.text@)),
                    plain_calls(n, file, id, acc.1.push(link(module, id, "contains"@, file, "EXTRACTED"@, line, None))),
                )
            },
            None => acc,
        }
    } else if n.kind@ == "import_statement"@ {
        let clean = trim_suffix_char(trim_prefix_all(n.text@, "import "@), ';');
        (acc.0, acc.1.push(link(module, "import:"@ + clean, "imports"@, file, "EXTRACTED"@, line, Some(clean))))
    } else if n.kind@ == "from_import"@ {
        match field_child(n, "module"@) {
            Some(m) => (
                acc.0,
                acc.1.push(
                    link(module, "import:from:"@ + m.text@, "imports"@, file, "EXTRACTED"@, line, Some("from "@ + m.text@)),
                ),
            ),
            None => acc,
        }
    } else {
        acc
    }
}

/// The languages with extraction rules.
#[derive(Debug, Clone, Copy, PartialEq, Eq, Structural)]
pub enum Lang {
    Python,
    Rust,
    Cpp,
    Java,
    Swift,
}

/// What one syntax node adds in a language whose entities all belong to
/// the module.
pub open spec fn flat_here(
    lang: Lang,
    n: SyntaxNode,
    file: Seq<char>,
    module: Seq<char>,
    acc: (Seq<NodeView>, Seq<EdgeView>),
) -> (Seq<NodeView>, Seq<EdgeView>) {
    match lang {
        Lang::Python => py_here(n, file, module, acc),
        Lang::Rust => rust_here(n, file, module, acc),
        _ => cpp_here(n, file, module, acc),
    }
}

/// A tree walked in document order (pre-order), every entity under the
/// module.
pub open spec fn flat_visit(
    lang: Lang,
    n: SyntaxNode,
    file: Seq<char>,
    module: Seq<char>,
    acc: (Seq<NodeView>, Seq<EdgeView>),
) -> (Seq<NodeView>, Seq<EdgeView>)
    decreases n,
{
    flat_visit_all(lang, n.children@, n.children@.len() as int, file, module, flat_here(lang, n, file, module, acc))
}

pub open spec fn flat_visit_all(
    lang: Lang,
    cs: Seq<SyntaxNode>,
    k: int,
    file: Seq<char>,
    module: Seq<char>,
    acc: (Seq<NodeView>, Seq<EdgeView>),
) -> (Seq<NodeView>, Seq<EdgeView>)
    decreases cs, k,
{
    if k <= 0 || k > cs.len() {
        acc
    } else {
        flat_visit(lang, cs[k - 1], file, module, flat_visit_all(lang, cs, k - 1, file, module, acc))
    }
}

fn push_node(nodes: &mut Vec<Node>, n: Node)
    ensures
        nodes_view(final(nodes)@) == nodes_view(old(nodes)@).push(n@),
{
    let ghost before = nodes@;
    let ghost nv = n@;
    nodes.push(n);
    assert(nodes_view(nodes@) =~= nodes_view(before).push(nv));
}

fn push_edge(edges: &mut Vec<Edge>, e: Edge)
    ensures
        edges_view(final(edges)@) == edges_view(old(edges)@).push(e@),
{
    let ghost before = edges@;
    let ghost ev = e@;
    edges.push(e);
    assert(edges_view(edges@) =~= edges_view(before).push(ev));
}

fn py_here_exec(n: &SyntaxNode, file: &str, module: &str, nodes: &mut Vec<Node>, edges: &mut Vec<Edge>)
    requires
        rows_fit(*n),
    ensures
        (nodes_view(final(nodes)@), edges_view(final(edges)@)) == py_here(
            *n,
            file@,
            module@,
            (nodes_view(old(nodes)@), edges_view(old(edges)@)),
        ),
{
    let kind = n.kind.as_str();
    if str_eq(kind, "class_definition") {
        match child_by_field(n, "name") {
            Some(c) => {
                let name = c.text.as_str();
                let desc = text_of(&["class ", name]);
                let target = text_of(&[file, ":class:", name]);
                proof {
                    reveal_with_fuel(concat_strs, 4);
                    assert(desc@ =~= "class "@ + name@);
                    assert(target@ =~= file@ + ":class:"@ + name@);
                }
                push_node(nodes, make_entity(file, "class", name, "class", "python", n, desc));
                push_edge(edges, make_link(module, target, "contains", file, "EXTRACTED", n.start_row, None));
            },
            None => {},
        }
    } else if str_eq(kind, "function_definition") {
        match child_by_field(n, "name") {
            Some(c) => {
                let name = c.text.as_str();
                let desc = text_of(&["def ", name]);
                let id = text_of(&[file, ":function:", name]);
                proof {
                    reveal_with_fuel(concat_strs, 4);
                    assert(desc@ =~= "def "@ + name@);
                    assert(id@ =~= file@ + ":function:"@ + name@);
                }
                push_node(nodes, make_entity(file, "function", name, "function", "python", n, desc));
                push_edge(edges, make_link(module, id.clone(), "contains", file, "EXTRACTED", n.start_row, None));
                plain_calls_exec(n, file, id.as_str(), edges);
            },
            None => {},
        }
    } else if str_eq(kind, "import_statement") {
        let a = trim_prefix_all_exec(n.text.as_str(), "import ");
        let clean = trim_suffix_char_exec(a.as_str(), ';');
        let target = text_of(&["import:", clean.as_str()]);
        proof {
            reveal_with_fuel(concat_strs, 3);
            assert(target@ =~= "import:"@ + clean@);
        }
        push_edge(edges, make_link(module, target, "imports", file, "EXTRACTED", n.start_row, Some(clean)));
    } else if str_eq(kind, "from_import") {
        match child_by_field(n, "module") {
            Some(m) => {
                let name = m.text.as_str();
                let target = text_of(&["import:from:", name]);
                let desc = text_of(&["from ", name]);
                proof {
                    reveal_with_fuel(concat_strs, 3);
                    assert(target@ =~= "import:from:"@ + name@);
                    assert(desc@ =~= "from "@ + name@);
                }
                push_edge(edges, make_link(module, target, "imports", file, "EXTRACTED", n.start_row, Some(desc)));
            },
            None => {},
        }
    }
}

fn flat_here_exec(lang: Lang, n: &SyntaxNode, file: &str, module: &str, nodes: &mut Vec<Node>, edges: &mut Vec<Edge>)
    requires
        rows_fit(*n),
    ensures
        (nodes_view(final(nodes)@), edges_view(final(edges)@)) == flat_here(
            lang,
            *n,
            file@,
            module@,
            (nodes_view(old(nodes)@), edges_view(old(edges)@)),
        ),
{
    match lang {
        Lang::Python => py_here_exec(n, file, module, nodes, edges),
        Lang::Rust => rust_here_exec(n, file, module, nodes, edges),
        _ => cpp_here_exec(n, file, module, nodes, edges),
    }
}

fn flat_visit_exec(lang: Lang, n: &SyntaxNode, file: &str, module: &str, nodes: &mut Vec<Node>, edges: &mut Vec<Edge>)
    requires
        rows_fit(*n),
    ensures
        (nodes_view(final(nodes)@), edges_view(final(edges)@)) == flat_visit(
            lang,
            *n,
            file@,
            module@,
            (nodes_view(old(nodes)@), edges_view(old(edges)@)),
        ),
    decreases n,
{
    flat_here_exec(lang, n, file, module, nodes, edges);
    let ghost here = (nodes_view(nodes@), edges_view(edges@));
    let len = n.children.len();
    let mut i: usize = 0;
    while i < len
        invariant
            i <= len,
            len == n.children@.len(),
            children_fit(n.children@, n.children@.len() as int),
            (nodes_view(nodes@), edges_view(edges@)) == flat_visit_all(lang, n.children@, i as int, file@, module@, here),
        decreases len - i,
    {
        proof {
            lemma_child_fits(n.children@, n.children@.len() as int, i as int);
        }
        flat_visit_exec(lang, &n.children[i], file, module, nodes, edges);
        i = i + 1;
    }
}

// ---------------------------------------------------------------------------
// Rust
// ---------------------------------------------------------------------------

/// What one Rust syntax node adds: a struct, trait or function node with
/// its `contains` edge from the module (and a function's call edges), or an
/// `imports` edge for a `use` declaration.
pub open spec fn rust_here(
    n: SyntaxNode,
    file: Seq<char>,
    module: Seq<char>,
    acc: (Seq<NodeView>, Seq<EdgeView>),
) -> (Seq<NodeView>, Seq<EdgeView>) {
    let line = line_of(n.start_row);
    if n.kind@ == "struct_item"@ || n.kind@ == "trait_item"@ {
        let tag = if n.kind@ == "struct_item"@ { "struct"@ } else { "trait"@ };
        match field_child(n, "name"@) {
            Some(c) => (
                acc.0.push(entity(file, tag, c.text@, tag, "rust"@, n, tag + " "@ + c.text@)),
                acc.1.push(link(module, file + ":"@ + tag + ":"@ + c.text@, "contains"@, file, "EXTRACTED"@, line, None)),
            ),
            None => acc,
        }
    } else if n.kind@ == "function_item"@ {
        match field_child(n, "name"@) {
            Some(c) => {
                let id = file + ":function:"@ + c.text@;
                (
                    acc.0.push(entity(file, "function"@, c.text@, "function"@, "rust"@, n, "fn "@ + c.text@)),
                    plain_calls(n, file, id, acc.1.push(link(module, id, "contains"@, file, "EXTRACTED"@, line, None))),
                )
            },
            None => acc,
        }
    } else if n.kind@ == "use_declaration"@ {
        let clean = trim_suffix_char(trim_prefix_all(n.text@, "use "@), ';');
        (acc.0, acc.1.push(link(module, "import:"@ + clean, "imports"@, file, "EXTRACTED"@, line, Some(clean))))
    } else {
        acc
    }
}

fn rust_here_exec(n: &SyntaxNode, file: &str, module: &str, nodes: &mut Vec<Node>, edges: &mut Vec<Edge>)
    requires
        rows_fit(*n),
    ensures
        (nodes_view(final(nodes)@), edges_view(final(edges)@)) == rust_here(
            *n,
            file@,
            module@,
            (nodes_view(old(nodes)@), edges_view(old(edges)@)),
        ),
{
    let kind = n.kind.as_str();
    let is_struct = str_eq(kind, "struct_item");
    if is_struct || str_eq(kind, "trait_item") {
        let tag = if is_struct { "struct" } else { "trait" };
        match child_by_field(n, "name") {
            Some(c) => {
                let name = c.text.as_str();
                let desc = text_of(&[tag, " ", name]);
                let target = text_of(&[file, ":", tag, ":", name]);
                proof {
                    reveal_with_fuel(concat_strs, 6);
                    assert(desc@ =~= tag@ + " "@ + name@);
                    assert(target@ =~= file@ + ":"@ + tag@ + ":"@ + name@);
                }
                push_node(nodes, make_entity(file, tag, name, tag, "rust", n, desc));
                push_edge(edges, make_link(module, target, "contains", file, "EXTRACTED", n.start_row, None));
            },
            None => {},
        }
    } else if str_eq(kind, "function_item") {
        match child_by_field(n, "name") {
            Some(c) => {
                let name = c.text.as_str();
                let desc = text_of(&["fn ", name]);
                let id = text_of(&[file, ":function:", name]);
                proof {
                    reveal_with_fuel(concat_strs, 4);
                    assert(desc@ =~= "fn "@ + name@);
                    assert(id@ =~= file@ + ":function:"@ + name@);
                }
                push_node(nodes, make_entity(file, "function", name, "function", "rust", n, desc));
                push_edge(edges, make_link(module, id.clone(), "contains", file, "EXTRACTED", n.start_row, None));
                plain_calls_exec(n, file, id.as_str(), edges);
            },
            None => {},
        }
    } else if str_eq(kind, "use_declaration") {
        let a = trim_prefix_all_exec(n.text.as_str(), "use ");
        let clean = trim_suffix_char_exec(a.as_str(), ';');
        let target = text_of(&["import:", clean.as_str()]);
        proof {
            reveal_with_fuel(concat_strs, 3);
            assert(target@ =~= "import:"@ + clean@);
        }
        push_edge(edges, make_link(module, target, "imports", file, "EXTRACTED", n.start_row, Some(clean)));
    }
}

// ---------------------------------------------------------------------------
// C++
// ---------------------------------------------------------------------------

/// The declarator under pointer, reference and parenthesis wrappers: the
/// first child of each wrapper, down to a node that is none (or has no
/// child).
pub open spec fn unwrap_declarator(d: SyntaxNode) -> SyntaxNode
    decreases d,
{
    if (d.kind@ == "pointer_declarator"@ || d.kind@ == "reference_declarator"@ || d.kind@
        == "parenthesized_declarator"@) && d.children@.len() > 0 {
        unwrap_declarator(d.children@[0])
    } else {
        d
    }
}

fn unwrap_declarator_exec<'a>(d: &'a SyntaxNode) -> (r: &'a SyntaxNode)
    ensures
        *r == unwrap_declarator(*d),
    decreases d,
{
    let k = d.kind.as_str();
    if (str_eq(k, "pointer_declarator") || str_eq(k, "reference_declarator") || str_eq(k, "parenthesized_declarator"))
        && d.children.len() > 0 {
        unwrap_declarator_exec(&d.children[0])
    } else {
        d
    }
}

/// The function name a C++ function definition declares, if any.
pub open spec fn cpp_function_name(n: SyntaxNode) -> Option<Seq<char>> {
    match field_child(n, "declarator"@) {
        Some(d) => {
            let inner = unwrap_declarator(d);
            if inner.kind@ == "function_declarator"@ {
                match field_child(inner, "declarator"@) {
                    Some(x) => Some(x.text@),
                    None => None,
                }
            } else {
                None
            }
        },
        None => None,
    }
}

fn cpp_function_name_exec(n: &SyntaxNode) -> (r: Option<String>)
    ensures
        match cpp_function_name(*n) {
            Some(x) => r matches Some(y) && y@ == x,
            None => r is None,
        },
{
    match child_by_field(n, "declarator") {
        Some(d) => {
            let inner = unwrap_declarator_exec(d);
            if str_eq(inner.kind.as_str(), "function_declarator") {
                match child_by_field(inner, "declarator") {
                    Some(x) => Some(x.text.clone()),
                    None => None,
                }
            } else {
                None
            }
        },
        None => None,
    }
}

/// An include path without surrounding `<`, `>` and `"`.
pub open spec fn include_char(c: char) -> bool {
    c == '<' || c == '>' || c == '"'
}

pub open spec fn trim_include_start(s: Seq<char>) -> Seq<char>
    decreases s.len(),
{
    if s.len() > 0 && include_char(s[0]) {
        trim_include_start(s.drop_first())
    } else {
        s
    }
}

pub open spec fn trim_include_end(s: Seq<char>) -> Seq<char>
    decreases s.len(),
{
    if s.len() > 0 && include_char(s.last()) {
        trim_include_end(s.drop_last())
    } else {
        s
    }
}

/// `str::trim_matches` with `<`, `>` and `"`.
pub open spec fn include_path(s: Seq<char>) -> Seq<char> {
    trim_include_end(trim_include_start(s))
}

fn include_path_exec(s: &str) -> (r: String)
    ensures
        r@ == include_path(s@),
{
    let v = str_chars(s);
    let n = v.len();
    let mut i: usize = 0;
    assert(v@.skip(0) =~= v@);
    while i < n && (v[i] == '<' || v[i] == '>' || v[i] == '"')
        invariant
            n == v@.len(),
            i <= n,
            v@ == s@,
            trim_include_start(s@) == trim_include_start(v@.skip(i as int)),
        decreases n - i,
    {
        assert(v@.skip(i as int).drop_first() =~= v@.skip(i + 1));
        i = i + 1;
    }
    let mut j: usize = n;
    assert(v@.skip(i as int) =~= v@.subrange(i as int, n as int));
    while j > i && (v[j - 1] == '<' || v[j - 1] == '>' || v[j - 1] == '"')
        invariant
            n == v@.len(),
            i <= j <= n,
            include_path(s@) == trim_include_end(v@.subrange(i as int, j as int)),
        decreases j,
    {
        assert(v@.subrange(i as int, j as int).drop_last() =~= v@.subrange(i as int, j - 1));
        j = j - 1;
    }
    let r = crate::text::copy_range(v.as_slice(), i, j);
    chars_to_string(r.as_slice())
}

/// A call in a C++ function: a name holding no `.`, `->` or `::` becomes
/// an edge to `<file>:function:<name>`.
pub open spec fn cpp_call(n: SyntaxNode, file: Seq<char>, caller: Seq<char>) -> Option<EdgeView> {
    if n.kind@ == "call_expression"@ {
        match field_child(n, "function"@) {
            Some(f) => if f.text@.len() > 0 && !crate::text::has_char(f.text@, '.') && !contains_text(
                f.text@,
                "->"@,
            ) && !contains_text(f.text@, "::"@) {
                Some(
                    link(
                        caller,
                        file + ":function:"@ + f.text@,
                        "calls"@,
                        file,
                        "EXTRACTED"@,
                        line_of(n.start_row),
                        Some("calls "@ + f.text@),
                    ),
                )
            } else {
                None
            },
            None => None,
        }
    } else {
        None
    }
}

/// The C++ call edges of a subtree in depth-first stack order.
pub open spec fn cpp_calls(n: SyntaxNode, file: Seq<char>, caller: Seq<char>, acc: Seq<EdgeView>) -> Seq<EdgeView>
    decreases n,
{
    let here = match cpp_call(n, file, caller) {
        Some(e) => acc.push(e),
        None => acc,
    };
    cpp_calls_rev(n.children@, n.children@.len() as int, file, caller, here)
}

pub open spec fn cpp_calls_rev(
    cs: Seq<SyntaxNode>,
    k: int,
    file: Seq<char>,
    caller: Seq<char>,
    acc: Seq<EdgeView>,
) -> Seq<EdgeView>
    decreases cs, k,
{
    if k <= 0 || k > cs.len() {
        acc
    } else {
        cpp_calls_rev(cs, k - 1, file, caller, cpp_calls(cs[k - 1], file, caller, acc))
    }
}

fn cpp_call_exec(n: &SyntaxNode, file: &str, caller: &str) -> (r: Option<Edge>)
    requires
        n.start_row < usize::MAX,
    ensures
        match cpp_call(*n, file@, caller@) {
            Some(e) => r matches Some(x) && x@ == e,
            None => r is None,
        },
{
    if !str_eq(n.kind.as_str(), "call_expression") {
        return None;
    }
    match child_by_field(n, "function") {
        Some(f) => {
            let name = f.text.as_str();
            let nv = str_chars(name);
            let arrow = str_chars("->");
            let path = str_chars("::");
            if !name.is_empty() && !has_char_exec(name, '.') && !has_substring(nv.as_slice(), arrow.as_slice())
                && !has_substring(nv.as_slice(), path.as_slice()) {
                let target = text_of(&[file, ":function:", name]);
                let desc = text_of(&["calls ", name]);
                proof {
                    reveal_with_fuel(concat_strs, 4);
                    assert(target@ =~= file@ + ":function:"@ + name@);
                    assert(desc@ =~= "calls "@ + name@);
                }
                Some(make_link(caller, target, "calls", file, "EXTRACTED", n.start_row, Some(desc)))
            } else {
                None
            }
        },
        None => None,
    }
}

fn cpp_calls_exec(n: &SyntaxNode, file: &str, caller: &str, edges: &mut Vec<Edge>)
    requires
        rows_fit(*n),
    ensures
        edges_view(final(edges)@) == cpp_calls(*n, file@, caller@, edges_view(old(edges)@)),
    decreases n,
{
    let ghost acc0 = edges_view(edges@);
    match cpp_call_exec(n, file, caller) {
        Some(e) => push_edge(edges, e),
        None => {},
    }
    let ghost here = edges_view(edges@);
    let len = n.children.len();
    let mut j: usize = len;
    while j > 0
        invariant
            j <= len,
            len == n.children@.len(),
            children_fit(n.children@, n.children@.len() as int),
            cpp_calls_rev(n.children@, len as int, file@, caller@, here) == cpp_calls_rev(
                n.children@,
                j as int,
                file@,
                caller@,
                edges_view(edges@),
            ),
        decreases j,
    {
        proof {
            lemma_child_fits(n.children@, n.children@.len() as int, j - 1);
        }
        cpp_calls_exec(&n.children[j - 1], file, caller, edges);
        j = j - 1;
    }
}

/// What one C++ syntax node adds: a class or struct node, a function node
/// with its call edges, or an include's `imports` edge.
pub open spec fn cpp_here(
    n: SyntaxNode,
    file: Seq<char>,
    module: Seq<char>,
    acc: (Seq<NodeView>, Seq<EdgeView>),
) -> (Seq<NodeView>, Seq<EdgeView>) {
    let line = line_of(n.start_row);
    if n.kind@ == "class_specifier"@ || n.kind@ == "struct_specifier"@ {
        let kind = if n.kind@ == "struct_specifier"@ { "struct"@ } else { "class"@ };
        match field_child(n, "name"@) {
            Some(c) => (
                acc.0.push(entity(file, "class"@, c.text@, kind, "cpp"@, n, kind + " "@ + c.text@)),
                acc.1.push(link(module, file + ":class:"@ + c.text@, "contains"@, file, "EXTRACTED"@, line, None)),
            ),
            None => acc,
        }
    } else if n.kind@ == "function_definition"@ {
        match cpp_function_name(n) {
            Some(name) => {
                let id = file + ":function:"@ + name;
                (
                    acc.0.push(entity(file, "function"@, name, "function"@, "cpp"@, n, "function "@ + name)),
                    cpp_calls(n, file, id, acc.1.push(link(module, id, "contains"@, file, "EXTRACTED"@, line, None))),
                )
            },
            None => acc,
        }
    } else if n.kind@ == "preproc_include"@ {
        match field_child(n, "path"@) {
            Some(p) => {
                let clean = include_path(p.text@);
                (
                    acc.0,
                    acc.1.push(
                        link(module, "import:"@ + clean, "imports"@, file, "EXTRACTED"@, line, Some("include "@ + clean)),
                    ),
                )
            },
            None => acc,
        }
    } else {
        acc
    }
}

fn cpp_here_exec(n: &SyntaxNode, file: &str, module: &str, nodes: &mut Vec<Node>, edges: &mut Vec<Edge>)
    requires
        rows_fit(*n),
    ensures
        (nodes_view(final(nodes)@), edges_view(final(edges)@)) == cpp_here(
            *n,
            file@,
            module@,
            (nodes_view(old(nodes)@), edges_view(old(edges)@)),
        ),
{
    let kind = n.kind.as_str();
    let is_struct = str_eq(kind, "struct_specifier");
    if is_struct || str_eq(kind, "class_specifier") {
        let nk = if is_struct { "struct" } else { "class" };
        match child_by_field(n, "name") {
            Some(c) => {
                let name = c.text.as_str();
                let desc = text_of(&[nk, " ", name]);
                let target = text_of(&[file, ":class:", name]);
                proof {
                    reveal_with_fuel(concat_strs, 4);
                    assert(desc@ =~= nk@ + " "@ + name@);
                    assert(target@ =~= file@ + ":class:"@ + name@);
                }
                push_node(nodes, make_entity(file, "class", name, nk, "cpp", n, desc));
                push_edge(edges, make_link(module, target, "contains", file, "EXTRACTED", n.start_row, None));
            },
            None => {},
        }
    } else if str_eq(kind, "function_definition") {
        match cpp_function_name_exec(n) {
            Some(name) => {
                let desc = text_of(&["function ", name.as_str()]);
                let id = text_of(&[file, ":function:", name.as_str()]);
                proof {
                    reveal_with_fuel(concat_strs, 4);
                    assert(desc@ =~= "function "@ + name@);
                    assert(id@ =~= file@ + ":function:"@ + name@);
                }
                push_node(nodes, make_entity(file, "function", name.as_str(), "function", "cpp", n, desc));
                push_edge(edges, make_link(module, id.clone(), "contains", file, "EXTRACTED", n.start_row, None));
                cpp_calls_exec(n, file, id.as_str(), edges);
            },
            None => {},
        }
    } else if str_eq(kind, "preproc_include") {
        match child_by_field(n, "path") {
            Some(p) => {
                let clean = include_path_exec(p.text.as_str());
                let target = text_of(&["import:", clean.as_str()]);
                let desc = text_of(&["include ", clean.as_str()]);
                proof {
                    reveal_with_fuel(concat_strs, 3);
                    assert(target@ =~= "import:"@ + clean@);
                    assert(desc@ =~= "include "@ + clean@);
                }
                push_edge(edges, make_link(module, target, "imports", file, "EXTRACTED", n.start_row, Some(desc)));
            },
            None => {},
        }
    }
}

// ---------------------------------------------------------------------------
// Java
// ---------------------------------------------------------------------------

/// Declarations that become class nodes.
pub open spec fn java_class_kind(k: Seq<char>) -> bool {
    k == "class_declaration"@ || k == "interface_declaration"@ || k == "record_declaration"@ || k
        == "enum_declaration"@ || k == "annotation_type_declaration"@
}

/// The bodies whose members belong to their declaration.
pub open spec fn java_body_kind(k: Seq<char>) -> bool {
    k == "class_body"@ || k == "interface_body"@ || k == "enum_body"@
}

/// A method invocation or object creation: an inferred `calls` edge to the
/// method or class of that name in the file.
pub open spec fn java_call(c: SyntaxNode, file: Seq<char>, caller: Seq<char>) -> Option<EdgeView> {
    if c.kind@ == "method_invocation"@ {
        match field_child(c, "name"@) {
            Some(x) => Some(link(caller, file + ":function:"@ + x.text@, "calls"@, file, "INFERRED"@, line_of(c.start_row), None)),
            None => None,
        }
    } else if c.kind@ == "object_creation_expression"@ {
        match field_child(c, "type"@) {
            Some(t) => Some(link(caller, file + ":class:"@ + t.text@, "calls"@, file, "INFERRED"@, line_of(c.start_row), None)),
            None => None,
        }
    } else {
        None
    }
}

/// The call edges below `n`: each child in order, then its own subtree.
pub open spec fn java_calls(n: SyntaxNode, file: Seq<char>, caller: Seq<char>, acc: Seq<EdgeView>) -> Seq<EdgeView>
    decreases n,
{
    java_calls_all(n.children@, n.children@.len() as int, file, caller, acc)
}

pub open spec fn java_calls_all(
    cs: Seq<SyntaxNode>,
    k: int,
    file: Seq<char>,
    caller: Seq<char>,
    acc: Seq<EdgeView>,
) -> Seq<EdgeView>
    decreases cs, k,
{
    if k <= 0 || k > cs.len() {
        acc
    } else {
        let a = java_calls_all(cs, k - 1, file, caller, acc);
        let b = match java_call(cs[k - 1], file, caller) {
            Some(e) => a.push(e),
            None => a,
        };
        java_calls(cs[k - 1], file, caller, b)
    }
}

/// A Java tree walked from the module: a named class-like declaration
/// becomes a class node, and only the members of its bodies are walked,
/// under it; a named method or constructor becomes a function node with its
/// calls, and is not walked further; other nodes pass through.
pub open spec fn java_visit(
    n: SyntaxNode,
    file: Seq<char>,
    parent: Seq<char>,
    acc: (Seq<NodeView>, Seq<EdgeView>),
) -> (Seq<NodeView>, Seq<EdgeView>)
    decreases n,
{
    let line = line_of(n.start_row);
    if java_class_kind(n.kind@) {
        match field_child(n, "name"@) {
            Some(c) => {
                let id = file + ":class:"@ + c.text@;
                let here = (
                    acc.0.push(entity(file, "class"@, c.text@, "class"@, "java"@, n, n.kind@ + " "@ + c.text@)),
                    acc.1.push(link(parent, id, "contains"@, file, "EXTRACTED"@, line, None)),
                );
                java_bodies(n.children@, n.children@.len() as int, file, id, here)
            },
            None => acc,
        }
    } else if n.kind@ == "method_declaration"@ || n.kind@ == "constructor_declaration"@ {
        match field_child(n, "name"@) {
            Some(c) => {
                let id = file + ":function:"@ + c.text@;
                (
                    acc.0.push(entity(file, "function"@, c.text@, "function"@, "java"@, n, "method "@ + c.text@)),
                    java_calls(n, file, id, acc.1.push(link(parent, id, "contains"@, file, "EXTRACTED"@, line, None))),
                )
            },
            None => acc,
        }
    } else {
        java_visit_all(n.children@, n.children@.len() as int, file, parent, acc)
    }
}

pub open spec fn java_visit_all(
    cs: Seq<SyntaxNode>,
    k: int,
    file: Seq<char>,
    parent: Seq<char>,
    acc: (Seq<NodeView>, Seq<EdgeView>),
) -> (Seq<NodeView>, Seq<EdgeView>)
    decreases cs, k,
{
    if k <= 0 || k > cs.len() {
        acc
    } else {
        java_visit(cs[k - 1], file, parent, java_visit_all(cs, k - 1, file, parent, acc))
    }
}

/// The members of the body children among the first `k`, walked in order.
pub open spec fn java_bodies(
    cs: Seq<SyntaxNode>,
    k: int,
    file: Seq<char>,
    parent: Seq<char>,
    acc: (Seq<NodeView>, Seq<EdgeView>),
) -> (Seq<NodeView>, Seq<EdgeView>)
    decreases cs, k,
{
    if k <= 0 || k > cs.len() {
        acc
    } else {
        let a = java_bodies(cs, k - 1, file, parent, acc);
        if java_body_kind(cs[k - 1].kind@) {
            java_visit_all(cs[k - 1].children@, cs[k - 1].children@.len() as int, file, parent, a)
        } else {
            a
        }
    }
}

fn java_call_exec(c: &SyntaxNode, file: &str, caller: &str) -> (r: Option<Edge>)
    requires
        c.start_row < usize::MAX,
    ensures
        match java_call(*c, file@, caller@) {
            Some(e) => r matches Some(x) && x@ == e,
            None => r is None,
        },
{
    let kind = c.kind.as_str();
    if str_eq(kind, "method_invocation") {
        match child_by_field(c, "name") {
            Some(x) => {
                let target = text_of(&[file, ":function:", x.text.as_str()]);
                proof {
                    reveal_with_fuel(concat_strs, 4);
                    assert(target@ =~= file@ + ":function:"@ + x.text@);
                }
                Some(make_link(caller, target, "calls", file, "INFERRED", c.start_row, None))
            },
            None => None,
        }
    } else if str_eq(kind, "object_creation_expression") {
        match child_by_field(c, "type") {
            Some(t) => {
                let target = text_of(&[file, ":class:", t.text.as_str()]);
                proof {
                    reveal_with_fuel(concat_strs, 4);
                    assert(target@ =~= file@ + ":class:"@ + t.text@);
                }
                Some(make_link(caller, target, "calls", file, "INFERRED", c.start_row, None))
            },
            None => None,
        }
    } else {
        None
    }
}

fn java_calls_exec(n: &SyntaxNode, file: &str, caller: &str, edges: &mut Vec<Edge>)
    requires
        rows_fit(*n),
    ensures
        edges_view(final(edges)@) == java_calls(*n, file@, caller@, edges_view(old(edges)@)),
    decreases n,
{
    let ghost acc0 = edges_view(edges@);
    let len = n.children.len();
    let mut i: usize = 0;
    while i < len
        invariant
            i <= len,
            len == n.children@.len(),
            children_fit(n.children@, n.children@.len() as int),
            edges_view(edges@) == java_calls_all(n.children@, i as int, file@, caller@, acc0),
        decreases len - i,
    {
        proof {
            lemma_child_fits(n.children@, n.children@.len() as int, i as int);
        }
        let c = &n.children[i];
        match java_call_exec(c, file, caller) {
            Some(e) => push_edge(edges, e),
            None => {},
        }
        java_calls_exec(c, file, caller, edges);
        i = i + 1;
    }
}

/// Walks every child of `n` in order, as `java_visit_all` does.
fn java_visit_children_exec(n: &SyntaxNode, file: &str, parent: &str, nodes: &mut Vec<Node>, edges: &mut Vec<Edge>)
    requires
        rows_fit(*n),
    ensures
        (nodes_view(final(nodes)@), edges_view(final(edges)@)) == java_visit_all(
            n.children@,
            n.children@.len() as int,
            file@,
            parent@,
            (nodes_view(old(nodes)@), edges_view(old(edges)@)),
        ),
    decreases n, 0int,
{
    let ghost acc0 = (nodes_view(nodes@), edges_view(edges@));
    let len = n.children.len();
    let mut i: usize = 0;
    while i < len
        invariant
            i <= len,
            len == n.children@.len(),
            children_fit(n.children@, n.children@.len() as int),
            (nodes_view(nodes@), edges_view(edges@)) == java_visit_all(n.children@, i as int, file@, parent@, acc0),
        decreases len - i,
    {
        proof {
            lemma_child_fits(n.children@, n.children@.len() as int, i as int);
        }
        java_visit_exec(&n.children[i], file, parent, nodes, edges);
        i = i + 1;
    }
}

fn java_visit_exec(n: &SyntaxNode, file: &str, parent: &str, nodes: &mut Vec<Node>, edges: &mut Vec<Edge>)
    requires
        rows_fit(*n),
    ensures
        (nodes_view(final(nodes)@), edges_view(final(edges)@)) == java_visit(
            *n,
            file@,
            parent@,
            (nodes_view(old(nodes)@), edges_view(old(edges)@)),
        ),
    decreases n, 1int,
{
    let kind = n.kind.as_str();
    let is_class = str_eq(kind, "class_declaration") || str_eq(kind, "interface_declaration") || str_eq(
        kind,
        "record_declaration",
    ) || str_eq(kind, "enum_declaration") || str_eq(kind, "annotation_type_declaration");
    let len = n.children.len();
    if is_class {
        match child_by_field(n, "name") {
            Some(c) => {
                let name = c.text.as_str();
                let desc = text_of(&[kind, " ", name]);
                let id = text_of(&[file, ":class:", name]);
                proof {
                    reveal_with_fuel(concat_strs, 4);
                    assert(desc@ =~= kind@ + " "@ + name@);
                    assert(id@ =~= file@ + ":class:"@ + name@);
                }
                push_node(nodes, make_entity(file, "class", name, "class", "java", n, desc));
                push_edge(edges, make_link(parent, id.clone(), "contains", file, "EXTRACTED", n.start_row, None));
                let ghost here = (nodes_view(nodes@), edges_view(edges@));
                let mut i: usize = 0;
                while i < len
                    invariant
                        i <= len,
                        len == n.children@.len(),
                        children_fit(n.children@, n.children@.len() as int),
                        (nodes_view(nodes@), edges_view(edges@)) == java_bodies(n.children@, i as int, file@, id@, here),
                    decreases len - i,
                {
                    proof {
                        lemma_child_fits(n.children@, n.children@.len() as int, i as int);
                    }
                    let b = &n.children[i];
                    let bk = b.kind.as_str();
                    if str_eq(bk, "class_body") || str_eq(bk, "interface_body") || str_eq(bk, "enum_body") {
                        java_visit_children_exec(b, file, id.as_str(), nodes, edges);
                    }
                    i = i + 1;
                }
            },
            None => {},
        }
    } else if str_eq(kind, "method_declaration") || str_eq(kind, "constructor_declaration") {
        match child_by_field(n, "name") {
            Some(c) => {
                let name = c.text.as_str();
                let desc = text_of(&["method ", name]);
                let id = text_of(&[file, ":function:", name]);
                proof {
                    reveal_with_fuel(concat_strs, 4);
                    assert(desc@ =~= "method "@ + name@);
                    assert(id@ =~= file@ + ":function:"@ + name@);
                }
                push_node(nodes, make_entity(file, "function", name, "function", "java", n, desc));
                push_edge(edges, make_link(parent, id.clone(), "contains", file, "EXTRACTED", n.start_row, None));
                java_calls_exec(n, file, id.as_str(), edges);
            },
            None => {},
        }
    } else {
        java_visit_children_exec(n, file, parent, nodes, edges);
    }
}

// ---------------------------------------------------------------------------
// Swift
// ---------------------------------------------------------------------------

/// Declarations that become class nodes.
pub open spec fn swift_class_kind(k: Seq<char>) -> bool {
    k == "class_declaration"@ || k == "protocol_declaration"@ || k == "struct_declaration"@ || k
        == "enum_declaration"@ || k == "extension_declaration"@
}

/// Declarations that become function nodes.
pub open spec fn swift_fn_kind(k: Seq<char>) -> bool {
    k == "function_declaration"@ || k == "init_declaration"@ || k == "deinit_declaration"@
}

/// The name of a function-like declaration: its `name` field, or
/// `UnknownFunction` without one; `init` and `deinit` for those.
pub open spec fn swift_fn_name(n: SyntaxNode) -> Seq<char> {
    if n.kind@ == "function_declaration"@ {
        match field_child(n, "name"@) {
            Some(c) => c.text@,
            None => "UnknownFunction"@,
        }
    } else if n.kind@ == "init_declaration"@ {
        "init"@
    } else {
        "deinit"@
    }
}

/// The callee named by a call's first child: the `suffix` of a navigation
/// expression, or else the child's whole text.
pub open spec fn swift_callee(c: SyntaxNode) -> Option<Seq<char>> {
    if c.children@.len() == 0 {
        None
    } else if c.children@[0].kind@ == "navigation_expression"@ {
        match field_child(c.children@[0], "suffix"@) {
            Some(x) => Some(x.text@),
            None => None,
        }
    } else {
        Some(c.children@[0].text@)
    }
}

/// A `call_expression` with a callee other than `Unknown`: an inferred
/// `calls` edge to the function of that name in the file.
pub open spec fn swift_call(c: SyntaxNode, file: Seq<char>, caller: Seq<char>) -> Option<EdgeView> {
    if c.kind@ == "call_expression"@ {
        match swift_callee(c) {
            Some(x) => if x != "Unknown"@ {
                Some(link(caller, file + ":function:"@ + x, "calls"@, file, "INFERRED"@, line_of(c.start_row), None))
            } else {
                None
            },
            None => None,
        }
    } else {
        None
    }
}

/// The call edges of a subtree visited as a depth-first stack does: the
/// node, then its children from last to first.
pub open spec fn swift_calls(n: SyntaxNode, file: Seq<char>, caller: Seq<char>, acc: Seq<EdgeView>) -> Seq<EdgeView>
    decreases n,
{
    let here = match swift_call(n, file, caller) {
        Some(e) => acc.push(e),
        None => acc,
    };
    swift_calls_rev(n.children@, n.children@.len() as int, file, caller, here)
}

pub open spec fn swift_calls_rev(
    cs: Seq<SyntaxNode>,
    k: int,
    file: Seq<char>,
    caller: Seq<char>,
    acc: Seq<EdgeView>,
) -> Seq<EdgeView>
    decreases cs, k,
{
    if k <= 0 || k > cs.len() {
        acc
    } else {
        swift_calls_rev(cs, k - 1, file, caller, swift_calls(cs[k - 1], file, caller, acc))
    }
}

/// What one Swift node adds: a named type declaration becomes a class
/// node, a function-like declaration a function node with its calls, each
/// with a `contains` edge from the current parent.
pub open spec fn swift_here(
    n: SyntaxNode,
    file: Seq<char>,
    parent: Seq<char>,
    acc: (Seq<NodeView>, Seq<EdgeView>),
) -> (Seq<NodeView>, Seq<EdgeView>) {
    let line = line_of(n.start_row);
    if swift_class_kind(n.kind@) {
        match field_child(n, "name"@) {
            Some(c) => (
                acc.0.push(entity(file, "class"@, c.text@, "class"@, "swift"@, n, n.kind@ + " "@ + c.text@)),
                acc.1.push(link(parent, file + ":class:"@ + c.text@, "contains"@, file, "EXTRACTED"@, line, None)),
            ),
            None => acc,
        }
    } else if swift_fn_kind(n.kind@) {
        let name = swift_fn_name(n);
        let id = file + ":function:"@ + name;
        (
            acc.0.push(entity(file, "function"@, name, "function"@, "swift"@, n, n.kind@ + " "@ + name)),
            swift_calls(n, file, id, acc.1.push(link(parent, id, "contains"@, file, "EXTRACTED"@, line, None))),
        )
    } else {
        acc
    }
}

/// The parent of a node's children: a named type declaration itself,
/// otherwise the node's own parent.
pub open spec fn swift_parent(n: SyntaxNode, file: Seq<char>, parent: Seq<char>) -> Seq<char> {
    if swift_class_kind(n.kind@) {
        match field_child(n, "name"@) {
            Some(c) => file + ":class:"@ + c.text@,
            None => parent,
        }
    } else {
        parent
    }
}

/// A Swift tree walked in document order; members nest under their type.
pub open spec fn swift_visit(
    n: SyntaxNode,
    file: Seq<char>,
    parent: Seq<char>,
    acc: (Seq<NodeView>, Seq<EdgeView>),
) -> (Seq<NodeView>, Seq<EdgeView>)
    decreases n,
{
    swift_visit_all(
        n.children@,
        n.children@.len() as int,
        file,
        swift_parent(n, file, parent),
        swift_here(n, file, parent, acc),
    )
}

pub open spec fn swift_visit_all(
    cs: Seq<SyntaxNode>,
    k: int,
    file: Seq<char>,
    parent: Seq<char>,
    acc: (Seq<NodeView>, Seq<EdgeView>),
) -> (Seq<NodeView>, Seq<EdgeView>)
    decreases cs, k,
{
    if k <= 0 || k > cs.len() {
        acc
    } else {
        swift_visit(cs[k - 1], file, parent, swift_visit_all(cs, k - 1, file, parent, acc))
    }
}

fn swift_callee_exec(c: &SyntaxNode) -> (r: Option<&str>)
    ensures
        match swift_callee(*c) {
            Some(x) => r matches Some(y) && y@ == x,
            None => r is None,
        },
{
    if c.children.len() == 0 {
        return None;
    }
    let f = &c.children[0];
    if str_eq(f.kind.as_str(), "navigation_expression") {
        match child_by_field(f, "suffix") {
            Some(x) => Some(x.text.as_str()),
            None => None,
        }
    } else {
        Some(f.text.as_str())
    }
}

fn swift_call_exec(c: &SyntaxNode, file: &str, caller: &str) -> (r: Option<Edge>)
    requires
        c.start_row < usize::MAX,
    ensures
        match swift_call(*c, file@, caller@) {
            Some(e) => r matches Some(x) && x@ == e,
            None => r is None,
        },
{
    if !str_eq(c.kind.as_str(), "call_expression") {
        return None;
    }
    match swift_callee_exec(c) {
        Some(x) => {
            if str_eq(x, "Unknown") {
                None
            } else {
                let target = text_of(&[file, ":function:", x]);
                proof {
                    reveal_with_fuel(concat_strs, 4);
                    assert(target@ =~= file@ + ":function:"@ + x@);
                }
                Some(make_link(caller, target, "calls", file, "INFERRED", c.start_row, None))
            }
        },
        None => None,
    }
}

fn swift_calls_exec(n: &SyntaxNode, file: &str, caller: &str, edges: &mut Vec<Edge>)
    requires
        rows_fit(*n),
    ensures
        edges_view(final(edges)@) == swift_calls(*n, file@, caller@, edges_view(old(edges)@)),
    decreases n,
{
    match swift_call_exec(n, file, caller) {
        Some(e) => push_edge(edges, e),
        None => {},
    }
    let ghost here = edges_view(edges@);
    let len = n.children.len();
    let mut j: usize = len;
    while j > 0
        invariant
            j <= len,
            len == n.children@.len(),
            children_fit(n.children@, n.children@.len() as int),
            swift_calls_rev(n.children@, len as int, file@, caller@, here) == swift_calls_rev(
                n.children@,
                j as int,
                file@,
                caller@,
                edges_view(edges@),
            ),
        decreases j,
    {
        proof {
            lemma_child_fits(n.children@, n.children@.len() as int, j - 1);
        }
        swift_calls_exec(&n.children[j - 1], file, caller, edges);
        j = j - 1;
    }
}

fn swift_fn_name_exec(n: &SyntaxNode) -> (r: &str)
    ensures
        r@ == swift_fn_name(*n),
{
    if str_eq(n.kind.as_str(), "function_declaration") {
        match child_by_field(n, "name") {
            Some(c) => c.text.as_str(),
            None => "UnknownFunction",
        }
    } else if str_eq(n.kind.as_str(), "init_declaration") {
        "init"
    } else {
        "deinit"
    }
}

/// Adds what `swift_here` adds and returns the parent for the children.
fn swift_here_exec(n: &SyntaxNode, file: &str, parent: &str, nodes: &mut Vec<Node>, edges: &mut Vec<Edge>) -> (next: String)
    requires
        rows_fit(*n),
    ensures
        (nodes_view(final(nodes)@), edges_view(final(edges)@)) == swift_here(
            *n,
            file@,
            parent@,
            (nodes_view(old(nodes)@), edges_view(old(edges)@)),
        ),
        next@ == swift_parent(*n, file@, parent@),
{
    let kind = n.kind.as_str();
    let is_class = str_eq(kind, "class_declaration") || str_eq(kind, "protocol_declaration") || str_eq(
        kind,
        "struct_declaration",
    ) || str_eq(kind, "enum_declaration") || str_eq(kind, "extension_declaration");
    if is_class {
        match child_by_field(n, "name") {
            Some(c) => {
                let name = c.text.as_str();
                let desc = text_of(&[kind, " ", name]);
                let id = text_of(&[file, ":class:", name]);
                proof {
                    reveal_with_fuel(concat_strs, 4);
                    assert(desc@ =~= kind@ + " "@ + name@);
                    assert(id@ =~= file@ + ":class:"@ + name@);
                }
                push_node(nodes, make_entity(file, "class", name, "class", "swift", n, desc));
                push_edge(edges, make_link(parent, id.clone(), "contains", file, "EXTRACTED", n.start_row, None));
                id
            },
            None => String::from_str(parent),
        }
    } else if str_eq(kind, "function_declaration") || str_eq(kind, "init_declaration") || str_eq(
        kind,
        "deinit_declaration",
    ) {
        let name = swift_fn_name_exec(n);
        let desc = text_of(&[kind, " ", name]);
        let id = text_of(&[file, ":function:", name]);
        proof {
            reveal_with_fuel(concat_strs, 4);
            assert(desc@ =~= kind@ + " "@ + name@);
            assert(id@ =~= file@ + ":function:"@ + name@);
        }
        push_node(nodes, make_entity(file, "function", name, "function", "swift", n, desc));
        push_edge(edges, make_link(parent, id.clone(), "contains", file, "EXTRACTED", n.start_row, None));
        swift_calls_exec(n, file, id.as_str(), edges);
        String::from_str(parent)
    } else {
        String::from_str(parent)
    }
}

fn swift_visit_exec(n: &SyntaxNode, file: &str, parent: &str, nodes: &mut Vec<Node>, edges: &mut Vec<Edge>)
    requires
        rows_fit(*n),
    ensures
        (nodes_view(final(nodes)@), edges_view(final(edges)@)) == swift_visit(
            *n,
            file@,
            parent@,
            (nodes_view(old(nodes)@), edges_view(old(edges)@)),
        ),
    decreases n,
{
    let next = swift_here_exec(n, file, parent, nodes, edges);
    let ghost here = (nodes_view(nodes@), edges_view(edges@));
    let len = n.children.len();
    let mut i: usize = 0;
    while i < len
        invariant
            i <= len,
            len == n.children@.len(),
            children_fit(n.children@, n.children@.len() as int),
            next@ == swift_parent(*n, file@, parent@),
            (nodes_view(nodes@), edges_view(edges@)) == swift_visit_all(n.children@, i as int, file@, next@, here),
        decreases len - i,
    {
        proof {
            lemma_child_fits(n.children@, n.children@.len() as int, i as int);
        }
        swift_visit_exec(&n.children[i], file, next.as_str(), nodes, edges);
        i = i + 1;
    }
}

// ---------------------------------------------------------------------------
// Dispatch
// ---------------------------------------------------------------------------

/// The language with extraction rules for a lower-cased file extension.
pub open spec fn lang_of(ext: Seq<char>) -> Option<Lang> {
    if ext == "py"@ {
        Some(Lang::Python)
    } else if ext == "rs"@ {
        Some(Lang::Rust)
    } else if ext == "cpp"@ || ext == "cc"@ || ext == "cxx"@ || ext == "hpp"@ || ext == "h++"@ || ext == "hh"@ {
        Some(Lang::Cpp)
    } else if ext == "java"@ {
        Some(Lang::Java)
    } else if ext == "swift"@ {
        Some(Lang::Swift)
    } else {
        None
    }
}

/// The language name stored on nodes.
pub open spec fn lang_name(lang: Lang) -> Seq<char> {
    match lang {
        Lang::Python => "python"@,
        Lang::Rust => "rust"@,
        Lang::Cpp => "cpp"@,
        Lang::Java => "java"@,
        Lang::Swift => "swift"@,
    }
}

/// The language title in a module's description.
pub open spec fn lang_title(lang: Lang) -> Seq<char> {
    match lang {
        Lang::Python => "Python"@,
        Lang::Rust => "Rust"@,
        Lang::Cpp => "C++"@,
        Lang::Java => "Java"@,
        Lang::Swift => "Swift"@,
    }
}

/// What a file yields: its module node first, then the entities and edges
/// of its syntax tree under the module, by the language's rules.
pub open spec fn extraction(lang: Lang, root: SyntaxNode, file: Seq<char>, content: Seq<char>) -> (
    Seq<NodeView>,
    Seq<EdgeView>,
) {
    let module = file + ":module"@;
    let start = (seq![module_entity(file, lang_name(lang), lang_title(lang), content)], Seq::<EdgeView>::empty());
    match lang {
        Lang::Java => java_visit(root, file, module, start),
        Lang::Swift => swift_visit(root, file, module, start),
        _ => flat_visit(lang, root, file, module, start),
    }
}

/// The language of a lower-cased extension (`None` for one without rules).
pub fn lang_named(ext: &str) -> (r: Option<Lang>)
    ensures
        r == lang_of(ext@),
{
    if str_eq(ext, "py") {
        Some(Lang::Python)
    } else if str_eq(ext, "rs") {
        Some(Lang::Rust)
    } else if str_eq(ext, "cpp") || str_eq(ext, "cc") || str_eq(ext, "cxx") || str_eq(ext, "hpp") || str_eq(
        ext,
        "h++",
    ) || str_eq(ext, "hh") {
        Some(Lang::Cpp)
    } else if str_eq(ext, "java") {
        Some(Lang::Java)
    } else if str_eq(ext, "swift") {
        Some(Lang::Swift)
    } else {
        None
    }
}

/// The language of a file extension, compared lower-cased; an error names
/// an extension without rules.
pub fn lang_of_extension(ext: &str) -> (r: Result<Lang, String>)
    ensures
        match lang_of(lowercase(ext@)) {
            Some(l) => r == Ok::<Lang, String>(l),
            None => r matches Err(m) && m@ == "Unsupported file extension: "@ + lowercase(ext@),
        },
{
    let lower = to_lowercase(ext);
    match lang_named(lower.as_str()) {
        Some(l) => Ok(l),
        None => {
            let m = text_of(&["Unsupported file extension: ", lower.as_str()]);
            proof {
                reveal_with_fuel(concat_strs, 3);
                assert(m@ =~= "Unsupported file extension: "@ + lower@);
            }
            Err(m)
        },
    }
}

/// The nodes and edges of a parsed source file: its module node, then
/// what the language's rules find in the tree.
pub fn extract_tree(lang: Lang, root: &SyntaxNode, file_path: &str, content: &str) -> (r: ExtractionResult)
    requires
        rows_fit(*root),
    ensures
        (nodes_view(r.nodes@), edges_view(r.edges@)) == extraction(lang, *root, file_path@, content@),
{
    let (name, title) = match lang {
        Lang::Python => ("python", "Python"),
        Lang::Rust => ("rust", "Rust"),
        Lang::Cpp => ("cpp", "C++"),
        Lang::Java => ("java", "Java"),
        Lang::Swift => ("swift", "Swift"),
    };
    proof {
        assert(name@ == lang_name(lang) && title@ == lang_title(lang)) by {
            reveal_strlit("python");
            reveal_strlit("rust");
        }
    }
    let module = text_of(&[file_path, ":module"]);
    proof {
        reveal_with_fuel(concat_strs, 3);
        assert(module@ =~= file_path@ + ":module"@);
    }
    let mut nodes: Vec<Node> = Vec::new();
    let mut edges: Vec<Edge> = Vec::new();
    push_node(&mut nodes, make_module(file_path, name, title, content));
    assert(nodes_view(nodes@) =~= seq![module_entity(file_path@, lang_name(lang), lang_title(lang), content@)]);
    assert(edges_view(edges@) =~= Seq::<EdgeView>::empty());
    match lang {
        Lang::Java => java_visit_exec(root, file_path, module.as_str(), &mut nodes, &mut edges),
        Lang::Swift => swift_visit_exec(root, file_path, module.as_str(), &mut nodes, &mut edges),
        _ => flat_visit_exec(lang, root, file_path, module.as_str(), &mut nodes, &mut edges),
    }
    ExtractionResult { nodes, edges }
}

/// Checks that every row of a tree has a successor.
pub fn tree_rows_fit(n: &SyntaxNode) -> (r: bool)
    ensures
        r == rows_fit(*n),
    decreases n,
{
    if n.start_row == usize::MAX || n.end_row == usize::MAX {
        return false;
    }
    let len = n.children.len();
    let mut i: usize = 0;
    while i < len
        invariant
            i <= len,
            len == n.children@.len(),
            n.start_row < usize::MAX,
            n.end_row < usize::MAX,
            children_fit(n.children@, i as int),
        decreases len - i,
    {
        if !tree_rows_fit(&n.children[i]) {
            proof {
                if rows_fit(*n) {
                    lemma_children_fit_prefix(n.children@, n.children@.len() as int, i as int + 1);
                }
            }
            return false;
        }
        i = i + 1;
    }
    true
}

proof fn lemma_children_fit_prefix(cs: Seq<SyntaxNode>, k: int, j: int)
    requires
        0 <= j <= k <= cs.len(),
        children_fit(cs, k),
    ensures
        children_fit(cs, j),
    decreases k - j,
{
    if j < k {
        lemma_children_fit_prefix(cs, k - 1, j);
    }
}

/// The error for a source that yields no usable tree.
pub open spec fn parse_failure(lang: Lang, file: Seq<char>) -> Seq<char> {
    "Failed to parse "@ + lang_title(lang) + " file: "@ + file
}

/// Parses a source text and extracts its nodes and edges; an error where
/// the parser gives no tree (or one whose rows overflow).
pub fn extract(lang: Lang, content: &str, file_path: &str) -> (r: Result<ExtractionResult, String>)
    ensures
        match syntax_tree(lang, content@) {
            Some(t) => if rows_fit(t) {
                r matches Ok(x) && (nodes_view(x.nodes@), edges_view(x.edges@)) == extraction(lang, t, file_path@, content@)
            } else {
                r matches Err(m) && m@ == parse_failure(lang, file_path@)
            },
            None => r matches Err(m) && m@ == parse_failure(lang, file_path@),
        },
{
    match parse_source(lang, content) {
        Some(t) => {
            if tree_rows_fit(&t) {
                return Ok(extract_tree(lang, &t, file_path, content));
            }
        },
        None => {},
    }
    let title = match lang {
        Lang::Python => "Python",
        Lang::Rust => "Rust",
        Lang::Cpp => "C++",
        Lang::Java => "Java",
        Lang::Swift => "Swift",
    };
    let m = text_of(&["Failed to parse ", title, " file: ", file_path]);
    proof {
        reveal_with_fuel(concat_strs, 5);
        assert(m@ =~= parse_failure(lang, file_path@));
    }
    Err(m)
}

/// Extracts a source file read from disk: the extension (compared
/// lower-cased) picks the language.
pub fn extract_file(ext: &str, content: &str, file_path: &str) -> (r: Result<ExtractionResult, String>)
    ensures
        match lang_of(lowercase(ext@)) {
            None => r matches Err(m) && m@ == "Unsupported file extension: "@ + lowercase(ext@),
            Some(l) => match syntax_tree(l, content@) {
                Some(t) => if rows_fit(t) {
                    r matches Ok(x) && (nodes_view(x.nodes@), edges_view(x.edges@)) == extraction(l, t, file_path@, content@)
                } else {
                    r matches Err(m) && m@ == parse_failure(l, file_path@)
                },
                None => r matches Err(m) && m@ == parse_failure(l, file_path@),
            },
        },
{
    match lang_of_extension(ext) {
        Ok(l) => extract(l, content, file_path),
        Err(m) => Err(m),
    }
}

} // verus!

//! What every extraction keeps: walking a tree only appends, so the
//! module node stays first, and everything it yields belongs to the file.

use vstd::prelude::*;
use crate::extract::{
    cpp_call, cpp_calls, cpp_calls_rev, cpp_function_name, entity, extraction, field_child, flat_here, flat_visit,
    flat_visit_all, java_bodies, java_body_kind, java_call, java_calls, java_calls_all, java_class_kind, java_visit,
    java_visit_all, lang_name, lang_title, line_of, link, module_entity, plain_call, plain_calls, plain_calls_rev,
    swift_call, swift_calls, swift_calls_rev, swift_class_kind, swift_fn_kind, swift_fn_name, swift_here, swift_parent,
    swift_visit, swift_visit_all, Lang, SyntaxNode, rust_here, py_here, trim_prefix_all, trim_suffix_char,
};
use crate::types::{EdgeView, NodeView};

verus! {

/// `b` extends `a`.
pub open spec fn grows<A>(a: Seq<A>, b: Seq<A>) -> bool {
    a.len() <= b.len() && forall|i: int| 0 <= i < a.len() ==> #[trigger] b[i] == a[i]
}

/// Every node comes from `file` and is in language `lang`.
pub open spec fn nodes_from(ns: Seq<NodeView>, file: Seq<char>, lang: Seq<char>) -> bool {
    forall|i: int| 0 <= i < ns.len() ==> (#[trigger] ns[i]).source_file == file && ns[i].language == lang
}

/// Every edge comes from `file`.
pub open spec fn edges_from(es: Seq<EdgeView>, file: Seq<char>) -> bool {
    forall|i: int| 0 <= i < es.len() ==> (#[trigger] es[i]).source_file == file
}

pub open spec fn edges_grow(a: Seq<EdgeView>, b: Seq<EdgeView>, file: Seq<char>) -> bool {
    grows(a, b) && (edges_from(a, file) ==> edges_from(b, file))
}

pub open spec fn both_grow(
    a: (Seq<NodeView>, Seq<EdgeView>),
    b: (Seq<NodeView>, Seq<EdgeView>),
    file: Seq<char>,
    lang: Seq<char>,
) -> bool {
    &&& grows(a.0, b.0)
    &&& nodes_from(a.0, file, lang) ==> nodes_from(b.0, file, lang)
    &&& edges_grow(a.1, b.1, file)
}

// Call edges ---------------------------------------------------------------

proof fn lemma_plain_calls(n: SyntaxNode, file: Seq<char>, caller: Seq<char>, acc: Seq<EdgeView>)
    ensures
        edges_grow(acc, plain_calls(n, file, caller, acc), file),
    decreases n,
{
    let here = match plain_call(n, file, caller) {
        Some(e) => acc.push(e),
        None => acc,
    };
    lemma_plain_calls_rev(n.children@, n.children@.len() as int, file, caller, here);
}

proof fn lemma_plain_calls_rev(cs: Seq<SyntaxNode>, k: int, file: Seq<char>, caller: Seq<char>, acc: Seq<EdgeView>)
    ensures
        edges_grow(acc, plain_calls_rev(cs, k, file, caller, acc), file),
    decreases cs, k,
{
    if k > 0 && k <= cs.len() {
        let a = plain_calls(cs[k - 1], file, caller, acc);
        lemma_plain_calls(cs[k - 1], file, caller, acc);
        lemma_plain_calls_rev(cs, k - 1, file, caller, a);
    }
}

proof fn lemma_cpp_calls(n: SyntaxNode, file: Seq<char>, caller: Seq<char>, acc: Seq<EdgeView>)
    ensures
        edges_grow(acc, cpp_calls(n, file, caller, acc), file),
    decreases n,
{
    let here = match cpp_call(n, file, caller) {
        Some(e) => acc.push(e),
        None => acc,
    };
    lemma_cpp_calls_rev(n.children@, n.children@.len() as int, file, caller, here);
}

proof fn lemma_cpp_calls_rev(cs: Seq<SyntaxNode>, k: int, file: Seq<char>, caller: Seq<char>, acc: Seq<EdgeView>)
    ensures
        edges_grow(acc, cpp_calls_rev(cs, k, file, caller, acc), file),
    decreases cs, k,
{
    if k > 0 && k <= cs.len() {
        let a = cpp_calls(cs[k - 1], file, caller, acc);
        lemma_cpp_calls(cs[k - 1], file, caller, acc);
        lemma_cpp_calls_rev(cs, k - 1, file, caller, a);
    }
}

proof fn lemma_java_calls(n: SyntaxNode, file: Seq<char>, caller: Seq<char>, acc: Seq<EdgeView>)
    ensures
        edges_grow(acc, java_calls(n, file, caller, acc), file),
    decreases n,
{
    lemma_java_calls_all(n.children@, n.children@.len() as int, file, caller, acc);
}

proof fn lemma_java_calls_all(cs: Seq<SyntaxNode>, k: int, file: Seq<char>, caller: Seq<char>, acc: Seq<EdgeView>)
    ensures
        edges_grow(acc, java_calls_all(cs, k, file, caller, acc), file),
    decreases cs, k,
{
    if k > 0 && k <= cs.len() {
        let a = java_calls_all(cs, k - 1, file, caller, acc);
        lemma_java_calls_all(cs, k - 1, file, caller, acc);
        let b = match java_call(cs[k - 1], file, caller) {
            Some(e) => a.push(e),
            None => a,
        };
        lemma_java_calls(cs[k - 1], file, caller, b);
    }
}

proof fn lemma_swift_calls(n: SyntaxNode, file: Seq<char>, caller: Seq<char>, acc: Seq<EdgeView>)
    ensures
        edges_grow(acc, swift_calls(n, file, caller, acc), file),
    decreases n,
{
    let here = match swift_call(n, file, caller) {
        Some(e) => acc.push(e),
        None => acc,
    };
    lemma_swift_calls_rev(n.children@, n.children@.len() as int, file, caller, here);
}

proof fn lemma_swift_calls_rev(cs: Seq<SyntaxNode>, k: int, file: Seq<char>, caller: Seq<char>, acc: Seq<EdgeView>)
    ensures
        edges_grow(acc, swift_calls_rev(cs, k, file, caller, acc), file),
    decreases cs, k,
{
    if k > 0 && k <= cs.len() {
        let a = swift_calls(cs[k - 1], file, caller, acc);
        lemma_swift_calls(cs[k - 1], file, caller, acc);
        lemma_swift_calls_rev(cs, k - 1, file, caller, a);
    }
}

// One node -----------------------------------------------------------------

proof fn lemma_flat_here(lang: Lang, n: SyntaxNode, file: Seq<char>, module: Seq<char>, acc: (Seq<NodeView>, Seq<EdgeView>))
    requires
        lang == Lang::Python || lang == Lang::Rust || lang == Lang::Cpp,
    ensures
        both_grow(acc, flat_here(lang, n, file, module, acc), file, lang_name(lang)),
{
    let line = line_of(n.start_row);
    match lang {
        Lang::Python => {
            match field_child(n, "name"@) {
                Some(c) => {
                    let id = file + ":function:"@ + c.text@;
                    lemma_plain_calls(n, file, id, acc.1.push(link(module, id, "contains"@, file, "EXTRACTED"@, line, None)));
                },
                None => {},
            }
        },
        Lang::Rust => {
            match field_child(n, "name"@) {
                Some(c) => {
                    let id = file + ":function:"@ + c.text@;
                    lemma_plain_calls(n, file, id, acc.1.push(link(module, id, "contains"@, file, "EXTRACTED"@, line, None)));
                },
                None => {},
            }
        },
        _ => {
            match cpp_function_name(n) {
                Some(name) => {
                    let id = file + ":function:"@ + name;
                    lemma_cpp_calls(n, file, id, acc.1.push(link(module, id, "contains"@, file, "EXTRACTED"@, line, None)));
                },
                None => {},
            }
        },
    }
}

proof fn lemma_swift_here(n: SyntaxNode, file: Seq<char>, parent: Seq<char>, acc: (Seq<NodeView>, Seq<EdgeView>))
    ensures
        both_grow(acc, swift_here(n, file, parent, acc), file, "swift"@),
{
    let line = line_of(n.start_row);
    if !swift_class_kind(n.kind@) && swift_fn_kind(n.kind@) {
        let id = file + ":function:"@ + swift_fn_name(n);
        lemma_swift_calls(n, file, id, acc.1.push(link(parent, id, "contains"@, file, "EXTRACTED"@, line, None)));
    }
}

// Walks --------------------------------------------------------------------

proof fn lemma_flat_visit(lang: Lang, n: SyntaxNode, file: Seq<char>, module: Seq<char>, acc: (Seq<NodeView>, Seq<EdgeView>))
    requires
        lang == Lang::Python || lang == Lang::Rust || lang == Lang::Cpp,
    ensures
        both_grow(acc, flat_visit(lang, n, file, module, acc), file, lang_name(lang)),
    decreases n,
{
    let h = flat_here(lang, n, file, module, acc);
    lemma_flat_here(lang, n, file, module, acc);
    lemma_flat_visit_all(lang, n.children@, n.children@.len() as int, file, module, h);
}

proof fn lemma_flat_visit_all(
    lang: Lang,
    cs: Seq<SyntaxNode>,
    k: int,
    file: Seq<char>,
    module: Seq<char>,
    acc: (Seq<NodeView>, Seq<EdgeView>),
)
    requires
        lang == Lang::Python || lang == Lang::Rust || lang == Lang::Cpp,
    ensures
        both_grow(acc, flat_visit_all(lang, cs, k, file, module, acc), file, lang_name(lang)),
    decreases cs, k,
{
    if k > 0 && k <= cs.len() {
        let a = flat_visit_all(lang, cs, k - 1, file, module, acc);
        lemma_flat_visit_all(lang, cs, k - 1, file, module, acc);
        lemma_flat_visit(lang, cs[k - 1], file, module, a);
    }
}

proof fn lemma_java_visit(n: SyntaxNode, file: Seq<char>, parent: Seq<char>, acc: (Seq<NodeView>, Seq<EdgeView>))
    ensures
        both_grow(acc, java_visit(n, file, parent, acc), file, "java"@),
    decreases n,
{
    let line = line_of(n.start_row);
    if java_class_kind(n.kind@) {
        match field_child(n, "name"@) {
            Some(c) => {
                let id = file + ":class:"@ + c.text@;
                let here = (
                    acc.0.push(entity(file, "class"@, c.text@, "class"@, "java"@, n, n.kind@ + " "@ + c.text@)),
                    acc.1.push(link(parent, id, "contains"@, file, "EXTRACTED"@, line, None)),
                );
                lemma_java_bodies(n.children@, n.children@.len() as int, file, id, here);
            },
            None => {},
        }
    } else if n.kind@ == "method_declaration"@ || n.kind@ == "constructor_declaration"@ {
        match field_child(n, "name"@) {
            Some(c) => {
                let id = file + ":function:"@ + c.text@;
                lemma_java_calls(n, file, id, acc.1.push(link(parent, id, "contains"@, file, "EXTRACTED"@, line, None)));
            },
            None => {},
        }
    } else {
        lemma_java_visit_all(n.children@, n.children@.len() as int, file, parent, acc);
    }
}

proof fn lemma_java_visit_all(
    cs: Seq<SyntaxNode>,
    k: int,
    file: Seq<char>,
    parent: Seq<char>,
    acc: (Seq<NodeView>, Seq<EdgeView>),
)
    ensures
        both_grow(acc, java_visit_all(cs, k, file, parent, acc), file, "java"@),
    decreases cs, k,
{
    if k > 0 && k <= cs.len() {
        let a = java_visit_all(cs, k - 1, file, parent, acc);
        lemma_java_visit_all(cs, k - 1, file, parent, acc);
        lemma_java_visit(cs[k - 1], file, parent, a);
    }
}

proof fn lemma_java_bodies(
    cs: Seq<SyntaxNode>,
    k: int,
    file: Seq<char>,
    parent: Seq<char>,
    acc: (Seq<NodeView>, Seq<EdgeView>),
)
    ensures
        both_grow(acc, java_bodies(cs, k, file, parent, acc), file, "java"@),
    decreases cs, k,
{
    if k > 0 && k <= cs.len() {
        let a = java_bodies(cs, k - 1, file, parent, acc);
        lemma_java_bodies(cs, k - 1, file, parent, acc);
        if java_body_kind(cs[k - 1].kind@) {
            lemma_java_visit_all(cs[k - 1].children@, cs[k - 1].children@.len() as int, file, parent, a);
        }
    }
}

proof fn lemma_swift_visit(n: SyntaxNode, file: Seq<char>, parent: Seq<char>, acc: (Seq<NodeView>, Seq<EdgeView>))
    ensures
        both_grow(acc, swift_visit(n, file, parent, acc), file, "swift"@),
    decreases n,
{
    let h = swift_here(n, file, parent, acc);
    lemma_swift_here(n, file, parent, acc);
    lemma_swift_visit_all(n.children@, n.children@.len() as int, file, swift_parent(n, file, parent), h);
}

proof fn lemma_swift_visit_all(
    cs: Seq<SyntaxNode>,
    k: int,
    file: Seq<char>,
    parent: Seq<char>,
    acc: (Seq<NodeView>, Seq<EdgeView>),
)
    ensures
        both_grow(acc, swift_visit_all(cs, k, file, parent, acc), file, "swift"@),
    decreases cs, k,
{
    if k > 0 && k <= cs.len() {
        let a = swift_visit_all(cs, k - 1, file, parent, acc);
        lemma_swift_visit_all(cs, k - 1, file, parent, acc);
        lemma_swift_visit(cs[k - 1], file, parent, a);
    }
}

/// An extraction puts the file's module node first, and everything it
/// yields belongs to the file: each node names the file as its source and
/// carries the language's name, and each edge names the file as its source.
pub proof fn lemma_extraction_of_file(lang: Lang, root: SyntaxNode, file: Seq<char>, content: Seq<char>)
    ensures
        extraction(lang, root, file, content).0.len() >= 1,
        extraction(lang, root, file, content).0[0] == module_entity(file, lang_name(lang), lang_title(lang), content),
        forall|i: int|
            0 <= i < extraction(lang, root, file, content).0.len() ==> (#[trigger] extraction(
                lang,
                root,
                file,
                content,
            ).0[i]).source_file == file && extraction(lang, root, file, content).0[i].language == lang_name(lang),
        forall|i: int|
            0 <= i < extraction(lang, root, file, content).1.len() ==> (#[trigger] extraction(
                lang,
                root,
                file,
                content,
            ).1[i]).source_file == file,
{
    let module = file + ":module"@;
    let start = (seq![module_entity(file, lang_name(lang), lang_title(lang), content)], Seq::<EdgeView>::empty());
    let r = extraction(lang, root, file, content);
    assert(nodes_from(start.0, file, lang_name(lang)));
    assert(edges_from(start.1, file));
    match lang {
        Lang::Java => lemma_java_visit(root, file, module, start),
        Lang::Swift => lemma_swift_visit(root, file, module, start),
        _ => lemma_flat_visit(lang, root, file, module, start),
    }
    assert(r.0[0] == start.0[0]);
    assert(nodes_from(r.0, file, lang_name(lang)));
    assert(edges_from(r.1, file));
}

// Completeness ---------------------------------------------------------------

/// `d` is `n` or lies in its subtree.
pub open spec fn reaches(n: SyntaxNode, d: SyntaxNode) -> bool
    decreases n,
{
    n == d || reaches_any(n.children@, n.children@.len() as int, d)
}

/// `d` lies in the subtree of one of the first `k` nodes of `cs`.
pub open spec fn reaches_any(cs: Seq<SyntaxNode>, k: int, d: SyntaxNode) -> bool
    decreases cs, k,
{
    if k <= 0 || k > cs.len() {
        false
    } else {
        reaches_any(cs, k - 1, d) || reaches(cs[k - 1], d)
    }
}

/// The node a declaration yields in a language whose walk visits every
/// syntax node: a named class-like or function-like definition.
pub open spec fn decl_entity(lang: Lang, d: SyntaxNode, file: Seq<char>) -> Option<NodeView> {
    let k = d.kind@;
    match lang {
        Lang::Python => match field_child(d, "name"@) {
            Some(c) => if k == "class_definition"@ {
                Some(entity(file, "class"@, c.text@, "class"@, "python"@, d, "class "@ + c.text@))
            } else if k == "function_definition"@ {
                Some(entity(file, "function"@, c.text@, "function"@, "python"@, d, "def "@ + c.text@))
            } else {
                None
            },
            None => None,
        },
        Lang::Rust => match field_child(d, "name"@) {
            Some(c) => if k == "struct_item"@ || k == "trait_item"@ {
                let tag = if k == "struct_item"@ { "struct"@ } else { "trait"@ };
                Some(entity(file, tag, c.text@, tag, "rust"@, d, tag + " "@ + c.text@))
            } else if k == "function_item"@ {
                Some(entity(file, "function"@, c.text@, "function"@, "rust"@, d, "fn "@ + c.text@))
            } else {
                None
            },
            None => None,
        },
        Lang::Cpp => if k == "class_specifier"@ || k == "struct_specifier"@ {
            let kind = if k == "struct_specifier"@ { "struct"@ } else { "class"@ };
            match field_child(d, "name"@) {
                Some(c) => Some(entity(file, "class"@, c.text@, kind, "cpp"@, d, kind + " "@ + c.text@)),
                None => None,
            }
        } else if k == "function_definition"@ {
            match cpp_function_name(d) {
                Some(name) => Some(entity(file, "function"@, name, "function"@, "cpp"@, d, "function "@ + name)),
                None => None,
            }
        } else {
            None
        },
        Lang::Swift => if swift_class_kind(k) {
            match field_child(d, "name"@) {
                Some(c) => Some(entity(file, "class"@, c.text@, "class"@, "swift"@, d, k + " "@ + c.text@)),
                None => None,
            }
        } else if swift_fn_kind(k) {
            Some(entity(file, "function"@, swift_fn_name(d), "function"@, "swift"@, d, k + " "@ + swift_fn_name(d)))
        } else {
            None
        },
        Lang::Java => None,
    }
}

/// What one node adds to the nodes is its declaration, if any.
proof fn lemma_here_adds_decl(lang: Lang, n: SyntaxNode, file: Seq<char>, parent: Seq<char>, acc: (Seq<NodeView>, Seq<EdgeView>))
    requires
        lang != Lang::Java,
    ensures
        lang != Lang::Swift ==> flat_here(lang, n, file, parent, acc).0 == match decl_entity(lang, n, file) {
            Some(e) => acc.0.push(e),
            None => acc.0,
        },
        lang == Lang::Swift ==> swift_here(n, file, parent, acc).0 == match decl_entity(lang, n, file) {
            Some(e) => acc.0.push(e),
            None => acc.0,
        },
{
}

proof fn lemma_contains_after_grows(a: Seq<NodeView>, b: Seq<NodeView>, e: NodeView)
    requires
        grows(a, b),
        a.contains(e),
    ensures
        b.contains(e),
{
    let j = choose|j: int| 0 <= j < a.len() && a[j] == e;
    assert(b[j] == e);
}

proof fn lemma_flat_visit_finds(
    lang: Lang,
    n: SyntaxNode,
    file: Seq<char>,
    module: Seq<char>,
    acc: (Seq<NodeView>, Seq<EdgeView>),
    d: SyntaxNode,
    e: NodeView,
)
    requires
        lang == Lang::Python || lang == Lang::Rust || lang == Lang::Cpp,
        reaches(n, d),
        decl_entity(lang, d, file) == Some(e),
    ensures
        flat_visit(lang, n, file, module, acc).0.contains(e),
    decreases n,
{
    let h = flat_here(lang, n, file, module, acc);
    let r = flat_visit(lang, n, file, module, acc);
    lemma_flat_visit_all(lang, n.children@, n.children@.len() as int, file, module, h);
    if n == d {
        lemma_here_adds_decl(lang, n, file, module, acc);
        assert(h.0[acc.0.len() as int] == e);
        lemma_contains_after_grows(h.0, r.0, e);
    } else {
        lemma_flat_visit_all_finds(lang, n.children@, n.children@.len() as int, file, module, h, d, e);
    }
}

proof fn lemma_flat_visit_all_finds(
    lang: Lang,
    cs: Seq<SyntaxNode>,
    k: int,
    file: Seq<char>,
    module: Seq<char>,
    acc: (Seq<NodeView>, Seq<EdgeView>),
    d: SyntaxNode,
    e: NodeView,
)
    requires
        lang == Lang::Python || lang == Lang::Rust || lang == Lang::Cpp,
        reaches_any(cs, k, d),
        decl_entity(lang, d, file) == Some(e),
    ensures
        flat_visit_all(lang, cs, k, file, module, acc).0.contains(e),
    decreases cs, k,
{
    let a = flat_visit_all(lang, cs, k - 1, file, module, acc);
    if reaches_any(cs, k - 1, d) {
        lemma_flat_visit_all_finds(lang, cs, k - 1, file, module, acc, d, e);
        lemma_flat_visit(lang, cs[k - 1], file, module, a);
        lemma_contains_after_grows(a.0, flat_visit(lang, cs[k - 1], file, module, a).0, e);
    } else {
        lemma_flat_visit_finds(lang, cs[k - 1], file, module, a, d, e);
    }
}

proof fn lemma_swift_visit_finds(
    n: SyntaxNode,
    file: Seq<char>,
    parent: Seq<char>,
    acc: (Seq<NodeView>, Seq<EdgeView>),
    d: SyntaxNode,
    e: NodeView,
)
    requires
        reaches(n, d),
        decl_entity(Lang::Swift, d, file) == Some(e),
    ensures
        swift_visit(n, file, parent, acc).0.contains(e),
    decreases n,
{
    let h = swift_here(n, file, parent, acc);
    let p = swift_parent(n, file, parent);
    let r = swift_visit(n, file, parent, acc);
    lemma_swift_visit_all(n.children@, n.children@.len() as int, file, p, h);
    if n == d {
        lemma_here_adds_decl(Lang::Swift, n, file, parent, acc);
        assert(h.0[acc.0.len() as int] == e);
        lemma_contains_after_grows(h.0, r.0, e);
    } else {
        lemma_swift_visit_all_finds(n.children@, n.children@.len() as int, file, p, h, d, e);
    }
}

proof fn lemma_swift_visit_all_finds(
    cs: Seq<SyntaxNode>,
    k: int,
    file: Seq<char>,
    parent: Seq<char>,
    acc: (Seq<NodeView>, Seq<EdgeView>),
    d: SyntaxNode,
    e: NodeView,
)
    requires
        reaches_any(cs, k, d),
        decl_entity(Lang::Swift, d, file) == Some(e),
    ensures
        swift_visit_all(cs, k, file, parent, acc).0.contains(e),
    decreases cs, k,
{
    let a = swift_visit_all(cs, k - 1, file, parent, acc);
    if reaches_any(cs, k - 1, d) {
        lemma_swift_visit_all_finds(cs, k - 1, file, parent, acc, d, e);
        lemma_swift_visit(cs[k - 1], file, parent, a);
        lemma_contains_after_grows(a.0, swift_visit(cs[k - 1], file, parent, a).0, e);
    } else {
        lemma_swift_visit_finds(cs[k - 1], file, parent, a, d, e);
    }
}

/// An extraction misses no declaration: in Python, Rust, C++ and Swift
/// every named class-like or function-like definition anywhere in the tree
/// appears among the file's nodes.
pub proof fn lemma_extraction_finds_declarations(
    lang: Lang,
    root: SyntaxNode,
    file: Seq<char>,
    content: Seq<char>,
    d: SyntaxNode,
)
    requires
        lang != Lang::Java,
        reaches(root, d),
        decl_entity(lang, d, file) is Some,
    ensures
        extraction(lang, root, file, content).0.contains(decl_entity(lang, d, file)->0),
{
    let module = file + ":module"@;
    let start = (seq![module_entity(file, lang_name(lang), lang_title(lang), content)], Seq::<EdgeView>::empty());
    let e = decl_entity(lang, d, file)->0;
    match lang {
        Lang::Swift => lemma_swift_visit_finds(root, file, module, start, d, e),
        _ => lemma_flat_visit_finds(lang, root, file, module, start, d, e),
    }
}

/// A Rust `use` declaration `use P;` yields one `imports` edge from the
/// module to `import:P`, described by `P` (the path without the keyword and
/// the semicolon), and no node.
pub proof fn lemma_rust_use_edge(
    n: SyntaxNode,
    file: Seq<char>,
    module: Seq<char>,
    acc: (Seq<NodeView>, Seq<EdgeView>),
    path: Seq<char>,
)
    requires
        n.kind@ == "use_declaration"@,
        n.text@ == "use "@ + path + ";"@,
        !(path.len() >= 4 && path.subrange(0, 4) == "use "@),
        path.len() == 0 || path.last() != ';',
    ensures
        rust_here(n, file, module, acc).0 == acc.0,
        rust_here(n, file, module, acc).1.len() == acc.1.len() + 1,
        rust_here(n, file, module, acc).1.subrange(0, acc.1.len() as int) == acc.1,
        ({
            let e = rust_here(n, file, module, acc).1.last();
            &&& e.source == module
            &&& e.target == "import:"@ + path
            &&& e.relation == "imports"@
            &&& e.source_file == file
            &&& e.description == Some(path)
        }),
{
    reveal_strlit("use ");
    reveal_strlit(";");
    reveal_strlit("use_declaration");
    reveal_strlit("struct_item");
    reveal_strlit("trait_item");
    reveal_strlit("function_item");
    assert("use_declaration"@[0] != "struct_item"@[0]);
    assert("use_declaration"@[0] != "trait_item"@[0]);
    assert("use_declaration"@[0] != "function_item"@[0]);
    let t = n.text@;
    let u = "use "@;
    assert(crate::text::starts_with(t, u)) by {
        assert(t.subrange(0, 4) =~= u);
    }
    let rest = path + ";"@;
    assert(t.subrange(4, t.len() as int) =~= rest);
    assert(!crate::text::starts_with(rest, u)) by {
        if crate::text::starts_with(rest, u) {
            if path.len() >= 4 {
                assert(rest.subrange(0, 4) =~= path.subrange(0, 4));
            } else {
                assert(rest.len() == 4);
                assert(rest[3] == ';');
                assert(rest.subrange(0, 4)[3] == rest[3]);
            }
        }
    }
    assert(trim_prefix_all(rest, u) == rest);
    assert(trim_prefix_all(t, u) == rest);
    assert(rest.drop_last() =~= path);
    assert(trim_suffix_char(path, ';') == path);
    assert(trim_suffix_char(rest, ';') == path);
    let r = rust_here(n, file, module, acc);
    assert(r.1.subrange(0, acc.1.len() as int) =~= acc.1);
}

/// A Python `import P` statement yields one `imports` edge from the module
/// to `import:P`, described by `P`, and no node.
pub proof fn lemma_python_import_edge(
    n: SyntaxNode,
    file: Seq<char>,
    module: Seq<char>,
    acc: (Seq<NodeView>, Seq<EdgeView>),
    path: Seq<char>,
)
    requires
        n.kind@ == "import_statement"@,
        n.text@ == "import "@ + path,
        !(path.len() >= 7 && path.subrange(0, 7) == "import "@),
        path.len() == 0 || path.last() != ';',
    ensures
        py_here(n, file, module, acc).0 == acc.0,
        py_here(n, file, module, acc).1.len() == acc.1.len() + 1,
        py_here(n, file, module, acc).1.subrange(0, acc.1.len() as int) == acc.1,
        ({
            let e = py_here(n, file, module, acc).1.last();
            &&& e.source == module
            &&& e.target == "import:"@ + path
            &&& e.relation == "imports"@
            &&& e.source_file == file
            &&& e.description == Some(path)
        }),
{
    reveal_strlit("import ");
    reveal_strlit("import_statement");
    reveal_strlit("class_definition");
    reveal_strlit("function_definition");
    assert("import_statement"@[0] != "class_definition"@[0]);
    assert("import_statement"@[0] != "function_definition"@[0]);
    let t = n.text@;
    let u = "import "@;
    assert(crate::text::starts_with(t, u)) by {
        assert(t.subrange(0, 7) =~= u);
    }
    assert(t.subrange(7, t.len() as int) =~= path);
    assert(!crate::text::starts_with(path, u));
    assert(trim_prefix_all(path, u) == path);
    assert(trim_prefix_all(t, u) == path);
    assert(trim_suffix_char(path, ';') == path);
    let r = py_here(n, file, module, acc);
    assert(r.1.subrange(0, acc.1.len() as int) =~= acc.1);
}

/// A Rust struct or trait item named `N` yields one node, id
/// `{file}:struct:N` (or `{file}:trait:N`), labelled `N`, of that kind and
/// language `rust`, and one `contains` edge from the module to it.
pub proof fn lemma_rust_type_item(
    n: SyntaxNode,
    file: Seq<char>,
    module: Seq<char>,
    acc: (Seq<NodeView>, Seq<EdgeView>),
    name: SyntaxNode,
)
    requires
        n.kind@ == "struct_item"@ || n.kind@ == "trait_item"@,
        field_child(n, "name"@) == Some(name),
    ensures
        ({
            let tag = if n.kind@ == "struct_item"@ { "struct"@ } else { "trait"@ };
            let r = rust_here(n, file, module, acc);
            &&& r.0.len() == acc.0.len() + 1
            &&& r.0.subrange(0, acc.0.len() as int) == acc.0
            &&& r.0.last().id == file + ":"@ + tag + ":"@ + name.text@
            &&& r.0.last().label == name.text@
            &&& r.0.last().kind == tag
            &&& r.0.last().language == "rust"@
            &&& r.0.last().source_file == file
            &&& r.1.len() == acc.1.len() + 1
            &&& r.1.subrange(0, acc.1.len() as int) == acc.1
            &&& r.1.last().source == module
            &&& r.1.last().target == r.0.last().id
            &&& r.1.last().relation == "contains"@
        }),
{
    let r = rust_here(n, file, module, acc);
    assert(r.0.subrange(0, acc.0.len() as int) =~= acc.0);
    assert(r.1.subrange(0, acc.1.len() as int) =~= acc.1);
}

/// A Rust function item named `N` yields one node, id `{file}:function:N`,
/// labelled `N`, of kind `function` and language `rust`; its first new edge
/// is the `contains` edge from the module to it (the call edges follow).
pub proof fn lemma_rust_function_item(
    n: SyntaxNode,
    file: Seq<char>,
    module: Seq<char>,
    acc: (Seq<NodeView>, Seq<EdgeView>),
    name: SyntaxNode,
)
    requires
        n.kind@ == "function_item"@,
        field_child(n, "name"@) == Some(name),
    ensures
        ({
            let r = rust_here(n, file, module, acc);
            let id = file + ":function:"@ + name.text@;
            &&& r.0.len() == acc.0.len() + 1
            &&& r.0.subrange(0, acc.0.len() as int) == acc.0
            &&& r.0.last().id == id
            &&& r.0.last().label == name.text@
            &&& r.0.last().kind == "function"@
            &&& r.0.last().language == "rust"@
            &&& r.1.len() > acc.1.len()
            &&& r.1.subrange(0, acc.1.len() as int) == acc.1
            &&& r.1[acc.1.len() as int].source == module
            &&& r.1[acc.1.len() as int].target == id
            &&& r.1[acc.1.len() as int].relation == "contains"@
        }),
{
    reveal_strlit("function_item");
    reveal_strlit("struct_item");
    reveal_strlit("trait_item");
    reveal_strlit(":function:");
    reveal_strlit(":");
    reveal_strlit("function");
    assert("function_item"@[0] != "struct_item"@[0]);
    assert("function_item"@[0] != "trait_item"@[0]);
    let line = line_of(n.start_row);
    let id = file + ":function:"@ + name.text@;
    let a1 = acc.1.push(link(module, id, "contains"@, file, "EXTRACTED"@, line, None));
    lemma_plain_calls(n, file, id, a1);
    let r = rust_here(n, file, module, acc);
    assert(file + ":"@ + "function"@ + ":"@ + name.text@ =~= id);
    assert(r.0.subrange(0, acc.0.len() as int) =~= acc.0);
    assert(r.1[acc.1.len() as int] == a1[acc.1.len() as int]);
    assert forall|i: int| 0 <= i < acc.1.len() implies r.1[i] == acc.1[i] by {
        assert(r.1[i] == a1[i]);
    }
    assert(r.1.subrange(0, acc.1.len() as int) =~= acc.1);
}

/// A Python class definition named `N` yields one node, id
/// `{file}:class:N`, labelled `N`, of kind `class` and language `python`,
/// and one `contains` edge from the module to it.
pub proof fn lemma_python_class(
    n: SyntaxNode,
    file: Seq<char>,
    module: Seq<char>,
    acc: (Seq<NodeView>, Seq<EdgeView>),
    name: SyntaxNode,
)
    requires
        n.kind@ == "class_definition"@,
        field_child(n, "name"@) == Some(name),
    ensures
        ({
            let r = py_here(n, file, module, acc);
            &&& r.0.len() == acc.0.len() + 1
            &&& r.0.subrange(0, acc.0.len() as int) == acc.0
            &&& r.0.last().id == file + ":class:"@ + name.text@
            &&& r.0.last().label == name.text@
            &&& r.0.last().kind == "class"@
            &&& r.0.last().language == "python"@
            &&& r.1.len() == acc.1.len() + 1
            &&& r.1.subrange(0, acc.1.len() as int) == acc.1
            &&& r.1.last().source == module
            &&& r.1.last().target == r.0.last().id
            &&& r.1.last().relation == "contains"@
        }),
{
    reveal_strlit(":class:");
    reveal_strlit(":");
    reveal_strlit("class");
    let r = py_here(n, file, module, acc);
    assert(file + ":"@ + "class"@ + ":"@ + name.text@ =~= file + ":class:"@ + name.text@);
    assert(r.0.subrange(0, acc.0.len() as int) =~= acc.0);
    assert(r.1.subrange(0, acc.1.len() as int) =~= acc.1);
}

/// A Python function definition named `N` yields one node, id
/// `{file}:function:N`, labelled `N`, of kind `function` and language
/// `python`; its first new edge is the `contains` edge from the module to
/// it (the call edges follow).
pub proof fn lemma_python_function(
    n: SyntaxNode,
    file: Seq<char>,
    module: Seq<char>,
    acc: (Seq<NodeView>, Seq<EdgeView>),
    name: SyntaxNode,
)
    requires
        n.kind@ == "function_definition"@,
        field_child(n, "name"@) == Some(name),
    ensures
        ({
            let r = py_here(n, file, module, acc);
            let id = file + ":function:"@ + name.text@;
            &&& r.0.len() == acc.0.len() + 1
            &&& r.0.subrange(0, acc.0.len() as int) == acc.0
            &&& r.0.last().id == id
            &&& r.0.last().label == name.text@
            &&& r.0.last().kind == "function"@
            &&& r.0.last().language == "python"@
            &&& r.1.len() > acc.1.len()
            &&& r.1.subrange(0, acc.1.len() as int) == acc.1
            &&& r.1[acc.1.len() as int].source == module
            &&& r.1[acc.1.len() as int].target == id
            &&& r.1[acc.1.len() as int].relation == "contains"@
        }),
{
    reveal_strlit("function_definition");
    reveal_strlit("class_definition");
    reveal_strlit(":function:");
    reveal_strlit(":");
    reveal_strlit("function");
    assert("function_definition"@[0] != "class_definition"@[0]);
    let line = line_of(n.start_row);
    let id = file + ":function:"@ + name.text@;
    let a1 = acc.1.push(link(module, id, "contains"@, file, "EXTRACTED"@, line, None));
    lemma_plain_calls(n, file, id, a1);
    let r = py_here(n, file, module, acc);
    assert(file + ":"@ + "function"@ + ":"@ + name.text@ =~= id);
    assert(r.0.subrange(0, acc.0.len() as int) =~= acc.0);
    assert(r.1[acc.1.len() as int] == a1[acc.1.len() as int]);
    assert forall|i: int| 0 <= i < acc.1.len() implies r.1[i] == acc.1[i] by {
        assert(r.1[i] == a1[i]);
    }
    assert(r.1.subrange(0, acc.1.len() as int) =~= acc.1);
}

} // verus!

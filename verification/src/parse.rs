//! Parsing source text into syntax trees with tree-sitter.

use vstd::prelude::*;
use crate::extract::{Lang, SyntaxNode};

verus! {

#[verifier::external_type_specification]
#[verifier::external_body]
pub struct ExTsCursor<'a>(tree_sitter::TreeCursor<'a>);

/// The syntax tree that the tree-sitter grammar of `lang` parses `source`
/// into (`None` where the parser gives no tree).
pub uninterp spec fn syntax_tree(lang: Lang, source: Seq<char>) -> Option<SyntaxNode>;

/// Copies the node under a tree-sitter cursor and its subtree into a
/// `SyntaxNode`: kind, text, rows, and each child with its field name
/// (`TreeCursor::node`, `goto_first_child`, `goto_next_sibling`,
/// `field_name`, `goto_parent`; `Node::utf8_text`); text that is not UTF-8
/// becomes empty. The cursor ends where it started.
#[verifier::external_body]
fn syntax_node_at(cursor: &mut tree_sitter::TreeCursor, src: &[u8]) -> SyntaxNode {
    let n = cursor.node();
    let (mut children, mut child_fields) = (Vec::new(), Vec::new());
    let mut more = cursor.goto_first_child();
    while more {
        child_fields.push(cursor.field_name().map(String::from));
        children.push(syntax_node_at(cursor, src));
        more = cursor.goto_next_sibling();
    }
    if !children.is_empty() {
        cursor.goto_parent();
    }
    let text = n.utf8_text(src).unwrap_or("").to_string();
    SyntaxNode { kind: n.kind().to_string(), text, start_row: n.start_position().row, end_row: n.end_position().row, children, child_fields }
}

/// Parses `source` with tree-sitter (`Parser::set_language` with the
/// grammar's `LANGUAGE`, then `Parser::parse`); the tree is named by
/// `syntax_tree`, a function of the language and the text alone. Nothing is
/// stated of the tree's shape (which kinds and fields the grammar yields,
/// how it recovers from syntax errors): that is the grammar's own.
#[verifier::external_body]
pub(crate) fn parse_source(lang: Lang, source: &str) -> (r: Option<SyntaxNode>)
    ensures
        r == syntax_tree(lang, source@),
{
    let language: tree_sitter::Language = match lang {
        Lang::Python => tree_sitter_python::LANGUAGE.into(),
        Lang::Rust => tree_sitter_rust::LANGUAGE.into(),
        Lang::Cpp => tree_sitter_cpp::LANGUAGE.into(),
        Lang::Java => tree_sitter_java::LANGUAGE.into(),
        Lang::Swift => tree_sitter_swift::LANGUAGE.into(),
    };
    let mut parser = tree_sitter::Parser::new();
    parser.set_language(&language).ok()?;
    let tree = parser.parse(source, None)?;
    let mut cursor = tree.walk();
    let root = syntax_node_at(&mut cursor, source.as_bytes());
    Some(root)
}

} // verus!

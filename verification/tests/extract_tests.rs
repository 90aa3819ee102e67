use graphify::extract::{extract, extract_file, extract_tree, lang_of_extension, Lang, SyntaxNode};
use graphify::types::ExtractionResult;

fn run_extract(content: &str, ext: &str) -> anyhow::Result<ExtractionResult> {
    let path = format!("sample.{ext}");
    extract_file(ext, content, &path).map_err(anyhow::Error::msg)
}

fn leaf(kind: &str, text: &str, row: usize) -> SyntaxNode {
    SyntaxNode {
        kind: kind.to_string(),
        text: text.to_string(),
        start_row: row,
        end_row: row,
        children: Vec::new(),
        child_fields: Vec::new(),
    }
}

fn branch(kind: &str, text: &str, rows: (usize, usize), children: Vec<(Option<&str>, SyntaxNode)>) -> SyntaxNode {
    SyntaxNode {
        kind: kind.to_string(),
        text: text.to_string(),
        start_row: rows.0,
        end_row: rows.1,
        child_fields: children.iter().map(|(f, _)| f.map(String::from)).collect(),
        children: children.into_iter().map(|(_, c)| c).collect(),
    }
}

// ---- Python ----

#[test]
fn test_extract_python_functions_and_classes() -> anyhow::Result<()> {
    let content = r#"
import os
from typing import List

class Greeter:
    def greet(self, name: str) -> str:
        return f"Hello {name}"

    def farewell(self) -> None:
        print("bye")

def helper() -> None:
    g = Greeter()
    g.greet("world")
"#;
    let result = run_extract(content, "py")?;
    assert_eq!(result.nodes[0].language, "python");
    assert!(result.nodes.iter().any(|n| n.kind == "class" && n.label == "Greeter"));
    assert!(result.nodes.iter().any(|n| n.kind == "function" && n.label == "greet"));
    assert!(result.nodes.iter().any(|n| n.kind == "function" && n.label == "farewell"));
    assert!(result.nodes.iter().any(|n| n.kind == "function" && n.label == "helper"));
    assert!(result.edges.iter().any(|e| e.relation == "imports"));
    Ok(())
}

// ---- Rust ----

#[test]
fn test_extract_rust_struct_trait_and_function() -> anyhow::Result<()> {
    let content = r#"
use std::fmt;

struct Config {
    name: String,
}

trait Runner {
    fn run(&self) -> bool;
}

impl Runner for Config {
    fn run(&self) -> bool {
        true
    }
}

pub fn main() -> Result<()> {
    let c = Config { name: "test".into() };
    c.run();
    Ok(())
}
"#;
    let result = run_extract(content, "rs")?;
    assert_eq!(result.nodes[0].language, "rust");
    assert!(result.nodes.iter().any(|n| n.kind == "struct" && n.label == "Config"));
    assert!(result.nodes.iter().any(|n| n.kind == "trait" && n.label == "Runner"));
    assert!(result.nodes.iter().any(|n| n.kind == "function" && n.label == "main"));
    assert!(result.nodes.iter().any(|n| n.kind == "function" && n.label == "run"));
    assert!(result.edges.iter().any(|e| e.relation == "contains"));
    Ok(())
}

// ---- C++ ----

#[test]
fn test_extract_cpp_struct_and_function() -> anyhow::Result<()> {
    let content = r"
#include <vector>

struct Vec2 {
    float x;
    float y;
};

float length(Vec2 v) {
    return v.x * v.x + v.y * v.y;
}

int main() {
    Vec2 v{1.0, 2.0};
    auto len = length(v);
    return 0;
}
";
    let result = run_extract(content, "cpp")?;
    assert_eq!(result.nodes[0].language, "cpp");
    assert!(result.nodes.iter().any(|n| n.kind == "struct" && n.label == "Vec2"));
    assert!(result.nodes.iter().any(|n| n.kind == "function" && n.label == "length"));
    assert!(result.nodes.iter().any(|n| n.kind == "function" && n.label == "main"));
    Ok(())
}

// ---- Java ----

#[test]
fn test_extract_java_class_and_methods() -> anyhow::Result<()> {
    let content = r#"
            package com.example;
            import java.util.List;

            public class Calculator {
                private int result = 0;

                public Calculator() {
                    this.result = 1;
                }

                public int add(int a, int b) {
                    int sum = a + b;
                    logInfo();
                    return sum;
                }

                private void logInfo() {
                    System.out.println("Result: " + result);
                }
            }
        "#;
    let result = run_extract(content, "java")?;
    assert_eq!(result.nodes[0].language, "java");
    assert!(result.nodes.iter().any(|n| n.kind == "class" && n.label == "Calculator"));
    assert!(result.nodes.iter().any(|n| n.kind == "function" && n.label == "add"));
    assert!(result.nodes.iter().any(|n| n.kind == "function" && n.label == "logInfo"));
    assert!(result.edges.iter().any(|e| e.relation == "contains"));
    Ok(())
}

// ---- Swift ----

#[test]
fn test_extract_swift_class_and_methods() -> anyhow::Result<()> {
    let content = r#"
            import Foundation

            class UserProfile {
                var name: String

                init(name: String) {
                    self.name = name;
                    setupProfile()
                }

                func setupProfile() {
                    print("Setting up \(name)")
                }
            }
        "#;
    let result = run_extract(content, "swift")?;
    for n in &result.nodes {
        println!("Node: id={}, label={}, kind={}, language={}", n.id.0, n.label, n.kind, n.language);
    }
    assert_eq!(result.nodes[0].language, "swift");
    assert!(result.nodes.iter().any(|n| n.kind == "class" && n.label == "UserProfile"));
    assert!(result.nodes.iter().any(|n| n.kind == "function" && n.label == "init"));
    assert!(result.nodes.iter().any(|n| n.kind == "function" && n.label == "setupProfile"));
    Ok(())
}

// ---- Dispatch and exact results ----

#[test]
fn extension_picks_language_case_blind() {
    assert!(matches!(lang_of_extension("PY"), Ok(Lang::Python)));
    assert!(matches!(lang_of_extension("hh"), Ok(Lang::Cpp)));
    assert!(matches!(lang_of_extension("Swift"), Ok(Lang::Swift)));
}

#[test]
fn unknown_extension_is_refused() {
    let e = extract_file("GO", "package main", "main.go").err().unwrap();
    assert_eq!(e, "Unsupported file extension: go");
    let e = extract_file("", "x", "Makefile").err().unwrap();
    assert_eq!(e, "Unsupported file extension: ");
}

#[test]
fn module_node_spans_the_file() {
    let r = extract(Lang::Python, "a = 1\nb = 2\n", "m.py").unwrap();
    let m = &r.nodes[0];
    assert_eq!(m.id.0, "m.py:module");
    assert_eq!(m.label, "m.py");
    assert_eq!(m.kind, "module");
    assert_eq!(m.end_line, 2);
    assert_eq!(m.description.as_deref(), Some("Python module: m.py"));
}

#[test]
fn python_tree_yields_function_and_call() {
    // def run():\n    go()   (rows 2..3)
    let call = branch("call_expression", "go()", (3, 3), vec![(Some("function"), leaf("identifier", "go", 3)), (None, leaf("argument_list", "()", 3))]);
    let def = branch(
        "function_definition",
        "def run():\n    go()",
        (2, 3),
        vec![(None, leaf("def", "def", 2)), (Some("name"), leaf("identifier", "run", 2)), (Some("body"), branch("block", "go()", (3, 3), vec![(None, call)]))],
    );
    let root = branch("module", "", (0, 3), vec![(None, def)]);
    let r = extract_tree(Lang::Python, &root, "f.py", "\n\ndef run():\n    go()\n");
    assert_eq!(r.nodes.len(), 2);
    let f = &r.nodes[1];
    assert_eq!(f.id.0, "f.py:function:run");
    assert_eq!(f.start_line, 3);
    assert_eq!(f.end_line, 4);
    assert_eq!(f.description.as_deref(), Some("def run"));
    assert_eq!(r.edges.len(), 2);
    assert_eq!(r.edges[0].source.0, "f.py:module");
    assert_eq!(r.edges[0].relation, "contains");
    assert_eq!(r.edges[1].source.0, "f.py:function:run");
    assert_eq!(r.edges[1].target.0, "f.py:function:go");
    assert_eq!(r.edges[1].source_location, "f.py:4");
    assert_eq!(r.edges[1].description.as_deref(), Some("calls go"));
}

#[test]
fn swift_members_nest_under_their_type() {
    let body = branch("class_body", "{ init() {} }", (1, 1), vec![(None, branch("init_declaration", "init() {}", (1, 1), vec![]))]);
    let class = branch("class_declaration", "class A { init() {} }", (1, 1), vec![(Some("name"), leaf("type_identifier", "A", 1)), (Some("body"), body)]);
    let root = branch("source_file", "", (0, 1), vec![(None, class)]);
    let r = extract_tree(Lang::Swift, &root, "a.swift", "\nclass A { init() {} }");
    assert_eq!(r.nodes[1].id.0, "a.swift:class:A");
    assert_eq!(r.nodes[1].description.as_deref(), Some("class_declaration A"));
    assert_eq!(r.nodes[2].id.0, "a.swift:function:init");
    assert_eq!(r.edges[1].source.0, "a.swift:class:A");
    assert_eq!(r.edges[1].target.0, "a.swift:function:init");
    for n in &r.nodes {
        assert_eq!(n.source_file, "a.swift");
        assert_eq!(n.language, "swift");
    }
}

#[test]
fn java_calls_are_inferred() -> anyhow::Result<()> {
    let content = "class K {\n  void a() {\n    b();\n  }\n  void b() {}\n}\n";
    let r = run_extract(content, "java")?;
    let call = r.edges.iter().find(|e| e.relation == "calls").unwrap();
    assert_eq!(call.source.0, "sample.java:function:a");
    assert_eq!(call.target.0, "sample.java:function:b");
    assert_eq!(call.confidence, "INFERRED");
    assert!(r.edges.iter().any(|e| e.source.0 == "sample.java:class:K" && e.target.0 == "sample.java:function:a"));
    Ok(())
}

#[test]
fn nested_definitions_are_found() {
    let r = extract(Lang::Python, "def outer():\n    def inner():\n        pass\n    return inner\n", "n.py").unwrap();
    assert_eq!(r.nodes[0].id.0, "n.py:module");
    assert!(r.nodes.iter().any(|n| n.id.0 == "n.py:function:outer"));
    assert!(r.nodes.iter().any(|n| n.id.0 == "n.py:function:inner"));
    for n in &r.nodes {
        assert_eq!(n.source_file, "n.py");
        assert_eq!(n.language, "python");
    }
    for e in &r.edges {
        assert_eq!(e.source_file, "n.py");
    }
}

#[test]
fn rust_calls_inside_functions_are_linked() {
    let r = extract(Lang::Rust, "fn a() {\n    b();\n}\nfn b() {}\n", "m.rs").unwrap();
    let call = r.edges.iter().find(|e| e.relation == "calls").unwrap();
    assert_eq!(call.source.0, "m.rs:function:a");
    assert_eq!(call.target.0, "m.rs:function:b");
    assert_eq!(call.source_location, "m.rs:2");
    assert_eq!(call.description.as_deref(), Some("calls b"));
}

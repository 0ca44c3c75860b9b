use casesmith::{extract_cfgs_from_tree, to_security_flow, CfgMap, SyntaxNode};
use tree_sitter::{Node, Parser};

fn convert(code: &str, n: Node) -> SyntaxNode {
    let end = n.end_byte().min(code.len());
    let mut out = SyntaxNode::leaf(n.kind(), &code[n.start_byte()..end], n.start_byte());
    for i in 0..n.child_count() {
        let ch = n.child(i).unwrap();
        out.push_child(n.field_name_for_child(i as u32), convert(code, ch));
    }
    out
}

fn extract(code: &str) -> CfgMap {
    let mut parser = Parser::new();
    let language = tree_sitter_typescript::LANGUAGE_TYPESCRIPT;
    parser.set_language(&language.into()).unwrap();
    let tree = parser.parse(code, None).unwrap();
    extract_cfgs_from_tree(&convert(code, tree.root_node()))
}

#[test]
fn parsed_if_return_function() {
    let code = "\n// Foo example\nfunction foo(x: number): number {\n    if (x > 10) {\n        return x * 2;\n    } else {\n        return x;\n    }\n}\n";
    let m = extract(code);
    let g = m.get("foo").expect("foo");
    assert_eq!(g.nodes.len(), 5);
    assert_eq!(g.nodes[0], "Entry");
    assert_eq!(g.nodes[1], "Exit");
    assert_eq!(g.nodes[2], "If: if (x > 10) {");
    assert!(g.nodes.iter().any(|n| n == "Return: return x * 2;"));
    assert!(g.nodes.iter().any(|n| n == "Return: return x;"));
    assert!(g.edges.len() >= 4);
    assert_eq!(g.edges.last().unwrap().1, 1);
}

#[test]
fn parsed_for_loop_with_log() {
    let code = "function baz(): void {\n    for (let i = 0; i < 3; i++) {\n        console.log(i);\n    }\n}\n";
    let m = extract(code);
    let g = m.get("baz").expect("baz");
    let lp = g.nodes.iter().position(|n| n.starts_with("Loop: ")).expect("loop");
    assert!(g.edges.contains(&(lp, lp)));
    assert!(g.edges.contains(&(lp, 1)));
    assert!(g.nodes.iter().any(|n| n == "LOG: console.log(i)"));
}

#[test]
fn parsed_secret_handlers_in_two_files() {
    let code = "function handler() {\n    const s = process.env.SECRET;\n    return s;\n}\n";
    let a = extract(code);
    let b = extract(code);
    for m in [&a, &b] {
        assert!(m.get("handler").unwrap().nodes.iter().any(|n| n.starts_with("SECRET:")));
    }
    let flow = to_security_flow(&vec![("a.ts".to_string(), a), ("b.ts".to_string(), b)]);
    assert_eq!(flow.index.functions, 2);
    assert!(flow.edges.iter().filter(|e| e.src.contains("SECRET") || e.dst.contains("SECRET")).all(|e| e.sensitive));
}

#[test]
fn parsed_class_and_exports() {
    let code = "export class Svc {\n  constructor() {}\n  run() { return fetch(url); }\n  handle = () => { return 1; };\n}\nexport const b = () => 2;\nexport default function () { return 3; }\nexports.h = function () {};\n";
    let m = extract(code);
    for name in ["Svc.constructor", "Svc.run", "Svc.handle", "b"] {
        assert!(m.get(name).is_some(), "missing {}", name);
    }
    assert!(m.get("Svc.run").unwrap().nodes.iter().any(|n| n == "NET: fetch(url)"));
}

#[test]
fn parsed_top_level_assignment() {
    let m = extract("foo = () => { return 1; };\n");
    let g = m.get("foo").expect("foo");
    assert_eq!(g.nodes, vec!["Entry".to_string(), "Exit".to_string(), "Return: return 1;".to_string()]);
    assert_eq!(g.edges, vec![(0, 2), (2, 1)]);
}

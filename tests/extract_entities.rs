use casesmith::{decimal_text, extract_cfgs_from_tree, CfgMap, SimpleCfg, SyntaxNode};

fn node(kind: &str, text: &str, kids: Vec<(Option<&str>, SyntaxNode)>) -> SyntaxNode {
    let mut n = SyntaxNode::leaf(kind, text, 0);
    for (f, c) in kids {
        n.push_child(f, c);
    }
    n
}

fn node_at(kind: &str, text: &str, start: usize, kids: Vec<(Option<&str>, SyntaxNode)>) -> SyntaxNode {
    let mut n = SyntaxNode::leaf(kind, text, start);
    for (f, c) in kids {
        n.push_child(f, c);
    }
    n
}

fn leaf(kind: &str, text: &str) -> SyntaxNode {
    SyntaxNode::leaf(kind, text, 0)
}

fn block_returning(v: &str) -> SyntaxNode {
    let text = format!("return {};", v);
    node("statement_block", "{ ... }", vec![(None, node("return_statement", &text, vec![]))])
}

fn function_decl(name: &str, ret: &str) -> SyntaxNode {
    node(
        "function_declaration",
        "function ...",
        vec![
            (None, leaf("function", "function")),
            (Some("name"), leaf("identifier", name)),
            (Some("body"), block_returning(ret)),
        ],
    )
}

fn arrow(ret: &str) -> SyntaxNode {
    node("arrow_function", "() => { ... }", vec![(Some("body"), block_returning(ret))])
}

fn names(m: &CfgMap) -> Vec<String> {
    (0..m.len()).map(|i| m.entry(i).0.clone()).collect()
}

fn graph<'a>(m: &'a CfgMap, name: &str) -> &'a SimpleCfg {
    m.get(name).expect("entry")
}

#[test]
fn function_declarations_at_any_depth() {
    let inner = function_decl("inner", "1");
    let outer = node(
        "function_declaration",
        "function outer",
        vec![
            (Some("name"), leaf("identifier", "outer")),
            (Some("body"), node("statement_block", "{}", vec![(None, inner)])),
        ],
    );
    let root = node("program", "", vec![(None, outer)]);
    let m = extract_cfgs_from_tree(&root);
    assert_eq!(names(&m), vec!["outer".to_string(), "inner".to_string()]);
    assert_eq!(graph(&m, "inner").nodes[2], "Return: return 1;");
}

#[test]
fn anonymous_function_declaration() {
    let f = node("function_declaration", "function () {}", vec![(Some("body"), block_returning("0"))]);
    let m = extract_cfgs_from_tree(&node("program", "", vec![(None, f)]));
    assert_eq!(names(&m), vec!["<anon>".to_string()]);
}

#[test]
fn class_methods_constructor_and_arrow_fields() {
    let method = node(
        "method_definition",
        "run() {}",
        vec![(Some("name"), leaf("property_identifier", "run")), (Some("body"), block_returning("2"))],
    );
    let ctor = node("constructor", "constructor() {}", vec![(Some("body"), block_returning("3"))]);
    let field = node(
        "public_field_definition",
        "handle = () => {}",
        vec![(Some("name"), leaf("property_identifier", "handle")), (Some("value"), arrow("4"))],
    );
    let plain_field = node(
        "public_field_definition",
        "count = 0",
        vec![(Some("name"), leaf("property_identifier", "count")), (Some("value"), leaf("number", "0"))],
    );
    let body = node("class_body", "{ ... }", vec![(None, method), (None, ctor), (None, field), (None, plain_field)]);
    let class = node(
        "class_declaration",
        "class Svc { ... }",
        vec![(Some("name"), leaf("type_identifier", "Svc")), (Some("body"), body)],
    );
    let m = extract_cfgs_from_tree(&node("program", "", vec![(None, class)]));
    assert_eq!(names(&m), vec!["Svc.run".to_string(), "Svc.constructor".to_string(), "Svc.handle".to_string()]);
    assert_eq!(graph(&m, "Svc.handle").nodes[2], "Return: return 4;");
}

#[test]
fn exported_forms() {
    let exported_fn = node("export_statement", "export function a", vec![(None, function_decl("a", "1"))]);
    let decl = node(
        "lexical_declaration",
        "const b = () => {}",
        vec![(
            None,
            node(
                "variable_declarator",
                "b = () => {}",
                vec![(Some("name"), leaf("identifier", "b")), (Some("value"), arrow("2"))],
            ),
        )],
    );
    let exported_const = node("export_statement", "export const b", vec![(None, decl)]);
    let default_arrow = node_at("arrow_function", "() => {}", 120, vec![(Some("body"), block_returning("3"))]);
    let exported_default = node("export_statement", "export default", vec![(None, leaf("default", "default")), (None, default_arrow)]);
    let root = node("program", "", vec![(None, exported_fn), (None, exported_const), (None, exported_default)]);
    let m = extract_cfgs_from_tree(&root);
    let ns = names(&m);
    assert_eq!(ns.len(), 3);
    assert!(ns.contains(&"a".to_string()));
    assert!(ns.contains(&"b".to_string()));
    assert!(ns.contains(&"default_export@b120".to_string()));
}

#[test]
fn assignment_forms_under_export() {
    let left = node(
        "member_expression",
        "exports.handler",
        vec![(Some("object"), leaf("identifier", "exports")), (Some("property"), leaf("property_identifier", "handler"))],
    );
    let assign = node("assignment_expression", "exports.handler = () => {}", vec![(Some("left"), left), (Some("right"), arrow("5"))]);
    let assign2 = node(
        "assignment_expression",
        "x[0] = function () {}",
        vec![(Some("left"), leaf("subscript_expression", "x[0]")), (Some("right"), node("function_expression", "function () {}", vec![]))],
    );
    let exp = node("export_statement", "export ...", vec![(None, assign), (None, assign2)]);
    let m = extract_cfgs_from_tree(&node("program", "", vec![(None, exp)]));
    let ns = names(&m);
    assert!(ns.contains(&"handler".to_string()));
    assert!(ns.contains(&"<exported>".to_string()));
    // a function without a body field is its own body
    assert_eq!(graph(&m, "<exported>").edges, vec![(0, 1)]);
}

#[test]
fn var_declaration_skips_non_function_values() {
    let d1 = node(
        "variable_declarator",
        "f = function () {}",
        vec![(Some("name"), leaf("identifier", "f")), (Some("value"), node("function_expression", "function", vec![(Some("body"), block_returning("6"))]))],
    );
    let d2 = node(
        "variable_declarator",
        "n = 3",
        vec![(Some("name"), leaf("identifier", "n")), (Some("value"), leaf("number", "3"))],
    );
    let decl = node("variable_declaration", "var f = ..., n = 3", vec![(None, d1), (None, d2)]);
    let m = extract_cfgs_from_tree(&node("program", "", vec![(None, decl)]));
    assert_eq!(names(&m), vec!["f".to_string()]);
}

#[test]
fn same_name_later_entity_replaces_earlier() {
    let root = node("program", "", vec![(None, function_decl("dup", "1")), (None, function_decl("dup", "2"))]);
    let m = extract_cfgs_from_tree(&root);
    assert_eq!(m.len(), 1);
    assert_eq!(graph(&m, "dup").nodes[2], "Return: return 2;");
}

#[test]
fn file_without_functions_yields_empty_map() {
    let root = node("program", "", vec![(None, leaf("comment", "// nothing"))]);
    assert_eq!(extract_cfgs_from_tree(&root).len(), 0);
}

#[test]
fn decimal_digits() {
    assert_eq!(decimal_text(0), "0");
    assert_eq!(decimal_text(7), "7");
    assert_eq!(decimal_text(1204), "1204");
}

#[test]
fn map_insert_replaces_in_place() {
    let mut m = CfgMap::new();
    let g = |label: &str| SimpleCfg {
        nodes: vec!["Entry".to_string(), "Exit".to_string(), label.to_string()],
        edges: vec![(0, 2), (2, 1)],
    };
    m.insert("a".to_string(), g("If: a"));
    m.insert("b".to_string(), g("If: b"));
    m.insert("a".to_string(), g("If: c"));
    assert_eq!(names(&m), vec!["a".to_string(), "b".to_string()]);
    assert_eq!(m.get("a").unwrap().nodes[2], "If: c");
    assert!(m.get("z").is_none());
}

#[test]
fn top_level_assignment_of_function() {
    let assign = node(
        "assignment_expression",
        "foo = () => { return 1; }",
        vec![(Some("left"), leaf("identifier", "foo")), (Some("right"), arrow("1"))],
    );
    let stmt = node("expression_statement", "foo = () => { return 1; };", vec![(None, assign)]);
    let m = extract_cfgs_from_tree(&node("program", "", vec![(None, stmt)]));
    assert_eq!(names(&m), vec!["foo".to_string()]);
    let g = graph(&m, "foo");
    assert_eq!(g.nodes, vec!["Entry".to_string(), "Exit".to_string(), "Return: return 1;".to_string()]);
    assert_eq!(g.edges, vec![(0, 2), (2, 1)]);
}

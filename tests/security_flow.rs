use casesmith::{
    edge_kind, edge_sensitive, extract_cfgs_from_tree, to_security_flow, CfgMap, EdgeKind, SimpleCfg,
    SyntaxNode,
};

fn node(kind: &str, text: &str, kids: Vec<(Option<&str>, SyntaxNode)>) -> SyntaxNode {
    let mut n = SyntaxNode::leaf(kind, text, 0);
    for (f, c) in kids {
        n.push_child(f, c);
    }
    n
}

fn leaf(kind: &str, text: &str) -> SyntaxNode {
    SyntaxNode::leaf(kind, text, 0)
}

/// `function handler() { const s = process.env.SECRET; }`
fn handler_file() -> SyntaxNode {
    let env = node(
        "member_expression",
        "process.env",
        vec![(Some("object"), leaf("identifier", "process")), (Some("property"), leaf("property_identifier", "env"))],
    );
    let read = node(
        "member_expression",
        "process.env.SECRET",
        vec![(Some("object"), env), (Some("property"), leaf("property_identifier", "SECRET"))],
    );
    let stmt = node("expression_statement", "process.env.SECRET;", vec![(None, read)]);
    let body = node("statement_block", "{ ... }", vec![(None, stmt)]);
    let f = node(
        "function_declaration",
        "function handler() { ... }",
        vec![(Some("name"), leaf("identifier", "handler")), (Some("body"), body)],
    );
    node("program", "", vec![(None, f)])
}

fn cfg(labels: &[&str], edges: &[(usize, usize)]) -> SimpleCfg {
    let mut nodes = vec!["Entry".to_string(), "Exit".to_string()];
    nodes.extend(labels.iter().map(|s| s.to_string()));
    SimpleCfg { nodes, edges: edges.to_vec() }
}

fn one_file(path: &str, entries: Vec<(&str, SimpleCfg)>) -> (String, CfgMap) {
    let mut m = CfgMap::new();
    for (name, c) in entries {
        m.insert(name.to_string(), c);
    }
    (path.to_string(), m)
}

#[test]
fn empty_input_gives_zero_report() {
    let flow = to_security_flow(&Vec::new());
    assert_eq!(flow.index.functions, 0);
    assert_eq!(flow.index.edges, 0);
    assert_eq!(flow.index.boundary_crossings, 0);
    assert_eq!(flow.index.pii_edges, 0);
    assert!(flow.edges.is_empty());
}

#[test]
fn two_files_with_secret_handlers() {
    let a = extract_cfgs_from_tree(&handler_file());
    let b = extract_cfgs_from_tree(&handler_file());
    for m in [&a, &b] {
        let g = m.get("handler").expect("handler");
        assert!(g.nodes.iter().any(|n| n.starts_with("SECRET:")));
    }
    let all = vec![("src/a.ts".to_string(), a), ("src/b.ts".to_string(), b)];
    let flow = to_security_flow(&all);
    assert_eq!(flow.index.functions, 2);
    assert!(flow.index.pii_edges >= 1);
    assert_eq!(flow.index.pii_edges, flow.index.edges);
    assert!(flow.edges.iter().all(|e| e.sensitive && e.kind == EdgeKind::Secret));
    // the same function name with the same labels in both files is one signature
    assert_eq!(flow.index.edges, flow.edges.len());
    assert_eq!(flow.edges.len(), 3);
}

#[test]
fn functions_without_edges_still_count() {
    let empty = SimpleCfg { nodes: vec!["Entry".to_string(), "Exit".to_string()], edges: vec![] };
    let all = vec![one_file("x.ts", vec![("f", empty.clone()), ("g", empty)])];
    let flow = to_security_flow(&all);
    assert_eq!(flow.index.functions, 2);
    assert_eq!(flow.index.edges, 0);
}

#[test]
fn kinds_boundary_and_repeats() {
    let g = cfg(&["NET: axios.get(url)", "If: if (ok) {"], &[(0, 2), (2, 3), (3, 1), (0, 2)]);
    let all = vec![one_file("n.ts", vec![("load", g)])];
    let flow = to_security_flow(&all);
    assert_eq!(flow.index.edges, 3);
    assert_eq!(flow.index.boundary_crossings, 2);
    assert_eq!(flow.edges[0].kind, EdgeKind::Net);
    assert_eq!(flow.edges[1].kind, EdgeKind::Net);
    assert_eq!(flow.edges[2].kind, EdgeKind::Branch);
    assert_eq!(flow.edges[0].func, "load");
    assert_eq!(flow.edges[0].src, "Entry");
    assert_eq!(flow.edges[0].dst, "NET: axios.get(url)");
}

#[test]
fn password_edge_is_sensitive_but_not_boundary() {
    let g = cfg(&["LOG: logger.info(user.Password)"], &[(0, 2), (2, 1)]);
    let all = vec![one_file("p.ts", vec![("login", g)])];
    let flow = to_security_flow(&all);
    assert_eq!(flow.index.pii_edges, 2);
    assert_eq!(flow.index.boundary_crossings, 0);
    assert!(flow.edges.iter().all(|e| e.sensitive && e.kind == EdgeKind::Log));
}

#[test]
fn edge_kind_rules_in_order() {
    assert_eq!(edge_kind("Entry", "NET: fetch(x)"), EdgeKind::Net);
    assert_eq!(edge_kind("DB: q()", "NET: fetch(x)"), EdgeKind::Net);
    assert_eq!(edge_kind("DB: prisma.x()", "Exit"), EdgeKind::Db);
    assert_eq!(edge_kind("Entry", "USER ENTRY (Nest route)"), EdgeKind::Auth);
    assert_eq!(edge_kind("USER ENTRY (Nest route)", "Exit"), EdgeKind::Auth);
    assert_eq!(edge_kind("Entry", "AUTH: @UseGuards(x)"), EdgeKind::Auth);
    assert_eq!(edge_kind("CRYPTO: bcrypt.hash(p)", "Exit"), EdgeKind::Crypto);
    assert_eq!(edge_kind("Entry", "SECRET: process.env.K"), EdgeKind::Secret);
    assert_eq!(edge_kind("LOG: console.log(a)", "Exit"), EdgeKind::Log);
    assert_eq!(edge_kind("Loop: while (x) {", "Exit"), EdgeKind::Loop);
    assert_eq!(edge_kind("If: if (a) {", "If: if (a) {"), EdgeKind::Loop);
    assert_eq!(edge_kind("If: if (a) {", "Return: return 1;"), EdgeKind::Return);
    assert_eq!(edge_kind("Entry", "If: if (a) {"), EdgeKind::Branch);
    assert_eq!(edge_kind("Entry", "Exit"), EdgeKind::Other);
}

#[test]
fn sensitivity_terms_ignore_case() {
    assert!(edge_sensitive("Entry", "SECRET: process.env.K"));
    assert!(edge_sensitive("If: user.SSN", "Exit"));
    assert!(edge_sensitive("Entry", "Return: return PassWord;"));
    assert!(edge_sensitive("If: pii", "Exit"));
    assert!(!edge_sensitive("Entry", "Exit"));
}

#[test]
fn input_order_does_not_change_counts() {
    let g1 = cfg(&["NET: fetch(u)"], &[(0, 2), (2, 1)]);
    let g2 = cfg(&["SECRET: token"], &[(0, 2), (2, 1)]);
    let a = vec![one_file("1.ts", vec![("f", g1.clone())]), one_file("2.ts", vec![("g", g2.clone())])];
    let b = vec![one_file("2.ts", vec![("g", g2)]), one_file("1.ts", vec![("f", g1)])];
    let fa = to_security_flow(&a);
    let fb = to_security_flow(&b);
    assert_eq!(fa.index, fb.index);
    let mut sa: Vec<(String, String, String)> = fa.edges.iter().map(|e| (e.func.clone(), e.src.clone(), e.dst.clone())).collect();
    let mut sb: Vec<(String, String, String)> = fb.edges.iter().map(|e| (e.func.clone(), e.src.clone(), e.dst.clone())).collect();
    sa.sort();
    sb.sort();
    assert_eq!(sa, sb);
}

#[test]
fn entry_order_inside_a_file_does_not_change_counts() {
    let g1 = cfg(&["DB: prisma.user.find()"], &[(0, 2), (2, 1)]);
    let g2 = cfg(&["LOG: console.log(password)"], &[(0, 2), (2, 1)]);
    let a = vec![one_file("1.ts", vec![("f", g1.clone()), ("g", g2.clone())])];
    let b = vec![one_file("1.ts", vec![("g", g2), ("f", g1)])];
    let fa = to_security_flow(&a);
    let fb = to_security_flow(&b);
    assert_eq!(fa.index, fb.index);
    assert_eq!(fa.index.functions, 2);
    assert_eq!(fa.index.pii_edges, 2);
}

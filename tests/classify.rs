use casesmith::{call_name, classify_call, is_secretish, snippet, EdgeKind, SyntaxNode};

fn node(kind: &str, text: &str, kids: Vec<(Option<&str>, SyntaxNode)>) -> SyntaxNode {
    let mut n = SyntaxNode::leaf(kind, text, 0);
    for (f, c) in kids {
        n.push_child(f, c);
    }
    n
}

fn leaf(kind: &str, text: &str) -> SyntaxNode {
    SyntaxNode::leaf(kind, text, 0)
}

/// A call whose target is the dotted path `parts`.
fn call(parts: &[&str]) -> SyntaxNode {
    let mut target = leaf("identifier", parts[0]);
    let mut text = parts[0].to_string();
    for p in &parts[1..] {
        text = format!("{}.{}", text, p);
        target = node(
            "member_expression",
            &text,
            vec![(Some("object"), target), (Some("property"), leaf("property_identifier", p))],
        );
    }
    let call_text = format!("{}()", text);
    node("call_expression", &call_text, vec![(Some("function"), target), (Some("arguments"), leaf("arguments", "()"))])
}

#[test]
fn call_name_flattens_member_chain() {
    assert_eq!(call_name(&call(&["prisma", "user", "findMany"])), Some("prisma.user.findMany".to_string()));
    assert_eq!(call_name(&call(&["fetch"])), Some("fetch".to_string()));
    assert_eq!(call_name(&leaf("call_expression", "x()")), None);
}

#[test]
fn call_name_falls_back_to_snippet() {
    let target = node("parenthesized_expression", "(getClient())\n  .more", vec![]);
    let c = node("call_expression", "(getClient())()", vec![(Some("function"), target)]);
    assert_eq!(call_name(&c), Some("(getClient())".to_string()));
}

#[test]
fn classify_each_kind() {
    assert_eq!(classify_call(&call(&["axios", "post"])), Some(EdgeKind::Net));
    assert_eq!(classify_call(&call(&["fetch"])), Some(EdgeKind::Net));
    assert_eq!(classify_call(&call(&["this", "httpService", "get"])), Some(EdgeKind::Net));
    assert_eq!(classify_call(&call(&["prisma", "user", "findMany"])), Some(EdgeKind::Db));
    assert_eq!(classify_call(&call(&["db", "query"])), Some(EdgeKind::Db));
    assert_eq!(classify_call(&call(&["jwt", "decode"])), Some(EdgeKind::Auth));
    assert_eq!(classify_call(&call(&["bcrypt", "hash"])), Some(EdgeKind::Crypto));
    assert_eq!(classify_call(&call(&["crypto", "createHash"])), Some(EdgeKind::Crypto));
    assert_eq!(classify_call(&call(&["console", "log"])), Some(EdgeKind::Log));
    assert_eq!(classify_call(&call(&["this", "logger", "warn"])), Some(EdgeKind::Log));
    assert_eq!(classify_call(&call(&["compute", "total"])), None);
}

#[test]
fn classify_is_case_insensitive() {
    assert_eq!(classify_call(&call(&["Axios", "Get"])), Some(EdgeKind::Net));
    assert_eq!(classify_call(&call(&["Console", "Error"])), Some(EdgeKind::Log));
}

#[test]
fn classify_first_rule_wins() {
    // "jwt.sign" would match both the auth and the crypto rules
    assert_eq!(classify_call(&call(&["jwt", "sign"])), Some(EdgeKind::Auth));
    // a network client whose method mentions a query stays a network call
    assert_eq!(classify_call(&call(&["axios", "query"])), Some(EdgeKind::Net));
}

#[test]
fn classify_without_target_is_none() {
    assert_eq!(classify_call(&leaf("call_expression", "axios()")), None);
}

#[test]
fn secretish_reads() {
    assert!(is_secretish(&leaf("member_expression", "process.env.DB_URL")));
    assert!(is_secretish(&leaf("call_expression", "this.configService.get('x')")));
    assert!(is_secretish(&leaf("identifier", "ApiKey")));
    assert!(is_secretish(&leaf("identifier", "refreshToken")));
    assert!(!is_secretish(&leaf("identifier", "counter")));
}

#[test]
fn snippet_is_first_line_trimmed() {
    assert_eq!(snippet(&leaf("if_statement", "  if (a) {  \n  b();\n}")), "if (a) {");
    assert_eq!(snippet(&leaf("x", "   spaced   ")), "spaced");
    assert_eq!(snippet(&leaf("x", "line\r\nnext")), "line");
    assert_eq!(snippet(&leaf("x", "")), "");
}

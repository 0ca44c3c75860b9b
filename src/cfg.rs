//! Simplified control-flow graphs of function bodies, with security tags.
use vstd::prelude::*;
use crate::syntax::SyntaxNode;
use crate::tag::{EdgeKind, call_kind, classify_call, is_secretish, node_snippet, secretish, snippet};
use crate::text::{contains, has_infix, has_prefix, lower_of, lowercase, starts_with};

verus! {

/// A function's control-flow graph: node labels, where index 0 is `Entry`
/// and index 1 is `Exit`, and directed edges between node indices.
#[derive(Debug, Clone)]
pub struct SimpleCfg {
    pub nodes: Vec<String>,
    pub edges: Vec<(usize, usize)>,
}

/// The labels of a sequence of strings.
pub open spec fn labels(v: Seq<String>) -> Seq<Seq<char>> {
    v.map_values(|s: String| s@)
}

/// A graph under construction: its labels, its edges, and the node that
/// was appended last.
pub struct CfgModel {
    pub nodes: Seq<Seq<char>>,
    pub edges: Seq<(usize, usize)>,
    pub last: usize,
}

/// A finished graph: its labels and its edges.
pub struct CfgView {
    pub nodes: Seq<Seq<char>>,
    pub edges: Seq<(usize, usize)>,
}

impl View for SimpleCfg {
    type V = CfgView;

    open spec fn view(&self) -> CfgView {
        CfgView { nodes: labels(self.nodes@), edges: self.edges@ }
    }
}

/// A label that marks a loop node.
pub open spec fn is_loop_label(l: Seq<char>) -> bool {
    has_prefix(l, "Loop: "@)
}

/// `Entry` and `Exit` stand first, and every edge joins two existing nodes.
pub open spec fn nodes_edges_ok(nodes: Seq<Seq<char>>, edges: Seq<(usize, usize)>) -> bool {
    &&& nodes.len() >= 2
    &&& nodes[0] == "Entry"@
    &&& nodes[1] == "Exit"@
    &&& forall|j: int| 0 <= j < edges.len() ==> (#[trigger] edges[j]).0 < nodes.len()
        && edges[j].1 < nodes.len()
}

/// Every loop node has an edge to itself and an edge to `Exit`.
pub open spec fn loops_closed(nodes: Seq<Seq<char>>, edges: Seq<(usize, usize)>) -> bool {
    forall|i: int|
        0 <= i < nodes.len() && is_loop_label(#[trigger] nodes[i]) ==> edges.contains(
            (i as usize, i as usize),
        ) && edges.contains((i as usize, 1usize))
}

/// A label that a tag node carries.
pub open spec fn is_tag_label(l: Seq<char>) -> bool {
    has_prefix(l, "NET:"@) || has_prefix(l, "DB:"@) || has_prefix(l, "AUTH:"@) || has_prefix(
        l,
        "CRYPTO:"@,
    ) || has_prefix(l, "LOG:"@) || has_prefix(l, "SECRET:"@) || l == "USER ENTRY (Nest route)"@
}

/// No tag node carries the label of the node appended just before it.
pub open spec fn tags_not_repeated(nodes: Seq<Seq<char>>) -> bool {
    forall|i: int|
        2 <= i && i + 1 < nodes.len() && is_tag_label(#[trigger] nodes[i + 1]) ==> nodes[i]
            != nodes[i + 1]
}

/// The finished graph is well formed.
pub open spec fn cfg_wf(c: CfgView) -> bool {
    nodes_edges_ok(c.nodes, c.edges) && loops_closed(c.nodes, c.edges)
}

/// The graph under construction is well formed.
pub open spec fn model_wf(m: CfgModel) -> bool {
    &&& nodes_edges_ok(m.nodes, m.edges)
    &&& loops_closed(m.nodes, m.edges)
    &&& m.last < m.nodes.len()
    &&& m.nodes.len() <= usize::MAX
    &&& (m.last == m.nodes.len() - 1 || (m.last == 0 && m.nodes.len() == 2))
    &&& tags_not_repeated(m.nodes)
}

/// The graph of an empty body: `Entry` and `Exit`, no edge, `Entry` last.
pub open spec fn initial_model() -> CfgModel {
    CfgModel { nodes: seq!["Entry"@, "Exit"@], edges: Seq::empty(), last: 0 }
}

/// Appends a node, links the last node to it, and makes it the last.
pub open spec fn append_node(m: CfgModel, label: Seq<char>) -> CfgModel {
    let idx = m.nodes.len() as usize;
    CfgModel { nodes: m.nodes.push(label), edges: m.edges.push((m.last, idx)), last: idx }
}

/// Appends a loop node: linked from the last node, to itself and to `Exit`.
pub open spec fn append_loop(m: CfgModel, label: Seq<char>) -> CfgModel {
    let idx = m.nodes.len() as usize;
    CfgModel {
        nodes: m.nodes.push(label),
        edges: m.edges.push((m.last, idx)).push((idx, idx)).push((idx, 1usize)),
        last: idx,
    }
}

/// Appends a tag node, unless the last node carries the same label.
pub open spec fn push_tag(m: CfgModel, label: Seq<char>) -> CfgModel {
    if m.nodes[m.last as int] == label {
        m
    } else {
        append_node(m, label)
    }
}

/// The label prefix of a tag kind.
pub open spec fn kind_prefix(k: EdgeKind) -> Seq<char> {
    match k {
        EdgeKind::Net => "NET"@,
        EdgeKind::Db => "DB"@,
        EdgeKind::Auth => "AUTH"@,
        EdgeKind::Crypto => "CRYPTO"@,
        EdgeKind::Log => "LOG"@,
        _ => "OTHER"@,
    }
}

/// A lower-cased decorator that declares a route.
pub open spec fn is_route_decorator(d: Seq<char>) -> bool {
    has_prefix(d, "@get"@) || has_prefix(d, "@post"@) || has_prefix(d, "@put"@) || has_prefix(
        d,
        "@delete"@,
    ) || has_prefix(d, "@patch"@) || has_prefix(d, "@all"@)
}

/// A lower-cased decorator that guards a route.
pub open spec fn is_guard_decorator(d: Seq<char>) -> bool {
    has_infix(d, "useguards"@) || has_infix(d, "auth"@)
}

/// The tags that a decorator adds: its lower-cased text decides, and the
/// guard tag carries its snippet `raw`.
pub open spec fn decorator_tags(m: CfgModel, ch: SyntaxNode, raw: Seq<char>) -> CfgModel {
    let d = lower_of(ch.text@);
    let m1 = if is_route_decorator(d) {
        push_tag(m, "USER ENTRY (Nest route)"@)
    } else {
        m
    };
    if is_guard_decorator(d) {
        push_tag(m1, "AUTH: "@ + raw)
    } else {
        m1
    }
}

/// The nodes that visiting one syntax node adds.
pub open spec fn visit(m: CfgModel, ch: SyntaxNode) -> CfgModel {
    let snip = node_snippet(ch);
    let k = ch.kind@;
    let m1 = if k == "if_statement"@ {
        append_node(m, "If: "@ + snip)
    } else if k == "for_statement"@ || k == "while_statement"@ {
        append_loop(m, "Loop: "@ + snip)
    } else if k == "return_statement"@ {
        append_node(m, "Return: "@ + snip)
    } else {
        m
    };
    let m2 = if k == "call_expression"@ && call_kind(ch) is Some {
        push_tag(m1, kind_prefix(call_kind(ch)->0) + ": "@ + snip)
    } else {
        m1
    };
    let m3 = if (k == "member_expression"@ || k == "call_expression"@ || k == "identifier"@)
        && secretish(ch) {
        push_tag(m2, "SECRET: "@ + snip)
    } else {
        m2
    };
    if k == "decorator"@ {
        decorator_tags(m3, ch, snip)
    } else {
        m3
    }
}

/// Visits the first `k` children of `n`, in order.
pub open spec fn visit_children(m: CfgModel, n: SyntaxNode, k: int) -> CfgModel
    decreases k,
{
    if k <= 0 || k > n.children@.len() {
        m
    } else {
        visit(visit_children(m, n, k - 1), n.children@[k - 1])
    }
}

/// The traversal of the subtree under `n`: first its children are visited in
/// order, then the subtrees under them are walked from the last child back to
/// the first, as a stack of pending nodes takes them.
pub open spec fn walk(m: CfgModel, n: SyntaxNode) -> CfgModel
    decreases n, 1nat,
{
    walk_children(visit_children(m, n, n.children@.len() as int), n, n.children@.len() as int)
}

/// Walks the subtrees under the children `k - 1` down to `0` of `n`.
pub open spec fn walk_children(m: CfgModel, n: SyntaxNode, k: int) -> CfgModel
    decreases n, 0nat, k,
{
    if k <= 0 || k > n.children@.len() {
        m
    } else {
        walk_children(walk(m, n.children@[k - 1]), n, k - 1)
    }
}

/// The graph of a function body before duplicate edges are removed: the
/// traversal, then an edge from the last node to `Exit`.
pub open spec fn raw_cfg(body: SyntaxNode) -> CfgView {
    let m = walk(initial_model(), body);
    CfgView { nodes: m.nodes, edges: m.edges.push((m.last, 1usize)) }
}

/// `s` with every element that already occurred earlier removed.
pub open spec fn dedup<T>(s: Seq<T>) -> Seq<T>
    decreases s.len(),
{
    if s.len() == 0 {
        s
    } else {
        let d = dedup(s.drop_last());
        if d.contains(s.last()) {
            d
        } else {
            d.push(s.last())
        }
    }
}

/// The graph of a function body, with duplicate edges removed.
pub open spec fn body_cfg(body: SyntaxNode) -> CfgView {
    let r = raw_cfg(body);
    CfgView { nodes: r.nodes, edges: dedup(r.edges) }
}

proof fn lemma_not_loop_label(a: Seq<char>, s: Seq<char>)
    requires
        a.len() >= 2,
        a[0] != 'L' || a[1] != 'o',
    ensures
        !is_loop_label(a + s),
{
    reveal_strlit("Loop: ");
    if is_loop_label(a + s) {
        assert((a + s).subrange(0, 6)[0] == (a + s)[0]);
        assert((a + s).subrange(0, 6)[1] == (a + s)[1]);
    }
}

proof fn lemma_not_tag_label(a: Seq<char>, s: Seq<char>)
    requires
        a.len() >= 2,
        a[0] != 'N' && a[0] != 'D' && a[0] != 'A' && a[0] != 'C' && a[0] != 'S' && a[0] != 'U',
        a[0] != 'L' || a[1] != 'O',
    ensures
        !is_tag_label(a + s),
{
    reveal_strlit("NET:");
    reveal_strlit("DB:");
    reveal_strlit("AUTH:");
    reveal_strlit("CRYPTO:");
    reveal_strlit("LOG:");
    reveal_strlit("SECRET:");
    reveal_strlit("USER ENTRY (Nest route)");
    let l = a + s;
    assert(l[0] == a[0]);
    assert(l[1] == a[1]);
    if has_prefix(l, "NET:"@) { assert(l.subrange(0, 4)[0] == l[0]); }
    if has_prefix(l, "DB:"@) { assert(l.subrange(0, 3)[0] == l[0]); }
    if has_prefix(l, "AUTH:"@) { assert(l.subrange(0, 5)[0] == l[0]); }
    if has_prefix(l, "CRYPTO:"@) { assert(l.subrange(0, 7)[0] == l[0]); }
    if has_prefix(l, "LOG:"@) {
        assert(l.subrange(0, 4)[0] == l[0]);
        assert(l.subrange(0, 4)[1] == l[1]);
    }
    if has_prefix(l, "SECRET:"@) { assert(l.subrange(0, 7)[0] == l[0]); }
}

struct Draft {
    nodes: Vec<String>,
    edges: Vec<(usize, usize)>,
    last: usize,
}

impl View for Draft {
    type V = CfgModel;

    closed spec fn view(&self) -> CfgModel {
        CfgModel { nodes: labels(self.nodes@), edges: self.edges@, last: self.last }
    }
}

fn append_node_exec(d: &mut Draft, label: String)
    requires
        model_wf(old(d)@),
        !is_loop_label(label@),
        is_tag_label(label@) ==> old(d)@.nodes[old(d)@.last as int] != label@,
    ensures
        final(d)@ == append_node(old(d)@, label@),
        model_wf(final(d)@),
{
    let ghost m = d@;
    let idx = d.nodes.len();
    d.nodes.push(label);
    d.edges.push((d.last, idx));
    d.last = idx;
    assert(d@.nodes =~= append_node(m, label@).nodes);
    assert(d@.edges =~= append_node(m, label@).edges);
    assert(d.nodes.len() == d@.nodes.len());
    assert forall|i: int|
        0 <= i < d@.nodes.len() && is_loop_label(#[trigger] d@.nodes[i]) implies d@.edges.contains(
        (i as usize, i as usize),
    ) && d@.edges.contains((i as usize, 1usize)) by {
        assert(i < m.nodes.len());
        assert(d@.nodes[i] == m.nodes[i]);
        let j = choose|j: int| 0 <= j < m.edges.len() && m.edges[j] == (i as usize, i as usize);
        assert(d@.edges[j] == m.edges[j]);
        let j2 = choose|j2: int| 0 <= j2 < m.edges.len() && m.edges[j2] == (i as usize, 1usize);
        assert(d@.edges[j2] == m.edges[j2]);
    }
}

fn push_tag_exec(d: &mut Draft, label: String)
    requires
        model_wf(old(d)@),
        !is_loop_label(label@),
    ensures
        final(d)@ == push_tag(old(d)@, label@),
        model_wf(final(d)@),
{
    if text_eq_string(&d.nodes[d.last], &label) {
        return;
    }
    append_node_exec(d, label);
}

fn text_eq_string(a: &String, b: &String) -> (r: bool)
    ensures
        r == (a@ == b@),
{
    crate::text::text_eq(a.as_str(), b.as_str())
}

fn append_loop_exec(d: &mut Draft, label: String)
    requires
        model_wf(old(d)@),
        !is_tag_label(label@),
    ensures
        final(d)@ == append_loop(old(d)@, label@),
        model_wf(final(d)@),
{
    let ghost m = d@;
    let idx = d.nodes.len();
    d.nodes.push(label);
    d.edges.push((d.last, idx));
    d.edges.push((idx, idx));
    d.edges.push((idx, 1));
    d.last = idx;
    assert(d@.nodes =~= append_loop(m, label@).nodes);
    assert(d@.edges =~= append_loop(m, label@).edges);
    let ghost n0: int = m.edges.len() as int;
    assert(d.nodes.len() == d@.nodes.len());
    assert forall|i: int|
        0 <= i < d@.nodes.len() && is_loop_label(#[trigger] d@.nodes[i]) implies d@.edges.contains(
        (i as usize, i as usize),
    ) && d@.edges.contains((i as usize, 1usize)) by {
        if i == idx {
            assert(d@.edges[n0 + 1] == (i as usize, i as usize));
            assert(d@.edges[n0 + 2] == (i as usize, 1usize));
        } else {
            assert(d@.nodes[i] == m.nodes[i]);
            let j = choose|j: int|
                0 <= j < m.edges.len() && m.edges[j] == (i as usize, i as usize);
            assert(d@.edges[j] == m.edges[j]);
            let j2 = choose|j2: int|
                0 <= j2 < m.edges.len() && m.edges[j2] == (i as usize, 1usize);
            assert(d@.edges[j2] == m.edges[j2]);
        }
    }
}

fn kind_prefix_exec(k: EdgeKind) -> (r: &'static str)
    ensures
        r@ == kind_prefix(k),
{
    match k {
        EdgeKind::Net => "NET",
        EdgeKind::Db => "DB",
        EdgeKind::Auth => "AUTH",
        EdgeKind::Crypto => "CRYPTO",
        EdgeKind::Log => "LOG",
        _ => "OTHER",
    }
}

fn label_of(head: &str, tail: &str) -> (r: String)
    ensures
        r@ == head@ + tail@,
{
    let mut l = head.to_owned();
    l.append(tail);
    l
}

fn visit_exec(d: &mut Draft, ch: &SyntaxNode)
    requires
        model_wf(old(d)@),
    ensures
        final(d)@ == visit(old(d)@, *ch),
        model_wf(final(d)@),
{
    proof {
        reveal_strlit("If: ");
        reveal_strlit("Return: ");
        reveal_strlit("SECRET: ");
        reveal_strlit("AUTH: ");
        reveal_strlit("USER ENTRY (Nest route)");
        reveal_strlit(": ");
        reveal_strlit("NET");
        reveal_strlit("DB");
        reveal_strlit("AUTH");
        reveal_strlit("CRYPTO");
        reveal_strlit("LOG");
        reveal_strlit("OTHER");
    }
    let snip = snippet(ch);
    if ch.is_kind("if_statement") {
        proof {
            lemma_not_loop_label("If: "@, snip@);
            lemma_not_tag_label("If: "@, snip@);
        }
        append_node_exec(d, label_of("If: ", snip.as_str()));
    } else if ch.is_kind("for_statement") || ch.is_kind("while_statement") {
        proof {
            reveal_strlit("Loop: ");
            lemma_not_tag_label("Loop: "@, snip@);
        }
        append_loop_exec(d, label_of("Loop: ", snip.as_str()));
    } else if ch.is_kind("return_statement") {
        proof {
            lemma_not_loop_label("Return: "@, snip@);
            lemma_not_tag_label("Return: "@, snip@);
        }
        append_node_exec(d, label_of("Return: ", snip.as_str()));
    }
    if ch.is_kind("call_expression") {
        if let Some(k) = classify_call(ch) {
            let head = label_of(kind_prefix_exec(k), ": ");
            proof {
                lemma_not_loop_label(head@, snip@);
            }
            push_tag_exec(d, label_of(head.as_str(), snip.as_str()));
        }
    }
    if ch.is_kind("member_expression") || ch.is_kind("call_expression") || ch.is_kind(
        "identifier",
    ) {
        if is_secretish(ch) {
            proof {
                lemma_not_loop_label("SECRET: "@, snip@);
            }
            push_tag_exec(d, label_of("SECRET: ", snip.as_str()));
        }
    }
    if ch.is_kind("decorator") {
        let low = lowercase(ch.text.as_str());
        let l = low.as_str();
        if starts_with(l, "@get") || starts_with(l, "@post") || starts_with(l, "@put")
            || starts_with(l, "@delete") || starts_with(l, "@patch") || starts_with(l, "@all") {
            proof {
                lemma_not_loop_label("USER ENTRY (Nest route)"@, Seq::empty());
                assert("USER ENTRY (Nest route)"@ + Seq::<char>::empty()
                    =~= "USER ENTRY (Nest route)"@);
            }
            push_tag_exec(d, "USER ENTRY (Nest route)".to_owned());
        }
        if contains(l, "useguards") || contains(l, "auth") {
            proof {
                lemma_not_loop_label("AUTH: "@, snip@);
            }
            push_tag_exec(d, label_of("AUTH: ", snip.as_str()));
        }
    }
}

fn walk_exec(d: &mut Draft, n: &SyntaxNode)
    requires
        model_wf(old(d)@),
    ensures
        final(d)@ == walk(old(d)@, *n),
        model_wf(final(d)@),
    decreases n,
{
    let ghost m0 = d@;
    let len = n.children.len();
    let mut i: usize = 0;
    while i < len
        invariant
            len == n.children@.len(),
            i <= len,
            model_wf(d@),
            d@ == visit_children(m0, *n, i as int),
        decreases len - i,
    {
        visit_exec(d, &n.children[i]);
        i = i + 1;
    }
    let ghost target = walk(m0, *n);
    let mut k: usize = len;
    while k > 0
        invariant
            k <= len,
            len == n.children@.len(),
            model_wf(d@),
            walk_children(d@, *n, k as int) == target,
        decreases k,
    {
        k = k - 1;
        walk_exec(d, &n.children[k]);
    }
}

/// Builds the control-flow graph of a function body: a depth-first walk over
/// the body that appends branch, loop, return and tag nodes, then a final
/// edge from the last node to `Exit`.
pub fn build_structured_cfg(body: &SyntaxNode) -> (r: SimpleCfg)
    ensures
        r@ == raw_cfg(*body),
        cfg_wf(r@),
        tags_not_repeated(r@.nodes),
{
    let mut d = Draft { nodes: vec!["Entry".to_owned(), "Exit".to_owned()], edges: Vec::new(), last: 0 };
    proof {
        reveal_strlit("Entry");
        reveal_strlit("Exit");
        assert(d@.nodes =~= initial_model().nodes);
        assert(d@.edges =~= initial_model().edges);
        lemma_not_loop_label("Entry"@, Seq::empty());
        lemma_not_loop_label("Exit"@, Seq::empty());
        assert("Entry"@ + Seq::<char>::empty() =~= "Entry"@);
        assert("Exit"@ + Seq::<char>::empty() =~= "Exit"@);
    }
    walk_exec(&mut d, body);
    let ghost m = d@;
    d.edges.push((d.last, 1));
    let r = SimpleCfg { nodes: d.nodes, edges: d.edges };
    assert(r@.edges =~= m.edges.push((m.last, 1usize)));
    assert(r@.nodes =~= m.nodes);
    assert forall|i: int|
        0 <= i < r@.nodes.len() && is_loop_label(#[trigger] r@.nodes[i]) implies r@.edges.contains(
        (i as usize, i as usize),
    ) && r@.edges.contains((i as usize, 1usize)) by {
        let j = choose|j: int| 0 <= j < m.edges.len() && m.edges[j] == (i as usize, i as usize);
        assert(r@.edges[j] == m.edges[j]);
        let j2 = choose|j2: int| 0 <= j2 < m.edges.len() && m.edges[j2] == (i as usize, 1usize);
        assert(r@.edges[j2] == m.edges[j2]);
    }
    r
}

pub proof fn lemma_dedup_contains<T>(s: Seq<T>, x: T)
    ensures
        dedup(s).contains(x) <==> s.contains(x),
    decreases s.len(),
{
    if s.len() > 0 {
        let p = s.drop_last();
        let d = dedup(p);
        lemma_dedup_contains(p, x);
        if p.contains(x) {
            let j = choose|j: int| 0 <= j < p.len() && p[j] == x;
            assert(s[j] == x);
            if !d.contains(s.last()) {
                let k = choose|k: int| 0 <= k < d.len() && d[k] == x;
                assert(d.push(s.last())[k] == x);
            }
        }
        if s.contains(x) && x != s.last() {
            let j = choose|j: int| 0 <= j < s.len() && s[j] == x;
            assert(p[j] == x);
        }
        if x == s.last() {
            assert(s[s.len() - 1] == x);
            if !d.contains(x) {
                assert(d.push(x)[d.len() as int] == x);
            }
        }
        if dedup(s).contains(x) && x != s.last() {
            if !d.contains(s.last()) {
                let k = choose|k: int| 0 <= k < d.len() + 1 && d.push(s.last())[k] == x;
                assert(d[k] == x);
            }
        }
    }
}

pub proof fn lemma_dedup_no_duplicates<T>(s: Seq<T>)
    ensures
        dedup(s).no_duplicates(),
    decreases s.len(),
{
    if s.len() > 0 {
        lemma_dedup_no_duplicates(s.drop_last());
        let d = dedup(s.drop_last());
        if !d.contains(s.last()) {
            assert forall|i: int, j: int|
                0 <= i < d.push(s.last()).len() && 0 <= j < d.push(s.last()).len() && i != j
                implies d.push(s.last())[i] != d.push(s.last())[j] by {
                if i == d.len() as int {
                    assert(d.push(s.last())[j] == d[j]);
                } else if j == d.len() as int {
                    assert(d.push(s.last())[i] == d[i]);
                }
            }
        }
    }
}

fn contains_edge(v: &Vec<(usize, usize)>, e: (usize, usize)) -> (r: bool)
    ensures
        r == v@.contains(e),
{
    let mut i: usize = 0;
    while i < v.len()
        invariant
            i <= v@.len(),
            forall|j: int| 0 <= j < i ==> v@[j] != e,
        decreases v@.len() - i,
    {
        if v[i].0 == e.0 && v[i].1 == e.1 {
            return true;
        }
        i = i + 1;
    }
    false
}

/// Removes repeated edges, keeping the first occurrence of each pair in order.
pub fn dedupe_cfg_edges(cfg: &mut SimpleCfg)
    ensures
        final(cfg).nodes == old(cfg).nodes,
        final(cfg).edges@ == dedup(old(cfg).edges@),
        final(cfg).edges@.no_duplicates(),
        forall|e: (usize, usize)| #[trigger] final(cfg).edges@.contains(e) <==> old(cfg).edges@.contains(e),
{
    let mut out: Vec<(usize, usize)> = Vec::new();
    let n = cfg.edges.len();
    let mut i: usize = 0;
    while i < n
        invariant
            n == cfg.edges@.len(),
            i <= n,
            out@ == dedup(cfg.edges@.subrange(0, i as int)),
        decreases n - i,
    {
        let e = cfg.edges[i];
        assert(cfg.edges@.subrange(0, i + 1).drop_last() =~= cfg.edges@.subrange(0, i as int));
        if !contains_edge(&out, e) {
            out.push(e);
        }
        i = i + 1;
    }
    assert(cfg.edges@.subrange(0, n as int) =~= cfg.edges@);
    proof {
        lemma_dedup_no_duplicates(cfg.edges@);
        assert forall|e: (usize, usize)| #[trigger] out@.contains(e) <==> cfg.edges@.contains(e) by {
            lemma_dedup_contains(cfg.edges@, e);
        }
    }
    cfg.edges = out;
}

/// The graph of a function body, with duplicate edges removed.
pub fn function_cfg(body: &SyntaxNode) -> (r: SimpleCfg)
    ensures
        r@ == body_cfg(*body),
        cfg_wf(r@),
        tags_not_repeated(r@.nodes),
        r@.edges.no_duplicates(),
{
    let mut c = build_structured_cfg(body);
    let ghost before = c@;
    dedupe_cfg_edges(&mut c);
    assert(c@.nodes == before.nodes);
    assert forall|j: int| 0 <= j < c@.edges.len() implies (#[trigger] c@.edges[j]).0 < c@.nodes.len()
        && c@.edges[j].1 < c@.nodes.len() by {
        assert(c@.edges.contains(c@.edges[j]));
        assert(before.edges.contains(c@.edges[j]));
    }
    c
}

/// Appending the same tag label twice in a row leaves one node for both.
pub proof fn lemma_push_tag_twice(m: CfgModel, label: Seq<char>)
    requires
        model_wf(m),
    ensures
        push_tag(push_tag(m, label), label) == push_tag(m, label),
        push_tag(push_tag(m, label), label).nodes[push_tag(m, label).last as int] == label,
{
}

} // verus!

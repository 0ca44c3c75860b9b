//! Discovery of function-like entities in a file's syntax tree, and the map
//! from qualified names to their control-flow graphs.
use vstd::prelude::*;
use crate::cfg::{CfgView, SimpleCfg, body_cfg, cfg_wf, function_cfg};
use crate::syntax::{SyntaxNode, field_child, field_child_or_self};
use crate::text::text_eq;

verus! {

/// The view of one entry: a qualified name and its graph.
pub type EntryView = (Seq<char>, CfgView);

/// Index of the entry named `k` in `s`, from position `i` on; `s.len()`
/// where there is none.
pub open spec fn name_index_from(s: Seq<EntryView>, k: Seq<char>, i: int) -> int
    decreases s.len() - i,
{
    if i < 0 || i >= s.len() {
        s.len() as int
    } else if s[i].0 == k {
        i
    } else {
        name_index_from(s, k, i + 1)
    }
}

/// `s` after storing `v` under `k`: an entry of that name is replaced in
/// place, else the entry is appended.
pub open spec fn store(s: Seq<EntryView>, k: Seq<char>, v: CfgView) -> Seq<EntryView> {
    let i = name_index_from(s, k, 0);
    if i < s.len() {
        s.update(i, (k, v))
    } else {
        s.push((k, v))
    }
}

/// No two entries share a name.
pub open spec fn names_unique(s: Seq<EntryView>) -> bool {
    forall|i: int, j: int| 0 <= i < s.len() && 0 <= j < s.len() && i != j ==> s[i].0 != s[j].0
}

/// Every graph of the entries is well formed and has no repeated edge.
pub open spec fn graphs_wf(s: Seq<EntryView>) -> bool {
    forall|i: int| 0 <= i < s.len() ==> cfg_wf(#[trigger] s[i].1) && s[i].1.edges.no_duplicates()
}

/// The graphs of one file, keyed by qualified function name. A name stored
/// again replaces the earlier graph.
pub struct CfgMap {
    entries: Vec<(String, SimpleCfg)>,
}

impl View for CfgMap {
    type V = Seq<EntryView>;

    closed spec fn view(&self) -> Seq<EntryView> {
        self.entries@.map_values(|e: (String, SimpleCfg)| (e.0@, e.1@))
    }
}

impl CfgMap {
    /// The map is well formed: names are unique, and every graph is well
    /// formed and has no repeated edge.
    pub open spec fn wf(&self) -> bool {
        names_unique(self@) && graphs_wf(self@)
    }

    /// An empty map.
    pub fn new() -> (r: CfgMap)
        ensures
            r@ == Seq::<EntryView>::empty(),
            r.wf(),
    {
        let r = CfgMap { entries: Vec::new() };
        assert(r@ =~= Seq::<EntryView>::empty());
        r
    }

    /// Number of functions in the map.
    pub fn len(&self) -> (r: usize)
        ensures
            r == self@.len(),
    {
        self.entries.len()
    }

    /// The name and graph of entry `i`.
    pub fn entry(&self, i: usize) -> (r: (&String, &SimpleCfg))
        requires
            i < self@.len(),
        ensures
            r.0@ == self@[i as int].0,
            r.1@ == self@[i as int].1,
    {
        let e = &self.entries[i];
        (&e.0, &e.1)
    }

    /// The graph stored under `name`.
    pub fn get(&self, name: &str) -> (r: Option<&SimpleCfg>)
        ensures
            r is None <==> name_index_from(self@, name@, 0) == self@.len(),
            r matches Some(c) ==> c@ == self@[name_index_from(self@, name@, 0)].1,
    {
        let n = self.entries.len();
        let mut i: usize = 0;
        while i < n
            invariant
                n == self@.len(),
                i <= n,
                name_index_from(self@, name@, 0) == name_index_from(self@, name@, i as int),
            decreases n - i,
        {
            if text_eq(self.entries[i].0.as_str(), name) {
                return Some(&self.entries[i].1);
            }
            i = i + 1;
        }
        None
    }

    /// Stores `cfg` under `name`, replacing a graph stored under that name.
    pub fn insert(&mut self, name: String, cfg: SimpleCfg)
        requires
            old(self).wf(),
            cfg_wf(cfg@),
            cfg@.edges.no_duplicates(),
        ensures
            final(self)@ == store(old(self)@, name@, cfg@),
            final(self).wf(),
    {
        let ghost s = self@;
        let n = self.entries.len();
        let mut i: usize = 0;
        while i < n
            invariant
                n == self@.len(),
                s == self@,
                s == old(self)@,
                names_unique(s),
                graphs_wf(s),
                cfg_wf(cfg@),
                cfg@.edges.no_duplicates(),
                i <= n,
                name_index_from(s, name@, 0) == name_index_from(s, name@, i as int),
            decreases n - i,
        {
            if text_eq(self.entries[i].0.as_str(), name.as_str()) {
                let ghost v = cfg@;
                let ghost k = name@;
                assert(s[i as int].0 == k);
                assert(name_index_from(s, k, i as int) == i);
                self.entries.set(i, (name, cfg));
                assert(self@ =~= s.update(i as int, (k, v)));
                assert forall|a: int, b: int|
                    0 <= a < self@.len() && 0 <= b < self@.len() && a != b implies self@[a].0
                    != self@[b].0 by {
                    assert(self@[a].0 == s[a].0);
                    assert(self@[b].0 == s[b].0);
                }
                return;
            }
            i = i + 1;
        }
        let ghost v = cfg@;
        let ghost k = name@;
        self.entries.push((name, cfg));
        assert(self@ =~= s.push((k, v)));
        assert forall|a: int, b: int|
            0 <= a < self@.len() && 0 <= b < self@.len() && a != b implies self@[a].0
            != self@[b].0 by {
            if a == n as int {
                lemma_name_index_absent(s, k, 0, b);
            } else if b == n as int {
                lemma_name_index_absent(s, k, 0, a);
            }
        }
    }
}

proof fn lemma_name_index_absent(s: Seq<EntryView>, k: Seq<char>, i: int, j: int)
    requires
        0 <= i <= j < s.len(),
        name_index_from(s, k, i) == s.len(),
    ensures
        s[j].0 != k,
    decreases j - i,
{
    if i < j {
        lemma_name_index_absent(s, k, i + 1, j);
    }
}

/// A kind of node that holds a function value.
pub open spec fn is_fn_kind(k: Seq<char>) -> bool {
    k == "arrow_function"@ || k == "function"@ || k == "function_expression"@
}

/// The text of the child under `f`, or `dflt` where there is none.
pub open spec fn field_text_or(n: SyntaxNode, f: Seq<char>, dflt: Seq<char>) -> Seq<char> {
    match field_child(n, f) {
        Some(c) => c.text@,
        None => dflt,
    }
}

/// The graph of the body of a function-like node: its `body` child, or the
/// node itself where it has none.
pub open spec fn entity_cfg(n: SyntaxNode) -> CfgView {
    body_cfg(field_child_or_self(n, "body"@))
}

/// Decimal digits of `n`.
pub open spec fn decimal(n: nat) -> Seq<char>
    decreases n,
{
    if n < 10 {
        seq![digit_char(n)]
    } else {
        decimal(n / 10) + seq![digit_char(n % 10)]
    }
}

/// The character of a digit.
pub open spec fn digit_char(d: nat) -> char {
    if d == 0 { '0' } else if d == 1 { '1' } else if d == 2 { '2' } else if d == 3 { '3' }
    else if d == 4 { '4' } else if d == 5 { '5' } else if d == 6 { '6' } else if d == 7 { '7' }
    else if d == 8 { '8' } else { '9' }
}

/// A function declaration: stored under its name, or `<anon>`.
pub open spec fn add_function(s: Seq<EntryView>, n: SyntaxNode) -> Seq<EntryView> {
    store(s, field_text_or(n, "name"@, "<anon>"@), entity_cfg(n))
}

/// The name of a method: its `name`, `property` or `key` child, else
/// `constructor` for a constructor and `<anon_method>` for the rest.
pub open spec fn method_name_of(m: SyntaxNode) -> Seq<char> {
    match field_child(m, "name"@) {
        Some(c) => c.text@,
        None => match field_child(m, "property"@) {
            Some(c) => c.text@,
            None => match field_child(m, "key"@) {
                Some(c) => c.text@,
                None => if m.kind@ == "constructor"@ {
                    "constructor"@
                } else {
                    "<anon_method>"@
                },
            },
        },
    }
}

/// The name of a field: its `name` or `property` child, else `<anon_field>`.
pub open spec fn field_name_of(m: SyntaxNode) -> Seq<char> {
    match field_child(m, "name"@) {
        Some(c) => c.text@,
        None => field_text_or(m, "property"@, "<anon_field>"@),
    }
}

/// `class.member`.
pub open spec fn qualified(class: Seq<char>, member: Seq<char>) -> Seq<char> {
    class + "."@ + member
}

/// One member of a class body: a method or constructor, or a field that
/// holds a function.
pub open spec fn add_member(s: Seq<EntryView>, class: Seq<char>, m: SyntaxNode) -> Seq<EntryView> {
    let k = m.kind@;
    if k == "method_definition"@ || k == "constructor"@ {
        store(s, qualified(class, method_name_of(m)), entity_cfg(m))
    } else if k == "public_field_definition"@ || k == "private_field_definition"@ {
        match field_child(m, "value"@) {
            Some(v) => if is_fn_kind(v.kind@) {
                store(s, qualified(class, field_name_of(m)), entity_cfg(v))
            } else {
                s
            },
            None => s,
        }
    } else {
        s
    }
}

/// The first `k` members of a class body, in order.
pub open spec fn add_members(s: Seq<EntryView>, class: Seq<char>, body: SyntaxNode, k: int) -> Seq<EntryView>
    decreases k,
{
    if k <= 0 || k > body.children@.len() {
        s
    } else {
        add_member(add_members(s, class, body, k - 1), class, body.children@[k - 1])
    }
}

/// A class: each member of its body, qualified by the class name or
/// `<anon_class>`; nothing where it has no body.
pub open spec fn add_class(s: Seq<EntryView>, n: SyntaxNode) -> Seq<EntryView> {
    match field_child(n, "body"@) {
        Some(b) => add_members(s, field_text_or(n, "name"@, "<anon_class>"@), b, b.children@.len() as int),
        None => s,
    }
}

/// The name bound by an assignment's left side: an identifier's text, a
/// member expression's property, else `<exported>`.
pub open spec fn assigned_name(l: SyntaxNode) -> Seq<char> {
    if l.kind@ == "identifier"@ {
        l.text@
    } else if l.kind@ == "member_expression"@ {
        field_text_or(l, "property"@, "<exported>"@)
    } else {
        "<exported>"@
    }
}

/// An assignment whose right side is a function.
pub open spec fn add_assignment(s: Seq<EntryView>, a: SyntaxNode) -> Seq<EntryView> {
    match (field_child(a, "left"@), field_child(a, "right"@)) {
        (Some(l), Some(r)) => if is_fn_kind(r.kind@) {
            store(s, assigned_name(l), entity_cfg(r))
        } else {
            s
        },
        _ => s,
    }
}

/// A declarator that binds a name to a function.
pub open spec fn add_declarator(s: Seq<EntryView>, d: SyntaxNode) -> Seq<EntryView> {
    match (field_child(d, "name"@), field_child(d, "value"@)) {
        (Some(nm), Some(v)) => if is_fn_kind(v.kind@) {
            store(s, nm.text@, entity_cfg(v))
        } else {
            s
        },
        _ => s,
    }
}

/// A node is a variable declarator.
pub open spec fn is_declarator(n: SyntaxNode) -> bool {
    n.kind@ == "variable_declarator"@
}

/// The declarators among the first `k` children of `n`, in order.
pub open spec fn add_declarators(s: Seq<EntryView>, n: SyntaxNode, k: int) -> Seq<EntryView>
    decreases k,
{
    if k <= 0 || k > n.children@.len() {
        s
    } else {
        let c = n.children@[k - 1];
        let s1 = add_declarators(s, n, k - 1);
        if is_declarator(c) {
            add_declarator(s1, c)
        } else {
            s1
        }
    }
}

/// A declaration: the declarators among the children of `n`, then the
/// subtrees under its other children, last child first. Declarators are not
/// searched further.
pub open spec fn add_declaration(s: Seq<EntryView>, n: SyntaxNode) -> Seq<EntryView>
    decreases n, 1nat,
{
    declaration_children(add_declarators(s, n, n.children@.len() as int), n, n.children@.len() as int)
}

/// The subtrees under the children `k - 1` down to `0` of `n` that are not
/// declarators.
pub open spec fn declaration_children(s: Seq<EntryView>, n: SyntaxNode, k: int) -> Seq<EntryView>
    decreases n, 0nat, k,
{
    if k <= 0 || k > n.children@.len() {
        s
    } else {
        let c = n.children@[k - 1];
        let s1 = if is_declarator(c) {
            s
        } else {
            add_declaration(s, c)
        };
        declaration_children(s1, n, k - 1)
    }
}

/// The synthesized name of a function exported without one.
pub open spec fn default_export_name(start: usize) -> Seq<char> {
    "default_export@b"@ + decimal(start as nat)
}

/// An exported subtree: a declaration, class, assignment or bare function
/// is handled where it stands; any other node is searched through its
/// children, last child first.
pub open spec fn add_export(s: Seq<EntryView>, n: SyntaxNode) -> Seq<EntryView>
    decreases n, 1nat,
{
    let k = n.kind@;
    if k == "function_declaration"@ {
        add_function(s, n)
    } else if k == "class_declaration"@ || k == "class"@ {
        add_class(s, n)
    } else if k == "lexical_declaration"@ || k == "variable_declaration"@ {
        add_declaration(s, n)
    } else if k == "assignment_expression"@ {
        add_assignment(s, n)
    } else if k == "arrow_function"@ || k == "function_expression"@ {
        store(s, default_export_name(n.start), entity_cfg(n))
    } else {
        export_children(s, n, n.children@.len() as int)
    }
}

/// The exported subtrees under the children `k - 1` down to `0` of `n`.
pub open spec fn export_children(s: Seq<EntryView>, n: SyntaxNode, k: int) -> Seq<EntryView>
    decreases n, 0nat, k,
{
    if k <= 0 || k > n.children@.len() {
        s
    } else {
        export_children(add_export(s, n.children@[k - 1]), n, k - 1)
    }
}

/// The entities that one node of the tree contributes.
pub open spec fn visit_entity(s: Seq<EntryView>, ch: SyntaxNode) -> Seq<EntryView> {
    let k = ch.kind@;
    if k == "function_declaration"@ {
        add_function(s, ch)
    } else if k == "class_declaration"@ || k == "class"@ {
        add_class(s, ch)
    } else if k == "export_statement"@ {
        add_export(s, ch)
    } else if k == "lexical_declaration"@ || k == "variable_declaration"@ {
        add_declaration(s, ch)
    } else if k == "assignment_expression"@ {
        add_assignment(s, ch)
    } else {
        s
    }
}

/// The first `k` children of `n`, visited in order.
pub open spec fn visit_entities(s: Seq<EntryView>, n: SyntaxNode, k: int) -> Seq<EntryView>
    decreases k,
{
    if k <= 0 || k > n.children@.len() {
        s
    } else {
        visit_entity(visit_entities(s, n, k - 1), n.children@[k - 1])
    }
}

/// The search of the subtree under `n`: its children are visited in order,
/// then the subtrees under them are searched, last child first.
pub open spec fn search(s: Seq<EntryView>, n: SyntaxNode) -> Seq<EntryView>
    decreases n, 1nat,
{
    search_children(visit_entities(s, n, n.children@.len() as int), n, n.children@.len() as int)
}

/// The subtrees under the children `k - 1` down to `0` of `n`.
pub open spec fn search_children(s: Seq<EntryView>, n: SyntaxNode, k: int) -> Seq<EntryView>
    decreases n, 0nat, k,
{
    if k <= 0 || k > n.children@.len() {
        s
    } else {
        search_children(search(s, n.children@[k - 1]), n, k - 1)
    }
}

/// The entries that a whole tree yields, starting from an empty map.
pub open spec fn tree_entities(root: SyntaxNode) -> Seq<EntryView> {
    search(Seq::empty(), root)
}

fn text_of(n: &SyntaxNode) -> (r: String)
    ensures
        r@ == n.text@,
{
    n.text.as_str().to_owned()
}

fn field_text_or_exec(n: &SyntaxNode, f: &str, dflt: &str) -> (r: String)
    ensures
        r@ == field_text_or(*n, f@, dflt@),
{
    match n.child_by_field_name(f) {
        Some(c) => text_of(c),
        None => dflt.to_owned(),
    }
}

fn is_fn_node(n: &SyntaxNode) -> (r: bool)
    ensures
        r == is_fn_kind(n.kind@),
{
    n.is_kind("arrow_function") || n.is_kind("function") || n.is_kind("function_expression")
}

fn store_entity(out: &mut CfgMap, name: String, n: &SyntaxNode)
    requires
        old(out).wf(),
    ensures
        final(out)@ == store(old(out)@, name@, entity_cfg(*n)),
        final(out).wf(),
{
    let body = match n.child_by_field_name("body") {
        Some(b) => b,
        None => n,
    };
    let cfg = function_cfg(body);
    out.insert(name, cfg);
}

fn digit_text(d: usize) -> (r: &'static str)
    requires
        d < 10,
    ensures
        r@ == seq![digit_char(d as nat)],
{
    proof {
        reveal_strlit("0");
        reveal_strlit("1");
        reveal_strlit("2");
        reveal_strlit("3");
        reveal_strlit("4");
        reveal_strlit("5");
        reveal_strlit("6");
        reveal_strlit("7");
        reveal_strlit("8");
        reveal_strlit("9");
    }
    if d == 0 { "0" } else if d == 1 { "1" } else if d == 2 { "2" } else if d == 3 { "3" }
    else if d == 4 { "4" } else if d == 5 { "5" } else if d == 6 { "6" } else if d == 7 { "7" }
    else if d == 8 { "8" } else { "9" }
}

/// The decimal digits of `n`.
pub fn decimal_text(n: usize) -> (r: String)
    ensures
        r@ == decimal(n as nat),
    decreases n,
{
    if n < 10 {
        digit_text(n).to_owned()
    } else {
        let mut s = decimal_text(n / 10);
        s.append(digit_text(n % 10));
        s
    }
}

fn extract_function(out: &mut CfgMap, n: &SyntaxNode)
    requires
        old(out).wf(),
    ensures
        final(out)@ == add_function(old(out)@, *n),
        final(out).wf(),
{
    let name = field_text_or_exec(n, "name", "<anon>");
    store_entity(out, name, n);
}

fn method_name(m: &SyntaxNode) -> (r: String)
    ensures
        r@ == method_name_of(*m),
{
    if let Some(c) = m.child_by_field_name("name") {
        return text_of(c);
    }
    if let Some(c) = m.child_by_field_name("property") {
        return text_of(c);
    }
    if let Some(c) = m.child_by_field_name("key") {
        return text_of(c);
    }
    if m.is_kind("constructor") {
        "constructor".to_owned()
    } else {
        "<anon_method>".to_owned()
    }
}

fn field_name(m: &SyntaxNode) -> (r: String)
    ensures
        r@ == field_name_of(*m),
{
    match m.child_by_field_name("name") {
        Some(c) => text_of(c),
        None => field_text_or_exec(m, "property", "<anon_field>"),
    }
}

fn qualified_name(class: &String, member: &String) -> (r: String)
    ensures
        r@ == qualified(class@, member@),
{
    let mut q = class.as_str().to_owned();
    q.append(".");
    q.append(member.as_str());
    q
}

fn extract_from_class(out: &mut CfgMap, n: &SyntaxNode)
    requires
        old(out).wf(),
    ensures
        final(out)@ == add_class(old(out)@, *n),
        final(out).wf(),
{
    let class = field_text_or_exec(n, "name", "<anon_class>");
    let body = match n.child_by_field_name("body") {
        Some(b) => b,
        None => return,
    };
    let ghost s0 = out@;
    let len = body.children.len();
    let mut i: usize = 0;
    while i < len
        invariant
            len == body.children@.len(),
            i <= len,
            out.wf(),
            out@ == add_members(s0, class@, *body, i as int),
        decreases len - i,
    {
        let m = &body.children[i];
        if m.is_kind("method_definition") || m.is_kind("constructor") {
            let name = qualified_name(&class, &method_name(m));
            store_entity(out, name, m);
        } else if m.is_kind("public_field_definition") || m.is_kind("private_field_definition") {
            if let Some(v) = m.child_by_field_name("value") {
                if is_fn_node(v) {
                    let name = qualified_name(&class, &field_name(m));
                    store_entity(out, name, v);
                }
            }
        }
        i = i + 1;
    }
}

fn extract_from_assignment(out: &mut CfgMap, a: &SyntaxNode)
    requires
        old(out).wf(),
    ensures
        final(out)@ == add_assignment(old(out)@, *a),
        final(out).wf(),
{
    let l = match a.child_by_field_name("left") {
        Some(l) => l,
        None => return,
    };
    let r = match a.child_by_field_name("right") {
        Some(r) => r,
        None => return,
    };
    if is_fn_node(r) {
        let name = if l.is_kind("identifier") {
            text_of(l)
        } else if l.is_kind("member_expression") {
            field_text_or_exec(l, "property", "<exported>")
        } else {
            "<exported>".to_owned()
        };
        store_entity(out, name, r);
    }
}

fn extract_declarator(out: &mut CfgMap, d: &SyntaxNode)
    requires
        old(out).wf(),
    ensures
        final(out)@ == add_declarator(old(out)@, *d),
        final(out).wf(),
{
    let nm = match d.child_by_field_name("name") {
        Some(nm) => nm,
        None => return,
    };
    let v = match d.child_by_field_name("value") {
        Some(v) => v,
        None => return,
    };
    if is_fn_node(v) {
        store_entity(out, text_of(nm), v);
    }
}

fn extract_from_var_declaration(out: &mut CfgMap, n: &SyntaxNode)
    requires
        old(out).wf(),
    ensures
        final(out)@ == add_declaration(old(out)@, *n),
        final(out).wf(),
    decreases n,
{
    let ghost s0 = out@;
    let len = n.children.len();
    let mut i: usize = 0;
    while i < len
        invariant
            len == n.children@.len(),
            i <= len,
            out.wf(),
            out@ == add_declarators(s0, *n, i as int),
        decreases len - i,
    {
        let c = &n.children[i];
        if c.is_kind("variable_declarator") {
            extract_declarator(out, c);
        }
        i = i + 1;
    }
    let ghost target = add_declaration(s0, *n);
    let mut k: usize = len;
    while k > 0
        invariant
            k <= len,
            len == n.children@.len(),
            out.wf(),
            declaration_children(out@, *n, k as int) == target,
        decreases k,
    {
        k = k - 1;
        let c = &n.children[k];
        if !c.is_kind("variable_declarator") {
            extract_from_var_declaration(out, c);
        }
    }
}

fn extract_from_export(out: &mut CfgMap, n: &SyntaxNode)
    requires
        old(out).wf(),
    ensures
        final(out)@ == add_export(old(out)@, *n),
        final(out).wf(),
    decreases n,
{
    if n.is_kind("function_declaration") {
        extract_function(out, n);
    } else if n.is_kind("class_declaration") || n.is_kind("class") {
        extract_from_class(out, n);
    } else if n.is_kind("lexical_declaration") || n.is_kind("variable_declaration") {
        extract_from_var_declaration(out, n);
    } else if n.is_kind("assignment_expression") {
        extract_from_assignment(out, n);
    } else if n.is_kind("arrow_function") || n.is_kind("function_expression") {
        let mut name = "default_export@b".to_owned();
        name.append(decimal_text(n.start).as_str());
        store_entity(out, name, n);
    } else {
        let ghost target = add_export(out@, *n);
        let len = n.children.len();
        let mut k: usize = len;
        while k > 0
            invariant
                k <= len,
                len == n.children@.len(),
                out.wf(),
                export_children(out@, *n, k as int) == target,
            decreases k,
        {
            k = k - 1;
            extract_from_export(out, &n.children[k]);
        }
    }
}

fn visit_entity_exec(out: &mut CfgMap, ch: &SyntaxNode)
    requires
        old(out).wf(),
    ensures
        final(out)@ == visit_entity(old(out)@, *ch),
        final(out).wf(),
{
    if ch.is_kind("function_declaration") {
        extract_function(out, ch);
    } else if ch.is_kind("class_declaration") || ch.is_kind("class") {
        extract_from_class(out, ch);
    } else if ch.is_kind("export_statement") {
        extract_from_export(out, ch);
    } else if ch.is_kind("lexical_declaration") || ch.is_kind("variable_declaration") {
        extract_from_var_declaration(out, ch);
    } else if ch.is_kind("assignment_expression") {
        extract_from_assignment(out, ch);
    }
}

fn search_exec(out: &mut CfgMap, n: &SyntaxNode)
    requires
        old(out).wf(),
    ensures
        final(out)@ == search(old(out)@, *n),
        final(out).wf(),
    decreases n,
{
    let ghost s0 = out@;
    let len = n.children.len();
    let mut i: usize = 0;
    while i < len
        invariant
            len == n.children@.len(),
            i <= len,
            out.wf(),
            out@ == visit_entities(s0, *n, i as int),
        decreases len - i,
    {
        visit_entity_exec(out, &n.children[i]);
        i = i + 1;
    }
    let ghost target = search(s0, *n);
    let mut k: usize = len;
    while k > 0
        invariant
            k <= len,
            len == n.children@.len(),
            out.wf(),
            search_children(out@, *n, k as int) == target,
        decreases k,
    {
        k = k - 1;
        search_exec(out, &n.children[k]);
    }
}

/// Finds every function-like entity in a file's syntax tree and builds the
/// graph of each, keyed by its qualified name; a later entity of the same
/// name replaces an earlier one.
pub fn extract_cfgs_from_tree(root: &SyntaxNode) -> (r: CfgMap)
    ensures
        r@ == tree_entities(*root),
        r.wf(),
{
    let mut out = CfgMap::new();
    search_exec(&mut out, root);
    out
}

} // verus!

//! The repository-wide security flow: every edge of every function's graph,
//! classified by its labels and kept once per signature, with counts.
use vstd::prelude::*;
use crate::cfg::{CfgView, cfg_wf, dedup, lemma_dedup_contains, lemma_dedup_no_duplicates};
use crate::extract::{CfgMap, EntryView};
use crate::tag::EdgeKind;
use crate::text::{
    ascii_lower, ascii_lower_char, contains, has_infix, has_prefix, is_ascii_text, lower_of, lowercase,
    occurs_at, starts_with, text_eq,
};

verus! {

/// Repository-wide counts.
#[derive(Debug, Clone, Copy, PartialEq, Eq, Structural)]
pub struct SecIndex {
    pub functions: usize,
    pub edges: usize,
    pub boundary_crossings: usize,
    pub pii_edges: usize,
}

/// One retained edge of the flow.
#[derive(Debug, Clone)]
pub struct SecEdge {
    pub func: String,
    pub src: String,
    pub dst: String,
    pub kind: EdgeKind,
    pub sensitive: bool,
}

/// The repository-wide report: counts and retained edges.
#[derive(Debug, Clone)]
pub struct SecurityFlow {
    pub index: SecIndex,
    pub edges: Vec<SecEdge>,
}

/// The view of an edge record.
pub struct EdgeRecord {
    pub func: Seq<char>,
    pub src: Seq<char>,
    pub dst: Seq<char>,
    pub kind: EdgeKind,
    pub sensitive: bool,
}

impl View for SecEdge {
    type V = EdgeRecord;

    open spec fn view(&self) -> EdgeRecord {
        EdgeRecord {
            func: self.func@,
            src: self.src@,
            dst: self.dst@,
            kind: self.kind,
            sensitive: self.sensitive,
        }
    }
}

/// The records of a sequence of edges.
pub open spec fn records(v: Seq<SecEdge>) -> Seq<EdgeRecord> {
    v.map_values(|e: SecEdge| e@)
}

/// The kind of an edge, from its two labels: the first rule that matches wins.
pub open spec fn edge_kind_of(s: Seq<char>, d: Seq<char>) -> EdgeKind {
    if has_prefix(s, "NET:"@) || has_prefix(d, "NET:"@) {
        EdgeKind::Net
    } else if has_prefix(s, "DB:"@) || has_prefix(d, "DB:"@) {
        EdgeKind::Db
    } else if has_prefix(s, "AUTH:"@) || has_prefix(d, "AUTH:"@) || has_infix(s, "USER ENTRY"@)
        || has_infix(d, "USER ENTRY"@) {
        EdgeKind::Auth
    } else if has_prefix(s, "CRYPTO:"@) || has_prefix(d, "CRYPTO:"@) {
        EdgeKind::Crypto
    } else if has_prefix(s, "SECRET:"@) || has_prefix(d, "SECRET:"@) {
        EdgeKind::Secret
    } else if has_prefix(s, "LOG:"@) || has_prefix(d, "LOG:"@) {
        EdgeKind::Log
    } else if has_prefix(s, "Loop"@) || s == d {
        EdgeKind::Loop
    } else if has_prefix(d, "Return"@) {
        EdgeKind::Return
    } else if has_prefix(s, "If"@) || has_prefix(d, "If"@) {
        EdgeKind::Branch
    } else {
        EdgeKind::Other
    }
}

/// A lower-cased text that mentions personal or secret data.
pub open spec fn is_sensitive_text(t: Seq<char>) -> bool {
    has_infix(t, "pii"@) || has_infix(t, "ssn"@) || has_infix(t, "passport"@) || has_infix(
        t,
        "password"@,
    ) || has_infix(t, "token"@) || has_infix(t, "secret"@)
}

/// The two labels of an edge joined by a space and lower-cased.
pub open spec fn joined_lower(s: Seq<char>, d: Seq<char>) -> Seq<char> {
    lower_of(s + " "@ + d)
}

/// The record of the edge `s -> d` of function `func`.
pub open spec fn record_of(func: Seq<char>, s: Seq<char>, d: Seq<char>) -> EdgeRecord {
    EdgeRecord {
        func,
        src: s,
        dst: d,
        kind: edge_kind_of(s, d),
        sensitive: is_sensitive_text(joined_lower(s, d)),
    }
}

/// The records of every edge of one graph, in edge order.
pub open spec fn cfg_records(func: Seq<char>, c: CfgView) -> Seq<EdgeRecord> {
    Seq::new(
        c.edges.len(),
        |j: int| record_of(func, c.nodes[c.edges[j].0 as int], c.nodes[c.edges[j].1 as int]),
    )
}

/// The records of every edge of every function of one file.
pub open spec fn map_records(m: Seq<EntryView>) -> Seq<EdgeRecord>
    decreases m.len(),
{
    if m.len() == 0 {
        Seq::empty()
    } else {
        map_records(m.drop_last()) + cfg_records(m.last().0, m.last().1)
    }
}

/// The records of every edge of every function of every file.
pub open spec fn all_records(files: Seq<Seq<EntryView>>) -> Seq<EdgeRecord>
    decreases files.len(),
{
    if files.len() == 0 {
        Seq::empty()
    } else {
        all_records(files.drop_last()) + map_records(files.last())
    }
}

/// Number of functions over all files.
pub open spec fn function_total(files: Seq<Seq<EntryView>>) -> nat
    decreases files.len(),
{
    if files.len() == 0 {
        0
    } else {
        function_total(files.drop_last()) + files.last().len()
    }
}

/// Number of records of kind `Net`.
pub open spec fn count_net(rs: Seq<EdgeRecord>) -> nat
    decreases rs.len(),
{
    if rs.len() == 0 {
        0
    } else {
        count_net(rs.drop_last()) + if rs.last().kind == EdgeKind::Net {
            1nat
        } else {
            0nat
        }
    }
}

/// Number of sensitive records.
pub open spec fn count_sensitive(rs: Seq<EdgeRecord>) -> nat
    decreases rs.len(),
{
    if rs.len() == 0 {
        0
    } else {
        count_sensitive(rs.drop_last()) + if rs.last().sensitive {
            1nat
        } else {
            0nat
        }
    }
}

/// The per-file maps of the input, in input order.
pub open spec fn file_maps(all: Seq<(String, CfgMap)>) -> Seq<Seq<EntryView>> {
    all.map_values(|p: (String, CfgMap)| p.1@)
}

/// Every per-file map of the input is well formed.
pub open spec fn inputs_wf(all: Seq<(String, CfgMap)>) -> bool {
    forall|i: int| 0 <= i < all.len() ==> (#[trigger] all[i]).1.wf()
}

/// Every record with ASCII labels that touches a secret tag is sensitive.
pub open spec fn secret_edges_sensitive(rs: Seq<EdgeRecord>) -> bool {
    forall|j: int|
        0 <= j < rs.len() && is_ascii_text(#[trigger] rs[j].src + " "@ + rs[j].dst) && touches_secret(
            rs[j].src,
            rs[j].dst,
        ) ==> rs[j].sensitive
}

/// No two files of the input share a path: the input is a map from paths.
pub open spec fn paths_distinct(all: Seq<(String, CfgMap)>) -> bool {
    forall|i: int, j: int| 0 <= i < all.len() && 0 <= j < all.len() && i != j ==> all[i].0@ != all[j].0@
}

/// The retained edges: each record once, first occurrence first.
pub open spec fn flow_records(files: Seq<Seq<EntryView>>) -> Seq<EdgeRecord> {
    dedup(all_records(files))
}

/// The kind of the edge `s -> d`, from its labels.
pub fn edge_kind(s: &str, d: &str) -> (r: EdgeKind)
    ensures
        r == edge_kind_of(s@, d@),
{
    if starts_with(s, "NET:") || starts_with(d, "NET:") {
        EdgeKind::Net
    } else if starts_with(s, "DB:") || starts_with(d, "DB:") {
        EdgeKind::Db
    } else if starts_with(s, "AUTH:") || starts_with(d, "AUTH:") || contains(s, "USER ENTRY")
        || contains(d, "USER ENTRY") {
        EdgeKind::Auth
    } else if starts_with(s, "CRYPTO:") || starts_with(d, "CRYPTO:") {
        EdgeKind::Crypto
    } else if starts_with(s, "SECRET:") || starts_with(d, "SECRET:") {
        EdgeKind::Secret
    } else if starts_with(s, "LOG:") || starts_with(d, "LOG:") {
        EdgeKind::Log
    } else if starts_with(s, "Loop") || text_eq(s, d) {
        EdgeKind::Loop
    } else if starts_with(d, "Return") {
        EdgeKind::Return
    } else if starts_with(s, "If") || starts_with(d, "If") {
        EdgeKind::Branch
    } else {
        EdgeKind::Other
    }
}

/// Whether an already lower-cased text mentions personal or secret data.
pub fn is_sensitive_lowered(t: &str) -> (r: bool)
    ensures
        r == is_sensitive_text(t@),
{
    contains(t, "pii") || contains(t, "ssn") || contains(t, "passport") || contains(t, "password")
        || contains(t, "token") || contains(t, "secret")
}

/// One of the labels of the edge `s -> d` is a secret tag.
pub open spec fn touches_secret(s: Seq<char>, d: Seq<char>) -> bool {
    has_prefix(s, "SECRET:"@) || has_prefix(d, "SECRET:"@)
}

proof fn lemma_secret_tag_sensitive(s: Seq<char>, d: Seq<char>, low: Seq<char>)
    requires
        touches_secret(s, d),
        low == ascii_lower(s + " "@ + d),
    ensures
        is_sensitive_text(low),
{
    reveal_strlit("SECRET:");
    reveal_strlit("secret");
    reveal_strlit(" ");
    let j = s + " "@ + d;
    let k: int = if has_prefix(s, "SECRET:"@) {
        0
    } else {
        s.len() + 1int
    };
    assert forall|t: int| 0 <= t < 7 implies j[k + t] == "SECRET:"@[t] by {
        if k == 0 {
            assert(s.subrange(0, 7)[t] == s[t]);
        } else {
            assert(d.subrange(0, 7)[t] == d[t]);
        }
    }
    assert(ascii_lower_char('S') == 's');
    assert(ascii_lower_char('E') == 'e');
    assert(ascii_lower_char('C') == 'c');
    assert(ascii_lower_char('R') == 'r');
    assert(ascii_lower_char('T') == 't');
    assert(low.len() == j.len());
    assert(k + 7 <= j.len());
    assert forall|t: int| 0 <= t < 6 implies low.subrange(k, k + 6)[t] == "secret"@[t] by {
        assert(low[k + t] == ascii_lower_char(j[k + t]));
        assert(j[k + t] == "SECRET:"@[t]);
        if t == 0 {
            assert(j[k + t] == 'S');
        } else if t == 1 {
            assert(j[k + t] == 'E');
        } else if t == 2 {
            assert(j[k + t] == 'C');
        } else if t == 3 {
            assert(j[k + t] == 'R');
        } else if t == 4 {
            assert(j[k + t] == 'E');
        } else {
            assert(j[k + t] == 'T');
        }
    }
    assert(low.subrange(k, k + 6) =~= "secret"@);
    assert(occurs_at(low, "secret"@, k));
}

/// Whether the edge `s -> d` is sensitive: its labels, joined by a space and
/// lower-cased, mention personal or secret data. An edge with ASCII labels
/// that touches a secret tag always is.
pub fn edge_sensitive(s: &str, d: &str) -> (r: bool)
    ensures
        r == is_sensitive_text(joined_lower(s@, d@)),
        is_ascii_text(s@ + " "@ + d@) && touches_secret(s@, d@) ==> r,
{
    let mut joined = s.to_owned();
    joined.append(" ");
    joined.append(d);
    let low = lowercase(joined.as_str());
    proof {
        if is_ascii_text(joined@) && touches_secret(s@, d@) {
            lemma_secret_tag_sensitive(s@, d@, low@);
        }
    }
    is_sensitive_lowered(low.as_str())
}

fn has_record(out: &Vec<SecEdge>, func: &String, s: &String, d: &String, kind: EdgeKind, sensitive: bool) -> (r: bool)
    ensures
        r == records(out@).contains(
            EdgeRecord { func: func@, src: s@, dst: d@, kind, sensitive },
        ),
{
    let ghost rec = EdgeRecord { func: func@, src: s@, dst: d@, kind, sensitive };
    let mut i: usize = 0;
    while i < out.len()
        invariant
            i <= out@.len(),
            rec == (EdgeRecord { func: func@, src: s@, dst: d@, kind, sensitive }),
            forall|j: int| 0 <= j < i ==> records(out@)[j] != rec,
        decreases out@.len() - i,
    {
        let e = &out[i];
        assert(records(out@)[i as int] == out@[i as int]@);
        if e.kind == kind && e.sensitive == sensitive && text_eq(e.func.as_str(), func.as_str())
            && text_eq(e.src.as_str(), s.as_str()) && text_eq(e.dst.as_str(), d.as_str()) {
            assert(records(out@)[i as int] == rec);
            return true;
        }
        i = i + 1;
    }
    false
}

proof fn lemma_dedup_push(seen: Seq<EdgeRecord>, x: EdgeRecord)
    ensures
        dedup(seen.push(x)) == if dedup(seen).contains(x) {
            dedup(seen)
        } else {
            dedup(seen).push(x)
        },
{
    assert(seen.push(x).drop_last() =~= seen);
}

proof fn lemma_counts_push(rs: Seq<EdgeRecord>, x: EdgeRecord)
    ensures
        count_net(rs.push(x)) == count_net(rs) + if x.kind == EdgeKind::Net {
            1nat
        } else {
            0nat
        },
        count_sensitive(rs.push(x)) == count_sensitive(rs) + if x.sensitive {
            1nat
        } else {
            0nat
        },
{
    assert(rs.push(x).drop_last() =~= rs);
}

proof fn lemma_counts_bounded(rs: Seq<EdgeRecord>)
    ensures
        count_net(rs) <= rs.len(),
        count_sensitive(rs) <= rs.len(),
    decreases rs.len(),
{
    if rs.len() > 0 {
        lemma_counts_bounded(rs.drop_last());
    }
}

proof fn lemma_function_total_prefix(files: Seq<Seq<EntryView>>, k: int)
    requires
        0 <= k <= files.len(),
    ensures
        function_total(files.subrange(0, k)) <= function_total(files),
    decreases files.len() - k,
{
    if k < files.len() {
        lemma_function_total_prefix(files, k + 1);
        assert(files.subrange(0, k + 1).drop_last() =~= files.subrange(0, k));
    } else {
        assert(files.subrange(0, k) =~= files);
    }
}

/// Builds the repository-wide security flow from the graphs of every file,
/// one entry per distinct path.
/// Every edge of every graph is classified by its labels; a record whose
/// function, kind and labels were already seen is dropped. `functions` counts
/// every function, also those whose graphs add no new edge.
pub fn to_security_flow(all: &Vec<(String, CfgMap)>) -> (r: SecurityFlow)
    requires
        paths_distinct(all@),
        inputs_wf(all@),
        function_total(file_maps(all@)) <= usize::MAX,
    ensures
        records(r.edges@) == flow_records(file_maps(all@)),
        r.index.functions == function_total(file_maps(all@)),
        r.index.edges == r.edges@.len(),
        r.index.boundary_crossings == count_net(records(r.edges@)),
        r.index.pii_edges == count_sensitive(records(r.edges@)),
        secret_edges_sensitive(records(r.edges@)),
{
    let ghost files = file_maps(all@);
    let mut out: Vec<SecEdge> = Vec::new();
    let mut boundary: usize = 0;
    let mut pii: usize = 0;
    let mut functions: usize = 0;
    let ghost mut seen: Seq<EdgeRecord> = Seq::empty();
    let nf = all.len();
    let mut fi: usize = 0;
    assert(records(out@) =~= Seq::<EdgeRecord>::empty());
    assert(files.subrange(0, 0) =~= Seq::<Seq<EntryView>>::empty());
    while fi < nf
        invariant
            nf == all@.len(),
            fi <= nf,
            files == file_maps(all@),
            inputs_wf(all@),
            function_total(files) <= usize::MAX,
            seen == all_records(files.subrange(0, fi as int)),
            functions == function_total(files.subrange(0, fi as int)),
            records(out@) == dedup(seen),
            boundary == count_net(records(out@)),
            pii == count_sensitive(records(out@)),
            secret_edges_sensitive(records(out@)),
        decreases nf - fi,
    {
        let m = &all[fi].1;
        assert(m.wf());
        assert(m@ == files[fi as int]);
        proof {
            lemma_function_total_prefix(files, fi + 1);
            assert(files.subrange(0, fi + 1).drop_last() =~= files.subrange(0, fi as int));
        }
        let ghost base = seen;
        let nm = m.len();
        let mut ei: usize = 0;
        assert(m@.subrange(0, 0) =~= Seq::<EntryView>::empty());
        assert(base + map_records(m@.subrange(0, 0)) =~= base);
        while ei < nm
            invariant
                nm == m@.len(),
                ei <= nm,
                m.wf(),
                seen == base + map_records(m@.subrange(0, ei as int)),
                records(out@) == dedup(seen),
                boundary == count_net(records(out@)),
                pii == count_sensitive(records(out@)),
                secret_edges_sensitive(records(out@)),
            decreases nm - ei,
        {
            let (name, cfg) = m.entry(ei);
            assert(cfg_wf(m@[ei as int].1));
            let ghost mid = seen;
            let ghost recs = cfg_records(name@, cfg@);
            let ne = cfg.edges.len();
            let mut ji: usize = 0;
            assert(mid + recs.subrange(0, 0) =~= mid);
            while ji < ne
                invariant
                    ne == cfg.edges@.len(),
                    ji <= ne,
                    cfg_wf(cfg@),
                    recs == cfg_records(name@, cfg@),
                    seen == mid + recs.subrange(0, ji as int),
                    records(out@) == dedup(seen),
                    boundary == count_net(records(out@)),
                    pii == count_sensitive(records(out@)),
                    secret_edges_sensitive(records(out@)),
                decreases ne - ji,
            {
                let (si, di) = cfg.edges[ji];
                assert(cfg@.edges[ji as int] == (si, di));
                let s = &cfg.nodes[si];
                let d = &cfg.nodes[di];
                let kind = edge_kind(s.as_str(), d.as_str());
                let sensitive = edge_sensitive(s.as_str(), d.as_str());
                let ghost rec = record_of(name@, s@, d@);
                assert(recs[ji as int] == rec);
                let ghost before = records(out@);
                proof {
                    lemma_dedup_push(seen, rec);
                    lemma_counts_push(before, rec);
                    lemma_counts_bounded(before);
                }
                if !has_record(&out, name, s, d, kind, sensitive) {
                    let e = SecEdge {
                        func: name.clone(),
                        src: s.clone(),
                        dst: d.clone(),
                        kind,
                        sensitive,
                    };
                    out.push(e);
                    let cur = out.len();
                    assert(records(out@) =~= before.push(rec));
                    assert(before.len() + 1 == cur);
                    assert forall|j: int|
                        0 <= j < records(out@).len() && is_ascii_text(
                            #[trigger] records(out@)[j].src + " "@ + records(out@)[j].dst,
                        ) && touches_secret(records(out@)[j].src, records(out@)[j].dst)
                        implies records(out@)[j].sensitive by {
                        if j < before.len() {
                            assert(records(out@)[j] == before[j]);
                        }
                    }
                    if kind == EdgeKind::Net {
                        boundary = boundary + 1;
                    }
                    if sensitive {
                        pii = pii + 1;
                    }
                }
                proof {
                    assert(recs.subrange(0, ji + 1) =~= recs.subrange(0, ji as int).push(rec));
                    assert(mid + recs.subrange(0, ji + 1) =~= seen.push(rec));
                    seen = seen.push(rec);
                }
                ji = ji + 1;
            }
            proof {
                assert(recs.subrange(0, ne as int) =~= recs);
                assert(m@.subrange(0, ei + 1).drop_last() =~= m@.subrange(0, ei as int));
                assert(m@.subrange(0, ei + 1).last() == m@[ei as int]);
                assert(seen =~= base + map_records(m@.subrange(0, ei + 1)));
            }
            ei = ei + 1;
        }
        proof {
            assert(m@.subrange(0, nm as int) =~= m@);
            assert(files.subrange(0, fi + 1).last() == files[fi as int]);
        }
        functions = functions + nm;
        fi = fi + 1;
    }
    assert(files.subrange(0, nf as int) =~= files);
    let count = out.len();
    SecurityFlow {
        index: SecIndex {
            functions,
            edges: count,
            boundary_crossings: boundary,
            pii_edges: pii,
        },
        edges: out,
    }
}

/// The record is of kind `Net`.
pub open spec fn is_net_record(r: EdgeRecord) -> bool {
    r.kind == EdgeKind::Net
}

/// The record is sensitive.
pub open spec fn is_sensitive_record(r: EdgeRecord) -> bool {
    r.sensitive
}

proof fn lemma_counts_of_set(rs: Seq<EdgeRecord>)
    requires
        rs.no_duplicates(),
    ensures
        rs.len() == rs.to_set().len(),
        count_net(rs) == rs.to_set().filter(|r: EdgeRecord| is_net_record(r)).len(),
        count_sensitive(rs) == rs.to_set().filter(|r: EdgeRecord| is_sensitive_record(r)).len(),
    decreases rs.len(),
{
    broadcast use vstd::set::group_set_axioms, vstd::seq_lib::seq_to_set_is_finite;

    let fnet = |r: EdgeRecord| is_net_record(r);
    let fsen = |r: EdgeRecord| is_sensitive_record(r);
    if rs.len() == 0 {
        assert(rs.to_set() =~= Set::<EdgeRecord>::empty());
        assert(rs.to_set().filter(fnet) =~= Set::<EdgeRecord>::empty());
        assert(rs.to_set().filter(fsen) =~= Set::<EdgeRecord>::empty());
    } else {
        let p = rs.drop_last();
        let x = rs.last();
        assert(p.push(x) =~= rs);
        assert(p.no_duplicates());
        lemma_counts_of_set(p);
        p.lemma_push_to_set_commute(x);
        assert(!p.to_set().contains(x)) by {
            if p.contains(x) {
                let j = choose|j: int| 0 <= j < p.len() && p[j] == x;
                assert(rs[j] == rs[rs.len() - 1]);
            }
        }
        let ps = p.to_set();
        ps.lemma_len_filter(fnet);
        ps.lemma_len_filter(fsen);
        if is_net_record(x) {
            assert(rs.to_set().filter(fnet) =~= ps.filter(fnet).insert(x));
        } else {
            assert(rs.to_set().filter(fnet) =~= ps.filter(fnet));
        }
        if is_sensitive_record(x) {
            assert(rs.to_set().filter(fsen) =~= ps.filter(fsen).insert(x));
        } else {
            assert(rs.to_set().filter(fsen) =~= ps.filter(fsen));
        }
    }
}

/// The flow depends only on which edge records its input holds, not on the
/// order in which files, functions or edges come: two inputs with the same
/// records give the same set of retained edges and the same edge, boundary
/// and sensitive counts.
pub proof fn lemma_flow_order_independent(a: Seq<Seq<EntryView>>, b: Seq<Seq<EntryView>>)
    requires
        all_records(a).to_set() == all_records(b).to_set(),
    ensures
        flow_records(a).to_set() == flow_records(b).to_set(),
        flow_records(a).len() == flow_records(b).len(),
        count_net(flow_records(a)) == count_net(flow_records(b)),
        count_sensitive(flow_records(a)) == count_sensitive(flow_records(b)),
{
    let ra = all_records(a);
    let rb = all_records(b);
    assert(flow_records(a).to_set() =~= flow_records(b).to_set()) by {
        assert forall|x: EdgeRecord| flow_records(a).to_set().contains(x)
            == flow_records(b).to_set().contains(x) by {
            lemma_dedup_contains(ra, x);
            lemma_dedup_contains(rb, x);
            assert(ra.to_set().contains(x) == rb.to_set().contains(x));
        }
    }
    lemma_dedup_no_duplicates(ra);
    lemma_dedup_no_duplicates(rb);
    lemma_counts_of_set(flow_records(a));
    lemma_counts_of_set(flow_records(b));
}

/// An edge whose joined, lower-cased labels mention a password is always
/// sensitive; whether it is of kind `Net` depends on its labels alone.
pub proof fn lemma_password_edge_sensitive(func: Seq<char>, s: Seq<char>, d: Seq<char>)
    requires
        has_infix(joined_lower(s, d), "password"@),
    ensures
        record_of(func, s, d).sensitive,
        is_net_record(record_of(func, s, d)) <==> edge_kind_of(s, d) == EdgeKind::Net,
{
}

proof fn lemma_remove_file(b: Seq<Seq<EntryView>>, k: int)
    requires
        0 <= k < b.len(),
    ensures
        function_total(b) == function_total(b.remove(k)) + b[k].len(),
        all_records(b).to_set() == all_records(b.remove(k)).to_set() + map_records(b[k]).to_set(),
    decreases b.len(),
{
    let dl = b.drop_last();
    vstd::seq_lib::seq_to_set_distributes_over_add(all_records(dl), map_records(b.last()));
    if k == b.len() - 1 {
        assert(b.remove(k) =~= dl);
    } else {
        lemma_remove_file(dl, k);
        let r = b.remove(k);
        assert(r.drop_last() =~= dl.remove(k));
        assert(r.last() == b.last());
        assert(dl[k] == b[k]);
        vstd::seq_lib::seq_to_set_distributes_over_add(all_records(r.drop_last()), map_records(r.last()));
        assert(all_records(b).to_set() =~= all_records(b.remove(k)).to_set() + map_records(b[k]).to_set());
    }
}

proof fn lemma_reordered_files(a: Seq<Seq<EntryView>>, b: Seq<Seq<EntryView>>)
    requires
        a.to_multiset() == b.to_multiset(),
    ensures
        function_total(a) == function_total(b),
        all_records(a).to_set() == all_records(b).to_set(),
    decreases a.len(),
{
    broadcast use vstd::seq_lib::group_to_multiset_ensures, vstd::multiset::group_multiset_axioms;

    if a.len() == 0 {
        assert(a.to_multiset().len() == 0);
        assert(b.to_multiset().len() == b.len());
        assert(b.len() == 0);
        assert(b =~= a);
    } else {
        let x = a.last();
        let dl = a.drop_last();
        assert(dl.push(x) =~= a);
        assert(a.to_multiset().count(x) > 0);
        assert(b.contains(x));
        let k = choose|k: int| 0 <= k < b.len() && b[k] == x;
        assert(dl.to_multiset() =~= b.remove(k).to_multiset());
        lemma_reordered_files(dl, b.remove(k));
        lemma_remove_file(b, k);
        vstd::seq_lib::seq_to_set_distributes_over_add(all_records(dl), map_records(x));
    }
}

/// The flow does not depend on the order in which the per-file maps come:
/// two inputs that hold the same maps, in any order, count the same
/// functions and give the same set of retained edges and the same edge,
/// boundary and sensitive counts.
pub proof fn lemma_flow_input_order(a: Seq<Seq<EntryView>>, b: Seq<Seq<EntryView>>)
    requires
        a.to_multiset() == b.to_multiset(),
    ensures
        function_total(a) == function_total(b),
        flow_records(a).to_set() == flow_records(b).to_set(),
        flow_records(a).len() == flow_records(b).len(),
        count_net(flow_records(a)) == count_net(flow_records(b)),
        count_sensitive(flow_records(a)) == count_sensitive(flow_records(b)),
{
    lemma_reordered_files(a, b);
    lemma_flow_order_independent(a, b);
}

proof fn lemma_remove_entry(m: Seq<EntryView>, k: int)
    requires
        0 <= k < m.len(),
    ensures
        map_records(m).to_set() == map_records(m.remove(k)).to_set() + cfg_records(m[k].0, m[k].1).to_set(),
    decreases m.len(),
{
    let dl = m.drop_last();
    vstd::seq_lib::seq_to_set_distributes_over_add(map_records(dl), cfg_records(m.last().0, m.last().1));
    if k == m.len() - 1 {
        assert(m.remove(k) =~= dl);
    } else {
        lemma_remove_entry(dl, k);
        let r = m.remove(k);
        assert(r.drop_last() =~= dl.remove(k));
        assert(r.last() == m.last());
        assert(dl[k] == m[k]);
        vstd::seq_lib::seq_to_set_distributes_over_add(
            map_records(r.drop_last()),
            cfg_records(r.last().0, r.last().1),
        );
        assert(map_records(m).to_set() =~= map_records(m.remove(k)).to_set() + cfg_records(
            m[k].0,
            m[k].1,
        ).to_set());
    }
}

proof fn lemma_reordered_entries(a: Seq<EntryView>, b: Seq<EntryView>)
    requires
        a.to_multiset() == b.to_multiset(),
    ensures
        a.len() == b.len(),
        map_records(a).to_set() == map_records(b).to_set(),
    decreases a.len(),
{
    broadcast use vstd::seq_lib::group_to_multiset_ensures, vstd::multiset::group_multiset_axioms;

    assert(a.to_multiset().len() == a.len());
    assert(b.to_multiset().len() == b.len());
    if a.len() == 0 {
        assert(b =~= a);
    } else {
        let x = a.last();
        let dl = a.drop_last();
        assert(dl.push(x) =~= a);
        assert(a.to_multiset().count(x) > 0);
        assert(b.contains(x));
        let k = choose|k: int| 0 <= k < b.len() && b[k] == x;
        assert(dl.to_multiset() =~= b.remove(k).to_multiset());
        lemma_reordered_entries(dl, b.remove(k));
        lemma_remove_entry(b, k);
        vstd::seq_lib::seq_to_set_distributes_over_add(map_records(dl), cfg_records(x.0, x.1));
    }
}

proof fn lemma_reordered_within_files(a: Seq<Seq<EntryView>>, b: Seq<Seq<EntryView>>)
    requires
        a.len() == b.len(),
        forall|i: int| 0 <= i < a.len() ==> (#[trigger] a[i]).to_multiset() == b[i].to_multiset(),
    ensures
        function_total(a) == function_total(b),
        all_records(a).to_set() == all_records(b).to_set(),
    decreases a.len(),
{
    if a.len() > 0 {
        let n = a.len() - 1;
        lemma_reordered_within_files(a.drop_last(), b.drop_last());
        assert(a[n].to_multiset() == b[n].to_multiset());
        lemma_reordered_entries(a.last(), b.last());
        vstd::seq_lib::seq_to_set_distributes_over_add(all_records(a.drop_last()), map_records(a.last()));
        vstd::seq_lib::seq_to_set_distributes_over_add(all_records(b.drop_last()), map_records(b.last()));
    }
}

/// The flow does not depend on the order of the functions inside each
/// file's map either: two inputs whose files hold the same entries, each in
/// any order, count the same functions and give the same set of retained
/// edges and the same edge, boundary and sensitive counts.
pub proof fn lemma_flow_entry_order(a: Seq<Seq<EntryView>>, b: Seq<Seq<EntryView>>)
    requires
        a.len() == b.len(),
        forall|i: int| 0 <= i < a.len() ==> (#[trigger] a[i]).to_multiset() == b[i].to_multiset(),
    ensures
        function_total(a) == function_total(b),
        flow_records(a).to_set() == flow_records(b).to_set(),
        flow_records(a).len() == flow_records(b).len(),
        count_net(flow_records(a)) == count_net(flow_records(b)),
        count_sensitive(flow_records(a)) == count_sensitive(flow_records(b)),
{
    lemma_reordered_within_files(a, b);
    lemma_flow_order_independent(a, b);
}

} // verus!

//! Security tags for calls and identifiers, decided from their names.
use vstd::prelude::*;
use crate::syntax::{SyntaxNode, field_child, field_index};
use crate::text::{
    contains, has_infix, has_prefix, lower_of, lowercase, snippet_of, snippet_text, starts_with,
};

verus! {

/// The kind of a CFG edge or tag.
#[derive(Clone, Copy, Debug, PartialEq, Eq, Structural)]
pub enum EdgeKind {
    Branch,
    Loop,
    Return,
    Net,
    Db,
    Auth,
    Crypto,
    Secret,
    Log,
    Other,
}

/// The snippet of a node: the first line of its text, trimmed.
pub open spec fn node_snippet(n: SyntaxNode) -> Seq<char> {
    snippet_of(n.text@)
}

/// The first line of the node's text, trimmed of surrounding whitespace.
pub fn snippet(n: &SyntaxNode) -> (r: String)
    ensures
        r@ == node_snippet(*n),
{
    snippet_text(n.text.as_str())
}

/// The dotted parts of a call target: identifiers stand for themselves, a
/// member expression for the parts of its object followed by its property,
/// anything else for its snippet.
pub open spec fn target_parts(n: SyntaxNode) -> Seq<Seq<char>>
    decreases n,
{
    if n.kind@ == "identifier"@ {
        seq![node_snippet(n)]
    } else if n.kind@ == "member_expression"@ {
        let oi = field_index(n, "object"@);
        let obj = if 0 <= oi < n.children@.len() {
            target_parts(n.children@[oi])
        } else {
            Seq::empty()
        };
        let prop = match field_child(n, "property"@) {
            Some(p) => seq![node_snippet(p)],
            None => Seq::empty(),
        };
        obj + prop
    } else {
        seq![node_snippet(n)]
    }
}

/// The parts joined with dots.
pub open spec fn join_dotted(parts: Seq<Seq<char>>) -> Seq<char>
    decreases parts.len(),
{
    if parts.len() == 0 {
        Seq::empty()
    } else if parts.len() == 1 {
        parts[0]
    } else {
        join_dotted(parts.drop_last()) + "."@ + parts.last()
    }
}

/// The dotted name of a call's target, where it has one.
pub open spec fn call_name_of(call: SyntaxNode) -> Option<Seq<char>> {
    match field_child(call, "function"@) {
        Some(f) => if target_parts(f).len() == 0 {
            None
        } else {
            Some(join_dotted(target_parts(f)))
        },
        None => None,
    }
}

fn flatten_target(n: &SyntaxNode, out: &mut Vec<String>)
    ensures
        final(out)@.map_values(|s: String| s@) == old(out)@.map_values(|s: String| s@)
            + target_parts(*n),
    decreases n,
{
    let ghost before = out@.map_values(|s: String| s@);
    if n.is_kind("identifier") {
        out.push(snippet(n));
        assert(out@.map_values(|s: String| s@) =~= before + target_parts(*n));
    } else if n.is_kind("member_expression") {
        let ghost oi = field_index(*n, "object"@);
        let ghost obj_parts = if 0 <= oi < n.children@.len() {
            target_parts(n.children@[oi])
        } else {
            Seq::empty()
        };
        if let Some(obj) = n.child_by_field_name("object") {
            flatten_target(obj, out);
        }
        assert(out@.map_values(|s: String| s@) =~= before + obj_parts);
        if let Some(prop) = n.child_by_field_name("property") {
            let ghost mid = out@;
            out.push(snippet(prop));
            assert(out@.map_values(|s: String| s@) =~= mid.map_values(|s: String| s@)
                + seq![node_snippet(*prop)]);
        }
        assert(out@.map_values(|s: String| s@) =~= before + target_parts(*n));
    } else {
        out.push(snippet(n));
        assert(out@.map_values(|s: String| s@) =~= before + target_parts(*n));
    }
}

/// The dotted name of a call's target (`axios.post`, `prisma.user.findMany`).
pub fn call_name(call: &SyntaxNode) -> (r: Option<String>)
    ensures
        r is None <==> call_name_of(*call) is None,
        r matches Some(s) ==> call_name_of(*call) == Some(s@),
{
    let f = match call.child_by_field_name("function") {
        Some(f) => f,
        None => return None,
    };
    let mut parts: Vec<String> = Vec::new();
    flatten_target(f, &mut parts);
    assert(parts@.map_values(|s: String| s@) =~= target_parts(*f));
    if parts.len() == 0 {
        return None;
    }
    let mut name = parts[0].clone();
    let mut i: usize = 1;
    while i < parts.len()
        invariant
            1 <= i <= parts@.len(),
            parts@.map_values(|s: String| s@) == target_parts(*f),
            name@ == join_dotted(target_parts(*f).subrange(0, i as int)),
        decreases parts@.len() - i,
    {
        assert(target_parts(*f).subrange(0, i + 1).drop_last()
            =~= target_parts(*f).subrange(0, i as int));
        name.append(".");
        name.append(parts[i].as_str());
        i = i + 1;
    }
    assert(target_parts(*f).subrange(0, i as int) =~= target_parts(*f));
    Some(name)
}

/// A lower-cased call name that marks a network client.
pub open spec fn is_net_name(s: Seq<char>) -> bool {
    has_prefix(s, "axios"@) || has_prefix(s, "fetch"@) || has_infix(s, "httpservice"@)
        || has_infix(s, "got."@) || has_infix(s, "grpc."@)
}

/// A lower-cased call name that marks a database access.
pub open spec fn is_db_name(s: Seq<char>) -> bool {
    has_infix(s, "prisma."@) || has_infix(s, "repository."@) || has_infix(s, "manager."@)
        || has_infix(s, "mongoose."@) || has_infix(s, "model."@) || has_infix(s, "query"@)
}

/// A lower-cased call name that marks an authentication step.
pub open spec fn is_auth_name(s: Seq<char>) -> bool {
    has_infix(s, "jwt"@) || has_infix(s, "authguard"@) || has_infix(s, "passport"@)
}

/// A lower-cased call name that marks a cryptographic operation.
pub open spec fn is_crypto_name(s: Seq<char>) -> bool {
    has_infix(s, "bcrypt"@) || has_infix(s, "crypto."@) || has_infix(s, "createhash"@)
        || has_infix(s, "createhmac"@) || has_infix(s, "randombytes"@) || has_infix(s, "sign"@)
        || has_infix(s, "verify"@)
}

/// A lower-cased call name that marks logging.
pub open spec fn is_log_name(s: Seq<char>) -> bool {
    has_prefix(s, "console."@) || has_infix(s, "logger."@) || has_infix(s, "winston"@)
        || has_infix(s, "pino"@)
}

/// The kind of a lower-cased call name: the first rule that matches wins.
pub open spec fn classify_name(s: Seq<char>) -> Option<EdgeKind> {
    if is_net_name(s) {
        Some(EdgeKind::Net)
    } else if is_db_name(s) {
        Some(EdgeKind::Db)
    } else if is_auth_name(s) {
        Some(EdgeKind::Auth)
    } else if is_crypto_name(s) {
        Some(EdgeKind::Crypto)
    } else if is_log_name(s) {
        Some(EdgeKind::Log)
    } else {
        None
    }
}

/// The call name that classification reads: the dotted target name, or an
/// empty text where there is none.
pub open spec fn call_name_or_empty(call: SyntaxNode) -> Seq<char> {
    match call_name_of(call) {
        Some(s) => s,
        None => Seq::empty(),
    }
}

/// The kind of a call, from its lower-cased dotted name.
pub open spec fn call_kind(call: SyntaxNode) -> Option<EdgeKind> {
    classify_name(lower_of(call_name_or_empty(call)))
}

/// Classifies an already lower-cased call name.
pub fn classify_lowered_name(s: &str) -> (r: Option<EdgeKind>)
    ensures
        r == classify_name(s@),
{
    if starts_with(s, "axios") || starts_with(s, "fetch") || contains(s, "httpservice")
        || contains(s, "got.") || contains(s, "grpc.") {
        return Some(EdgeKind::Net);
    }
    if contains(s, "prisma.") || contains(s, "repository.") || contains(s, "manager.")
        || contains(s, "mongoose.") || contains(s, "model.") || contains(s, "query") {
        return Some(EdgeKind::Db);
    }
    if contains(s, "jwt") || contains(s, "authguard") || contains(s, "passport") {
        return Some(EdgeKind::Auth);
    }
    if contains(s, "bcrypt") || contains(s, "crypto.") || contains(s, "createhash")
        || contains(s, "createhmac") || contains(s, "randombytes") || contains(s, "sign")
        || contains(s, "verify") {
        return Some(EdgeKind::Crypto);
    }
    if starts_with(s, "console.") || contains(s, "logger.") || contains(s, "winston")
        || contains(s, "pino") {
        return Some(EdgeKind::Log);
    }
    None
}

/// Classifies a call into one of the security kinds, by its target's name.
pub fn classify_call(call: &SyntaxNode) -> (r: Option<EdgeKind>)
    ensures
        r == call_kind(*call),
{
    let name = match call_name(call) {
        Some(s) => s,
        None => String::new(),
    };
    let lowered = lowercase(name.as_str());
    classify_lowered_name(lowered.as_str())
}

/// A lower-cased text that reads a secret or configuration value.
pub open spec fn is_secret_text(s: Seq<char>) -> bool {
    has_infix(s, "process.env"@) || has_infix(s, "configservice.get"@) || has_infix(s, "secret"@)
        || has_infix(s, "privatekey"@) || has_infix(s, "apikey"@) || has_infix(s, "token"@)
}

/// The node's source text reads a secret or configuration value.
pub open spec fn secretish(n: SyntaxNode) -> bool {
    is_secret_text(lower_of(n.text@))
}

/// Whether an already lower-cased text reads a secret or configuration value.
pub fn is_secret_lowered(s: &str) -> (r: bool)
    ensures
        r == is_secret_text(s@),
{
    contains(s, "process.env") || contains(s, "configservice.get") || contains(s, "secret")
        || contains(s, "privatekey") || contains(s, "apikey") || contains(s, "token")
}

/// Whether the node's source text, lower-cased, reads a secret or
/// configuration value (`process.env`, `ConfigService.get`, keys and tokens).
pub fn is_secretish(n: &SyntaxNode) -> (r: bool)
    ensures
        r == secretish(*n),
{
    let lowered = lowercase(n.text.as_str());
    is_secret_lowered(lowered.as_str())
}

} // verus!

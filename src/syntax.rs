//! A read-only syntax tree: each node has a kind, the source text it covers,
//! its byte offset, ordered children, and the field name under which it hangs
//! in its parent.
use vstd::prelude::*;
use crate::text::text_eq;

verus! {

/// One node of a syntax tree.
pub struct SyntaxNode {
    /// The node's kind, such as `if_statement` or `identifier`.
    pub kind: String,
    /// The name of the parent's field that holds this node, if any.
    pub field: Option<String>,
    /// The source text that the node covers.
    pub text: String,
    /// Byte offset of the node's first byte in the source.
    pub start: usize,
    /// Children in source order.
    pub children: Vec<SyntaxNode>,
}

/// Node `c` hangs under the field `name`.
pub open spec fn in_field(c: SyntaxNode, name: Seq<char>) -> bool {
    c.field is Some && c.field->0@ == name
}

/// Index of the first node of `cs`, from position `i` on, that hangs under
/// the field `name`; `cs.len()` where there is none.
pub open spec fn field_index_from(cs: Seq<SyntaxNode>, name: Seq<char>, i: int) -> int
    decreases cs.len() - i,
{
    if i < 0 || i >= cs.len() {
        cs.len() as int
    } else if in_field(cs[i], name) {
        i
    } else {
        field_index_from(cs, name, i + 1)
    }
}

/// Index of the first child of `n` under the field `name`, or the number of
/// children where there is none.
pub open spec fn field_index(n: SyntaxNode, name: Seq<char>) -> int {
    field_index_from(n.children@, name, 0)
}

/// The child of `n` under the field `name`, as a lookup by field returns it.
pub open spec fn field_child(n: SyntaxNode, name: Seq<char>) -> Option<SyntaxNode> {
    let i = field_index(n, name);
    if 0 <= i < n.children@.len() {
        Some(n.children@[i])
    } else {
        None
    }
}

/// The child of `n` under the field `name`, or `n` itself where there is none.
pub open spec fn field_child_or_self(n: SyntaxNode, name: Seq<char>) -> SyntaxNode {
    match field_child(n, name) {
        Some(c) => c,
        None => n,
    }
}

impl SyntaxNode {
    /// A leaf node.
    pub fn leaf(kind: &str, text: &str, start: usize) -> (r: SyntaxNode)
        ensures
            r.kind@ == kind@,
            r.text@ == text@,
            r.start == start,
            r.field is None,
            r.children@.len() == 0,
    {
        SyntaxNode {
            kind: kind.to_owned(),
            field: None,
            text: text.to_owned(),
            start,
            children: Vec::new(),
        }
    }

    /// Appends `child` as the last child, hung under `field` if one is given.
    pub fn push_child(&mut self, field: Option<&str>, child: SyntaxNode)
        ensures
            final(self).kind == old(self).kind,
            final(self).text == old(self).text,
            final(self).start == old(self).start,
            final(self).field == old(self).field,
            final(self).children@.len() == old(self).children@.len() + 1,
            forall|i: int|
                0 <= i < old(self).children@.len() ==> final(self).children@[i]
                    == old(self).children@[i],
            ({
                let c = final(self).children@.last();
                &&& c.kind == child.kind
                &&& c.text == child.text
                &&& c.start == child.start
                &&& c.children == child.children
                &&& match field {
                    Some(f) => c.field is Some && c.field->0@ == f@,
                    None => c.field is None,
                }
            }),
    {
        let mut c = child;
        c.field = match field {
            Some(f) => Some(f.to_owned()),
            None => None,
        };
        self.children.push(c);
    }

    /// Whether the node's kind is `k`.
    pub fn is_kind(&self, k: &str) -> (r: bool)
        ensures
            r == (self.kind@ == k@),
    {
        text_eq(self.kind.as_str(), k)
    }

    /// The first child under the field `name`.
    pub fn child_by_field_name(&self, name: &str) -> (r: Option<&SyntaxNode>)
        ensures
            r is None <==> field_child(*self, name@) is None,
            r matches Some(c) ==> field_child(*self, name@) == Some(*c),
            r matches Some(c) ==> 0 <= field_index(*self, name@) < self.children@.len()
                && *c == self.children@[field_index(*self, name@)],
    {
        let n = self.children.len();
        let mut i: usize = 0;
        while i < n
            invariant
                n == self.children@.len(),
                i <= n,
                field_index(*self, name@) == field_index_from(self.children@, name@, i as int),
            decreases n - i,
        {
            let c = &self.children[i];
            let hit = match &c.field {
                Some(f) => text_eq(f.as_str(), name),
                None => false,
            };
            if hit {
                return Some(c);
            }
            i = i + 1;
        }
        None
    }
}

} // verus!

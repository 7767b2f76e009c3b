//! The concrete syntax tree as the library reads it: an arena of nodes, each
//! with the kind, byte range, flags and children that the grammar engine gave.
//! A node's identity is its index in the arena; the root is node 0.

use crate::text::{bytes_of, chars_in_bytes, is_char_boundary};
use vstd::prelude::*;

verus! {

/// The node kinds that the AST builder branches on.
#[derive(Clone, Copy, Debug, PartialEq, Eq, Structural)]
pub enum NodeKind {
    Identifier,
    Block,
    FunctionCall,
    Number,
    PrimitiveType,
    ExpressionStatement,
    LetDeclaration,
    /// Any kind that the builder never asks for by name.
    Other,
}

/// The field names under which a parent holds a child.
#[derive(Clone, Copy, Debug, PartialEq, Eq, Structural)]
pub enum FieldName {
    Name,
    Parameters,
    ReturnType,
    Body,
    Result,
    Pattern,
    Value,
    Arguments,
    /// Any field that the builder never asks for by name.
    Other,
}

#[derive(Clone, Debug)]
pub struct SyntaxNode {
    pub kind: NodeKind,
    /// The field under which the parent holds this node, if any.
    pub field: Option<FieldName>,
    pub start_byte: usize,
    pub end_byte: usize,
    pub is_named: bool,
    pub is_extra: bool,
    /// The node is itself an error token.
    pub is_error: bool,
    /// The node or some node below it is an error token.
    pub has_error: bool,
    /// Arena indices of the children, in source order.
    pub children: Vec<usize>,
}

#[derive(Clone, Debug)]
pub struct SyntaxTree {
    pub nodes: Vec<SyntaxNode>,
}

impl SyntaxTree {
    /// Every child index points past its parent and into the arena, so the
    /// arena is acyclic and a walk from any node ends.
    pub open spec fn wf(&self) -> bool {
        &&& self.nodes@.len() > 0
        &&& forall|i: int, j: int|
            0 <= i < self.nodes@.len() && 0 <= j < self.nodes@[i].children@.len() ==> i
                < #[trigger] self.nodes@[i].children@[j] < self.nodes@.len()
    }

    pub open spec fn kids(&self, i: int) -> Seq<usize> {
        self.nodes@[i].children@
    }

    /// Whether node `i` names a node of the arena.
    pub open spec fn has(&self, i: int) -> bool {
        0 <= i < self.nodes@.len()
    }
}

/// The first of `kids` that its parent holds under field `f`.
pub open spec fn first_with_field(t: SyntaxTree, kids: Seq<usize>, f: FieldName) -> Option<usize>
    decreases kids.len(),
{
    if kids.len() == 0 {
        None
    } else if t.nodes@[kids[0] as int].field == Some(f) {
        Some(kids[0])
    } else {
        first_with_field(t, kids.drop_first(), f)
    }
}

/// The child that node `i` holds under field `f` (the first, if several).
pub open spec fn field_child(t: SyntaxTree, i: int, f: FieldName) -> Option<usize> {
    first_with_field(t, t.kids(i), f)
}

pub proof fn lemma_first_with_field_in(t: SyntaxTree, kids: Seq<usize>, f: FieldName)
    ensures
        first_with_field(t, kids, f) matches Some(c) ==> kids.contains(c),
    decreases kids.len(),
{
    if kids.len() > 0 && t.nodes@[kids[0] as int].field != Some(f) {
        lemma_first_with_field_in(t, kids.drop_first(), f);
        if let Some(c) = first_with_field(t, kids.drop_first(), f) {
            let k = choose|k: int| 0 <= k < kids.drop_first().len() && kids.drop_first()[k] == c;
            assert(kids[k + 1] == c);
        }
    } else if kids.len() > 0 {
        assert(kids[0] == kids[0]);
    }
}

impl SyntaxTree {
    /// The child that node `i` holds under field `f`, as the grammar engine's
    /// field lookup gives it: the first such child.
    pub fn child_by_field_name(&self, i: usize, f: FieldName) -> (r: Option<usize>)
        requires
            self.wf(),
            self.has(i as int),
        ensures
            r == field_child(*self, i as int, f),
            r matches Some(c) ==> i < c < self.nodes@.len(),
    {
        let kids = &self.nodes[i].children;
        let mut k: usize = 0;
        assert(kids@.skip(0) =~= kids@);
        while k < kids.len()
            invariant
                self.wf(),
                self.has(i as int),
                kids@ == self.kids(i as int),
                k <= kids@.len(),
                first_with_field(*self, kids@, f) == first_with_field(*self, kids@.skip(k as int), f),
            decreases kids@.len() - k,
        {
            let c = kids[k];
            assert(kids@.skip(k as int)[0] == c);
            assert(kids@.skip(k as int).drop_first() =~= kids@.skip(k as int + 1));
            if self.nodes[c].field == Some(f) {
                proof {
                    assert(self.kids(i as int)[k as int] == c);
                }
                return Some(c);
            }
            k = k + 1;
        }
        proof {
            assert(kids@.skip(k as int).len() == 0);
        }
        None
    }
}

/// The characters of text `s` that node `i` spans.
pub open spec fn node_chars(t: SyntaxTree, i: int, s: Seq<char>) -> Seq<char> {
    s.subrange(
        chars_in_bytes(s, t.nodes@[i].start_byte as int) as int,
        chars_in_bytes(s, t.nodes@[i].end_byte as int) as int,
    )
}

/// Every node of `t` spans characters of text `s`: its range is ordered, lies
/// within the text and starts and ends on character boundaries.
pub open spec fn fits_text(t: SyntaxTree, s: Seq<char>) -> bool {
    forall|i: int|
        0 <= i < t.nodes@.len() ==> {
            &&& #[trigger] t.nodes@[i].start_byte <= t.nodes@[i].end_byte <= bytes_of(s)
            &&& is_char_boundary(s, t.nodes@[i].start_byte as int)
            &&& is_char_boundary(s, t.nodes@[i].end_byte as int)
        }
}

} // verus!

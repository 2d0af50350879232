//! The syntax tree the evaluator walks: an arena of nodes over the source text.
use vstd::prelude::*;

verus! {

/// The kinds of node the evaluator reads; every other kind is `Other`.
#[derive(Clone, Copy, Debug, PartialEq, Eq, Structural)]
pub enum NodeKind {
    SourceFile,
    Interfaces,
    Interface,
    ExpressionStatement,
    VariableDeclaration,
    VariableDeclarator,
    Assignment,
    ReturnStatement,
    Literal,
    Number,
    String,
    StringFragment,
    EscapeSequence,
    BinaryExpression,
    Identifier,
    NestedIdentifier,
    ArrayExpression,
    LambdaExpression,
    CallExpression,
    IfExpression,
    StatementBlock,
    FormalParameters,
    Arguments,
    Other,
}

/// The field names under which a node holds children.
#[derive(Clone, Copy, Debug, PartialEq, Eq, Structural)]
pub enum FieldName {
    Path,
    Module,
    Variable,
    Value,
    Lhs,
    Rhs,
    Left,
    Right,
    Parent,
    Name,
    Parameters,
    Body,
    Function,
    Arguments,
    Condition,
    Consequence,
    Else,
}

/// A node: its kind, whether it is named, the range of source characters it
/// spans, its children in order, and which of them stand under a field.
#[derive(Clone, Debug)]
pub struct SyntaxNode {
    pub kind: NodeKind,
    pub named: bool,
    pub start: usize,
    pub end: usize,
    pub children: Vec<usize>,
    pub fields: Vec<(FieldName, usize)>,
}

/// A whole parse: the source characters and the nodes, the root at index 0.
/// Children are indexed by the arena position of their node.
#[derive(Clone, Debug)]
pub struct SyntaxTree {
    pub source: Vec<char>,
    pub nodes: Vec<SyntaxNode>,
}

/// The child under the first field named `f`.
pub open spec fn field_of(fields: Seq<(FieldName, usize)>, f: FieldName) -> Option<usize>
    decreases fields.len(),
{
    if fields.len() == 0 {
        None
    } else if fields[0].0 == f {
        Some(fields[0].1)
    } else {
        field_of(fields.drop_first(), f)
    }
}

/// The children under every field named `f`, in order.
pub open spec fn fields_named(fields: Seq<(FieldName, usize)>, f: FieldName) -> Seq<usize>
    decreases fields.len(),
{
    if fields.len() == 0 {
        Seq::empty()
    } else if fields.last().0 == f {
        fields_named(fields.drop_last(), f).push(fields.last().1)
    } else {
        fields_named(fields.drop_last(), f)
    }
}

/// The nodes of `cs` that are named, in order.
pub open spec fn named_of(t: SyntaxTree, cs: Seq<usize>) -> Seq<usize>
    decreases cs.len(),
{
    if cs.len() == 0 {
        Seq::empty()
    } else if t.nodes[cs.last() as int].named {
        named_of(t, cs.drop_last()).push(cs.last())
    } else {
        named_of(t, cs.drop_last())
    }
}

proof fn lemma_field_of_skip(fields: Seq<(FieldName, usize)>, f: FieldName, d: int)
    requires
        0 <= d <= fields.len(),
        forall|e: int| 0 <= e < d ==> fields[e].0 != f,
    ensures
        field_of(fields, f) == field_of(fields.subrange(d, fields.len() as int), f),
    decreases d,
{
    if d == 0 {
        assert(fields.subrange(0, fields.len() as int) =~= fields);
    } else {
        let t = fields.drop_first();
        assert forall|e: int| 0 <= e < d - 1 implies t[e].0 != f by {
            assert(t[e] == fields[e + 1]);
        }
        lemma_field_of_skip(t, f, d - 1);
        assert(t.subrange(d - 1, t.len() as int) =~= fields.subrange(d, fields.len() as int));
    }
}

impl SyntaxTree {
    /// A tree over `source` with no nodes yet.
    pub fn new(source: Vec<char>) -> (r: SyntaxTree)
        ensures
            r.source@ == source@,
            r.nodes@.len() == 0,
    {
        SyntaxTree { source, nodes: Vec::new() }
    }

    /// Adds a node without children; its index is returned.
    pub fn push_node(&mut self, kind: NodeKind, named: bool, start: usize, end: usize) -> (r: usize)
        ensures
            r == old(self).nodes.len(),
            final(self).source == old(self).source,
            final(self).nodes.len() == old(self).nodes.len() + 1,
            forall|j: int| 0 <= j < r ==> #[trigger] final(self).nodes[j] == old(self).nodes[j],
            final(self).nodes[r as int].kind == kind,
            final(self).nodes[r as int].named == named,
            final(self).nodes[r as int].start == start,
            final(self).nodes[r as int].end == end,
            final(self).nodes[r as int].children@.len() == 0,
            final(self).nodes[r as int].fields@.len() == 0,
    {
        let r = self.nodes.len();
        self.nodes.push(
            SyntaxNode { kind, named, start, end, children: Vec::new(), fields: Vec::new() },
        );
        r
    }

    /// Makes node `child` the next child of node `parent`, under `field` if
    /// one is given.
    pub fn attach(&mut self, parent: usize, child: usize, field: Option<FieldName>)
        requires
            parent < old(self).nodes.len(),
        ensures
            final(self).source == old(self).source,
            final(self).nodes.len() == old(self).nodes.len(),
            forall|j: int|
                0 <= j < old(self).nodes.len() && j != parent ==> #[trigger] final(self).nodes[j]
                    == old(self).nodes[j],
            final(self).nodes[parent as int].children@ == old(self).nodes[parent as int].children@.push(
                child,
            ),
            final(self).nodes[parent as int].fields@ == match field {
                Some(f) => old(self).nodes[parent as int].fields@.push((f, child)),
                None => old(self).nodes[parent as int].fields@,
            },
            final(self).nodes[parent as int].kind == old(self).nodes[parent as int].kind,
            final(self).nodes[parent as int].start == old(self).nodes[parent as int].start,
            final(self).nodes[parent as int].end == old(self).nodes[parent as int].end,
            final(self).nodes[parent as int].named == old(self).nodes[parent as int].named,
    {
        let node = &mut self.nodes[parent];
        node.children.push(child);
        match field {
            Some(f) => node.fields.push((f, child)),
            None => {},
        }
    }

    /// Every node lies within the source, and every child comes after its
    /// parent in the arena.
    pub open spec fn wf(&self) -> bool {
        forall|i: int|
            0 <= i < self.nodes.len() ==> #[trigger] self.node_wf(i)
    }

    pub open spec fn node_wf(&self, i: int) -> bool {
        let n = self.nodes[i];
        &&& n.start <= n.end <= self.source.len()
        &&& forall|c: int| 0 <= c < n.children.len() ==> i < #[trigger] n.children[c] < self.nodes.len()
        &&& forall|c: int| 0 <= c < n.fields.len() ==> i < #[trigger] n.fields[c].1 < self.nodes.len()
    }

    /// The source text of node `i`.
    pub open spec fn text(&self, i: int) -> Seq<char> {
        self.source@.subrange(self.nodes[i].start as int, self.nodes[i].end as int)
    }

    /// Whether the tree is well formed, checked node by node.
    pub fn check(&self) -> (r: bool)
        ensures
            r == self.wf(),
    {
        let mut i: usize = 0;
        while i < self.nodes.len()
            invariant
                i <= self.nodes.len(),
                forall|j: int| 0 <= j < i ==> #[trigger] self.node_wf(j),
            decreases self.nodes.len() - i,
        {
            let n = &self.nodes[i];
            if n.start > n.end || n.end > self.source.len() {
                assert(!self.node_wf(i as int));
                return false;
            }
            let mut c: usize = 0;
            while c < n.children.len()
                invariant
                    i < self.nodes.len(),
                    *n == self.nodes[i as int],
                    c <= n.children.len(),
                    forall|d: int| 0 <= d < c ==> i < #[trigger] n.children[d] < self.nodes.len(),
                decreases n.children.len() - c,
            {
                if n.children[c] <= i || n.children[c] >= self.nodes.len() {
                    assert(!self.node_wf(i as int));
                    return false;
                }
                c += 1;
            }
            let mut f: usize = 0;
            while f < n.fields.len()
                invariant
                    i < self.nodes.len(),
                    *n == self.nodes[i as int],
                    f <= n.fields.len(),
                    forall|d: int| 0 <= d < f ==> i < #[trigger] n.fields[d].1 < self.nodes.len(),
                decreases n.fields.len() - f,
            {
                if n.fields[f].1 <= i || n.fields[f].1 >= self.nodes.len() {
                    assert(!self.node_wf(i as int));
                    return false;
                }
                f += 1;
            }
            assert(self.node_wf(i as int));
            i += 1;
        }
        true
    }

    /// The first child of node `i` under field `f`.
    pub fn field(&self, i: usize, f: FieldName) -> (r: Option<usize>)
        requires
            self.wf(),
            i < self.nodes.len(),
        ensures
            match r {
                Some(c) => i < c < self.nodes.len() && exists|d: int|
                    0 <= d < self.nodes[i as int].fields.len() && self.nodes[i as int].fields[d]
                        == (f, c),
                None => forall|d: int|
                    0 <= d < self.nodes[i as int].fields.len()
                        ==> self.nodes[i as int].fields[d].0 != f,
            },
            r == field_of(self.nodes[i as int].fields@, f),
    {
        assert(self.node_wf(i as int));
        let n = &self.nodes[i];
        let mut d: usize = 0;
        while d < n.fields.len()
            invariant
                i < self.nodes.len(),
                *n == self.nodes[i as int],
                self.node_wf(i as int),
                d <= n.fields.len(),
                forall|e: int| 0 <= e < d ==> n.fields[e].0 != f,
            decreases n.fields.len() - d,
        {
            if n.fields[d].0 == f {
                proof {
                    lemma_field_of_skip(n.fields@, f, d as int);
                    assert(n.fields@.subrange(d as int, n.fields@.len() as int)[0] == n.fields@[d as int]);
                }
                return Some(n.fields[d].1);
            }
            d += 1;
        }
        proof {
            lemma_field_of_skip(n.fields@, f, d as int);
        }
        None
    }

    /// All children of node `i` under field `f`, in order.
    pub fn field_children(&self, i: usize, f: FieldName) -> (r: Vec<usize>)
        requires
            self.wf(),
            i < self.nodes.len(),
        ensures
            forall|k: int| 0 <= k < r.len() ==> i < #[trigger] r[k] < self.nodes.len(),
            r@ == fields_named(self.nodes[i as int].fields@, f),
    {
        assert(self.node_wf(i as int));
        let n = &self.nodes[i];
        let mut out: Vec<usize> = Vec::new();
        let mut d: usize = 0;
        while d < n.fields.len()
            invariant
                i < self.nodes.len(),
                *n == self.nodes[i as int],
                self.node_wf(i as int),
                d <= n.fields.len(),
                forall|k: int| 0 <= k < out.len() ==> i < #[trigger] out[k] < self.nodes.len(),
                out@ == fields_named(n.fields@.subrange(0, d as int), f),
            decreases n.fields.len() - d,
        {
            assert(n.fields@.subrange(0, d + 1).drop_last() =~= n.fields@.subrange(0, d as int));
            if n.fields[d].0 == f {
                out.push(n.fields[d].1);
            }
            d += 1;
        }
        assert(n.fields@.subrange(0, d as int) =~= n.fields@);
        out
    }

    /// The named children of node `i`, in order.
    pub fn named_children(&self, i: usize) -> (r: Vec<usize>)
        requires
            self.wf(),
            i < self.nodes.len(),
        ensures
            forall|k: int| 0 <= k < r.len() ==> i < #[trigger] r[k] < self.nodes.len(),
            forall|k: int| 0 <= k < r.len() ==> self.nodes[#[trigger] r[k] as int].named,
            r@ == named_of(*self, self.nodes[i as int].children@),
    {
        assert(self.node_wf(i as int));
        let n = &self.nodes[i];
        let mut out: Vec<usize> = Vec::new();
        let mut d: usize = 0;
        while d < n.children.len()
            invariant
                i < self.nodes.len(),
                *n == self.nodes[i as int],
                self.node_wf(i as int),
                d <= n.children.len(),
                forall|k: int| 0 <= k < out.len() ==> i < #[trigger] out[k] < self.nodes.len(),
                forall|k: int| 0 <= k < out.len() ==> self.nodes[#[trigger] out[k] as int].named,
                out@ == named_of(*self, n.children@.subrange(0, d as int)),
            decreases n.children.len() - d,
        {
            assert(n.children@.subrange(0, d + 1).drop_last() =~= n.children@.subrange(0, d as int));
            let c = n.children[d];
            if self.nodes[c].named {
                out.push(c);
            }
            d += 1;
        }
        assert(n.children@.subrange(0, d as int) =~= n.children@);
        out
    }

    /// The child of node `i` at position `k`, named or not.
    pub fn child(&self, i: usize, k: usize) -> (r: Option<usize>)
        requires
            self.wf(),
            i < self.nodes.len(),
        ensures
            match r {
                Some(c) => k < self.nodes[i as int].children.len() && c
                    == self.nodes[i as int].children[k as int] && i < c < self.nodes.len(),
                None => k >= self.nodes[i as int].children.len(),
            },
    {
        assert(self.node_wf(i as int));
        if k < self.nodes[i].children.len() {
            Some(self.nodes[i].children[k])
        } else {
            None
        }
    }

    /// The source text of node `i`.
    pub fn node_text(&self, i: usize) -> (r: String)
        requires
            self.wf(),
            i < self.nodes.len(),
        ensures
            r@ == self.text(i as int),
    {
        assert(self.node_wf(i as int));
        let n = &self.nodes[i];
        let mut out = String::new();
        let mut p: usize = n.start;
        while p < n.end
            invariant
                i < self.nodes.len(),
                *n == self.nodes[i as int],
                n.start <= p <= n.end <= self.source.len(),
                out@ == self.source@.subrange(n.start as int, p as int),
            decreases n.end - p,
        {
            push_char(&mut out, self.source[p]);
            p += 1;
            assert(out@ =~= self.source@.subrange(n.start as int, p as int));
        }
        out
    }

    /// The source characters of node `i`.
    pub fn node_chars(&self, i: usize) -> (r: Vec<char>)
        requires
            self.wf(),
            i < self.nodes.len(),
        ensures
            r@ == self.text(i as int),
    {
        assert(self.node_wf(i as int));
        let n = &self.nodes[i];
        let mut out: Vec<char> = Vec::new();
        let mut p: usize = n.start;
        while p < n.end
            invariant
                i < self.nodes.len(),
                *n == self.nodes[i as int],
                n.start <= p <= n.end <= self.source.len(),
                out@ == self.source@.subrange(n.start as int, p as int),
            decreases n.end - p,
        {
            out.push(self.source[p]);
            p += 1;
            assert(out@ =~= self.source@.subrange(n.start as int, p as int));
        }
        out
    }

    /// The first node from index `j` on of kind `kind` spanning `start..end`.
    pub open spec fn find_from(&self, start: usize, end: usize, kind: NodeKind, j: int) -> Option<
        int,
    >
        decreases self.nodes.len() - j,
    {
        if j < 0 || j >= self.nodes.len() {
            None
        } else if self.nodes[j].start == start && self.nodes[j].end == end && self.nodes[j].kind
            == kind {
            Some(j)
        } else {
            self.find_from(start, end, kind, j + 1)
        }
    }

    /// The first node of kind `kind` that spans exactly `start..end`.
    pub fn descend(&self, start: usize, end: usize, kind: NodeKind) -> (r: Option<usize>)
        ensures
            match r {
                Some(i) => i < self.nodes.len() && self.nodes[i as int].start == start
                    && self.nodes[i as int].end == end && self.nodes[i as int].kind == kind,
                None => forall|i: int|
                    0 <= i < self.nodes.len() ==> !(self.nodes[i].start == start
                        && self.nodes[i].end == end && self.nodes[i].kind == kind),
            },
            match r {
                Some(i) => self.find_from(start, end, kind, 0) == Some(i as int),
                None => self.find_from(start, end, kind, 0) is None,
            },
    {
        let mut i: usize = 0;
        while i < self.nodes.len()
            invariant
                i <= self.nodes.len(),
                forall|j: int|
                    0 <= j < i ==> !(self.nodes[j].start == start && self.nodes[j].end == end
                        && self.nodes[j].kind == kind),
                self.find_from(start, end, kind, 0) == self.find_from(start, end, kind, i as int),
            decreases self.nodes.len() - i,
        {
            let n = &self.nodes[i];
            if n.start == start && n.end == end && n.kind == kind {
                return Some(i);
            }
            i += 1;
        }
        None
    }
}

/// Relies on `String::push`: appends one character.
#[verifier::external_body]
pub(crate) fn push_char(s: &mut String, c: char)
    ensures
        final(s)@ == old(s)@.push(c),
{
    s.push(c)
}

} // verus!

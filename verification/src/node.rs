use vstd::prelude::*;

use crate::token::Span;
use crate::typing::Type;

verus! {

broadcast use vstd::std_specs::vec::axiom_vec_index_decreases;

/// The closed set of binary operators.
#[derive(Clone, Copy, Debug, PartialEq, Eq, Structural)]
pub enum BinOp {
    Add,
    Sub,
    Mul,
    Div,
    Rem,
    And,
    Or,
    Xor,
    LAnd,
    LOr,
    Eq,
    Ne,
    Lt,
    Gt,
    Le,
    Ge,
    Shl,
    Shr,
    Assign,
}

/// The kind an AST node represents.  Conditional and call nodes are built by
/// the parser but have no lowering yet.
#[derive(Debug, PartialEq)]
pub enum NodeKind {
    Int(i64),
    Float(String),
    Str(String),
    Variable(String, Option<Type>),
    BinaryOp(Box<Node>, Box<Node>, BinOp),
    If(Box<Node>, Box<Node>, Box<Node>),
    Apply(Box<Node>, Vec<Node>),
}

/// An AST node: a kind together with the source range it covers, kept for
/// diagnostics.
#[derive(Debug, PartialEq)]
pub struct Node {
    pub kind: NodeKind,
    pub range: Span,
}

impl Node {
    pub fn new(kind: NodeKind, range: Span) -> (n: Node)
        ensures
            n.kind == kind,
            n.range == range,
    {
        Node { kind, range }
    }
}

/// Structural equality of nodes, comparing carried text by its characters.
pub open spec fn node_eq(a: Node, b: Node) -> bool
    decreases a,
{
    a.range == b.range && match (a.kind, b.kind) {
        (NodeKind::Int(x), NodeKind::Int(y)) => x == y,
        (NodeKind::Float(s), NodeKind::Float(t)) => s@ == t@,
        (NodeKind::Str(s), NodeKind::Str(t)) => s@ == t@,
        (NodeKind::Variable(n1, t1), NodeKind::Variable(n2, t2)) => n1@ == n2@ && t1 == t2,
        (NodeKind::BinaryOp(l1, r1, o1), NodeKind::BinaryOp(l2, r2, o2)) => o1 == o2 && node_eq(
            *l1,
            *l2,
        ) && node_eq(*r1, *r2),
        (NodeKind::If(a1, b1, c1), NodeKind::If(a2, b2, c2)) => node_eq(*a1, *a2) && node_eq(
            *b1,
            *b2,
        ) && node_eq(*c1, *c2),
        (NodeKind::Apply(f1, s1), NodeKind::Apply(f2, s2)) => node_eq(*f1, *f2) && s1@.len()
            == s2@.len() && (forall|i: int|
            0 <= i < s1@.len() ==> node_eq(#[trigger] s1[i], s2[i])),
        _ => false,
    }
}

/// Well-formedness of a parsed node: a binary operation's range spans from
/// its left child's start to its right child's end, and a call starts at its
/// callee.
pub open spec fn wf_node(n: Node) -> bool
    decreases n,
{
    match n.kind {
        NodeKind::BinaryOp(l, r, _) => wf_node(*l) && wf_node(*r) && n.range.start == l.range.start
            && n.range.end == r.range.end,
        NodeKind::If(a, b, c) => wf_node(*a) && wf_node(*b) && wf_node(*c),
        NodeKind::Apply(f, args) => wf_node(*f) && (forall|i: int|
            0 <= i < args@.len() ==> wf_node(#[trigger] args[i])) && n.range.start
            == f.range.start,
        _ => true,
    }
}

/// Structurally equal nodes are well-formed together.
pub proof fn lemma_node_eq_wf(a: Node, b: Node)
    requires
        node_eq(a, b),
        wf_node(b),
    ensures
        wf_node(a),
    decreases a,
{
    match (a.kind, b.kind) {
        (NodeKind::BinaryOp(l1, r1, _), NodeKind::BinaryOp(l2, r2, _)) => {
            lemma_node_eq_wf(*l1, *l2);
            lemma_node_eq_wf(*r1, *r2);
            assert(node_eq(*l1, *l2) && node_eq(*r1, *r2));
            assert(l1.range == l2.range && r1.range == r2.range);
        },
        (NodeKind::If(a1, b1, c1), NodeKind::If(a2, b2, c2)) => {
            lemma_node_eq_wf(*a1, *a2);
            lemma_node_eq_wf(*b1, *b2);
            lemma_node_eq_wf(*c1, *c2);
        },
        (NodeKind::Apply(f1, s1), NodeKind::Apply(f2, s2)) => {
            lemma_node_eq_wf(*f1, *f2);
            assert(node_eq(*f1, *f2));
            assert(f1.range == f2.range);
            assert forall|i: int| 0 <= i < s1@.len() implies wf_node(#[trigger] s1[i]) by {
                lemma_node_eq_wf(s1[i], s2[i]);
            }
        },
        _ => {},
    }
}

/// Size of the operator structure of a node, the measure code generation
/// recurses along.
pub open spec fn node_size(n: Node) -> nat
    decreases n,
{
    match n.kind {
        NodeKind::BinaryOp(l, r, _) => 1 + node_size(*l) + node_size(*r),
        _ => 1,
    }
}

/// Builds a structurally equal copy of a node.  Code that needs a second use
/// of a subtree (desugaring a compound assignment) copies it through this
/// function so the copy's meaning is known.
#[verifier::loop_isolation(false)]
pub fn duplicate_node(n: &Node) -> (r: Node)
    ensures
        node_eq(r, *n),
    decreases *n,
{
    match &n.kind {
        NodeKind::Int(x) => Node { kind: NodeKind::Int(*x), range: n.range },
        NodeKind::Float(s) => Node { kind: NodeKind::Float(s.clone()), range: n.range },
        NodeKind::Str(s) => Node { kind: NodeKind::Str(s.clone()), range: n.range },
        NodeKind::Variable(name, ty) => Node {
            kind: NodeKind::Variable(name.clone(), *ty),
            range: n.range,
        },
        NodeKind::BinaryOp(l, r, op) => Node {
            kind: NodeKind::BinaryOp(
                Box::new(duplicate_node(&**l)),
                Box::new(duplicate_node(&**r)),
                *op,
            ),
            range: n.range,
        },
        NodeKind::If(a, b, c) => Node {
            kind: NodeKind::If(
                Box::new(duplicate_node(&**a)),
                Box::new(duplicate_node(&**b)),
                Box::new(duplicate_node(&**c)),
            ),
            range: n.range,
        },
        NodeKind::Apply(f, args) => {
            let df = duplicate_node(&**f);
            let mut copies: Vec<Node> = Vec::new();
            let count = args.len();
            let mut i: usize = 0;
            while i < count
                invariant
                    i <= count,
                    count == args@.len(),
                    copies@.len() == i,
                    forall|j: int| 0 <= j < i ==> node_eq(#[trigger] copies[j], args[j]),
                decreases count - i,
            {
                proof {
                    assert(decreases_to!(*n => n.kind));
                    assert(decreases_to!(n.kind => *args));
                    assert(decreases_to!(*args => (*args)[i as int]));
                }
                let copy = duplicate_node(&args[i]);
                copies.push(copy);
                i = i + 1;
            }
            Node { kind: NodeKind::Apply(Box::new(df), copies), range: n.range }
        },
    }
}

} // verus!

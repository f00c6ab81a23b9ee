//! The syntax tree: nodes in an arena, addressed by their index.

use vstd::prelude::*;
use crate::token::Kind;

verus! {

/// The handle of a node: its index in the arena.
pub type NodeId = usize;

/// What a node stands for. The children of each kind are listed in order.
#[derive(Clone, Copy, Debug, PartialEq, Eq, Structural, Hash)]
pub enum NodeKind {
    /// The whole text; children: its statements.
    Program,
    /// A lone `;`.
    EmptyStatement,
    /// `{ ... }`; children: its statements.
    BlockStatement,
    /// `let`, `const` or `var` (the keyword's kind is held); children: the
    /// binding name, then the initializer if there is one.
    VariableDeclaration(Kind),
    /// `return`; child: the argument if there is one.
    ReturnStatement,
    /// An expression as a statement; child: the expression.
    ExpressionStatement,
    Identifier,
    NumericLiteral,
    StringLiteral,
    BooleanLiteral,
    NullLiteral,
    RegExpLiteral,
    /// A template literal; children: a quasi, then expression and quasi in
    /// turn.
    TemplateLiteral,
    /// One piece of template text.
    TemplateElement,
    /// `( ... )`, kept only on request; child: the expression.
    ParenthesizedExpression,
    /// A prefix operator (its token kind is held); child: the operand.
    UnaryExpression(Kind),
    /// An infix operator (its token kind is held); children: left, right.
    BinaryExpression(Kind),
    /// `=`; children: target, value.
    AssignmentExpression,
    /// `a.b`; children: object, property name.
    MemberExpression,
    /// A call; children: the callee, the type arguments if there are any,
    /// then the arguments.
    CallExpression,
    /// `< ... >` behind a callee or a type name; children: the types.
    TypeArguments,
    /// A named type; children: the name, then its type arguments if any.
    TypeReference,
    /// Stands in for what could not be parsed.
    Error,
}

/// A node of the tree. Its children are the `child_count` handles that
/// start at `first_child` in the arena's list of links.
#[derive(Clone, Copy, Debug, PartialEq, Eq, Structural, Hash)]
pub struct Node {
    pub kind: NodeKind,
    pub start: u32,
    pub end: u32,
    pub first_child: usize,
    pub child_count: usize,
}

/// The `i`-th node's children lie in the list of links and were all made
/// before the node itself.
pub open spec fn node_ok(nodes: Seq<Node>, links: Seq<NodeId>, i: int) -> bool {
    let n = nodes[i];
    &&& n.first_child + n.child_count <= links.len()
    &&& forall|k: int|
        n.first_child <= k < n.first_child + n.child_count ==> (#[trigger] links[k]) < i
}

/// Every node's children were made before it: handles never dangle and the
/// tree has no cycle.
pub open spec fn arena_ok(nodes: Seq<Node>, links: Seq<NodeId>) -> bool {
    forall|i: int| 0 <= i < nodes.len() ==> #[trigger] node_ok(nodes, links, i)
}

/// Every node covers a span of a text of `len` bytes.
pub open spec fn spans_ok(nodes: Seq<Node>, len: int) -> bool {
    forall|i: int| 0 <= i < nodes.len() ==> (#[trigger] nodes[i]).start <= nodes[i].end <= len
}

/// A finished tree.
#[derive(Debug, PartialEq, Eq)]
pub struct Ast {
    pub nodes: Vec<Node>,
    pub links: Vec<NodeId>,
    pub root: NodeId,
}

impl Ast {
    /// The tree is in order: the root is a node, and no child was made
    /// after its parent.
    pub open spec fn wf(&self) -> bool {
        self.root < self.nodes@.len() && arena_ok(self.nodes@, self.links@)
    }

    /// The handles of the children of `id`, in order.
    pub open spec fn spec_children(&self, id: NodeId) -> Seq<NodeId> {
        self.links@.subrange(
            self.nodes@[id as int].first_child as int,
            self.nodes@[id as int].first_child + self.nodes@[id as int].child_count,
        )
    }

    /// The node behind a handle, or `None` for a handle of no node.
    pub fn node(&self, id: NodeId) -> (n: Option<Node>)
        ensures
            n == (if id < self.nodes@.len() {
                Some(self.nodes@[id as int])
            } else {
                None
            }),
    {
        if id < self.nodes.len() {
            Some(self.nodes[id])
        } else {
            None
        }
    }

    /// The handles of the children of `id`, in order; none for a handle of
    /// no node.
    pub fn children(&self, id: NodeId) -> (c: Vec<NodeId>)
        requires
            self.wf(),
        ensures
            c@ == (if id < self.nodes@.len() {
                self.spec_children(id)
            } else {
                Seq::empty()
            }),
            forall|k: int| 0 <= k < c@.len() ==> (#[trigger] c@[k]) < id,
    {
        if id >= self.nodes.len() {
            return Vec::new();
        }
        let node = self.nodes[id];
        assert(node_ok(self.nodes@, self.links@, id as int));
        let mut out: Vec<NodeId> = Vec::new();
        let mut k: usize = 0;
        let total: usize = self.links.len();
        while k < node.child_count
            invariant
                k <= node.child_count,
                total == self.links@.len(),
                node.first_child + node.child_count <= self.links@.len(),
                out@ == self.links@.subrange(node.first_child as int, node.first_child + k),
            decreases node.child_count - k,
        {
            out.push(self.links[node.first_child + k]);
            k += 1;
            assert(out@ =~= self.links@.subrange(node.first_child as int, node.first_child + k));
        }
        out
    }
}

} // verus!

//! The abstract syntax tree produced by parsing and consumed by code
//! generation, together with its mathematical model: names become
//! character sequences, child lists become sequences, and literal
//! values become unbounded integers.

use vstd::prelude::*;

verus! {

/// The two binary operators of the language.
#[derive(Clone, Copy, Debug, PartialEq, Eq, Structural)]
pub enum BinaryOp {
    Minus,
    Plus,
}

/// The syntax tree: a closed tagged union, one variant per syntactic
/// form. The tree is acyclic and every node is exclusively owned by its
/// single parent.
#[derive(Debug, PartialEq)]
pub enum AstNode {
    BinaryOp { op: BinaryOp, lhs: Box<AstNode>, rhs: Box<AstNode> },
    Call { callee: String },
    Function { name: String, statements: Vec<AstNode> },
    IntegerLiteral { value: i32 },
    Program { declarations: Vec<AstNode> },
    ReturnStatement { expression: Box<AstNode> },
}

/// The model of a syntax tree, used by every contract of the parser and
/// the code generator.
pub ghost enum AstS {
    BinaryOp { op: BinaryOp, lhs: Box<AstS>, rhs: Box<AstS> },
    Call { callee: Seq<char> },
    Function { name: Seq<char>, statements: Seq<AstS> },
    IntegerLiteral { value: int },
    Program { declarations: Seq<AstS> },
    ReturnStatement { expression: Box<AstS> },
}

/// The models of a sequence of nodes, in order.
pub open spec fn deep_seq(nodes: Seq<AstNode>) -> Seq<AstS>
    decreases nodes,
{
    if nodes.len() == 0 {
        Seq::empty()
    } else {
        seq![nodes[0]@] + deep_seq(nodes.subrange(1, nodes.len() as int))
    }
}

impl View for AstNode {
    type V = AstS;

    open spec fn view(&self) -> AstS
        decreases *self,
    {
        match *self {
            AstNode::BinaryOp { op, lhs, rhs } => AstS::BinaryOp {
                op,
                lhs: Box::new((*lhs)@),
                rhs: Box::new((*rhs)@),
            },
            AstNode::Call { callee } => AstS::Call { callee: callee@ },
            AstNode::Function { name, statements } => AstS::Function {
                name: name@,
                statements: deep_seq(statements@),
            },
            AstNode::IntegerLiteral { value } => AstS::IntegerLiteral { value: value as int },
            AstNode::Program { declarations } => AstS::Program {
                declarations: deep_seq(declarations@),
            },
            AstNode::ReturnStatement { expression } => AstS::ReturnStatement {
                expression: Box::new((*expression)@),
            },
        }
    }
}

/// The model of a node sequence has the same length and models each
/// node in place.
pub proof fn lemma_deep_seq_index(nodes: Seq<AstNode>)
    ensures
        deep_seq(nodes).len() == nodes.len(),
        forall|i: int| 0 <= i < nodes.len() ==> deep_seq(nodes)[i] == nodes[i]@,
    decreases nodes.len(),
{
    if nodes.len() > 0 {
        let rest = nodes.subrange(1, nodes.len() as int);
        lemma_deep_seq_index(rest);
        assert(deep_seq(nodes) == seq![nodes[0]@] + deep_seq(rest));
        assert forall|i: int| 0 <= i < nodes.len() implies deep_seq(nodes)[i] == nodes[i]@ by {
            if i > 0 {
                assert(rest[i - 1] == nodes[i]);
                assert(deep_seq(nodes)[i] == deep_seq(rest)[i - 1]);
            }
        }
    }
}

/// The number of nodes in a model tree; the structural-recursion
/// measure of the code generator.
pub open spec fn size_s(a: AstS) -> nat
    decreases a,
{
    match a {
        AstS::BinaryOp { op, lhs, rhs } => 1 + size_s(*lhs) + size_s(*rhs),
        AstS::Call { callee } => 1,
        AstS::Function { name, statements } => 1 + size_list(statements),
        AstS::IntegerLiteral { value } => 1,
        AstS::Program { declarations } => 1 + size_list(declarations),
        AstS::ReturnStatement { expression } => 1 + size_s(*expression),
    }
}

/// The total number of nodes in a sequence of model trees.
pub open spec fn size_list(s: Seq<AstS>) -> nat
    decreases s,
{
    if s.len() == 0 {
        0
    } else {
        size_s(s[0]) + size_list(s.subrange(1, s.len() as int))
    }
}

/// Each tree of a sequence counts no more nodes than the sequence.
pub proof fn lemma_size_list_element(s: Seq<AstS>, i: int)
    requires
        0 <= i < s.len(),
    ensures
        size_s(s[i]) <= size_list(s),
    decreases s.len(),
{
    if i > 0 {
        lemma_size_list_element(s.subrange(1, s.len() as int), i - 1);
        assert(s.subrange(1, s.len() as int)[i - 1] == s[i]);
    }
}

/// Appending one node to a sequence appends its model to the model.
pub proof fn lemma_deep_seq_push(nodes: Seq<AstNode>, node: AstNode)
    ensures
        deep_seq(nodes.push(node)) == deep_seq(nodes) + seq![node@],
{
    lemma_deep_seq_index(nodes);
    lemma_deep_seq_index(nodes.push(node));
    assert(deep_seq(nodes.push(node)) =~= deep_seq(nodes) + seq![node@]);
}

} // verus!

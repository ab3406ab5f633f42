//! The instruction tree that parsing produces, and its mathematical view.

use vstd::prelude::*;

verus! {

/// One parsed operation. A program is an ordered sequence of nodes; a
/// [`Node::Loop`] exclusively owns the sequence parsed from between its
/// matching pair of delimiters, so the whole structure is a strict tree.
#[derive(Debug)]
pub enum Node {
    Incr,
    Decr,
    ShiftLeft,
    ShiftRight,
    Output,
    Input,
    Loop { body: Vec<Node> },
}

/// The mathematical form of one parsed operation: the same tree as [`Node`],
/// with loop bodies as sequences. Contracts speak of this form.
pub enum Instr {
    Incr,
    Decr,
    ShiftLeft,
    ShiftRight,
    Output,
    Input,
    Loop { body: Seq<Instr> },
}

/// The instruction a node stands for, loop bodies included.
pub open spec fn node_view(n: Node) -> Instr
    decreases n,
{
    match n {
        Node::Incr => Instr::Incr,
        Node::Decr => Instr::Decr,
        Node::ShiftLeft => Instr::ShiftLeft,
        Node::ShiftRight => Instr::ShiftRight,
        Node::Output => Instr::Output,
        Node::Input => Instr::Input,
        Node::Loop { body } => Instr::Loop { body: ast_view(body@) },
    }
}

/// The instruction sequence a node sequence stands for.
pub open spec fn ast_view(s: Seq<Node>) -> Seq<Instr>
    decreases s,
{
    if s.len() == 0 {
        Seq::empty()
    } else {
        ast_view(s.drop_last()).push(node_view(s.last()))
    }
}

/// The view of a node sequence is as long as the sequence and views it
/// element by element.
pub proof fn lemma_ast_view_index(s: Seq<Node>)
    ensures
        ast_view(s).len() == s.len(),
        forall|i: int| 0 <= i < s.len() ==> ast_view(s)[i] == node_view(s[i]),
    decreases s.len(),
{
    if s.len() > 0 {
        lemma_ast_view_index(s.drop_last());
        assert forall|i: int| 0 <= i < s.len() implies ast_view(s)[i] == node_view(s[i]) by {
            if i < s.len() - 1 {
                assert(ast_view(s.drop_last())[i] == node_view(s.drop_last()[i]));
            }
        }
    }
}

/// Appending a node appends its view.
pub proof fn lemma_ast_view_push(s: Seq<Node>, n: Node)
    ensures
        ast_view(s.push(n)) == ast_view(s).push(node_view(n)),
{
    assert(s.push(n).drop_last() =~= s);
    assert(s.push(n).last() == n);
}

/// Whether two nodes stand for the same instruction, loop bodies included.
pub fn node_eq(a: &Node, b: &Node) -> (r: bool)
    ensures
        r <==> node_view(*a) == node_view(*b),
    decreases a,
{
    match (a, b) {
        (Node::Incr, Node::Incr) => true,
        (Node::Decr, Node::Decr) => true,
        (Node::ShiftLeft, Node::ShiftLeft) => true,
        (Node::ShiftRight, Node::ShiftRight) => true,
        (Node::Output, Node::Output) => true,
        (Node::Input, Node::Input) => true,
        (Node::Loop { body: body_a }, Node::Loop { body: body_b }) => ast_eq(body_a, body_b),
        _ => false,
    }
}

/// Whether two node sequences stand for the same instruction sequence:
/// structural equality of the parsed trees.
pub fn ast_eq(a: &Vec<Node>, b: &Vec<Node>) -> (r: bool)
    ensures
        r <==> ast_view(a@) == ast_view(b@),
    decreases a,
{
    proof {
        lemma_ast_view_index(a@);
        lemma_ast_view_index(b@);
    }
    if a.len() != b.len() {
        return false;
    }
    let mut i: usize = 0;
    while i < a.len()
        invariant
            a@.len() == b@.len(),
            i <= a@.len(),
            forall|j: int| 0 <= j < i ==> node_view(a@[j]) == node_view(b@[j]),
        decreases a@.len() - i,
    {
        if !node_eq(&a[i], &b[i]) {
            proof {
                lemma_ast_view_index(a@);
                lemma_ast_view_index(b@);
                assert(ast_view(a@)[i as int] != ast_view(b@)[i as int]);
            }
            return false;
        }
        i += 1;
    }
    proof {
        lemma_ast_view_index(a@);
        lemma_ast_view_index(b@);
        assert(ast_view(a@) =~= ast_view(b@));
    }
    true
}

} // verus!

//! The syntax tree: named fields, nodes and payloads, in bitstream order.

use std::collections::VecDeque;
use vstd::prelude::*;
use vstd::std_specs::vecdeque::axiom_vec_dequeue_index_decreases;

verus! {

/// A named 32-bit value.
#[derive(Debug)]
pub struct SyntaxField {
    pub name: String,
    pub val: i32,
}

/// A named sequence of elements.
#[derive(Debug)]
pub struct SyntaxNode {
    pub name: String,
    pub children: VecDeque<SyntaxElement>,
}

/// A named run of bytes that is carried through as it is.
#[derive(Debug)]
pub struct SyntaxPayload {
    pub name: String,
    pub data: Vec<u8>,
}

/// One element of a syntax tree.
#[derive(Debug)]
pub enum SyntaxElement {
    Field(SyntaxField),
    Node(SyntaxNode),
    Payload(SyntaxPayload),
}

/// A syntax tree as a mathematical value.
pub enum Element {
    Field { name: Seq<char>, val: i32 },
    Node { name: Seq<char>, children: Seq<Element> },
    Payload { name: Seq<char>, data: Seq<u8> },
}

impl SyntaxElement {
    /// The tree that this element stands for.
    pub open spec fn model(&self) -> Element
        decreases self,
    {
        match self {
            SyntaxElement::Field(f) => Element::Field { name: f.name@, val: f.val },
            SyntaxElement::Node(n) => Element::Node {
                name: n.name@,
                children: Seq::new(
                    n.children@.len(),
                    |i: int|
                        if 0 <= i < n.children@.len() {
                            proof {
                                axiom_vec_dequeue_index_decreases(n.children, i);
                            }
                            n.children@[i].model()
                        } else {
                            Element::Payload { name: Seq::empty(), data: Seq::empty() }
                        },
                ),
            },
            SyntaxElement::Payload(p) => Element::Payload { name: p.name@, data: p.data@ },
        }
    }
}

impl View for SyntaxElement {
    type V = Element;

    open spec fn view(&self) -> Element {
        self.model()
    }
}

/// The trees that a sequence of elements stands for.
pub open spec fn forest(elements: Seq<SyntaxElement>) -> Seq<Element> {
    Seq::new(elements.len(), |i: int| elements[i]@)
}

impl SyntaxNode {
    /// The node's children as trees.
    pub open spec fn kids(&self) -> Seq<Element> {
        forest(self.children@)
    }

    /// An empty node.
    pub fn new(name: &str) -> (node: SyntaxNode)
        ensures
            node.name@ == name@,
            node.kids() == Seq::<Element>::empty(),
    {
        let node = SyntaxNode { name: name.to_owned(), children: VecDeque::new() };
        assert(node.kids() =~= Seq::<Element>::empty());
        node
    }

    /// Appends `element` as the last child.
    pub fn append(&mut self, element: SyntaxElement)
        ensures
            final(self).name == old(self).name,
            final(self).kids() == old(self).kids().push(element@),
    {
        self.children.push_back(element);
        assert(self.kids() =~= old(self).kids().push(element@));
    }

    /// Takes the first child out.
    pub fn take_first(&mut self) -> (element: SyntaxElement)
        requires
            old(self).kids().len() > 0,
        ensures
            final(self).name == old(self).name,
            element@ == old(self).kids()[0],
            final(self).kids() == old(self).kids().skip(1),
    {
        let element = self.children.pop_front().unwrap();
        assert(self.kids() =~= old(self).kids().skip(1));
        element
    }
}

impl View for SyntaxNode {
    type V = Element;

    open spec fn view(&self) -> Element {
        Element::Node { name: self.name@, children: self.kids() }
    }
}

/// A node as an element is the node with its children as trees.
pub proof fn lemma_node_view(node: SyntaxNode)
    ensures
        SyntaxElement::Node(node)@ == node@,
{
    reveal_with_fuel(SyntaxElement::model, 2);
    assert(SyntaxElement::Node(node)@->children =~= node.kids());
}

} // verus!

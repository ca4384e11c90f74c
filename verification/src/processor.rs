//! The operations that a syntax description is written against. A reader and
//! a writer both offer them, so that one description of a syntax structure
//! serves to decode it and to encode it.

use crate::codec::{legal_width, FieldType};
use crate::error::ErrorKind;
use crate::machine::{Machine, Walk};
use crate::tree::SyntaxNode;
use vstd::prelude::*;

verus! {

/// A processor in the state `m`, seen together with the node that it
/// works on.
pub open spec fn walk(m: Machine, node: SyntaxNode) -> Walk {
    Walk { m, kids: node.kids() }
}

/// A processor, seen together with the node that it works on.
pub open spec fn walk_of<P: BitstreamProcessor>(processor: &P, node: &SyntaxNode) -> Walk {
    walk(processor.machine(), *node)
}

/// Decodes or encodes one syntax element at a time.
///
/// Each operation is a step of the walk of the processor over the node at
/// hand, as `Walk` defines it. A processor keeps its first failure: every
/// later operation leaves the processor and the node as they are and hands
/// back 0 or `false`.
///
/// A subnode is processed in two halves around its own syntax: `subnode`
/// opens it and hands back the node to process that syntax against, and
/// `end_subnode` closes it.
pub trait BitstreamProcessor: Sized {
    /// The state of the processor.
    spec fn machine(&self) -> Machine;

    /// The processor's own invariant.
    spec fn ready(&self) -> bool;

    /// A processor that is ready is in a well-formed state.
    proof fn lemma_ready(&self)
        requires
            self.ready(),
        ensures
            self.machine().wf(),
    ;

    /// Processes the field `name` and hands back its value.
    fn field(&mut self, node: &mut SyntaxNode, name: &str, field_type: FieldType, n: u8) -> (val:
        i32)
        requires
            old(self).ready(),
            legal_width(field_type, n),
        ensures
            final(self).ready(),
            final(node).name == old(node).name,
            walk(final(self).machine(), *final(node)) == walk(
                old(self).machine(),
                *old(node),
            ).field(name@, field_type, n),
            val == walk(old(self).machine(), *old(node)).field_value(name@, field_type, n),
    ;

    /// Opens the subnode `name` of `node` and hands back the node that the
    /// subnode's syntax is to be processed against.
    fn subnode(&mut self, node: &mut SyntaxNode, name: &str) -> (sub: SyntaxNode)
        requires
            old(self).ready(),
        ensures
            final(self).ready(),
            final(node).name == old(node).name,
            walk(final(self).machine(), *final(node)) == walk(
                old(self).machine(),
                *old(node),
            ).open(name@),
            walk(final(self).machine(), sub) == walk(old(self).machine(), *old(node)).inner(
                name@,
            ),
    ;

    /// Closes the subnode `name` of `node` once its syntax has been
    /// processed against `sub`.
    fn end_subnode(&mut self, node: &mut SyntaxNode, name: &str, sub: SyntaxNode)
        requires
            old(self).ready(),
        ensures
            final(self).ready(),
            final(node).name == old(node).name,
            walk(final(self).machine(), *final(node)) == walk(
                old(self).machine(),
                *old(node),
            ).close(name@, walk(old(self).machine(), sub)),
    ;

    /// Processes the payload `name`, which takes all the rest.
    fn payload(&mut self, node: &mut SyntaxNode, name: &str)
        requires
            old(self).ready(),
        ensures
            final(self).ready(),
            final(node).name == old(node).name,
            walk(final(self).machine(), *final(node)) == walk(
                old(self).machine(),
                *old(node),
            ).payload(name@),
    ;

    /// Whether more syntax follows.
    fn more_data(&self, node: &SyntaxNode) -> (more: bool)
        requires
            self.ready(),
        ensures
            more == walk(self.machine(), *node).more_data(),
    ;

    /// Records a failure, unless one is recorded already.
    fn raise(&mut self, kind: ErrorKind, name: &str)
        requires
            old(self).ready(),
        ensures
            final(self).ready(),
            final(self).machine() == old(self).machine().raise(kind, name@),
    ;

    /// Whether a failure is recorded.
    fn failed(&self) -> (failed: bool)
        ensures
            failed == self.machine().failed(),
    ;
}

} // verus!

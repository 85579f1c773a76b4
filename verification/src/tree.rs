//! Walking the children of a layout node, as the layout engine's node identifiers.
//!
//! Each tree keeps a node's children as raw identifiers; the layout engine asks for them one by
//! one as its own node identifier type.

use vstd::prelude::*;
use taffy::NodeId;

verus! {

/// A node identifier of the layout engine.
#[verifier::external_type_specification]
#[verifier::external_body]
pub struct ExNodeId(NodeId);

/// The layout engine's node identifier for a raw identifier.
pub uninterp spec fn node_id(raw: u64) -> NodeId;

/// Makes the layout engine's node identifier for a raw identifier, by `NodeId::from`, which
/// wraps the integer and nothing else.
#[verifier::external_body]
fn node_id_from(raw: u64) -> (id: NodeId)
    ensures
        id == node_id(raw),
{
    NodeId::from(raw)
}

/// The children of a node in the view tree, handed out in order.
pub struct TreeNodeChildIter<'a> {
    children: &'a [u64],
    next: usize,
}

impl<'a> TreeNodeChildIter<'a> {
    /// The raw identifiers not handed out yet, in order.
    pub closed spec fn spec_remaining(&self) -> Seq<u64> {
        self.children@.subrange(self.next as int, self.children@.len() as int)
    }

    /// The position is within the children.
    pub closed spec fn wf(&self) -> bool {
        self.next <= self.children@.len()
    }

    /// Walk `children` from the first.
    pub fn new(children: &'a [u64]) -> (it: Self)
        ensures
            it.wf(),
            it.spec_remaining() == children@,
    {
        let it = TreeNodeChildIter { children, next: 0 };
        assert(it.spec_remaining() =~= children@);
        it
    }

    /// The next child, if any is left.
    pub fn next(&mut self) -> (r: Option<NodeId>)
        requires
            old(self).wf(),
        ensures
            final(self).wf(),
            old(self).spec_remaining().len() == 0 ==> r is None && final(self).spec_remaining()
                == old(self).spec_remaining(),
            old(self).spec_remaining().len() > 0 ==> r == Some(
                node_id(old(self).spec_remaining()[0]),
            ) && final(self).spec_remaining() == old(self).spec_remaining().drop_first(),
    {
        if self.next < self.children.len() {
            let raw = self.children[self.next];
            self.next = self.next + 1;
            assert(self.spec_remaining() =~= old(self).spec_remaining().drop_first());
            Some(node_id_from(raw))
        } else {
            None
        }
    }
}

/// The children of a node in the layout map, handed out in order.
pub struct LayoutNodeChildIter<'a> {
    children: &'a [u64],
    next: usize,
}

impl<'a> LayoutNodeChildIter<'a> {
    /// The raw identifiers not handed out yet, in order.
    pub closed spec fn spec_remaining(&self) -> Seq<u64> {
        self.children@.subrange(self.next as int, self.children@.len() as int)
    }

    /// The position is within the children.
    pub closed spec fn wf(&self) -> bool {
        self.next <= self.children@.len()
    }

    /// Walk `children` from the first.
    pub fn new(children: &'a [u64]) -> (it: Self)
        ensures
            it.wf(),
            it.spec_remaining() == children@,
    {
        let it = LayoutNodeChildIter { children, next: 0 };
        assert(it.spec_remaining() =~= children@);
        it
    }

    /// The next child, if any is left.
    pub fn next(&mut self) -> (r: Option<NodeId>)
        requires
            old(self).wf(),
        ensures
            final(self).wf(),
            old(self).spec_remaining().len() == 0 ==> r is None && final(self).spec_remaining()
                == old(self).spec_remaining(),
            old(self).spec_remaining().len() > 0 ==> r == Some(
                node_id(old(self).spec_remaining()[0]),
            ) && final(self).spec_remaining() == old(self).spec_remaining().drop_first(),
    {
        if self.next < self.children.len() {
            let raw = self.children[self.next];
            self.next = self.next + 1;
            assert(self.spec_remaining() =~= old(self).spec_remaining().drop_first());
            Some(node_id_from(raw))
        } else {
            None
        }
    }
}

/// The children of a node in the style tree, handed out in order.
pub struct NodeTreeChildIter<'a> {
    children: &'a [u64],
    next: usize,
}

impl<'a> NodeTreeChildIter<'a> {
    /// The raw identifiers not handed out yet, in order.
    pub closed spec fn spec_remaining(&self) -> Seq<u64> {
        self.children@.subrange(self.next as int, self.children@.len() as int)
    }

    /// The position is within the children.
    pub closed spec fn wf(&self) -> bool {
        self.next <= self.children@.len()
    }

    /// Walk `children` from the first.
    pub fn new(children: &'a [u64]) -> (it: Self)
        ensures
            it.wf(),
            it.spec_remaining() == children@,
    {
        let it = NodeTreeChildIter { children, next: 0 };
        assert(it.spec_remaining() =~= children@);
        it
    }

    /// The next child, if any is left.
    pub fn next(&mut self) -> (r: Option<NodeId>)
        requires
            old(self).wf(),
        ensures
            final(self).wf(),
            old(self).spec_remaining().len() == 0 ==> r is None && final(self).spec_remaining()
                == old(self).spec_remaining(),
            old(self).spec_remaining().len() > 0 ==> r == Some(
                node_id(old(self).spec_remaining()[0]),
            ) && final(self).spec_remaining() == old(self).spec_remaining().drop_first(),
    {
        if self.next < self.children.len() {
            let raw = self.children[self.next];
            self.next = self.next + 1;
            assert(self.spec_remaining() =~= old(self).spec_remaining().drop_first());
            Some(node_id_from(raw))
        } else {
            None
        }
    }
}

} // verus!

use vstd::prelude::*;

use crate::target::{RefSet, Target};

verus! {

/// Tri-state liveness marker of a node.
///
/// `Unknown` is the default; at the end of a mark phase it means "proven
/// unreachable". `Trace` means the node is enqueued for visiting but its body
/// has not been walked yet. `Strong` means the node is proven reachable.
#[derive(Copy, Clone, PartialEq, Eq, Structural, Debug)]
pub enum State {
    /// Not yet known to be reachable.
    Unknown,
    /// Proven reachable: the node was traced and its body walked.
    Strong,
    /// Enqueued for visiting; the body has not been walked yet.
    Trace,
}

/// Per-node bookkeeping: the root count and the mark state.
#[derive(Copy, Clone, PartialEq, Eq, Structural, Debug)]
pub struct NodeHead {
    /// Number of outstanding root handles to the node.
    pub root: usize,
    /// Progress of the mark phase on the node.
    pub marker: State,
}

impl NodeHead {
    /// A fresh head: no roots, mark `Unknown`.
    pub fn new() -> (h: NodeHead)
        ensures
            h.root == 0,
            h.marker == State::Unknown,
    {
        NodeHead { root: 0, marker: State::Unknown }
    }

    /// Sets the mark state.
    pub fn set_marker(&mut self, state: State)
        ensures
            final(self).root == old(self).root,
            final(self).marker == state,
    {
        self.marker = state;
    }

    /// Reads the mark state.
    pub fn get_marker(&self) -> (s: State)
        ensures
            s == self.marker,
    {
        self.marker
    }

    /// Increments the root count.
    pub fn inc_root(&mut self)
        requires
            old(self).root < usize::MAX,
        ensures
            final(self).root == old(self).root + 1,
            final(self).marker == old(self).marker,
    {
        self.root = self.root + 1;
    }

    /// Decrements the root count. A zero count here is a host bug, so the
    /// caller must know the count is positive.
    pub fn dec_root(&mut self)
        requires
            old(self).root > 0,
        ensures
            final(self).root == old(self).root - 1,
            final(self).marker == old(self).marker,
    {
        self.root = self.root - 1;
    }
}

/// The heap-allocated unit of management: a payload, its declared edge set,
/// and the collector's bookkeeping head.
pub struct Node<T: Target> {
    /// The collector's bookkeeping for this node.
    pub head: NodeHead,
    /// The payload's outgoing edges.
    pub ref_set: T::Edges,
    /// The managed payload.
    pub value: T,
}

impl<T: Target> Node<T> {
    /// Read-only access to the node's edge set.
    pub fn ref_set(&self) -> (r: &T::Edges)
        ensures
            *r == self.ref_set,
    {
        &self.ref_set
    }

    /// Read-only access to the payload.
    pub fn value(&self) -> (v: &T)
        ensures
            *v == self.value,
    {
        &self.value
    }

    pub(crate) fn new(value: T) -> (n: Node<T>)
        ensures
            n.head.root == 0,
            n.head.marker == State::Unknown,
            n.ref_set.targets() == Seq::<usize>::empty(),
            n.value == value,
    {
        Node { head: NodeHead::new(), ref_set: <T::Edges as RefSet>::build(), value }
    }

    /// Flips a `Trace` node to `Strong` and appends its edge targets to the
    /// worklist.
    pub(crate) fn mark_and_collect(&mut self, stack: &mut Vec<usize>)
        requires
            old(self).head.marker == State::Trace,
        ensures
            final(self).head.root == old(self).head.root,
            final(self).head.marker == State::Strong,
            final(self).ref_set == old(self).ref_set,
            final(self).value == old(self).value,
            final(stack)@ == old(stack)@ + old(self).ref_set.targets(),
    {
        self.head.set_marker(State::Strong);
        self.ref_set.collect(stack);
    }
}

} // verus!

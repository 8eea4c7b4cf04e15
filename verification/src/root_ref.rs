use vstd::prelude::*;

verus! {

/// An owning root handle to a managed node.
///
/// While a `RootRef` to a node is outstanding, the node's root count is
/// positive, so the node survives every sweep. Handles are minted and
/// released only through the collector, which adjusts the target's root
/// count by one in each direction.
pub struct RootRef {
    pub(crate) node: usize,
}

impl View for RootRef {
    type V = int;

    closed spec fn view(&self) -> int {
        self.node as int
    }
}

impl RootRef {
    pub(crate) proof fn reveal_view(self)
        ensures
            self@ == self.node as int,
    {
    }

    /// The arena index of the node this handle roots.
    pub fn index(&self) -> (i: usize)
        ensures
            i as int == self@,
    {
        self.node
    }
}

} // verus!

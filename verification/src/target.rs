use vstd::prelude::*;

verus! {

/// The outgoing-edge structure of a managed payload.
///
/// An implementor stores zero or more node indices; the collector walks them
/// during the mark phase of a sweep. `targets` is the mathematical content of
/// the edge set: the sequence of stored edge targets, each visited exactly
/// once by `collect`.
pub trait RefSet: Sized {
    /// The stored edge targets, in the order `collect` visits them.
    spec fn targets(&self) -> Seq<usize>;

    /// A fresh instance holding no edges. Called once per node when the node
    /// is constructed.
    fn build() -> (r: Self)
        ensures
            r.targets() == Seq::<usize>::empty(),
    ;

    /// Appends every stored edge target onto the worklist, each exactly once.
    fn collect(&self, stack: &mut Vec<usize>)
        ensures
            final(stack)@ == old(stack)@ + self.targets(),
    ;
}

/// The contract a payload must satisfy to be placed under management.
///
/// `Edges` is the payload's declared outgoing-edge structure; the collector
/// builds one instance per node and traces it during sweeps. `pre_drop` is an
/// optional hook the collector runs on an unreachable node, with its edge set
/// still valid, before any destructor of the same sweep runs.
pub trait Target: Sized {
    /// The declared outgoing-edge structure of this payload.
    type Edges: RefSet;

    /// Hook run before an unreachable node is destroyed, while its edges are
    /// still valid. The hook must not mutate the graph in a way that would
    /// resurrect an object.
    fn pre_drop(&self, _ref_set: &Self::Edges) {
    }
}

} // verus!

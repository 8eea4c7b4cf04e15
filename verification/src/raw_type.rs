use vstd::prelude::*;

use crate::target::Target;

verus! {

/// A wrapper that manages a value with no outgoing edges.
///
/// `RawType` implements [`Target`] with the empty edge set, so a wrapped
/// value cannot reference other managed objects; it is kept alive by its
/// root count alone.
pub struct RawType<T>(pub T);

impl<T> Target for RawType<T> {
    type Edges = ();
}

} // verus!

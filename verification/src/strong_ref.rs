use vstd::prelude::*;

use crate::target::RefSet;

verus! {

/// A single-slot edge: zero or one non-owning reference to a node, stored as
/// an arena index.
///
/// Writing the slot does not change any root count: the slot itself holds no
/// root. The collector observes the stored edge at the next mark phase.
pub struct StrongRef {
    /// The stored edge target, if any.
    pub target: Option<usize>,
}

impl StrongRef {
    /// The stored edge target, if any.
    pub fn get(&self) -> (r: Option<usize>)
        ensures
            r == self.target,
    {
        self.target
    }

    /// Overwrites the slot.
    pub fn set(&mut self, r: Option<usize>)
        ensures
            final(self).target == r,
    {
        self.target = r;
    }

    /// Points the slot at `r`.
    pub fn set_ref(&mut self, r: usize)
        ensures
            final(self).target == Some(r),
    {
        self.target = Some(r);
    }

    /// Empties the slot.
    pub fn set_none(&mut self)
        ensures
            final(self).target is None,
    {
        self.target = None;
    }
}

impl RefSet for StrongRef {
    open spec fn targets(&self) -> Seq<usize> {
        match self.target {
            Some(t) => seq![t],
            None => Seq::empty(),
        }
    }

    fn build() -> (r: Self) {
        StrongRef { target: None }
    }

    fn collect(&self, stack: &mut Vec<usize>) {
        match self.target {
            Some(t) => {
                stack.push(t);
            },
            None => {
                proof {
                    assert(stack@ =~= stack@ + self.targets());
                }
            },
        }
    }
}

} // verus!

use vstd::prelude::*;

use crate::target::RefSet;

verus! {

/// A growable sequence of single-slot edges, each stored as an arena index.
///
/// Out-of-range access through `get` and `set` is signaled to the caller;
/// every other operation is infallible.
pub struct StrongVec {
    /// The stored edge targets, in order.
    pub entries: Vec<usize>,
}

impl StrongVec {
    /// The edge target at `index`, or an error if `index` is out of range.
    pub fn get(&self, index: usize) -> (r: Result<usize, ()>)
        ensures
            index < self.entries@.len() ==> r == Ok::<usize, ()>(self.entries@[index as int]),
            index >= self.entries@.len() ==> r is Err,
    {
        if index < self.entries.len() {
            Ok(self.entries[index])
        } else {
            Err(())
        }
    }

    /// Overwrites the edge at `index`, or returns an error if `index` is out
    /// of range.
    pub fn set(&mut self, index: usize, r: usize) -> (res: Result<(), ()>)
        ensures
            index < old(self).entries@.len() ==> res is Ok && final(self).entries@ == old(
                self,
            ).entries@.update(index as int, r),
            index >= old(self).entries@.len() ==> res is Err && final(self).entries@ == old(
                self,
            ).entries@,
    {
        if index < self.entries.len() {
            self.entries[index] = r;
            Ok(())
        } else {
            Err(())
        }
    }

    /// Appends one edge.
    pub fn push(&mut self, r: usize)
        ensures
            final(self).entries@ == old(self).entries@.push(r),
    {
        self.entries.push(r);
    }

    /// Appends every index of `rs`, in order.
    pub fn extend(&mut self, rs: &[usize])
        ensures
            final(self).entries@ == old(self).entries@ + rs@,
    {
        let n = rs.len();
        let mut k: usize = 0;
        while k < n
            invariant
                k <= n,
                n == rs@.len(),
                self.entries@ == old(self).entries@ + rs@.take(k as int),
            decreases n - k,
        {
            self.entries.push(rs[k]);
            proof {
                assert(rs@.take(k as int).push(rs@[k as int]) =~= rs@.take(k + 1 as int));
            }
            k = k + 1;
        }
        proof {
            assert(rs@.take(n as int) =~= rs@);
        }
    }

    /// Every current edge target, in order.
    pub fn get_all(&self) -> (r: Vec<usize>)
        ensures
            r@ == self.entries@,
    {
        let n = self.entries.len();
        let mut out: Vec<usize> = Vec::new();
        let mut k: usize = 0;
        while k < n
            invariant
                k <= n,
                n == self.entries@.len(),
                out@ == self.entries@.take(k as int),
            decreases n - k,
        {
            out.push(self.entries[k]);
            proof {
                assert(self.entries@.take(k as int).push(self.entries@[k as int]) =~= self
                    .entries@.take(k + 1 as int));
            }
            k = k + 1;
        }
        proof {
            assert(self.entries@.take(n as int) =~= self.entries@);
        }
        out
    }
}

impl RefSet for StrongVec {
    open spec fn targets(&self) -> Seq<usize> {
        self.entries@
    }

    fn build() -> (r: Self) {
        StrongVec { entries: Vec::new() }
    }

    fn collect(&self, stack: &mut Vec<usize>) {
        let n = self.entries.len();
        let mut k: usize = 0;
        while k < n
            invariant
                k <= n,
                n == self.entries@.len(),
                stack@ == old(stack)@ + self.entries@.take(k as int),
            decreases n - k,
        {
            stack.push(self.entries[k]);
            proof {
                assert((old(stack)@ + self.entries@.take(k as int)).push(self.entries@[k as int])
                    =~= old(stack)@ + self.entries@.take(k + 1 as int));
            }
            k = k + 1;
        }
        proof {
            assert(old(stack)@ + self.entries@.take(n as int) =~= old(stack)@ + self.entries@);
        }
    }
}

} // verus!

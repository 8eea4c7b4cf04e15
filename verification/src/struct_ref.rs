use vstd::prelude::*;

use crate::target::RefSet;

verus! {

/// The edge targets of a sequence of edge sets, in order.
pub open spec fn seq_targets<T: RefSet>(s: Seq<T>) -> Seq<usize>
    decreases s.len(),
{
    if s.len() == 0 {
        Seq::empty()
    } else {
        seq_targets(s.drop_last()) + s.last().targets()
    }
}

proof fn lemma_seq_targets_take<T: RefSet>(s: Seq<T>, k: int)
    requires
        0 <= k < s.len(),
    ensures
        seq_targets(s.take(k + 1)) == seq_targets(s.take(k)) + s[k].targets(),
{
    let q = s.take(k + 1);
    assert(q.drop_last() =~= s.take(k));
    assert(q.last() == s[k]);
}

impl RefSet for () {
    open spec fn targets(&self) -> Seq<usize> {
        Seq::empty()
    }

    fn build() -> (r: Self) {
    }

    fn collect(&self, stack: &mut Vec<usize>) {
        proof {
            assert(stack@ =~= stack@ + self.targets());
        }
    }
}

/// Relies on core::array::from_fn: the returned array holds one result of
/// the given closure per element. The closure builds a fresh empty edge set,
/// so every element's target list is empty.
#[verifier::external_body]
fn build_array<T: RefSet, const N: usize>() -> (r: [T; N])
    ensures
        forall|i: int| 0 <= i < N as int ==> (#[trigger] r@[i]).targets() == Seq::<usize>::empty(),
{
    core::array::from_fn(|_idx| T::build())
}

impl<T: RefSet, const N: usize> RefSet for [T; N] {
    open spec fn targets(&self) -> Seq<usize> {
        seq_targets(self@)
    }

    fn build() -> (r: Self) {
        let arr: [T; N] = build_array();
        proof {
            lemma_empty_prefix(arr@, N as int);
            assert(arr@.take(N as int) =~= arr@);
            assert(seq_targets(arr@) =~= Seq::<usize>::empty());
        }
        arr
    }

    fn collect(&self, stack: &mut Vec<usize>) {
        let mut k: usize = 0;
        while k < N
            invariant
                k <= N,
                stack@ == old(stack)@ + seq_targets(self@.take(k as int)),
            decreases N - k,
        {
            self[k].collect(stack);
            proof {
                lemma_seq_targets_take(self@, k as int);
                assert(stack@ =~= old(stack)@ + seq_targets(self@.take(k + 1 as int)));
            }
            k = k + 1;
        }
        proof {
            assert(self@.take(N as int) =~= self@);
        }
    }
}

proof fn lemma_empty_prefix<T: RefSet>(s: Seq<T>, m: int)
    requires
        0 <= m <= s.len(),
        forall|i: int| 0 <= i < s.len() ==> (#[trigger] s[i]).targets() == Seq::<usize>::empty(),
    ensures
        seq_targets(s.take(m)) == Seq::<usize>::empty(),
    decreases m,
{
    if m > 0 {
        lemma_empty_prefix(s, m - 1);
        lemma_seq_targets_take(s, m - 1);
        assert(seq_targets(s.take(m)) =~= Seq::<usize>::empty());
    }
}

impl<A: RefSet> RefSet for (A,) {
    open spec fn targets(&self) -> Seq<usize> {
        self.0.targets()
    }

    fn build() -> (r: Self) {
        (A::build(),)
    }

    fn collect(&self, stack: &mut Vec<usize>) {
        self.0.collect(stack);
    }
}

impl<A: RefSet, B: RefSet> RefSet for (A, B) {
    open spec fn targets(&self) -> Seq<usize> {
        self.0.targets() + self.1.targets()
    }

    fn build() -> (r: Self) {
        (A::build(), B::build())
    }

    fn collect(&self, stack: &mut Vec<usize>) {
        self.0.collect(stack);
        self.1.collect(stack);
        proof {
            assert(stack@ =~= old(stack)@ + self.targets());
        }
    }
}

impl<A: RefSet, B: RefSet, C: RefSet> RefSet for (A, B, C) {
    open spec fn targets(&self) -> Seq<usize> {
        self.0.targets() + self.1.targets() + self.2.targets()
    }

    fn build() -> (r: Self) {
        (A::build(), B::build(), C::build())
    }

    fn collect(&self, stack: &mut Vec<usize>) {
        self.0.collect(stack);
        self.1.collect(stack);
        self.2.collect(stack);
        proof {
            assert(stack@ =~= old(stack)@ + self.targets());
        }
    }
}

impl<A: RefSet, B: RefSet, C: RefSet, D: RefSet> RefSet for (A, B, C, D) {
    open spec fn targets(&self) -> Seq<usize> {
        self.0.targets() + self.1.targets() + self.2.targets() + self.3.targets()
    }

    fn build() -> (r: Self) {
        (A::build(), B::build(), C::build(), D::build())
    }

    fn collect(&self, stack: &mut Vec<usize>) {
        self.0.collect(stack);
        self.1.collect(stack);
        self.2.collect(stack);
        self.3.collect(stack);
        proof {
            assert(stack@ =~= old(stack)@ + self.targets());
        }
    }
}

impl<A: RefSet, B: RefSet, C: RefSet, D: RefSet, E: RefSet> RefSet for (A, B, C, D, E) {
    open spec fn targets(&self) -> Seq<usize> {
        self.0.targets() + self.1.targets() + self.2.targets() + self.3.targets()
            + self.4.targets()
    }

    fn build() -> (r: Self) {
        (A::build(), B::build(), C::build(), D::build(), E::build())
    }

    fn collect(&self, stack: &mut Vec<usize>) {
        self.0.collect(stack);
        self.1.collect(stack);
        self.2.collect(stack);
        self.3.collect(stack);
        self.4.collect(stack);
        proof {
            assert(stack@ =~= old(stack)@ + self.targets());
        }
    }
}

impl<A: RefSet, B: RefSet, C: RefSet, D: RefSet, E: RefSet, F: RefSet> RefSet for (
    A,
    B,
    C,
    D,
    E,
    F,
) {
    open spec fn targets(&self) -> Seq<usize> {
        self.0.targets() + self.1.targets() + self.2.targets() + self.3.targets()
            + self.4.targets() + self.5.targets()
    }

    fn build() -> (r: Self) {
        (A::build(), B::build(), C::build(), D::build(), E::build(), F::build())
    }

    fn collect(&self, stack: &mut Vec<usize>) {
        self.0.collect(stack);
        self.1.collect(stack);
        self.2.collect(stack);
        self.3.collect(stack);
        self.4.collect(stack);
        self.5.collect(stack);
        proof {
            assert(stack@ =~= old(stack)@ + self.targets());
        }
    }
}

impl<A: RefSet, B: RefSet, C: RefSet, D: RefSet, E: RefSet, F: RefSet, G: RefSet> RefSet for (
    A,
    B,
    C,
    D,
    E,
    F,
    G,
) {
    open spec fn targets(&self) -> Seq<usize> {
        self.0.targets() + self.1.targets() + self.2.targets() + self.3.targets() + self.4.targets() + self.5.targets() + self.6.targets()
    }

    fn build() -> (r: Self) {
        (A::build(), B::build(), C::build(), D::build(), E::build(), F::build(), G::build())
    }

    fn collect(&self, stack: &mut Vec<usize>) {
        self.0.collect(stack);
        self.1.collect(stack);
        self.2.collect(stack);
        self.3.collect(stack);
        self.4.collect(stack);
        self.5.collect(stack);
        self.6.collect(stack);
        proof {
            assert(stack@ =~= old(stack)@ + self.targets());
        }
    }
}

impl<A: RefSet, B: RefSet, C: RefSet, D: RefSet, E: RefSet, F: RefSet, G: RefSet, H: RefSet> RefSet for (
    A,
    B,
    C,
    D,
    E,
    F,
    G,
    H,
) {
    open spec fn targets(&self) -> Seq<usize> {
        self.0.targets() + self.1.targets() + self.2.targets() + self.3.targets() + self.4.targets() + self.5.targets() + self.6.targets() + self.7.targets()
    }

    fn build() -> (r: Self) {
        (A::build(), B::build(), C::build(), D::build(), E::build(), F::build(), G::build(), H::build())
    }

    fn collect(&self, stack: &mut Vec<usize>) {
        self.0.collect(stack);
        self.1.collect(stack);
        self.2.collect(stack);
        self.3.collect(stack);
        self.4.collect(stack);
        self.5.collect(stack);
        self.6.collect(stack);
        self.7.collect(stack);
        proof {
            assert(stack@ =~= old(stack)@ + self.targets());
        }
    }
}

impl<A: RefSet, B: RefSet, C: RefSet, D: RefSet, E: RefSet, F: RefSet, G: RefSet, H: RefSet, I: RefSet> RefSet for (
    A,
    B,
    C,
    D,
    E,
    F,
    G,
    H,
    I,
) {
    open spec fn targets(&self) -> Seq<usize> {
        self.0.targets() + self.1.targets() + self.2.targets() + self.3.targets() + self.4.targets() + self.5.targets() + self.6.targets() + self.7.targets() + self.8.targets()
    }

    fn build() -> (r: Self) {
        (A::build(), B::build(), C::build(), D::build(), E::build(), F::build(), G::build(), H::build(), I::build())
    }

    fn collect(&self, stack: &mut Vec<usize>) {
        self.0.collect(stack);
        self.1.collect(stack);
        self.2.collect(stack);
        self.3.collect(stack);
        self.4.collect(stack);
        self.5.collect(stack);
        self.6.collect(stack);
        self.7.collect(stack);
        self.8.collect(stack);
        proof {
            assert(stack@ =~= old(stack)@ + self.targets());
        }
    }
}

impl<A: RefSet, B: RefSet, C: RefSet, D: RefSet, E: RefSet, F: RefSet, G: RefSet, H: RefSet, I: RefSet, J: RefSet> RefSet for (
    A,
    B,
    C,
    D,
    E,
    F,
    G,
    H,
    I,
    J,
) {
    open spec fn targets(&self) -> Seq<usize> {
        self.0.targets() + self.1.targets() + self.2.targets() + self.3.targets() + self.4.targets() + self.5.targets() + self.6.targets() + self.7.targets() + self.8.targets() + self.9.targets()
    }

    fn build() -> (r: Self) {
        (A::build(), B::build(), C::build(), D::build(), E::build(), F::build(), G::build(), H::build(), I::build(), J::build())
    }

    fn collect(&self, stack: &mut Vec<usize>) {
        self.0.collect(stack);
        self.1.collect(stack);
        self.2.collect(stack);
        self.3.collect(stack);
        self.4.collect(stack);
        self.5.collect(stack);
        self.6.collect(stack);
        self.7.collect(stack);
        self.8.collect(stack);
        self.9.collect(stack);
        proof {
            assert(stack@ =~= old(stack)@ + self.targets());
        }
    }
}

impl<A: RefSet, B: RefSet, C: RefSet, D: RefSet, E: RefSet, F: RefSet, G: RefSet, H: RefSet, I: RefSet, J: RefSet, K: RefSet> RefSet for (
    A,
    B,
    C,
    D,
    E,
    F,
    G,
    H,
    I,
    J,
    K,
) {
    open spec fn targets(&self) -> Seq<usize> {
        self.0.targets() + self.1.targets() + self.2.targets() + self.3.targets() + self.4.targets() + self.5.targets() + self.6.targets() + self.7.targets() + self.8.targets() + self.9.targets() + self.10.targets()
    }

    fn build() -> (r: Self) {
        (A::build(), B::build(), C::build(), D::build(), E::build(), F::build(), G::build(), H::build(), I::build(), J::build(), K::build())
    }

    fn collect(&self, stack: &mut Vec<usize>) {
        self.0.collect(stack);
        self.1.collect(stack);
        self.2.collect(stack);
        self.3.collect(stack);
        self.4.collect(stack);
        self.5.collect(stack);
        self.6.collect(stack);
        self.7.collect(stack);
        self.8.collect(stack);
        self.9.collect(stack);
        self.10.collect(stack);
        proof {
            assert(stack@ =~= old(stack)@ + self.targets());
        }
    }
}

impl<A: RefSet, B: RefSet, C: RefSet, D: RefSet, E: RefSet, F: RefSet, G: RefSet, H: RefSet, I: RefSet, J: RefSet, K: RefSet, L: RefSet> RefSet for (
    A,
    B,
    C,
    D,
    E,
    F,
    G,
    H,
    I,
    J,
    K,
    L,
) {
    open spec fn targets(&self) -> Seq<usize> {
        self.0.targets() + self.1.targets() + self.2.targets() + self.3.targets() + self.4.targets() + self.5.targets() + self.6.targets() + self.7.targets() + self.8.targets() + self.9.targets() + self.10.targets() + self.11.targets()
    }

    fn build() -> (r: Self) {
        (A::build(), B::build(), C::build(), D::build(), E::build(), F::build(), G::build(), H::build(), I::build(), J::build(), K::build(), L::build())
    }

    fn collect(&self, stack: &mut Vec<usize>) {
        self.0.collect(stack);
        self.1.collect(stack);
        self.2.collect(stack);
        self.3.collect(stack);
        self.4.collect(stack);
        self.5.collect(stack);
        self.6.collect(stack);
        self.7.collect(stack);
        self.8.collect(stack);
        self.9.collect(stack);
        self.10.collect(stack);
        self.11.collect(stack);
        proof {
            assert(stack@ =~= old(stack)@ + self.targets());
        }
    }
}

} // verus!

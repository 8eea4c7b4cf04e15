use vstd::prelude::*;

use crate::node::{Node, State};
use crate::raw_type::RawType;
use crate::root_ref::RootRef;
use crate::target::{RefSet, Target};

verus! {

/// Construction-time configuration of a collector.
#[derive(Copy, Clone, PartialEq, Eq, Structural, Debug)]
pub struct Config {
    /// Whether a sweep runs the pre-drop hook on unreachable nodes before
    /// destroying them.
    pub pre_drop: bool,
    /// Slot capacity reserved at construction and kept after a sweep.
    pub init_cap: usize,
    /// Capacity reserved for forget-mode nodes.
    pub forget_cap: usize,
    /// Size of the preallocated mark worklist, in percent of the node count.
    pub stack_percent: usize,
}

impl Default for Config {
    fn default() -> (c: Config)
        ensures
            c.pre_drop == false,
            c.init_cap == 32,
            c.forget_cap == 0,
            c.stack_percent == 10,
    {
        Config { pre_drop: false, init_cap: 32, forget_cap: 0, stack_percent: 10 }
    }
}

pub(crate) struct Slot<T: Target> {
    pub(crate) node: Option<Node<T>>,
    pub(crate) forgotten: bool,
}

/// A scope-bounded mark-and-sweep collector.
///
/// The collector owns every managed node in an arena of slots; a node is
/// addressed by the index of its slot, which is stable from allocation until
/// the sweep that reclaims it. Root handles ([`RootRef`]) are minted and
/// released through the collector, which keeps each node's root count equal
/// to the number of outstanding handles. [`Gc::clear`] runs one mark-and-sweep
/// pass; its contract states that the survivors are exactly the nodes
/// reachable from a rooted node through declared edges.
pub struct Gc<T: Target> {
    config: Config,
    nodes: Vec<Slot<T>>,
}

impl<T: Target> Gc<T> {
    /// The configuration the collector was built with.
    pub closed spec fn cfg(self) -> Config {
        self.config
    }

    /// The number of slots in the arena, freed ones included.
    pub closed spec fn len(self) -> int {
        self.nodes@.len() as int
    }

    /// Whether slot `i` holds a node.
    pub closed spec fn occupied(self, i: int) -> bool {
        0 <= i < self.nodes@.len() && self.nodes@[i].node is Some
    }

    /// Whether slot `i` was allocated in forget mode.
    pub closed spec fn forgotten(self, i: int) -> bool {
        self.nodes@[i].forgotten
    }

    /// The root count of the node in slot `i`.
    pub closed spec fn root_of(self, i: int) -> nat {
        self.nodes@[i].node.unwrap().head.root as nat
    }

    /// The mark state of the node in slot `i`.
    pub closed spec fn mark_of(self, i: int) -> State {
        self.nodes@[i].node.unwrap().head.marker
    }

    /// The edge set of the node in slot `i`.
    pub closed spec fn ref_set_of(self, i: int) -> T::Edges {
        self.nodes@[i].node.unwrap().ref_set
    }

    /// The payload of the node in slot `i`.
    pub closed spec fn value_of(self, i: int) -> T {
        self.nodes@[i].node.unwrap().value
    }

    /// The edge targets declared by the node in slot `i`.
    pub open spec fn edges_of(self, i: int) -> Seq<usize> {
        self.ref_set_of(i).targets()
    }

    /// Whether slot `i` holds a rooted node.
    pub open spec fn rooted(self, i: int) -> bool {
        self.occupied(i) && self.root_of(i) > 0
    }

    /// Whether the node in slot `a` declares an edge to the node in slot `b`.
    pub open spec fn has_edge(self, a: int, b: int) -> bool {
        self.occupied(a) && self.occupied(b) && self.edges_of(a).contains(b as usize)
    }

    /// Whether `p` is a chain of declared edges that starts at a rooted node.
    pub open spec fn is_path(self, p: Seq<int>) -> bool {
        &&& p.len() > 0
        &&& self.rooted(p[0])
        &&& forall|k: int| 0 <= k < p.len() - 1 ==> self.has_edge(#[trigger] p[k], p[k + 1])
    }

    /// Whether the node in slot `i` is reachable: rooted, or reachable from a
    /// rooted node through declared edges.
    pub open spec fn live(self, i: int) -> bool {
        exists|p: Seq<int>| self.is_path(p) && p.last() == i
    }

    /// Whether slot `j` is the same in `a` and in `b`: same occupancy and
    /// forget flag, and for an occupied slot the same node.
    pub open spec fn slot_eq(a: Gc<T>, b: Gc<T>, j: int) -> bool {
        &&& a.occupied(j) == b.occupied(j)
        &&& a.forgotten(j) == b.forgotten(j)
        &&& (a.occupied(j) ==> {
            &&& a.root_of(j) == b.root_of(j)
            &&& a.mark_of(j) == b.mark_of(j)
            &&& a.ref_set_of(j) == b.ref_set_of(j)
            &&& a.value_of(j) == b.value_of(j)
        })
    }

    /// Whether every slot below `pre`'s length but slot `i` is the same in
    /// `pre` and in `post`. This is the frame of an operation that touches
    /// one node.
    pub open spec fn frame_except(pre: Gc<T>, post: Gc<T>, i: int) -> bool {
        forall|j: int|
            #![trigger post.occupied(j)]
            #![trigger post.forgotten(j)]
            #![trigger post.mark_of(j)]
            #![trigger post.root_of(j)]
            #![trigger post.ref_set_of(j)]
            #![trigger post.value_of(j)]
            0 <= j < pre.len() && j != i ==> {
                &&& post.occupied(j) == pre.occupied(j)
                &&& post.forgotten(j) == pre.forgotten(j)
                &&& (pre.occupied(j) ==> {
                    &&& post.root_of(j) == pre.root_of(j)
                    &&& post.mark_of(j) == pre.mark_of(j)
                    &&& post.ref_set_of(j) == pre.ref_set_of(j)
                    &&& post.value_of(j) == pre.value_of(j)
                })
            }
    }

    /// Whether `a` and `b` are observably the same collector state.
    pub open spec fn state_eq(a: Gc<T>, b: Gc<T>) -> bool {
        &&& a.cfg() == b.cfg()
        &&& a.len() == b.len()
        &&& forall|j: int|
            #![trigger b.occupied(j)]
            #![trigger b.forgotten(j)]
            #![trigger b.mark_of(j)]
            #![trigger b.root_of(j)]
            #![trigger b.ref_set_of(j)]
            #![trigger b.value_of(j)]
            0 <= j < a.len() ==> {
                &&& b.occupied(j) == a.occupied(j)
                &&& b.forgotten(j) == a.forgotten(j)
                &&& (a.occupied(j) ==> {
                    &&& b.root_of(j) == a.root_of(j)
                    &&& b.mark_of(j) == a.mark_of(j)
                    &&& b.ref_set_of(j) == a.ref_set_of(j)
                    &&& b.value_of(j) == a.value_of(j)
                })
            }
    }

    /// Whether `b` differs from `a` at most in mark states: the same slots,
    /// roots, edges, payloads and forget flags.
    pub open spec fn same_skeleton(a: Gc<T>, b: Gc<T>) -> bool {
        &&& a.cfg() == b.cfg()
        &&& a.len() == b.len()
        &&& forall|j: int|
            #![trigger a.occupied(j)]
            #![trigger b.occupied(j)]
            a.occupied(j) == b.occupied(j)
        &&& forall|j: int|
            #![trigger a.forgotten(j)]
            #![trigger b.forgotten(j)]
            0 <= j < a.len() ==> a.forgotten(j) == b.forgotten(j)
        &&& forall|j: int|
            #![trigger a.occupied(j)]
            #![trigger b.occupied(j)]
            a.occupied(j) ==> {
                &&& a.root_of(j) == b.root_of(j)
                &&& a.ref_set_of(j) == b.ref_set_of(j)
                &&& a.value_of(j) == b.value_of(j)
            }
    }

    /// The number of occupied slots that were not allocated in forget mode,
    /// among the first `n`.
    pub open spec fn count_live(self, n: int) -> nat
        decreases n,
    {
        if n <= 0 {
            0
        } else {
            self.count_live(n - 1) + (if self.occupied(n - 1) && !self.forgotten(n - 1) {
                1nat
            } else {
                0nat
            })
        }
    }

    /// The number of occupied forget-mode slots among the first `n`.
    pub open spec fn count_forgotten(self, n: int) -> nat
        decreases n,
    {
        if n <= 0 {
            0
        } else {
            self.count_forgotten(n - 1) + (if self.occupied(n - 1) && self.forgotten(n - 1) {
                1nat
            } else {
                0nat
            })
        }
    }

    /// A fresh collector with configuration `config` and no nodes.
    pub fn with_config(config: Config) -> (g: Gc<T>)
        ensures
            g.cfg() == config,
            g.len() == 0,
    {
        Gc { config, nodes: Vec::with_capacity(config.init_cap) }
    }

    /// Takes a value under management. The new node goes into a fresh slot at
    /// the end of the arena with an empty edge set, and the returned root
    /// handle is the node's single root.
    pub fn new(&mut self, value: T) -> (r: RootRef)
        ensures
            final(self).cfg() == old(self).cfg(),
            final(self).len() == old(self).len() + 1,
            Gc::frame_except(*old(self), *final(self), old(self).len()),
            r@ == old(self).len(),
            final(self).occupied(old(self).len()),
            !final(self).forgotten(old(self).len()),
            final(self).root_of(old(self).len()) == 1,
            final(self).mark_of(old(self).len()) == State::Unknown,
            final(self).edges_of(old(self).len()) == Seq::<usize>::empty(),
            final(self).value_of(old(self).len()) == value,
    {
        self.install(value, false)
    }

    /// Takes a value under management in forget mode: when the node is
    /// reclaimed, its memory is freed without running the payload's
    /// destructor or pre-drop hook.
    pub fn forget(&mut self, value: T) -> (r: RootRef)
        ensures
            final(self).cfg() == old(self).cfg(),
            final(self).len() == old(self).len() + 1,
            Gc::frame_except(*old(self), *final(self), old(self).len()),
            r@ == old(self).len(),
            final(self).occupied(old(self).len()),
            final(self).forgotten(old(self).len()),
            final(self).root_of(old(self).len()) == 1,
            final(self).mark_of(old(self).len()) == State::Unknown,
            final(self).edges_of(old(self).len()) == Seq::<usize>::empty(),
            final(self).value_of(old(self).len()) == value,
    {
        self.install(value, true)
    }

    fn install(&mut self, value: T, forgotten: bool) -> (r: RootRef)
        ensures
            final(self).cfg() == old(self).cfg(),
            final(self).len() == old(self).len() + 1,
            Gc::frame_except(*old(self), *final(self), old(self).len()),
            r@ == old(self).len(),
            final(self).occupied(old(self).len()),
            final(self).forgotten(old(self).len()) == forgotten,
            final(self).root_of(old(self).len()) == 1,
            final(self).mark_of(old(self).len()) == State::Unknown,
            final(self).edges_of(old(self).len()) == Seq::<usize>::empty(),
            final(self).value_of(old(self).len()) == value,
    {
        let idx = self.nodes.len();
        let mut node = Node::new(value);
        node.head.inc_root();
        self.nodes.push(Slot { node: Some(node), forgotten });
        let r = RootRef { node: idx };
        proof {
            r.reveal_view();
        }
        r
    }

    /// The number of managed nodes not allocated in forget mode.
    pub fn get_node_count(&self) -> (r: usize)
        ensures
            r as nat == self.count_live(self.len()),
    {
        let n = self.nodes.len();
        let mut count: usize = 0;
        let mut i: usize = 0;
        while i < n
            invariant
                i <= n,
                n as int == self.len(),
                count as nat == self.count_live(i as int),
                count <= i,
            decreases n - i,
        {
            match &self.nodes[i].node {
                Some(_) => {
                    if !self.nodes[i].forgotten {
                        count = count + 1;
                    }
                },
                None => {},
            }
            i = i + 1;
        }
        count
    }

    /// The number of managed forget-mode nodes.
    pub fn get_forget_count(&self) -> (r: usize)
        ensures
            r as nat == self.count_forgotten(self.len()),
    {
        let n = self.nodes.len();
        let mut count: usize = 0;
        let mut i: usize = 0;
        while i < n
            invariant
                i <= n,
                n as int == self.len(),
                count as nat == self.count_forgotten(i as int),
                count <= i,
            decreases n - i,
        {
            match &self.nodes[i].node {
                Some(_) => {
                    if self.nodes[i].forgotten {
                        count = count + 1;
                    }
                },
                None => {},
            }
            i = i + 1;
        }
        count
    }

    /// The number of slots in the arena, freed ones included.
    pub fn slot_count(&self) -> (r: usize)
        ensures
            r as int == self.len(),
    {
        self.nodes.len()
    }

    /// Read-only access to the node in slot `i`, if the slot holds one.
    pub fn node(&self, i: usize) -> (r: Option<&Node<T>>)
        ensures
            match r {
                Some(n) => {
                    &&& self.occupied(i as int)
                    &&& n.head.root as nat == self.root_of(i as int)
                    &&& n.head.marker == self.mark_of(i as int)
                    &&& n.ref_set == self.ref_set_of(i as int)
                    &&& n.value == self.value_of(i as int)
                },
                None => !self.occupied(i as int),
            },
    {
        if i < self.nodes.len() {
            match &self.nodes[i].node {
                Some(n) => Some(n),
                None => None,
            }
        } else {
            None
        }
    }

    /// Mutable access to the edge set of the node in slot `i`, so the host
    /// can rewire the node's outgoing edges.
    pub fn ref_set_mut(&mut self, i: usize) -> (r: &mut T::Edges)
        requires
            old(self).occupied(i as int),
        ensures
            *r == old(self).ref_set_of(i as int),
            final(self).cfg() == old(self).cfg(),
            final(self).len() == old(self).len(),
            Gc::frame_except(*old(self), *final(self), i as int),
            final(self).occupied(i as int),
            final(self).forgotten(i as int) == old(self).forgotten(i as int),
            final(self).root_of(i as int) == old(self).root_of(i as int),
            final(self).mark_of(i as int) == old(self).mark_of(i as int),
            final(self).value_of(i as int) == old(self).value_of(i as int),
            final(self).ref_set_of(i as int) == *final(r),
    {
        match &mut self.nodes[i].node {
            Some(n) => &mut n.ref_set,
            None => unreached(),
        }
    }

    /// The root count of the node in slot `i`, or `None` for a free slot.
    pub fn root_count(&self, i: usize) -> (r: Option<usize>)
        ensures
            match r {
                Some(c) => self.occupied(i as int) && c as nat == self.root_of(i as int),
                None => !self.occupied(i as int),
            },
    {
        if i < self.nodes.len() {
            match &self.nodes[i].node {
                Some(n) => Some(n.head.root),
                None => None,
            }
        } else {
            None
        }
    }

    /// Mints a fresh root handle to the node in slot `i`, incrementing its
    /// root count. Returns `None` when the slot is free or the root count
    /// cannot grow.
    pub fn root_at(&mut self, i: usize) -> (r: Option<RootRef>)
        ensures
            final(self).cfg() == old(self).cfg(),
            final(self).len() == old(self).len(),
            r is Some <==> old(self).occupied(i as int) && old(self).root_of(i as int)
                < usize::MAX,
            match r {
                Some(rr) => {
                    &&& rr@ == i as int
                    &&& Gc::frame_except(*old(self), *final(self), i as int)
                    &&& final(self).occupied(i as int)
                    &&& final(self).forgotten(i as int) == old(self).forgotten(i as int)
                    &&& final(self).root_of(i as int) == old(self).root_of(i as int) + 1
                    &&& final(self).mark_of(i as int) == old(self).mark_of(i as int)
                    &&& final(self).ref_set_of(i as int) == old(self).ref_set_of(i as int)
                    &&& final(self).value_of(i as int) == old(self).value_of(i as int)
                },
                None => Gc::state_eq(*old(self), *final(self)),
            },
    {
        if i < self.nodes.len() {
            match &mut self.nodes[i].node {
                Some(n) => {
                    if n.head.root < usize::MAX {
                        n.head.inc_root();
                        let r = RootRef { node: i };
                        proof {
                            r.reveal_view();
                        }
                        Some(r)
                    } else {
                        None
                    }
                },
                None => None,
            }
        } else {
            None
        }
    }

    /// Mints a further root handle to the node `r` roots, incrementing the
    /// target's root count. Returns `None` when the root count cannot grow.
    pub fn clone_root(&mut self, r: &RootRef) -> (r2: Option<RootRef>)
        requires
            old(self).occupied(r@),
        ensures
            final(self).cfg() == old(self).cfg(),
            final(self).len() == old(self).len(),
            r2 is Some <==> old(self).root_of(r@) < usize::MAX,
            match r2 {
                Some(rr) => {
                    &&& rr@ == r@
                    &&& Gc::frame_except(*old(self), *final(self), r@)
                    &&& final(self).occupied(r@)
                    &&& final(self).forgotten(r@) == old(self).forgotten(r@)
                    &&& final(self).root_of(r@) == old(self).root_of(r@) + 1
                    &&& final(self).mark_of(r@) == old(self).mark_of(r@)
                    &&& final(self).ref_set_of(r@) == old(self).ref_set_of(r@)
                    &&& final(self).value_of(r@) == old(self).value_of(r@)
                },
                None => Gc::state_eq(*old(self), *final(self)),
            },
    {
        proof {
            r.reveal_view();
        }
        self.root_at(r.node)
    }

    /// Releases a root handle, decrementing the target's root count. On a
    /// handle whose target was already reclaimed the collector is left
    /// unchanged.
    pub fn drop_root(&mut self, r: RootRef)
        ensures
            final(self).cfg() == old(self).cfg(),
            final(self).len() == old(self).len(),
            old(self).occupied(r@) && old(self).root_of(r@) > 0 ==> {
                &&& Gc::frame_except(*old(self), *final(self), r@)
                &&& final(self).occupied(r@)
                &&& final(self).forgotten(r@) == old(self).forgotten(r@)
                &&& final(self).root_of(r@) == old(self).root_of(r@) - 1
                &&& final(self).mark_of(r@) == old(self).mark_of(r@)
                &&& final(self).ref_set_of(r@) == old(self).ref_set_of(r@)
                &&& final(self).value_of(r@) == old(self).value_of(r@)
            },
            !(old(self).occupied(r@) && old(self).root_of(r@) > 0) ==> Gc::state_eq(
                *old(self),
                *final(self),
            ),
    {
        proof {
            r.reveal_view();
        }
        let i = r.node;
        if i < self.nodes.len() {
            match &mut self.nodes[i].node {
                Some(n) => {
                    if n.head.root > 0 {
                        n.head.dec_root();
                    }
                },
                None => {},
            }
        }
    }

    /// Ensures the arena can admit `cap` more nodes without reallocation.
    pub fn reserve(&mut self, cap: usize)
        ensures
            Gc::state_eq(*old(self), *final(self)),
    {
        self.nodes.reserve(cap);
    }

    /// Ensures the arena can admit `cap` more forget-mode nodes without
    /// reallocation. The arena is shared, so this is the same reservation as
    /// [`Gc::reserve`].
    pub fn reserve_forgets(&mut self, cap: usize)
        ensures
            Gc::state_eq(*old(self), *final(self)),
    {
        self.nodes.reserve(cap);
    }

    /// Whether slot `i` currently holds a node.
    pub fn is_occupied(&self, i: usize) -> (b: bool)
        ensures
            b == self.occupied(i as int),
    {
        if i < self.nodes.len() {
            match &self.nodes[i].node {
                Some(_) => true,
                None => false,
            }
        } else {
            false
        }
    }

    fn is_forgotten(&self, i: usize) -> (b: bool)
        requires
            (i as int) < self.len(),
        ensures
            b == self.forgotten(i as int),
    {
        self.nodes[i].forgotten
    }

    fn get_root(&self, i: usize) -> (r: usize)
        requires
            self.occupied(i as int),
        ensures
            r as nat == self.root_of(i as int),
    {
        match &self.nodes[i].node {
            Some(n) => n.head.root,
            None => unreached(),
        }
    }

    fn get_mark(&self, i: usize) -> (s: State)
        requires
            self.occupied(i as int),
        ensures
            s == self.mark_of(i as int),
    {
        match &self.nodes[i].node {
            Some(n) => n.head.get_marker(),
            None => unreached(),
        }
    }

    fn set_mark(&mut self, i: usize, s: State)
        requires
            old(self).occupied(i as int),
        ensures
            final(self).cfg() == old(self).cfg(),
            final(self).len() == old(self).len(),
            Gc::frame_except(*old(self), *final(self), i as int),
            final(self).occupied(i as int),
            final(self).forgotten(i as int) == old(self).forgotten(i as int),
            final(self).root_of(i as int) == old(self).root_of(i as int),
            final(self).mark_of(i as int) == s,
            final(self).ref_set_of(i as int) == old(self).ref_set_of(i as int),
            final(self).value_of(i as int) == old(self).value_of(i as int),
    {
        match &mut self.nodes[i].node {
            Some(n) => n.head.set_marker(s),
            None => unreached(),
        }
    }

    fn mark_and_collect_at(&mut self, i: usize) -> (ts: Vec<usize>)
        requires
            old(self).occupied(i as int),
            old(self).mark_of(i as int) == State::Trace,
        ensures
            final(self).cfg() == old(self).cfg(),
            final(self).len() == old(self).len(),
            Gc::frame_except(*old(self), *final(self), i as int),
            final(self).occupied(i as int),
            final(self).forgotten(i as int) == old(self).forgotten(i as int),
            final(self).root_of(i as int) == old(self).root_of(i as int),
            final(self).mark_of(i as int) == State::Strong,
            final(self).ref_set_of(i as int) == old(self).ref_set_of(i as int),
            final(self).value_of(i as int) == old(self).value_of(i as int),
            ts@ == old(self).edges_of(i as int),
    {
        let mut ts: Vec<usize> = Vec::new();
        match &mut self.nodes[i].node {
            Some(n) => {
                n.mark_and_collect(&mut ts);
            },
            None => {
                proof {
                    assert(false);
                }
            },
        }
        proof {
            assert(Seq::<usize>::empty() + old(self).edges_of(i as int) =~= old(self).edges_of(
                i as int,
            ));
        }
        ts
    }

    fn run_pre_drop(&self, i: usize)
        requires
            self.occupied(i as int),
    {
        match &self.nodes[i].node {
            Some(n) => {
                n.value.pre_drop(&n.ref_set);
            },
            None => {},
        }
    }

    /// Whether the node in slot `i` still awaits its `Strong` mark: the mark
    /// phase is done with a slot once it is free or marked `Strong`.
    pub open spec fn pending(self, i: int) -> bool {
        self.occupied(i) && self.mark_of(i) != State::Strong
    }

    /// The number of pending slots among the first `n`.
    pub open spec fn count_pending(self, n: int) -> nat
        decreases n,
    {
        if n <= 0 {
            0
        } else {
            self.count_pending(n - 1) + (if self.pending(n - 1) {
                1nat
            } else {
                0nat
            })
        }
    }

    proof fn lemma_count_pending_same(a: Gc<T>, b: Gc<T>, n: int)
        requires
            forall|j: int|
                #![trigger a.pending(j)]
                #![trigger b.pending(j)]
                0 <= j < n ==> a.pending(j) == b.pending(j),
        ensures
            a.count_pending(n) == b.count_pending(n),
        decreases n,
    {
        if n > 0 {
            Self::lemma_count_pending_same(a, b, n - 1);
        }
    }

    proof fn lemma_count_pending_drop(a: Gc<T>, b: Gc<T>, i: int, n: int)
        requires
            0 <= i < n,
            forall|j: int|
                #![trigger a.pending(j)]
                #![trigger b.pending(j)]
                0 <= j < n && j != i ==> a.pending(j) == b.pending(j),
            a.pending(i),
            !b.pending(i),
        ensures
            b.count_pending(n) == a.count_pending(n) - 1,
        decreases n,
    {
        if i == n - 1 {
            Self::lemma_count_pending_same(a, b, n - 1);
        } else {
            Self::lemma_count_pending_drop(a, b, i, n - 1);
        }
    }

    /// After one node's mark changed, everything but that mark is as before:
    /// bundles the frame of a single mark write into facts about the graph.
    proof fn lemma_mark_frame(g0: Gc<T>, prev: Gc<T>, cur: Gc<T>, i: int)
        requires
            Gc::same_skeleton(g0, prev),
            prev.occupied(i),
            cur.cfg() == prev.cfg(),
            cur.len() == prev.len(),
            Gc::frame_except(prev, cur, i),
            cur.occupied(i),
            cur.forgotten(i) == prev.forgotten(i),
            cur.root_of(i) == prev.root_of(i),
            cur.ref_set_of(i) == prev.ref_set_of(i),
            cur.value_of(i) == prev.value_of(i),
        ensures
            Gc::same_skeleton(g0, cur),
            forall|j: int|
                #![trigger cur.mark_of(j)]
                #![trigger prev.mark_of(j)]
                prev.occupied(j) && j != i ==> cur.mark_of(j) == prev.mark_of(j),
            forall|j: int|
                #![trigger cur.pending(j)]
                #![trigger prev.pending(j)]
                j != i ==> cur.pending(j) == prev.pending(j),
            forall|j: int, t: int|
                #![trigger cur.has_edge(j, t)]
                #![trigger prev.has_edge(j, t)]
                cur.has_edge(j, t) == prev.has_edge(j, t),
            forall|j: int|
                #![trigger cur.occupied(j)]
                #![trigger prev.occupied(j)]
                cur.occupied(j) == prev.occupied(j),
            forall|j: int|
                #![trigger cur.edges_of(j)]
                #![trigger prev.edges_of(j)]
                prev.occupied(j) ==> cur.edges_of(j) == prev.edges_of(j),
            forall|j: int|
                #![trigger cur.root_of(j)]
                #![trigger prev.root_of(j)]
                prev.occupied(j) ==> cur.root_of(j) == prev.root_of(j),
    {
        assert forall|j: int| cur.occupied(j) == prev.occupied(j) by {
            if j != i && 0 <= j < prev.len() {
                assert(Gc::slot_eq(prev, cur, j));
            }
        }
        assert forall|j: int| prev.occupied(j) && j != i implies cur.mark_of(j) == prev.mark_of(
            j,
        ) by {
            assert(Gc::slot_eq(prev, cur, j));
        }
        assert forall|j: int| prev.occupied(j) implies cur.ref_set_of(j) == prev.ref_set_of(j)
            && cur.root_of(j) == prev.root_of(j) && cur.value_of(j) == prev.value_of(j) by {
            if j != i {
                assert(Gc::slot_eq(prev, cur, j));
            }
        }
        assert forall|j: int| j != i implies cur.pending(j) == prev.pending(j) by {
            if 0 <= j < prev.len() {
                assert(Gc::slot_eq(prev, cur, j));
            }
        }
        assert forall|j: int, t: int| cur.has_edge(j, t) == prev.has_edge(j, t) by {
            if prev.occupied(j) {
                assert(cur.ref_set_of(j) == prev.ref_set_of(j));
            }
        }
        assert forall|j: int| 0 <= j < prev.len() implies cur.forgotten(j) == prev.forgotten(
            j,
        ) by {
            if j != i {
                assert(Gc::slot_eq(prev, cur, j));
            }
        }
    }

    /// An occupied slot lies within the arena: lets callers, to whom the
    /// representation is closed, rule out slots at and beyond `len`.
    pub proof fn lemma_occupied_in_bounds(self, i: int)
        ensures
            self.occupied(i) ==> 0 <= i < self.len(),
    {
    }

    /// A rooted node is live.
    pub proof fn lemma_rooted_live(self, i: int)
        requires
            self.rooted(i),
        ensures
            self.live(i),
    {
        let p = seq![i];
        assert(self.is_path(p));
        assert(p.last() == i);
    }

    /// Liveness propagates along a declared edge.
    pub proof fn lemma_live_step(self, a: int, b: int)
        requires
            self.live(a),
            self.has_edge(a, b),
        ensures
            self.live(b),
    {
        let p = choose|p: Seq<int>| self.is_path(p) && p.last() == a;
        let q = p.push(b);
        assert(self.is_path(q)) by {
            assert(q[0] == p[0]);
            assert forall|k: int| 0 <= k < q.len() - 1 implies self.has_edge(
                #[trigger] q[k],
                q[k + 1],
            ) by {
                if k < p.len() - 1 {
                    assert(self.has_edge(p[k], p[k + 1]));
                    assert(q[k] == p[k]);
                    assert(q[k + 1] == p[k + 1]);
                } else {
                    assert(k == p.len() - 1);
                    assert(q[k] == p.last());
                    assert(q[k + 1] == b);
                }
            }
        };
        assert(q.last() == b);
    }

    /// A live node occupies its slot.
    pub proof fn lemma_live_occupied(self, i: int)
        requires
            self.live(i),
        ensures
            self.occupied(i),
    {
        let p = choose|p: Seq<int>| self.is_path(p) && p.last() == i;
        if p.len() == 1 {
            assert(p.last() == p[0]);
        } else {
            assert(self.has_edge(p[p.len() - 2], p[p.len() - 1]));
        }
    }

    /// What one completed sweep guarantees: the surviving slots are exactly
    /// the nodes of `pre` that were rooted or reachable from a rooted node,
    /// each kept unchanged but for its mark, which is `Strong`.
    pub open spec fn sweep_post(pre: Gc<T>, post: Gc<T>) -> bool {
        &&& post.cfg() == pre.cfg()
        &&& post.len() == pre.len()
        &&& forall|i: int|
            #![trigger post.occupied(i)]
            #![trigger pre.live(i)]
            post.occupied(i) <==> pre.live(i)
        &&& forall|i: int|
            #![trigger pre.live(i)]
            pre.live(i) ==> {
                &&& post.root_of(i) == pre.root_of(i)
                &&& post.mark_of(i) == State::Strong
                &&& post.ref_set_of(i) == pre.ref_set_of(i)
                &&& post.value_of(i) == pre.value_of(i)
                &&& post.forgotten(i) == pre.forgotten(i)
            }
    }

    /// Runs one full mark-and-sweep pass.
    ///
    /// Every node that is rooted or reachable from a rooted node through
    /// declared edges survives, with its root count, edges and payload
    /// unchanged and its mark left `Strong`; every other node is reclaimed.
    /// When the configuration asks for it, the pre-drop hook runs on each
    /// unreachable node not allocated in forget mode, before any payload of
    /// the same sweep is destroyed. Reclaimed forget-mode nodes are freed
    /// without their destructor or pre-drop hook.
    #[verifier::loop_isolation(false)]
    #[verifier::rlimit(100)]
    pub fn clear(&mut self)
        ensures
            Gc::sweep_post(*old(self), *final(self)),
    {
        let ghost g0 = *self;
        let n = self.nodes.len();
        let cap = match (n / 100).checked_mul(self.config.stack_percent) {
            Some(c) => c,
            None => n,
        };
        let mut stack: Vec<usize> = Vec::with_capacity(cap);

        // Seed: every rooted node is enqueued as `Trace`; every other node
        // starts `Unknown`.
        let mut i: usize = 0;
        while i < n
            invariant
                i <= n,
                n as int == self.len(),
                Gc::same_skeleton(g0, *self),
                forall|k: int|
                    #![trigger stack@[k]]
                    0 <= k < stack@.len() ==> stack@[k] < i && g0.rooted(stack@[k] as int),
                forall|k1: int, k2: int|
                    0 <= k1 < k2 < stack@.len() ==> stack@[k1] != stack@[k2],
                forall|j: int|
                    #![trigger g0.rooted(j)]
                    0 <= j < i && g0.rooted(j) ==> stack@.contains(j as usize),
                forall|j: int|
                    #![trigger self.mark_of(j)]
                    0 <= j < i && self.occupied(j) ==> self.mark_of(j) == (if g0.root_of(j) > 0 {
                        State::Trace
                    } else {
                        State::Unknown
                    }),
            decreases n - i,
        {
            let ghost prev = *self;
            let ghost stack0 = stack@;
            if self.is_occupied(i) {
                if self.get_root(i) > 0 {
                    self.set_mark(i, State::Trace);
                    stack.push(i);
                    proof {
                        Gc::lemma_mark_frame(g0, prev, *self, i as int);
                        assert(g0.root_of(i as int) == prev.root_of(i as int));
                        assert(stack@[stack@.len() - 1] == i);
                        assert forall|k1: int, k2: int|
                            0 <= k1 < k2 < stack@.len() implies stack@[k1] != stack@[k2] by {
                            if k2 == stack@.len() - 1 {
                                assert(stack@[k1] == stack0[k1]);
                                assert(stack0[k1] < i);
                            } else {
                                assert(stack@[k1] == stack0[k1]);
                                assert(stack@[k2] == stack0[k2]);
                            }
                        }
                        assert forall|j: int|
                            #![trigger g0.rooted(j)]
                            0 <= j < i + 1 && g0.rooted(j) implies stack@.contains(j as usize) by {
                            if j < i {
                                assert(stack0.contains(j as usize));
                                let kk = choose|kk: int|
                                    0 <= kk < stack0.len() && stack0[kk] == j as usize;
                                assert(stack@[kk] == j as usize);
                            } else {
                                assert(stack@[stack@.len() - 1] == i);
                            }
                        }
                    }
                } else {
                    self.set_mark(i, State::Unknown);
                    proof {
                        Gc::lemma_mark_frame(g0, prev, *self, i as int);
                        assert(g0.root_of(i as int) == prev.root_of(i as int));
                        assert(!g0.rooted(i as int));
                    }
                }
            } else {
                proof {
                    assert(!g0.occupied(i as int));
                }
            }
            i = i + 1;
        }

        proof {
            assert forall|kk: int|
                #![trigger stack@[kk]]
                0 <= kk < stack@.len() implies self.occupied(stack@[kk] as int) && self.mark_of(
                stack@[kk] as int,
            ) == State::Trace by {
                let j = stack@[kk] as int;
                assert(g0.rooted(j));
                assert(self.occupied(j));
            }
            assert forall|j: int|
                #![trigger self.mark_of(j)]
                self.occupied(j) && self.mark_of(j) == State::Trace implies stack@.contains(
                j as usize,
            ) by {
                assert(g0.occupied(j));
                assert(g0.rooted(j));
            }
            assert forall|j: int|
                #![trigger self.mark_of(j)]
                self.occupied(j) && self.mark_of(j) != State::Unknown implies g0.live(j) by {
                assert(g0.rooted(j));
                g0.lemma_rooted_live(j);
            }
            assert forall|j: int|
                #![trigger self.mark_of(j)]
                g0.rooted(j) implies self.mark_of(j) != State::Unknown by {
                assert(self.occupied(j));
            }
            assert forall|j: int, t: int|
                #![trigger self.has_edge(j, t)]
                self.mark_of(j) == State::Strong && self.has_edge(j, t) implies self.mark_of(t)
                    != State::Unknown by {
                assert(self.occupied(j));
                assert(self.mark_of(j) != State::Strong);
            }
        }

        // Mark: pop `Trace` nodes, flip them `Strong`, and enqueue their
        // `Unknown` edge targets as `Trace`.
        while stack.len() != 0
            invariant
                n as int == self.len(),
                Gc::same_skeleton(g0, *self),
                forall|k: int|
                    #![trigger stack@[k]]
                    0 <= k < stack@.len() ==> self.occupied(stack@[k] as int) && self.mark_of(
                        stack@[k] as int,
                    ) == State::Trace,
                forall|k1: int, k2: int|
                    0 <= k1 < k2 < stack@.len() ==> stack@[k1] != stack@[k2],
                forall|j: int|
                    #![trigger self.mark_of(j)]
                    self.occupied(j) && self.mark_of(j) == State::Trace ==> stack@.contains(
                        j as usize,
                    ),
                forall|j: int|
                    #![trigger self.mark_of(j)]
                    self.occupied(j) && self.mark_of(j) != State::Unknown ==> g0.live(j),
                forall|j: int|
                    #![trigger self.mark_of(j)]
                    g0.rooted(j) ==> self.mark_of(j) != State::Unknown,
                forall|j: int, t: int|
                    #![trigger self.has_edge(j, t)]
                    self.mark_of(j) == State::Strong && self.has_edge(j, t) ==> self.mark_of(t)
                        != State::Unknown,
            decreases self.count_pending(self.len()),
        {
            let ghost entry = *self;
            let ghost stack0 = stack@;
            let idx = stack.pop().unwrap();
            proof {
                assert(stack0[stack0.len() - 1] == idx);
                assert(entry.occupied(idx as int) && entry.mark_of(idx as int) == State::Trace);
            }
            let ts = self.mark_and_collect_at(idx);
            proof {
                Gc::lemma_mark_frame(g0, entry, *self, idx as int);
                Gc::lemma_count_pending_drop(entry, *self, idx as int, n as int);
                assert(g0.live(idx as int));
                assert forall|kk: int|
                    #![trigger stack@[kk]]
                    0 <= kk < stack@.len() implies self.occupied(stack@[kk] as int)
                    && self.mark_of(stack@[kk] as int) == State::Trace by {
                    assert(stack@[kk] == stack0[kk]);
                    assert(stack0[kk] != idx);
                    assert(entry.occupied(stack0[kk] as int) && entry.mark_of(stack0[kk] as int)
                        == State::Trace);
                }
                assert forall|j: int|
                    #![trigger self.mark_of(j)]
                    self.occupied(j) && self.mark_of(j) == State::Trace implies stack@.contains(
                    j as usize,
                ) by {
                    assert(j != idx as int);
                    assert(entry.mark_of(j) == State::Trace);
                    assert(stack0.contains(j as usize));
                    let kk = choose|kk: int| 0 <= kk < stack0.len() && stack0[kk] == j as usize;
                    assert(kk != stack0.len() - 1);
                    assert(stack@[kk] == j as usize);
                }
                assert forall|j: int, t: int|
                    #![trigger self.has_edge(j, t)]
                    self.mark_of(j) == State::Strong && j != idx as int && self.has_edge(j, t)
                        implies self.mark_of(t) != State::Unknown by {
                    assert(entry.has_edge(j, t));
                    assert(entry.mark_of(j) == State::Strong);
                    assert(entry.mark_of(t) != State::Unknown);
                    if t != idx as int {
                        assert(self.mark_of(t) == entry.mark_of(t));
                    }
                }
            }
            let ghost marked = *self;
            let m = ts.len();
            let mut k: usize = 0;
            while k < m
                invariant
                    n as int == self.len(),
                    k <= m,
                    m == ts@.len(),
                    Gc::same_skeleton(g0, *self),
                    idx < n,
                    self.occupied(idx as int),
                    self.mark_of(idx as int) == State::Strong,
                    ts@ == self.edges_of(idx as int),
                    g0.live(idx as int),
                    self.count_pending(self.len()) == marked.count_pending(marked.len()),
                    forall|kk: int|
                        #![trigger stack@[kk]]
                        0 <= kk < stack@.len() ==> self.occupied(stack@[kk] as int)
                            && self.mark_of(stack@[kk] as int) == State::Trace,
                    forall|k1: int, k2: int|
                        0 <= k1 < k2 < stack@.len() ==> stack@[k1] != stack@[k2],
                    forall|j: int|
                        #![trigger self.mark_of(j)]
                        self.occupied(j) && self.mark_of(j) == State::Trace ==> stack@.contains(
                            j as usize,
                        ),
                    forall|j: int|
                        #![trigger self.mark_of(j)]
                        self.occupied(j) && self.mark_of(j) != State::Unknown ==> g0.live(j),
                    forall|j: int|
                        #![trigger self.mark_of(j)]
                        g0.rooted(j) ==> self.mark_of(j) != State::Unknown,
                    forall|j: int, t: int|
                        #![trigger self.has_edge(j, t)]
                        self.mark_of(j) == State::Strong && j != idx as int && self.has_edge(j, t)
                            ==> self.mark_of(t) != State::Unknown,
                    forall|kk: int|
                        #![trigger ts@[kk]]
                        0 <= kk < k ==> (self.occupied(ts@[kk] as int) ==> self.mark_of(
                            ts@[kk] as int,
                        ) != State::Unknown),
                decreases m - k,
            {
                let t = ts[k];
                if self.is_occupied(t) {
                    if self.get_mark(t) == State::Unknown {
                        let ghost before = *self;
                        let ghost stack1 = stack@;
                        self.set_mark(t, State::Trace);
                        stack.push(t);
                        proof {
                            Gc::lemma_mark_frame(g0, before, *self, t as int);
                            assert(before.pending(t as int) && self.pending(t as int));
                            Gc::lemma_count_pending_same(before, *self, n as int);
                            assert(ts@[k as int] == t);
                            assert(before.edges_of(idx as int).contains(t));
                            assert(g0.has_edge(idx as int, t as int)) by {
                                assert(g0.occupied(idx as int));
                                assert(g0.occupied(t as int));
                                assert(g0.ref_set_of(idx as int) == before.ref_set_of(idx as int));
                            };
                            g0.lemma_live_step(idx as int, t as int);
                            assert forall|kk: int| 0 <= kk < stack1.len() implies stack1[kk]
                                != t by {
                                assert(before.mark_of(stack1[kk] as int) == State::Trace);
                            }
                            assert(stack@[stack@.len() - 1] == t);
                            assert forall|kk: int|
                                #![trigger stack@[kk]]
                                0 <= kk < stack@.len() implies self.occupied(stack@[kk] as int)
                                && self.mark_of(stack@[kk] as int) == State::Trace by {
                                if kk < stack1.len() {
                                    assert(stack@[kk] == stack1[kk]);
                                    assert(before.occupied(stack1[kk] as int) && before.mark_of(
                                        stack1[kk] as int,
                                    ) == State::Trace);
                                    assert(stack1[kk] != t);
                                } else {
                                    assert(stack@[kk] == t);
                                }
                            }
                            assert forall|k1: int, k2: int|
                                0 <= k1 < k2 < stack@.len() implies stack@[k1] != stack@[k2] by {
                                assert(stack@[k1] == stack1[k1]);
                                if k2 < stack1.len() {
                                    assert(stack@[k2] == stack1[k2]);
                                } else {
                                    assert(stack@[k2] == t);
                                    assert(stack1[k1] != t);
                                }
                            }
                            assert forall|j: int|
                                #![trigger self.mark_of(j)]
                                self.occupied(j) && self.mark_of(j) == State::Trace
                                implies stack@.contains(j as usize) by {
                                if j == t as int {
                                    assert(stack@[stack@.len() - 1] == t);
                                } else {
                                    assert(before.mark_of(j) == State::Trace);
                                    assert(stack1.contains(j as usize));
                                    let kk = choose|kk: int|
                                        0 <= kk < stack1.len() && stack1[kk] == j as usize;
                                    assert(stack@[kk] == j as usize);
                                }
                            }
                        }
                    }
                }
                k = k + 1;
            }
            proof {
                assert forall|j: int, t: int|
                    #![trigger self.has_edge(j, t)]
                    self.mark_of(j) == State::Strong && self.has_edge(j, t) implies self.mark_of(t)
                    != State::Unknown by {
                    if j == idx as int {
                        let tu = t as usize;
                        assert(0 <= t < n as int);
                        assert(self.edges_of(idx as int).contains(tu));
                        let kk = choose|kk: int| 0 <= kk < ts@.len() && ts@[kk] == tu;
                        assert(ts@[kk] as int == t);
                        assert(self.occupied(ts@[kk] as int));
                    }
                }
            }
        }

        // The mark phase is complete: `Strong` now means live, `Unknown`
        // means unreachable.
        proof {
            assert forall|j: int|
                #![trigger self.mark_of(j)]
                self.occupied(j) implies self.mark_of(j) != State::Trace by {
                if self.mark_of(j) == State::Trace {
                    assert(stack@.contains(j as usize));
                }
            }
            assert forall|j: int|
                #![trigger g0.live(j)]
                g0.live(j) implies self.occupied(j) && self.mark_of(j) == State::Strong by {
                let p = choose|p: Seq<int>| g0.is_path(p) && p.last() == j;
                Gc::lemma_path_marked(g0, *self, p);
            }
            assert forall|j: int|
                #![trigger g0.live(j)]
                g0.live(j) implies g0.occupied(j) by {
                g0.lemma_live_occupied(j);
            }
        }
        let ghost g2 = *self;

        // Pre-drop pass: every unreachable node not allocated in forget mode
        // gets its hook, before any destructor of this sweep runs.
        if self.config.pre_drop {
            let mut i2: usize = 0;
            while i2 < n
                invariant
                    i2 <= n,
                    *self == g2,
                    n as int == self.len(),
                decreases n - i2,
            {
                if self.is_occupied(i2) {
                    if !self.is_forgotten(i2) && self.get_mark(i2) == State::Unknown {
                        self.run_pre_drop(i2);
                    }
                }
                i2 = i2 + 1;
            }
        }

        // Reclaim: free every `Unknown` slot. A forget-mode payload is
        // discarded without running its destructor.
        let mut i3: usize = 0;
        while i3 < n
            invariant
                i3 <= n,
                n as int == self.len(),
                self.cfg() == g2.cfg(),
                forall|j: int|
                    #![trigger self.nodes@[j]]
                    i3 <= j < n ==> self.nodes@[j] == g2.nodes@[j],
                forall|j: int|
                    #![trigger self.nodes@[j]]
                    0 <= j < i3 && g2.occupied(j) && g2.mark_of(j) == State::Strong
                        ==> self.nodes@[j] == g2.nodes@[j],
                forall|j: int|
                    #![trigger self.nodes@[j]]
                    0 <= j < i3 && !(g2.occupied(j) && g2.mark_of(j) == State::Strong) ==> self
                        .nodes@[j].node is None && self.nodes@[j].forgotten
                        == g2.nodes@[j].forgotten,
            decreases n - i3,
        {
            let ghost before = *self;
            let mut reclaim = false;
            match &self.nodes[i3].node {
                Some(nd) => {
                    if nd.head.get_marker() == State::Unknown {
                        reclaim = true;
                    }
                },
                None => {},
            }
            if reclaim {
                let slot = &mut self.nodes[i3];
                let taken = slot.node.take();
                if slot.forgotten {
                    forget_payload(taken);
                }
            }
            proof {
                if !reclaim && g2.occupied(i3 as int) {
                    assert(g2.mark_of(i3 as int) != State::Trace);
                    assert(g2.mark_of(i3 as int) == State::Strong);
                }
            }
            i3 = i3 + 1;
        }

        proof {
            assert forall|j: int|
                #![trigger self.occupied(j)]
                #![trigger g0.live(j)]
                self.occupied(j) <==> g0.live(j) by {
                if g0.live(j) {
                    assert(g2.occupied(j) && g2.mark_of(j) == State::Strong);
                    assert(self.nodes@[j] == g2.nodes@[j]);
                }
                if self.occupied(j) {
                    assert(0 <= j < n as int);
                    assert(g2.occupied(j) && g2.mark_of(j) == State::Strong);
                }
            }
            assert forall|j: int|
                #![trigger g0.live(j)]
                g0.live(j) implies {
                &&& self.root_of(j) == g0.root_of(j)
                &&& self.mark_of(j) == State::Strong
                &&& self.ref_set_of(j) == g0.ref_set_of(j)
                &&& self.value_of(j) == g0.value_of(j)
                &&& self.forgotten(j) == g0.forgotten(j)
            } by {
                assert(g2.occupied(j) && g2.mark_of(j) == State::Strong);
                assert(self.nodes@[j] == g2.nodes@[j]);
                assert(g0.occupied(j));
            }
        }
    }

    /// Tears the collector down: runs the pre-drop hook on every remaining
    /// node not allocated in forget mode when the configuration asks for it,
    /// then destroys every remaining node. Forget-mode payloads are freed
    /// without their destructor. Afterwards the collector holds nothing.
    #[verifier::loop_isolation(false)]
    pub fn clear_all(&mut self)
        ensures
            final(self).cfg() == old(self).cfg(),
            final(self).len() == 0,
            forall|j: int| #![trigger final(self).occupied(j)] !final(self).occupied(j),
    {
        let ghost g2 = *self;
        let n = self.nodes.len();
        if self.config.pre_drop {
            let mut i: usize = 0;
            while i < n
                invariant
                    i <= n,
                    *self == g2,
                    n as int == self.len(),
                decreases n - i,
            {
                if self.is_occupied(i) {
                    if !self.is_forgotten(i) {
                        self.run_pre_drop(i);
                    }
                }
                i = i + 1;
            }
        }
        let mut i: usize = 0;
        while i < n
            invariant
                i <= n,
                n as int == self.len(),
                self.cfg() == g2.cfg(),
            decreases n - i,
        {
            let slot = &mut self.nodes[i];
            let taken = slot.node.take();
            if slot.forgotten {
                forget_payload(taken);
            }
            i = i + 1;
        }
        self.nodes.clear();
    }

    /// Law: after a sweep, the reachable nodes are exactly the occupied
    /// slots. The sweep keeps precisely the reachable nodes, with their roots
    /// and edges unchanged, so reachability over the swept state coincides
    /// with mere presence.
    pub proof fn lemma_swept_live_is_occupied(g0: Gc<T>, g1: Gc<T>)
        requires
            Gc::sweep_post(g0, g1),
        ensures
            forall|i: int|
                #![trigger g1.live(i)]
                #![trigger g1.occupied(i)]
                g1.live(i) == g1.occupied(i),
    {
        assert forall|i: int| g1.occupied(i) implies g1.live(i) by {
            assert(g0.live(i));
            let p = choose|p: Seq<int>| g0.is_path(p) && p.last() == i;
            assert forall|k: int| 0 <= k < p.len() implies g0.live(#[trigger] p[k]) by {
                let q = p.take(k + 1);
                assert(q.last() == p[k]);
                assert(g0.is_path(q)) by {
                    assert(q[0] == p[0]);
                    assert forall|m: int| 0 <= m < q.len() - 1 implies g0.has_edge(
                        #[trigger] q[m],
                        q[m + 1],
                    ) by {
                        assert(q[m] == p[m]);
                        assert(q[m + 1] == p[m + 1]);
                        assert(g0.has_edge(p[m], p[m + 1]));
                    }
                }
            }
            assert(g1.is_path(p)) by {
                assert(g0.rooted(p[0]));
                assert(g0.live(p[0]));
                assert(g1.occupied(p[0]));
                assert(g1.root_of(p[0]) == g0.root_of(p[0]));
                assert(g1.rooted(p[0]));
                assert forall|k: int| 0 <= k < p.len() - 1 implies g1.has_edge(
                    #[trigger] p[k],
                    p[k + 1],
                ) by {
                    assert(g0.has_edge(p[k], p[k + 1]));
                    assert(g0.live(p[k]) && g0.live(p[k + 1]));
                    assert(g1.ref_set_of(p[k]) == g0.ref_set_of(p[k]));
                    assert(g1.occupied(p[k]) && g1.occupied(p[k + 1]));
                }
            }
            assert(p.last() == i);
        }
        assert forall|i: int| g1.live(i) implies g1.occupied(i) by {
            let p = choose|p: Seq<int>| g1.is_path(p) && p.last() == i;
            assert(g0.is_path(p)) by {
                assert(g1.rooted(p[0]));
                assert(g0.live(p[0]));
                g0.lemma_live_occupied(p[0]);
                assert(g0.root_of(p[0]) == g1.root_of(p[0]));
                assert(g0.rooted(p[0]));
                assert forall|k: int| 0 <= k < p.len() - 1 implies g0.has_edge(
                    #[trigger] p[k],
                    p[k + 1],
                ) by {
                    assert(g1.has_edge(p[k], p[k + 1]));
                    assert(g0.live(p[k]) && g0.live(p[k + 1]));
                    g0.lemma_live_occupied(p[k]);
                    g0.lemma_live_occupied(p[k + 1]);
                    assert(g0.ref_set_of(p[k]) == g1.ref_set_of(p[k]));
                }
            }
            assert(g0.live(i));
        }
    }

    /// Law: sweeping twice with no graph mutation in between leaves the live
    /// set unchanged. The second sweep keeps every slot of the first sweep's
    /// result exactly as it is.
    pub proof fn lemma_sweep_idempotent(g0: Gc<T>, g1: Gc<T>, g2: Gc<T>)
        requires
            Gc::sweep_post(g0, g1),
            Gc::sweep_post(g1, g2),
        ensures
            forall|i: int|
                #![trigger g2.occupied(i)]
                #![trigger g1.occupied(i)]
                g2.occupied(i) == g1.occupied(i),
            forall|i: int|
                #![trigger g1.occupied(i)]
                g1.occupied(i) ==> {
                    &&& g2.root_of(i) == g1.root_of(i)
                    &&& g2.mark_of(i) == g1.mark_of(i)
                    &&& g2.ref_set_of(i) == g1.ref_set_of(i)
                    &&& g2.value_of(i) == g1.value_of(i)
                    &&& g2.forgotten(i) == g1.forgotten(i)
                },
    {
        Self::lemma_swept_live_is_occupied(g0, g1);
        assert forall|i: int| g2.occupied(i) == g1.occupied(i) by {
            assert(g2.occupied(i) == g1.live(i));
        }
        assert forall|i: int| g1.occupied(i) implies {
            &&& g2.root_of(i) == g1.root_of(i)
            &&& g2.mark_of(i) == g1.mark_of(i)
            &&& g2.ref_set_of(i) == g1.ref_set_of(i)
            &&& g2.value_of(i) == g1.value_of(i)
            &&& g2.forgotten(i) == g1.forgotten(i)
        } by {
            assert(g1.live(i));
            assert(g1.mark_of(i) == State::Strong) by {
                assert(g0.live(i));
            }
        }
    }

    proof fn lemma_path_into_closed_set(g0: Gc<T>, s: Set<int>, p: Seq<int>)
        requires
            g0.is_path(p),
            forall|a: int, b: int|
                #![trigger g0.has_edge(a, b), s.contains(b)]
                g0.has_edge(a, b) && s.contains(b) ==> s.contains(a),
            s.contains(p.last()),
        ensures
            s.contains(p[0]),
        decreases p.len(),
    {
        if p.len() > 1 {
            let q = p.drop_last();
            assert(g0.has_edge(p[p.len() - 2], p[p.len() - 1]));
            assert(s.contains(p[p.len() - 2]));
            assert(g0.is_path(q)) by {
                assert(q[0] == p[0]);
                assert forall|m: int| 0 <= m < q.len() - 1 implies g0.has_edge(
                    #[trigger] q[m],
                    q[m + 1],
                ) by {
                    assert(g0.has_edge(p[m], p[m + 1]));
                }
            }
            assert(q.last() == p[p.len() - 2]);
            Self::lemma_path_into_closed_set(g0, s, q);
        }
    }

    /// Law: a set of nodes none of which is rooted, and into which no
    /// declared edge leads from outside the set, is wholly reclaimed by one
    /// sweep. In particular, a cycle unreachable from any root does not
    /// survive the sweep that finds it.
    pub proof fn lemma_unrooted_closed_reclaimed(g0: Gc<T>, g1: Gc<T>, s: Set<int>)
        requires
            Gc::sweep_post(g0, g1),
            forall|i: int| #[trigger] s.contains(i) ==> g0.root_of(i) == 0,
            forall|a: int, b: int|
                #![trigger g0.has_edge(a, b), s.contains(b)]
                g0.has_edge(a, b) && s.contains(b) ==> s.contains(a),
        ensures
            forall|i: int| #[trigger] s.contains(i) ==> !g1.occupied(i),
    {
        assert forall|i: int| s.contains(i) implies !g1.occupied(i) by {
            if g0.live(i) {
                let p = choose|p: Seq<int>| g0.is_path(p) && p.last() == i;
                Self::lemma_path_into_closed_set(g0, s, p);
                assert(g0.rooted(p[0]));
                assert(g0.root_of(p[0]) == 0);
            }
        }
    }

    /// Law: a node reachable from a rooted node — a rooted cycle in
    /// particular — survives the sweep with its roots, edges and payload
    /// unchanged, and is reachable again in the swept state, so it survives
    /// every later sweep as well.
    pub proof fn lemma_live_survives(g0: Gc<T>, g1: Gc<T>, i: int)
        requires
            Gc::sweep_post(g0, g1),
            g0.live(i),
        ensures
            g1.occupied(i),
            g1.live(i),
            g1.root_of(i) == g0.root_of(i),
            g1.ref_set_of(i) == g0.ref_set_of(i),
            g1.value_of(i) == g0.value_of(i),
            g1.forgotten(i) == g0.forgotten(i),
    {
        Self::lemma_swept_live_is_occupied(g0, g1);
    }

    proof fn lemma_path_marked(g0: Gc<T>, cur: Gc<T>, p: Seq<int>)
        requires
            Gc::same_skeleton(g0, cur),
            g0.is_path(p),
            forall|j: int|
                #![trigger cur.mark_of(j)]
                cur.occupied(j) ==> cur.mark_of(j) != State::Trace,
            forall|j: int|
                #![trigger cur.mark_of(j)]
                g0.rooted(j) ==> cur.mark_of(j) != State::Unknown,
            forall|j: int, t: int|
                #![trigger cur.has_edge(j, t)]
                cur.mark_of(j) == State::Strong && cur.has_edge(j, t) ==> cur.mark_of(t)
                    != State::Unknown,
        ensures
            cur.occupied(p.last()),
            cur.mark_of(p.last()) == State::Strong,
        decreases p.len(),
    {
        if p.len() == 1 {
            assert(g0.rooted(p[0]));
            assert(p.last() == p[0]);
            assert(cur.occupied(p[0]));
            assert(cur.mark_of(p[0]) != State::Unknown);
            assert(cur.mark_of(p[0]) != State::Trace);
        } else {
            let q = p.drop_last();
            assert(g0.is_path(q)) by {
                assert(q[0] == p[0]);
                assert forall|k: int| 0 <= k < q.len() - 1 implies g0.has_edge(
                    #[trigger] q[k],
                    q[k + 1],
                ) by {
                    assert(g0.has_edge(p[k], p[k + 1]));
                }
            };
            Self::lemma_path_marked(g0, cur, q);
            let a = p[p.len() - 2];
            let b = p.last();
            assert(g0.has_edge(a, b));
            assert(q.last() == a);
            assert(cur.mark_of(a) == State::Strong);
            assert(g0.ref_set_of(a) == cur.ref_set_of(a));
            assert(cur.has_edge(a, b));
            assert(cur.mark_of(b) != State::Unknown);
            assert(cur.mark_of(b) != State::Trace);
        }
    }
}

/// Opens a collector scope: builds a collector from `config`, hands it to
/// `body`, and tears the collector down when `body` is done. The body returns
/// the collector together with its result; teardown runs the pre-drop hook
/// where configured and destroys every node the collector still holds, so
/// nothing allocated in the scope outlives it.
pub fn scope_gc<T: Target, R, F: FnOnce(Gc<T>) -> (Gc<T>, R)>(config: Config, body: F) -> (r: R)
    requires
        forall|g: Gc<T>|
            g.cfg() == config && g.len() == 0 ==> #[trigger] call_requires(body, (g,)),
    ensures
        exists|g: Gc<T>, g2: Gc<T>|
            g.cfg() == config && g.len() == 0 && #[trigger] call_ensures(body, (g,), (g2, r)),
{
    let g = Gc::<T>::with_config(config);
    let ghost g_init = g;
    let (mut g2, r) = body(g);
    let ghost g_out = g2;
    g2.clear_all();
    proof {
        assert(call_ensures(body, (g_init,), (g_out, r)));
    }
    r
}

/// Relies on core::mem::forget: the value is discarded without running its
/// destructor. Used for reclaimed forget-mode payloads, whose destructor and
/// pre-drop hook must not run.
#[verifier::external_body]
fn forget_payload<T: Target>(node: Option<Node<T>>) {
    core::mem::forget(node);
}

impl<U> Gc<RawType<U>> {
    /// Wraps `value` in [`RawType`] and takes it under management.
    pub fn new_raw(&mut self, value: U) -> (r: RootRef)
        ensures
            final(self).cfg() == old(self).cfg(),
            final(self).len() == old(self).len() + 1,
            r@ == old(self).len(),
            final(self).occupied(old(self).len()),
            !final(self).forgotten(old(self).len()),
            final(self).root_of(old(self).len()) == 1,
            final(self).value_of(old(self).len()) == RawType(value),
    {
        self.new(RawType(value))
    }

    /// Wraps `value` in [`RawType`] and takes it under management in forget
    /// mode.
    pub fn forget_raw(&mut self, value: U) -> (r: RootRef)
        ensures
            final(self).cfg() == old(self).cfg(),
            final(self).len() == old(self).len() + 1,
            r@ == old(self).len(),
            final(self).occupied(old(self).len()),
            final(self).forgotten(old(self).len()),
            final(self).root_of(old(self).len()) == 1,
            final(self).value_of(old(self).len()) == RawType(value),
    {
        self.forget(RawType(value))
    }
}

} // verus!

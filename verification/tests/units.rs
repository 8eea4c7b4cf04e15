use scope_gc::gc::{Config, Gc};
use scope_gc::node::{NodeHead, State};
use scope_gc::raw_type::RawType;
use scope_gc::strong_ref::StrongRef;
use scope_gc::strong_vec::StrongVec;
use scope_gc::target::Target;
use std::cell::Cell;
use std::rc::Rc;

struct Probe {
    drops: Rc<Cell<u32>>,
}

impl Drop for Probe {
    fn drop(&mut self) {
        self.drops.set(self.drops.get() + 1);
    }
}

impl Target for Probe {
    type Edges = StrongRef;
}

struct Pair;

impl Target for Pair {
    type Edges = (StrongRef, StrongVec);
}

struct Duo;

impl Target for Duo {
    type Edges = [StrongRef; 2];
}

#[test]
fn config_default_values() {
    let c = Config::default();
    assert_eq!(c.pre_drop, false);
    assert_eq!(c.init_cap, 32);
    assert_eq!(c.forget_cap, 0);
    assert_eq!(c.stack_percent, 10);
}

#[test]
fn node_head_operations() {
    let mut h = NodeHead::new();
    assert_eq!(h.root, 0);
    assert_eq!(h.get_marker(), State::Unknown);
    h.inc_root();
    h.inc_root();
    assert_eq!(h.root, 2);
    h.dec_root();
    assert_eq!(h.root, 1);
    h.set_marker(State::Trace);
    assert_eq!(h.get_marker(), State::Trace);
    h.set_marker(State::Strong);
    assert_eq!(h.get_marker(), State::Strong);
}

#[test]
fn strong_ref_slot() {
    let mut s = StrongRef { target: None };
    assert_eq!(s.get(), None);
    s.set_ref(7);
    assert_eq!(s.get(), Some(7));
    s.set(Some(9));
    assert_eq!(s.get(), Some(9));
    s.set_none();
    assert_eq!(s.get(), None);
}

#[test]
fn strong_vec_operations() {
    let mut v = StrongVec { entries: Vec::new() };
    assert_eq!(v.get(0), Err(()));
    v.push(3);
    v.push(4);
    assert_eq!(v.get(0), Ok(3));
    assert_eq!(v.get(1), Ok(4));
    assert_eq!(v.get(2), Err(()));
    assert_eq!(v.set(1, 8), Ok(()));
    assert_eq!(v.get(1), Ok(8));
    assert_eq!(v.set(5, 1), Err(()));
    v.extend(&[10, 11]);
    assert_eq!(v.get_all(), vec![3, 8, 10, 11]);
}

#[test]
fn node_accessors() {
    let mut gc: Gc<Probe> = Gc::with_config(Config::default());
    let drops = Rc::new(Cell::new(0u32));
    let r = gc.new(Probe { drops: drops.clone() });
    let node = gc.node(r.index()).expect("allocated node is present");
    assert_eq!(node.ref_set().get(), None);
    assert_eq!(node.value().drops.get(), 0);
    assert_eq!(node.head.marker, State::Unknown);
    assert!(gc.node(999).is_none());
    gc.drop_root(r);
}

#[test]
fn root_count_tracks_outstanding_handles() {
    let mut gc: Gc<Probe> = Gc::with_config(Config::default());
    let drops = Rc::new(Cell::new(0u32));
    let a = gc.new(Probe { drops: drops.clone() });
    assert_eq!(gc.root_count(a.index()), Some(1));
    let b = gc.clone_root(&a).expect("root count can grow");
    assert_eq!(gc.root_count(a.index()), Some(2));
    let c = gc.root_at(a.index()).expect("slot is occupied");
    assert_eq!(gc.root_count(a.index()), Some(3));
    gc.drop_root(c);
    assert_eq!(gc.root_count(a.index()), Some(2));
    gc.drop_root(b);
    gc.drop_root(a);
    assert_eq!(gc.root_count(0), Some(0));
    gc.clear();
    assert_eq!(gc.root_count(0), None);
    assert!(gc.root_at(0).is_none());
}

#[test]
fn sweep_marks_survivors_strong() {
    let mut gc: Gc<Probe> = Gc::with_config(Config::default());
    let drops = Rc::new(Cell::new(0u32));
    let a = gc.new(Probe { drops: drops.clone() });
    let b = gc.new(Probe { drops: drops.clone() });
    gc.ref_set_mut(a.index()).set_ref(b.index());
    gc.drop_root(b);
    gc.clear();
    for i in 0..gc.slot_count() {
        if let Some(node) = gc.node(i) {
            assert_eq!(node.head.marker, State::Strong);
        }
    }
    gc.drop_root(a);
}

#[test]
fn sweep_is_idempotent() {
    let mut gc: Gc<Probe> = Gc::with_config(Config::default());
    let drops = Rc::new(Cell::new(0u32));
    let a = gc.new(Probe { drops: drops.clone() });
    let b = gc.new(Probe { drops: drops.clone() });
    let c = gc.new(Probe { drops: drops.clone() });
    gc.ref_set_mut(a.index()).set_ref(b.index());
    gc.drop_root(b);
    gc.drop_root(c);
    gc.clear();
    let first: Vec<bool> = (0..gc.slot_count()).map(|i| gc.is_occupied(i)).collect();
    let count = gc.get_node_count();
    gc.clear();
    let second: Vec<bool> = (0..gc.slot_count()).map(|i| gc.is_occupied(i)).collect();
    assert_eq!(first, second);
    assert_eq!(gc.get_node_count(), count);
    assert_eq!(drops.get(), 1);
    gc.drop_root(a);
}

#[test]
fn unreachable_cycle_reclaimed_in_one_sweep() {
    let mut gc: Gc<Probe> = Gc::with_config(Config::default());
    let drops = Rc::new(Cell::new(0u32));
    let a = gc.new(Probe { drops: drops.clone() });
    let b = gc.new(Probe { drops: drops.clone() });
    let c = gc.new(Probe { drops: drops.clone() });
    gc.ref_set_mut(a.index()).set_ref(b.index());
    gc.ref_set_mut(b.index()).set_ref(c.index());
    gc.ref_set_mut(c.index()).set_ref(a.index());
    gc.drop_root(a);
    gc.drop_root(b);
    gc.drop_root(c);
    gc.clear();
    assert_eq!(drops.get(), 3);
    assert_eq!(gc.get_node_count(), 0);
}

#[test]
fn reachable_cycle_survives_repeated_sweeps() {
    let mut gc: Gc<Probe> = Gc::with_config(Config::default());
    let drops = Rc::new(Cell::new(0u32));
    let a = gc.new(Probe { drops: drops.clone() });
    let b = gc.new(Probe { drops: drops.clone() });
    gc.ref_set_mut(a.index()).set_ref(b.index());
    gc.ref_set_mut(b.index()).set_ref(a.index());
    gc.drop_root(b);
    gc.clear();
    gc.clear();
    gc.clear();
    assert_eq!(gc.get_node_count(), 2);
    assert_eq!(drops.get(), 0);
    gc.drop_root(a);
}

#[test]
fn tuple_edges_are_traced() {
    let mut gc: Gc<Pair> = Gc::with_config(Config::default());
    let hub = gc.new(Pair);
    let x = gc.new(Pair);
    let y = gc.new(Pair);
    let z = gc.new(Pair);
    {
        let edges = gc.ref_set_mut(hub.index());
        edges.0.set_ref(x.index());
        edges.1.push(y.index());
        edges.1.push(z.index());
    }
    gc.drop_root(x);
    gc.drop_root(y);
    gc.drop_root(z);
    gc.clear();
    assert_eq!(gc.get_node_count(), 4);
    gc.drop_root(hub);
    gc.clear();
    assert_eq!(gc.get_node_count(), 0);
}

#[test]
fn array_edges_are_traced() {
    let mut gc: Gc<Duo> = Gc::with_config(Config::default());
    let hub = gc.new(Duo);
    let x = gc.new(Duo);
    let y = gc.new(Duo);
    assert_eq!(gc.node(hub.index()).unwrap().ref_set()[0].get(), None);
    {
        let edges = gc.ref_set_mut(hub.index());
        edges[0].set_ref(x.index());
        edges[1].set_ref(y.index());
    }
    gc.drop_root(x);
    gc.drop_root(y);
    gc.clear();
    assert_eq!(gc.get_node_count(), 3);
    gc.drop_root(hub);
    gc.clear();
    assert_eq!(gc.get_node_count(), 0);
}

#[test]
fn raw_type_has_no_edges() {
    let mut gc: Gc<RawType<String>> = Gc::with_config(Config::default());
    let a = gc.new_raw(String::from("kept"));
    let b = gc.forget_raw(String::from("forgotten"));
    assert_eq!(gc.get_node_count(), 1);
    assert_eq!(gc.get_forget_count(), 1);
    assert_eq!(gc.node(a.index()).unwrap().value().0, "kept");
    gc.drop_root(b);
    gc.clear();
    assert_eq!(gc.get_forget_count(), 0);
    assert_eq!(gc.get_node_count(), 1);
    gc.drop_root(a);
    gc.clear();
    assert_eq!(gc.get_node_count(), 0);
}

#[test]
fn reserve_keeps_contents() {
    let mut gc: Gc<Probe> = Gc::with_config(Config::default());
    let drops = Rc::new(Cell::new(0u32));
    let a = gc.new(Probe { drops: drops.clone() });
    gc.reserve(100);
    gc.reserve_forgets(50);
    assert_eq!(gc.get_node_count(), 1);
    assert_eq!(gc.root_count(a.index()), Some(1));
    gc.drop_root(a);
}

#[test]
fn stale_handle_release_is_harmless() {
    let mut gc: Gc<Probe> = Gc::with_config(Config::default());
    let drops = Rc::new(Cell::new(0u32));
    let a = gc.new(Probe { drops: drops.clone() });
    let extra = gc.root_at(a.index()).unwrap();
    gc.drop_root(a);
    gc.drop_root(extra);
    gc.clear();
    // Both handles are gone and the node was reclaimed; releasing a handle
    // minted for an already-reclaimed slot leaves the collector unchanged.
    let b = gc.new(Probe { drops: drops.clone() });
    assert_eq!(gc.get_node_count(), 1);
    gc.drop_root(b);
}

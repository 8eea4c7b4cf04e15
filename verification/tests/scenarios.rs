use scope_gc::gc::{scope_gc, Config, Gc};
use scope_gc::strong_ref::StrongRef;
use scope_gc::strong_vec::StrongVec;
use scope_gc::target::Target;
use std::cell::{Cell, RefCell};
use std::rc::Rc;
use std::time::Instant;

struct Probe {
    drops: Rc<Cell<u32>>,
}

impl Drop for Probe {
    fn drop(&mut self) {
        self.drops.set(self.drops.get() + 1);
    }
}

impl Target for Probe {
    type Edges = StrongRef;
}

struct Hooked {
    events: Rc<RefCell<Vec<&'static str>>>,
}

impl Drop for Hooked {
    fn drop(&mut self) {
        self.events.borrow_mut().push("drop");
    }
}

impl Target for Hooked {
    type Edges = StrongRef;

    fn pre_drop(&self, _ref_set: &StrongRef) {
        self.events.borrow_mut().push("pre");
    }
}

struct VecNode {
    drops: Rc<Cell<u32>>,
}

impl Drop for VecNode {
    fn drop(&mut self) {
        self.drops.set(self.drops.get() + 1);
    }
}

impl Target for VecNode {
    type Edges = StrongVec;
}

#[test]
fn s1_simple_cycle_collection() {
    let drops = Rc::new(Cell::new(0u32));
    let mut gc: Gc<Probe> = Gc::with_config(Config::default());
    let a = gc.new(Probe { drops: drops.clone() });
    let b = gc.new(Probe { drops: drops.clone() });
    gc.ref_set_mut(a.index()).set_ref(b.index());
    gc.ref_set_mut(b.index()).set_ref(a.index());
    gc.drop_root(a);
    gc.drop_root(b);
    gc.clear();
    assert_eq!(drops.get(), 2);
    assert_eq!(gc.get_node_count(), 0);
}

#[test]
fn s2_rooted_cycle_survival() {
    let drops = Rc::new(Cell::new(0u32));
    let mut gc: Gc<Probe> = Gc::with_config(Config::default());
    let a = gc.new(Probe { drops: drops.clone() });
    let b = gc.new(Probe { drops: drops.clone() });
    gc.ref_set_mut(a.index()).set_ref(b.index());
    gc.ref_set_mut(b.index()).set_ref(a.index());
    gc.drop_root(b);
    gc.clear();
    assert_eq!(gc.get_node_count(), 2);
    assert_eq!(drops.get(), 0);
    gc.drop_root(a);
    gc.clear();
    assert_eq!(drops.get(), 2);
    assert_eq!(gc.get_node_count(), 0);
}

#[test]
fn s3_chain_reachability() {
    let drops = Rc::new(Cell::new(0u32));
    let mut gc: Gc<Probe> = Gc::with_config(Config::default());
    let a = gc.new(Probe { drops: drops.clone() });
    let b = gc.new(Probe { drops: drops.clone() });
    let c = gc.new(Probe { drops: drops.clone() });
    gc.ref_set_mut(a.index()).set_ref(b.index());
    gc.ref_set_mut(b.index()).set_ref(c.index());
    gc.drop_root(b);
    gc.drop_root(c);
    gc.clear();
    assert_eq!(gc.get_node_count(), 3);
    assert_eq!(drops.get(), 0);
    gc.ref_set_mut(a.index()).set_none();
    gc.clear();
    assert_eq!(gc.get_node_count(), 1);
    assert_eq!(drops.get(), 2);
    gc.drop_root(a);
}

#[test]
fn s4_scope_teardown_reclaims_everything() {
    let drops = Rc::new(Cell::new(0u32));
    let inner = drops.clone();
    scope_gc(Config::default(), move |mut gc: Gc<Probe>| {
        for _ in 0..10 {
            let r = gc.new(Probe { drops: inner.clone() });
            gc.drop_root(r);
        }
        (gc, ())
    });
    assert_eq!(drops.get(), 10);
}

#[test]
fn s5_forget_mode_skips_destructors() {
    let drops = Rc::new(Cell::new(0u32));
    let mut gc: Gc<Probe> = Gc::with_config(Config::default());
    let r = gc.forget(Probe { drops: drops.clone() });
    assert_eq!(gc.get_forget_count(), 1);
    gc.drop_root(r);
    gc.clear();
    assert_eq!(drops.get(), 0);
    assert_eq!(gc.get_forget_count(), 0);
}

#[test]
fn s6_pre_drop_ordering() {
    let events: Rc<RefCell<Vec<&'static str>>> = Rc::new(RefCell::new(Vec::new()));
    let config = Config {
        pre_drop: true,
        ..Default::default()
    };
    let mut gc: Gc<Hooked> = Gc::with_config(config);
    let a = gc.new(Hooked { events: events.clone() });
    let b = gc.new(Hooked { events: events.clone() });
    gc.ref_set_mut(a.index()).set_ref(b.index());
    gc.ref_set_mut(b.index()).set_ref(a.index());
    gc.drop_root(a);
    gc.drop_root(b);
    gc.clear();
    let seen = events.borrow();
    assert_eq!(seen.len(), 4);
    assert_eq!(seen[0], "pre");
    assert_eq!(seen[1], "pre");
    assert_eq!(seen[2], "drop");
    assert_eq!(seen[3], "drop");
}

#[test]
fn s7_vector_of_edges() {
    let drops = Rc::new(Cell::new(0u32));
    let mut gc: Gc<VecNode> = Gc::with_config(Config::default());
    let hub = gc.new(VecNode { drops: drops.clone() });
    let mut leaves = Vec::new();
    for _ in 0..100 {
        let leaf = gc.new(VecNode { drops: drops.clone() });
        gc.ref_set_mut(hub.index()).push(leaf.index());
        leaves.push(leaf);
    }
    for leaf in leaves {
        gc.drop_root(leaf);
    }
    gc.clear();
    assert_eq!(gc.get_node_count(), 101);
    assert_eq!(drops.get(), 0);
    gc.ref_set_mut(hub.index()).entries.clear();
    gc.clear();
    assert_eq!(gc.get_node_count(), 1);
    assert_eq!(drops.get(), 100);
    gc.drop_root(hub);
}

#[test]
fn scope_returns_body_result() {
    let drops = Rc::new(Cell::new(0u32));
    let inner = drops.clone();
    let count = scope_gc(Config::default(), move |mut gc: Gc<Probe>| {
        let r = gc.new(Probe { drops: inner.clone() });
        let n = gc.get_node_count();
        gc.drop_root(r);
        (gc, n)
    });
    assert_eq!(count, 1);
    assert_eq!(drops.get(), 1);
}

struct A(i32);

impl Drop for A {
    fn drop(&mut self) {}
}

impl Target for A {
    type Edges = StrongRef;
}

#[test]
fn test() {
    let config = Config {
        pre_drop: true,
        ..Default::default()
    };
    let i = 1;
    scope_gc(config, move |mut gc: Gc<A>| {
        let x = gc.new(A(i));
        let y = gc.new(A(i));
        gc.ref_set_mut(x.index()).set_ref(y.index());
        gc.ref_set_mut(y.index()).set_ref(x.index());
        gc.drop_root(x);
        gc.drop_root(y);
        gc.clear();

        let p1 = Instant::now();

        for _ in 0..10000000 {
            let r = gc.new(A(i));
            gc.drop_root(r);
        }

        let p2 = Instant::now();
        gc.clear();
        let p3 = Instant::now();
        println!("alloc {:.4?}", p2 - p1);
        println!("clear {:.4?}", p3 - p2);
        (gc, ())
    });
}

//! A scope-bounded mark-and-sweep collector for object graphs that may
//! contain cycles.
//!
//! Managed values live in an arena owned by a [`gc::Gc`] collector and are
//! addressed by index. A payload type implements [`target::Target`] to declare
//! its outgoing edges as a [`target::RefSet`]; the collector combines explicit
//! root counting with a tri-state mark phase to decide which nodes survive a
//! sweep. The sweep is verified: after [`gc::Gc::clear`] the surviving nodes
//! are exactly those reachable from a rooted node through declared edges.

pub mod gc;
pub mod node;
pub mod raw_type;
pub mod root_ref;
pub mod strong_ref;
pub mod strong_vec;
pub mod struct_ref;
pub mod target;

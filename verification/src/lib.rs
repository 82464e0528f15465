//! A top-down room-graph simulation: an axis-aligned semikinematic physics
//! engine in the plane, and a procedural generator and spawner for a graph
//! of rooms joined door to door, of which only the current room and its
//! neighbours are simulated at a time.

use vstd::prelude::*;

pub mod array;
pub mod fixed;
pub mod geom;
pub mod level;
pub mod phys;
pub mod proc;
pub mod room;

verus! {

} // verus!

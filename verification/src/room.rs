//! The runtime room graph and its activation window.
//!
//! Entities are indices into a single body table; parallel component tables
//! mark rooms, their sensors, their door connections and the adjacency
//! records that say where each neighbouring room stands relative to its
//! host.  Only the current room and its direct neighbours are simulated and
//! visible at any time.

use vstd::prelude::*;

use crate::geom::{Rot, Vec2};
use crate::phys::{Joint, RigidBody};
use crate::proc::Dcg;

verus! {

/// The room the player is in.
#[derive(Clone, Copy, Debug, PartialEq, Eq, Structural)]
pub struct CurrentRoom {
    pub entity: usize,
}

/// Marks the room whose frame has been made current.
#[derive(Clone, Copy, Debug, PartialEq, Eq, Structural)]
pub struct ActiveRoom;

/// Marks an entity as a room.
#[derive(Clone, Copy, Debug, PartialEq, Eq, Structural)]
pub struct RoomMarker;

/// The door entities belonging to a room.
#[derive(Debug)]
pub struct DoorSet {
    pub vec: Vec<usize>,
}

/// A room's display name.
#[derive(Debug)]
pub struct Name {
    name: String,
}

impl View for Name {
    type V = Seq<char>;

    closed spec fn view(&self) -> Seq<char> {
        self.name@
    }
}

impl Name {
    pub fn new(name: String) -> (r: Name)
        ensures
            r@ == name@,
    {
        Name { name }
    }

    pub fn get(&self) -> (r: &str)
        ensures
            r@ == self@,
    {
        self.name.as_str()
    }
}

/// One adjacency record: a neighbouring room entity and the relative
/// isometry that places it against the owning room.
#[derive(Clone, Copy, Debug, PartialEq, Eq, Structural)]
pub struct Room {
    pub entity: usize,
    pub position: Vec2,
    pub rotation: Rot,
}

impl Room {
    pub fn new(entity: usize) -> (r: Room)
        ensures
            r == (Room { entity, position: Vec2 { x: 0, y: 0 }, rotation: Rot::Deg0 }),
    {
        Room { entity, position: Vec2 { x: 0, y: 0 }, rotation: Rot::Deg0 }
    }

    pub fn entity(&self) -> (r: usize)
        ensures
            r == self.entity,
    {
        self.entity
    }

    pub fn isometry(&self) -> (r: (Vec2, Rot))
        ensures
            r.0 == self.position,
            r.1 == self.rotation,
    {
        (self.position, self.rotation)
    }

    pub fn origin(self, origin: Vec2) -> (r: Room)
        ensures
            r == (Room { position: origin, ..self }),
    {
        Room { position: origin, ..self }
    }

    pub fn rotation(self, rotation: Rot) -> (r: Room)
        ensures
            r == (Room { rotation, ..self }),
    {
        Room { rotation, ..self }
    }
}

/// A room's outgoing adjacency records.
#[derive(Debug)]
pub struct Edges {
    pub edges: Vec<Room>,
}

impl Edges {
    pub fn new() -> (r: Edges)
        ensures
            r.edges@ == Seq::<Room>::empty(),
    {
        Edges { edges: Vec::new() }
    }

    pub fn add(self, edge: Room) -> (r: Edges)
        ensures
            r.edges@ == self.edges@.push(edge),
    {
        let mut edges = self.edges;
        edges.push(edge);
        Edges { edges }
    }

    pub fn add_mut(&mut self, edge: Room)
        ensures
            final(self).edges@ == old(self).edges@.push(edge),
    {
        self.edges.push(edge);
    }

    pub fn get(&self, i: usize) -> (r: Option<&Room>)
        ensures
            i < self.edges@.len() ==> r == Some(&self.edges@[i as int]),
            i >= self.edges@.len() ==> r is None,
    {
        if i < self.edges.len() {
            Some(&self.edges[i])
        } else {
            None
        }
    }

    pub fn len(&self) -> (r: usize)
        ensures
            r == self.edges@.len(),
    {
        self.edges.len()
    }
}

/// Prop entities placed in a room.
#[derive(Debug)]
pub struct Props {
    pub vec: Vec<usize>,
}

/// A door's runtime state: the room that owns it, the room it leads to,
/// that room's sensor, and whether the door stands open.
#[derive(Clone, Copy, Debug, PartialEq, Eq, Structural)]
pub struct Connection {
    pub this: usize,
    pub room: usize,
    pub sensor: usize,
    pub open: bool,
}

/// Marks a room's trigger volume and names the room it belongs to.
#[derive(Clone, Copy, Debug, PartialEq, Eq, Structural)]
pub struct RoomSensor(pub usize);

/// A player-controlled character.
#[derive(Clone, Copy, Debug, PartialEq, Eq, Structural)]
pub struct Character {
    pub active: bool,
}

/// A character's interaction trigger volume.
#[derive(Clone, Copy, Debug, PartialEq, Eq, Structural)]
pub struct Sensor {
    pub character: usize,
}

/// The simulation world: one rigid body per entity, with parallel component
/// tables, the joint list and the current-room pointer.
pub struct World {
    pub bodies: Vec<RigidBody>,
    pub visible: Vec<bool>,
    pub parent: Vec<Option<usize>>,
    pub room_marker: Vec<bool>,
    pub active_room: Vec<bool>,
    pub edges: Vec<Edges>,
    pub door_sets: Vec<DoorSet>,
    pub props: Vec<Props>,
    pub connections: Vec<Option<Connection>>,
    pub room_sensors: Vec<Option<RoomSensor>>,
    pub sensors: Vec<Option<Sensor>>,
    pub characters: Vec<Option<Character>>,
    pub joints: Vec<Joint>,
    pub current: CurrentRoom,
    pub dcg: Dcg,
}

impl World {
    /// The number of entities.
    pub open spec fn n(self) -> int {
        self.bodies@.len() as int
    }

    /// Every component table covers every entity, every body is well
    /// formed, and every stored entity reference is in range.
    pub open spec fn tables_wf(self) -> bool {
        &&& self.visible@.len() == self.n()
        &&& self.parent@.len() == self.n()
        &&& self.room_marker@.len() == self.n()
        &&& self.active_room@.len() == self.n()
        &&& self.edges@.len() == self.n()
        &&& self.door_sets@.len() == self.n()
        &&& self.props@.len() == self.n()
        &&& self.connections@.len() == self.n()
        &&& self.room_sensors@.len() == self.n()
        &&& self.sensors@.len() == self.n()
        &&& self.characters@.len() == self.n()
        &&& forall|i: int| 0 <= i < self.n() ==> (#[trigger] self.bodies@[i]).wf()
        &&& forall|i: int| 0 <= i < self.n() ==> match #[trigger] self.parent@[i] {
            Some(p) => (p as int) < self.n(),
            None => true,
        }
        &&& forall|i: int| 0 <= i < self.n() ==> match #[trigger] self.connections@[i] {
            Some(c) => (c.this as int) < self.n() && (c.room as int) < self.n()
                && (c.sensor as int) < self.n(),
            None => true,
        }
        &&& forall|i: int| 0 <= i < self.n() ==> match #[trigger] self.room_sensors@[i] {
            Some(rs) => (rs.0 as int) < self.n(),
            None => true,
        }
        &&& forall|i: int| 0 <= i < self.n() ==> match #[trigger] self.sensors@[i] {
            Some(s) => (s.character as int) < self.n(),
            None => true,
        }
        &&& forall|i: int, k: int| 0 <= i < self.n()
            && 0 <= k < (#[trigger] self.edges@[i]).edges@.len() ==> {
            let e = #[trigger] self.edges@[i].edges@[k];
            (e.entity as int) < self.n() && e.position.wf()
        }
        &&& forall|i: int, k: int| 0 <= i < self.n()
            && 0 <= k < (#[trigger] self.door_sets@[i]).vec@.len()
            ==> ((#[trigger] self.door_sets@[i].vec@[k]) as int) < self.n()
        &&& forall|i: int, k: int| 0 <= i < self.n()
            && 0 <= k < (#[trigger] self.props@[i]).vec@.len()
            ==> ((#[trigger] self.props@[i].vec@[k]) as int) < self.n()
        &&& forall|k: int| 0 <= k < self.joints@.len() ==> {
            let j = #[trigger] self.joints@[k];
            (j.body1 as int) < self.n() && (j.body2 as int) < self.n() && j.offset.wf()
        }
    }

    /// The tables are well formed and the current-room pointer is a live
    /// entity.
    pub open spec fn wf(self) -> bool {
        self.tables_wf() && (self.current.entity as int) < self.n()
    }

    /// An empty world pointing at entity zero; unusable until an entity
    /// exists.
    pub fn new() -> (w: World)
        ensures
            w.n() == 0,
            w.joints@.len() == 0,
            w.dcg.edges@.len() == 0,
            w.current.entity == 0,
            w.visible@.len() == 0,
            w.parent@.len() == 0,
            w.room_marker@.len() == 0,
            w.active_room@.len() == 0,
            w.edges@.len() == 0,
            w.door_sets@.len() == 0,
            w.props@.len() == 0,
            w.connections@.len() == 0,
            w.room_sensors@.len() == 0,
            w.sensors@.len() == 0,
            w.characters@.len() == 0,
    {
        World {
            bodies: Vec::new(),
            visible: Vec::new(),
            parent: Vec::new(),
            room_marker: Vec::new(),
            active_room: Vec::new(),
            edges: Vec::new(),
            door_sets: Vec::new(),
            props: Vec::new(),
            connections: Vec::new(),
            room_sensors: Vec::new(),
            sensors: Vec::new(),
            characters: Vec::new(),
            joints: Vec::new(),
            current: CurrentRoom { entity: 0 },
            dcg: Dcg { edges: Vec::new() },
        }
    }

    /// Add one entity with the given body and no other components; its
    /// identifier is the next free index.
    pub fn add_entity(&mut self, body: RigidBody) -> (e: usize)
        requires
            body.wf(),
            old(self).n() < 0x1000_0000,
        ensures
            e as int == old(self).n(),
            final(self).n() == old(self).n() + 1,
            final(self).bodies@ == old(self).bodies@.push(body),
            final(self).visible@ == old(self).visible@.push(false),
            final(self).parent@ == old(self).parent@.push(None),
            final(self).room_marker@ == old(self).room_marker@.push(false),
            final(self).active_room@ == old(self).active_room@.push(false),
            final(self).edges@.len() == old(self).edges@.len() + 1,
            forall|i: int| 0 <= i < old(self).edges@.len()
                ==> (#[trigger] final(self).edges@[i]).edges@ == old(self).edges@[i].edges@,
            final(self).edges@[old(self).edges@.len() as int].edges@ == Seq::<Room>::empty(),
            final(self).door_sets@.len() == old(self).door_sets@.len() + 1,
            forall|i: int| 0 <= i < old(self).door_sets@.len()
                ==> (#[trigger] final(self).door_sets@[i]).vec@ == old(self).door_sets@[i].vec@,
            final(self).door_sets@[old(self).door_sets@.len() as int].vec@ == Seq::<usize>::empty(),
            final(self).props@.len() == old(self).props@.len() + 1,
            forall|i: int| 0 <= i < old(self).props@.len()
                ==> (#[trigger] final(self).props@[i]).vec@ == old(self).props@[i].vec@,
            final(self).props@[old(self).props@.len() as int].vec@ == Seq::<usize>::empty(),
            final(self).connections@ == old(self).connections@.push(None),
            final(self).room_sensors@ == old(self).room_sensors@.push(None),
            final(self).sensors@ == old(self).sensors@.push(None),
            final(self).characters@ == old(self).characters@.push(None),
            final(self).joints@ == old(self).joints@,
            final(self).current == old(self).current,
            final(self).dcg.edges@ == old(self).dcg.edges@,
            old(self).tables_wf() ==> final(self).tables_wf(),
    {
        let e = self.bodies.len();
        self.bodies.push(body);
        self.visible.push(false);
        self.parent.push(None);
        self.room_marker.push(false);
        self.active_room.push(false);
        self.edges.push(Edges::new());
        self.door_sets.push(DoorSet { vec: Vec::new() });
        self.props.push(Props { vec: Vec::new() });
        self.connections.push(None);
        self.room_sensors.push(None);
        self.sensors.push(None);
        self.characters.push(None);
        proof {
            assert(self.edges@.last().edges@ =~= Seq::<Room>::empty());
            assert(self.door_sets@.last().vec@ =~= Seq::<usize>::empty());
            assert(self.props@.last().vec@ =~= Seq::<usize>::empty());
        }
        e
    }
}

} // verus!


verus! {

/// Whether one of the adjacency records names entity `e`.
pub open spec fn edges_name_entity(eds: Seq<Room>, e: int) -> bool {
    exists|k: int| 0 <= k < eds.len() && ((#[trigger] eds[k]).entity as int) == e
}

/// One adjacency record, under a name that quantifiers can key on.
pub open spec fn edge_slot(eds: Seq<Room>, u: int) -> Room {
    eds[u]
}

/// The index below `k` of the last adjacency record naming entity `x`, or
/// -1 when none does.
pub open spec fn last_upto(eds: Seq<Room>, k: int, x: int) -> int
    decreases k,
{
    if k <= 0 {
        -1
    } else if eds[k - 1].entity as int == x {
        k - 1
    } else {
        last_upto(eds, k - 1, x)
    }
}

/// Whether some entity carries the active-room mark.
pub open spec fn any_active_room(w: World) -> bool {
    exists|e: int| 0 <= e < w.n() && #[trigger] w.active_room@[e]
}

/// The parts of a body the room windowing never touches.
pub open spec fn same_core(a: RigidBody, b: RigidBody) -> bool {
    &&& a.shape@ == b.shape@
    &&& a.status == b.status
    &&& a.inv_mass == b.inv_mass
    &&& a.restitution == b.restitution
    &&& a.velocity == b.velocity
    &&& a.accumulator == b.accumulator
}

/// The tables the windowing and resync never touch, and the table lengths.
pub open spec fn same_layout(a: World, b: World) -> bool {
    &&& b.bodies@.len() == a.bodies@.len()
    &&& b.visible@.len() == a.visible@.len()
    &&& b.room_marker@ == a.room_marker@
    &&& b.room_sensors@ == a.room_sensors@
    &&& b.sensors@ == a.sensors@
    &&& b.characters@ == a.characters@
    &&& b.joints@ == a.joints@
    &&& b.parent@ == a.parent@
    &&& b.current == a.current
    &&& b.dcg.edges@ == a.dcg.edges@
    &&& b.door_sets@ == a.door_sets@
    &&& b.edges@ == a.edges@
    &&& b.props@ == a.props@
}

/// What the defensive resync guarantees: every door connection closed and
/// inert, every room deactivated and hidden, everything else untouched.
pub open spec fn resync_ok(w0: World, w1: World) -> bool {
    &&& forall|x: int| 0 <= x < w0.n() ==> match #[trigger] w1.connections@[x] {
        Some(c) => !c.open && match w0.connections@[x] {
            Some(c0) => c.this == c0.this && c.room == c0.room && c.sensor == c0.sensor,
            None => false,
        },
        None => w0.connections@[x] is None,
    }
    &&& forall|x: int| 0 <= x < w0.n() && w0.room_marker@[x]
        ==> !(#[trigger] w1.bodies@[x]).active && !w1.visible@[x]
}

/// Force every door connection closed: its body is deactivated, and an open
/// door is swung shut (a quarter turn back around its hinge) and made solid.
#[verifier::rlimit(30)]
fn resync_connections(world: &mut World)
    requires
        old(world).wf(),
    ensures
        final(world).wf(),
        final(world).n() == old(world).n(),
        same_layout(*old(world), *final(world)),
        final(world).active_room@ == old(world).active_room@,
        final(world).visible@ == old(world).visible@,
        forall|x: int| 0 <= x < old(world).n()
            ==> same_core(#[trigger] final(world).bodies@[x], old(world).bodies@[x]),
        forall|x: int| 0 <= x < old(world).n() ==> match #[trigger] final(world).connections@[x] {
            Some(c) => !c.open && match old(world).connections@[x] {
                Some(c0) => c.this == c0.this && c.room == c0.room && c.sensor == c0.sensor,
                None => false,
            },
            None => old(world).connections@[x] is None,
        },
        forall|x: int| 0 <= x < old(world).n() && old(world).connections@[x] is None
            ==> (#[trigger] final(world).bodies@[x]) == old(world).bodies@[x],
{
    let ghost w0 = *world;
    let n = world.bodies.len();
    let mut e: usize = 0;
    while e < n
        invariant
            e <= n,
            n == world.n(),
            world.wf(),
            world.n() == w0.n(),
            same_layout(w0, *world),
            world.active_room@ == w0.active_room@,
            world.visible@ == w0.visible@,
            world.connections@.len() == w0.connections@.len(),
            forall|x: int| 0 <= x < w0.n()
                ==> same_core(#[trigger] world.bodies@[x], w0.bodies@[x]),
            forall|x: int| e <= x < w0.n()
                ==> (#[trigger] world.connections@[x]) == w0.connections@[x]
                    && world.bodies@[x] == w0.bodies@[x],
            forall|x: int| 0 <= x < e ==> match #[trigger] world.connections@[x] {
                Some(c) => !c.open && match w0.connections@[x] {
                    Some(c0) => c.this == c0.this && c.room == c0.room && c.sensor == c0.sensor,
                    None => false,
                },
                None => w0.connections@[x] is None,
            },
            forall|x: int| 0 <= x < e && w0.connections@[x] is None
                ==> (#[trigger] world.bodies@[x]) == w0.bodies@[x],
        decreases n - e,
    {
        let ghost wp = *world;
        match world.connections[e] {
            Some(conn) => {
                if conn.open {
                    world.connections[e] = Some(Connection { open: false, ..conn });
                    let oldrot = world.bodies[e].rotation;
                    let oldpos = world.bodies[e].position;
                    let newrot = oldrot.compose(Rot::Deg270);
                    let inv = newrot.invert();
                    let offset = inv.rotate(Vec2 { x: 500, y: 500 });
                    let px = crate::fixed::csub(oldpos.x, offset.x);
                    let py = crate::fixed::csub(oldpos.y, offset.y);
                    let body = &mut world.bodies[e];
                    body.active = false;
                    body.rotation = newrot;
                    body.position = Vec2 { x: px, y: py };
                    body.sensor = false;
                } else {
                    let body = &mut world.bodies[e];
                    body.active = false;
                }
            },
            None => {},
        }
        e = e + 1;
        proof {
            assert forall|x: int| 0 <= x < w0.n()
                implies same_core(#[trigger] world.bodies@[x], w0.bodies@[x]) by {
                if x != e - 1 {
                    assert(world.bodies@[x] == wp.bodies@[x]);
                } else {
                    assert(same_core(wp.bodies@[x], w0.bodies@[x]));
                }
            }
            assert forall|x: int| e <= x < w0.n()
                implies (#[trigger] world.connections@[x]) == w0.connections@[x]
                    && world.bodies@[x] == w0.bodies@[x] by {
                assert(world.connections@[x] == wp.connections@[x]);
                assert(world.bodies@[x] == wp.bodies@[x]);
            }
        }
    }
}

/// Deactivate and hide every room.
#[verifier::rlimit(30)]
fn resync_rooms(world: &mut World)
    requires
        old(world).wf(),
    ensures
        final(world).wf(),
        final(world).n() == old(world).n(),
        same_layout(*old(world), *final(world)),
        final(world).active_room@ == old(world).active_room@,
        final(world).connections@ == old(world).connections@,
        final(world).visible@.len() == old(world).visible@.len(),
        forall|x: int| 0 <= x < old(world).n()
            ==> same_core(#[trigger] final(world).bodies@[x], old(world).bodies@[x]),
        forall|x: int| 0 <= x < old(world).n() && old(world).room_marker@[x]
            ==> !(#[trigger] final(world).bodies@[x]).active && !final(world).visible@[x],
        forall|x: int| 0 <= x < old(world).n() && !old(world).room_marker@[x]
            ==> (#[trigger] final(world).bodies@[x]) == old(world).bodies@[x]
                && final(world).visible@[x] == old(world).visible@[x],
        forall|x: int| 0 <= x < old(world).n() && old(world).room_marker@[x]
            ==> (#[trigger] final(world).bodies@[x]).position == old(world).bodies@[x].position
                && final(world).bodies@[x].rotation == old(world).bodies@[x].rotation
                && final(world).bodies@[x].sensor == old(world).bodies@[x].sensor,
{
    let ghost w0 = *world;
    let n = world.bodies.len();
    let mut e: usize = 0;
    while e < n
        invariant
            e <= n,
            n == world.n(),
            world.wf(),
            world.n() == w0.n(),
            same_layout(w0, *world),
            world.active_room@ == w0.active_room@,
            world.connections@ == w0.connections@,
            world.visible@.len() == w0.visible@.len(),
            forall|x: int| 0 <= x < w0.n()
                ==> same_core(#[trigger] world.bodies@[x], w0.bodies@[x]),
            forall|x: int| 0 <= x < e && w0.room_marker@[x]
                ==> !(#[trigger] world.bodies@[x]).active && !world.visible@[x],
            forall|x: int| 0 <= x < w0.n() && !w0.room_marker@[x]
                ==> (#[trigger] world.bodies@[x]) == w0.bodies@[x]
                    && world.visible@[x] == w0.visible@[x],
            forall|x: int| e <= x < w0.n()
                ==> (#[trigger] world.bodies@[x]) == w0.bodies@[x]
                    && world.visible@[x] == w0.visible@[x],
            forall|x: int| 0 <= x < w0.n() && w0.room_marker@[x]
                ==> (#[trigger] world.bodies@[x]).position == w0.bodies@[x].position
                    && world.bodies@[x].rotation == w0.bodies@[x].rotation
                    && world.bodies@[x].sensor == w0.bodies@[x].sensor,
        decreases n - e,
    {
        let ghost wp = *world;
        if world.room_marker[e] {
            let body = &mut world.bodies[e];
            body.active = false;
            world.visible[e] = false;
        }
        e = e + 1;
        proof {
            assert forall|x: int| 0 <= x < w0.n()
                implies same_core(#[trigger] world.bodies@[x], w0.bodies@[x]) by {
                if x != e - 1 {
                    assert(world.bodies@[x] == wp.bodies@[x]);
                } else {
                    assert(same_core(wp.bodies@[x], w0.bodies@[x]));
                }
            }
            assert forall|x: int| e <= x < w0.n()
                implies (#[trigger] world.bodies@[x]) == w0.bodies@[x]
                    && world.visible@[x] == w0.visible@[x] by {
                assert(world.bodies@[x] == wp.bodies@[x]);
                assert(world.visible@[x] == wp.visible@[x]);
            }
        }
    }
}

} // verus!

verus! {

/// Deactivate and hide every room but `cur`; touch nothing else.
#[verifier::rlimit(30)]
fn window_deactivate(world: &mut World, cur: usize)
    requires
        old(world).wf(),
        (cur as int) < old(world).n(),
    ensures
        final(world).wf(),
        final(world).n() == old(world).n(),
        same_layout(*old(world), *final(world)),
        final(world).active_room@ == old(world).active_room@,
        final(world).connections@ == old(world).connections@,
        final(world).visible@.len() == old(world).visible@.len(),
        forall|x: int| 0 <= x < old(world).n()
            ==> same_core(#[trigger] final(world).bodies@[x], old(world).bodies@[x]),
        forall|x: int| 0 <= x < old(world).n() && old(world).room_marker@[x] && x != cur as int
            ==> !(#[trigger] final(world).bodies@[x]).active && !final(world).visible@[x],
        forall|x: int| 0 <= x < old(world).n() && !(old(world).room_marker@[x] && x != cur as int)
            ==> (#[trigger] final(world).bodies@[x]) == old(world).bodies@[x]
                && final(world).visible@[x] == old(world).visible@[x],
        forall|x: int| 0 <= x < old(world).n()
            ==> (#[trigger] final(world).bodies@[x]).position == old(world).bodies@[x].position
                && final(world).bodies@[x].rotation == old(world).bodies@[x].rotation
                && final(world).bodies@[x].sensor == old(world).bodies@[x].sensor,
{
    let ghost w0 = *world;
    let n = world.bodies.len();
    let mut e: usize = 0;
    while e < n
        invariant
            e <= n,
            n == world.n(),
            world.wf(),
            world.n() == w0.n(),
            (cur as int) < w0.n(),
            same_layout(w0, *world),
            world.active_room@ == w0.active_room@,
            world.connections@ == w0.connections@,
            world.visible@.len() == w0.visible@.len(),
            forall|x: int| 0 <= x < w0.n()
                ==> same_core(#[trigger] world.bodies@[x], w0.bodies@[x]),
            forall|x: int| 0 <= x < e && w0.room_marker@[x] && x != cur as int
                ==> !(#[trigger] world.bodies@[x]).active && !world.visible@[x],
            forall|x: int| 0 <= x < w0.n() && !(w0.room_marker@[x] && x != cur as int)
                ==> (#[trigger] world.bodies@[x]) == w0.bodies@[x]
                    && world.visible@[x] == w0.visible@[x],
            forall|x: int| e <= x < w0.n()
                ==> (#[trigger] world.bodies@[x]) == w0.bodies@[x]
                    && world.visible@[x] == w0.visible@[x],
            forall|x: int| 0 <= x < w0.n()
                ==> (#[trigger] world.bodies@[x]).position == w0.bodies@[x].position
                    && world.bodies@[x].rotation == w0.bodies@[x].rotation
                    && world.bodies@[x].sensor == w0.bodies@[x].sensor,
        decreases n - e,
    {
        let ghost wp = *world;
        if world.room_marker[e] && e != cur {
            let body = &mut world.bodies[e];
            body.active = false;
            world.visible[e] = false;
        }
        e = e + 1;
        proof {
            assert forall|x: int| 0 <= x < w0.n()
                implies same_core(#[trigger] world.bodies@[x], w0.bodies@[x]) by {
                if x != e - 1 {
                    assert(world.bodies@[x] == wp.bodies@[x]);
                } else {
                    assert(same_core(wp.bodies@[x], w0.bodies@[x]));
                }
            }
            assert forall|x: int| e <= x < w0.n()
                implies (#[trigger] world.bodies@[x]) == w0.bodies@[x]
                    && world.visible@[x] == w0.visible@[x] by {
                assert(world.bodies@[x] == wp.bodies@[x]);
                assert(world.visible@[x] == wp.visible@[x]);
            }
            assert forall|x: int| 0 <= x < w0.n() && !(w0.room_marker@[x] && x != cur as int)
                implies (#[trigger] world.bodies@[x]) == w0.bodies@[x]
                    && world.visible@[x] == w0.visible@[x] by {
                assert(world.bodies@[x] == wp.bodies@[x]);
                assert(world.visible@[x] == wp.visible@[x]);
            }
            assert forall|x: int| 0 <= x < w0.n()
                implies (#[trigger] world.bodies@[x]).position == w0.bodies@[x].position
                    && world.bodies@[x].rotation == w0.bodies@[x].rotation
                    && world.bodies@[x].sensor == w0.bodies@[x].sensor by {
                if x != e - 1 {
                    assert(world.bodies@[x] == wp.bodies@[x]);
                }
            }
        }
    }
    proof {
        assert forall|x: int| 0 <= x < w0.n() && !(w0.room_marker@[x] && x != cur as int)
            implies (#[trigger] world.bodies@[x]) == w0.bodies@[x]
                && world.visible@[x] == w0.visible@[x] by {}
        assert forall|x: int| 0 <= x < w0.n() && w0.room_marker@[x] && x != cur as int
            implies !(#[trigger] world.bodies@[x]).active && !world.visible@[x] by {}
    }
}

/// Activate and show the current room; on first activation reset its frame
/// to the identity and mark it.
#[verifier::rlimit(30)]
fn window_current(world: &mut World, cur: usize)
    requires
        old(world).wf(),
        (cur as int) < old(world).n(),
    ensures
        final(world).wf(),
        final(world).n() == old(world).n(),
        same_layout(*old(world), *final(world)),
        final(world).connections@ == old(world).connections@,
        final(world).active_room@ == old(world).active_room@.update(cur as int, true),
        forall|x: int| 0 <= x < old(world).n()
            ==> same_core(#[trigger] final(world).bodies@[x], old(world).bodies@[x]),
        forall|x: int| 0 <= x < old(world).n() && x != cur as int
            ==> (#[trigger] final(world).bodies@[x]) == old(world).bodies@[x]
                && final(world).visible@[x] == old(world).visible@[x],
        final(world).visible@.len() == old(world).visible@.len(),
        final(world).visible@[cur as int],
        final(world).bodies@[cur as int].active,
        final(world).bodies@[cur as int].sensor == old(world).bodies@[cur as int].sensor,
        !old(world).active_room@[cur as int]
            ==> final(world).bodies@[cur as int].position == (Vec2 { x: 0, y: 0 })
                && final(world).bodies@[cur as int].rotation == Rot::Deg0,
        old(world).active_room@[cur as int]
            ==> final(world).bodies@[cur as int].position == old(world).bodies@[cur as int].position
                && final(world).bodies@[cur as int].rotation == old(world).bodies@[cur as int].rotation,
{
    world.visible[cur] = true;
    {
        let body = &mut world.bodies[cur];
        body.active = true;
    }
    if !world.active_room[cur] {
        let body = &mut world.bodies[cur];
        body.position = Vec2 { x: 0, y: 0 };
        body.rotation = Rot::Deg0;
    }
    world.active_room[cur] = true;
    proof {
        assert(world.active_room@ =~= old(world).active_room@.update(cur as int, true));
    }
}

} // verus!

verus! {

/// Place every neighbour named by the current room's adjacency records at
/// its relative isometry and activate and show it.  When several records
/// name the same entity, the records are applied in order.
#[verifier::rlimit(100)]
fn window_neighbors(world: &mut World, cur: usize)
    requires
        old(world).wf(),
        (cur as int) < old(world).n(),
    ensures
        final(world).wf(),
        final(world).n() == old(world).n(),
        same_layout(*old(world), *final(world)),
        final(world).connections@ == old(world).connections@,
        final(world).active_room@ == old(world).active_room@,
        forall|x: int| 0 <= x < old(world).n()
            ==> same_core(#[trigger] final(world).bodies@[x], old(world).bodies@[x]),
        forall|x: int| 0 <= x < old(world).n()
            && !edges_name_entity(old(world).edges@[cur as int].edges@, x)
            ==> (#[trigger] final(world).bodies@[x]) == old(world).bodies@[x]
                && final(world).visible@[x] == old(world).visible@[x],
        final(world).bodies@[cur as int] == old(world).bodies@[cur as int],
        final(world).visible@[cur as int] == old(world).visible@[cur as int],
        forall|x: int| 0 <= x < old(world).n() && old(world).bodies@[x].active
            ==> (#[trigger] final(world).bodies@[x]).active,
        forall|x: int| 0 <= x < old(world).n() && old(world).visible@[x]
            ==> final(world).visible@[x],
        ({
            let eds = old(world).edges@[cur as int].edges@;
            let w1 = *final(world);
            let c = cur as int;
            forall|k: int| 0 <= k < eds.len() ==> {
                let ed = #[trigger] edge_slot(eds, k);
                (ed.entity as int) != c ==> {
                    let lu = last_upto(eds, eds.len() as int, ed.entity as int);
                    &&& w1.bodies@[ed.entity as int].active
                    &&& w1.visible@[ed.entity as int]
                    &&& w1.bodies@[ed.entity as int].position == eds[lu].position
                    &&& w1.bodies@[ed.entity as int].rotation == eds[lu].rotation
                }
            }
        }),
{
    let ghost w0 = *world;
    let ghost c = cur as int;
    let ghost eds = w0.edges@[c].edges@;
    let m = world.edges[cur].len();
    let mut k: usize = 0;
    while k < m
        invariant
            k <= m,
            c == cur as int,
            (cur as int) < w0.n(),
            eds == w0.edges@[c].edges@,
            m == eds.len(),
            world.wf(),
            world.n() == w0.n(),
            same_layout(w0, *world),
            world.connections@ == w0.connections@,
            world.active_room@ == w0.active_room@,
            forall|x: int| 0 <= x < w0.n()
                ==> same_core(#[trigger] world.bodies@[x], w0.bodies@[x]),
            forall|x: int| 0 <= x < w0.n() && !edges_name_entity(eds, x)
                ==> (#[trigger] world.bodies@[x]) == w0.bodies@[x]
                    && world.visible@[x] == w0.visible@[x],
            world.bodies@[c] == w0.bodies@[c],
            world.visible@[c] == w0.visible@[c],
            forall|x: int| 0 <= x < w0.n() && w0.bodies@[x].active
                ==> (#[trigger] world.bodies@[x]).active,
            forall|x: int| 0 <= x < w0.n() && w0.visible@[x] ==> world.visible@[x],
            forall|u: int| 0 <= u < k ==> {
                let ed = #[trigger] edge_slot(eds, u);
                (ed.entity as int) != c ==> {
                    let lu = last_upto(eds, k as int, ed.entity as int);
                    &&& world.bodies@[ed.entity as int].active
                    &&& world.visible@[ed.entity as int]
                    &&& world.bodies@[ed.entity as int].position == eds[lu].position
                    &&& world.bodies@[ed.entity as int].rotation == eds[lu].rotation
                }
            },
        decreases m - k,
    {
        let ghost wp = *world;
        let ed = match world.edges[cur].get(k) {
            Some(r) => *r,
            None => {
                proof {
                    assert(false);
                }
                Room { entity: 0, position: Vec2 { x: 0, y: 0 }, rotation: Rot::Deg0 }
            },
        };
        if ed.entity != cur {
            let body = &mut world.bodies[ed.entity];
            body.position = ed.position;
            body.rotation = ed.rotation;
            body.active = true;
            world.visible[ed.entity] = true;
        }
        k = k + 1;
        proof {
            assert(ed == eds[k - 1]);
            assert(edge_slot(eds, k - 1) == ed);
            assert(edges_name_entity(eds, ed.entity as int));
            assert forall|x: int| 0 <= x < w0.n()
                implies same_core(#[trigger] world.bodies@[x], w0.bodies@[x]) by {
                if x != ed.entity as int {
                    assert(world.bodies@[x] == wp.bodies@[x]);
                } else {
                    assert(same_core(wp.bodies@[x], w0.bodies@[x]));
                }
            }
            assert forall|x: int| 0 <= x < w0.n() && !edges_name_entity(eds, x)
                implies (#[trigger] world.bodies@[x]) == w0.bodies@[x]
                    && world.visible@[x] == w0.visible@[x] by {
                assert(x != ed.entity as int);
                assert(world.bodies@[x] == wp.bodies@[x]);
                assert(world.visible@[x] == wp.visible@[x]);
            }
            assert forall|u: int| 0 <= u < k implies ({
                let edu = #[trigger] edge_slot(eds, u);
                (edu.entity as int) != c ==> {
                    let lu = last_upto(eds, k as int, edu.entity as int);
                    &&& world.bodies@[edu.entity as int].active
                    &&& world.visible@[edu.entity as int]
                    &&& world.bodies@[edu.entity as int].position == eds[lu].position
                    &&& world.bodies@[edu.entity as int].rotation == eds[lu].rotation
                }
            }) by {
                let edu = edge_slot(eds, u);
                assert(edu == eds[u]);
                if (edu.entity as int) != c {
                    if u == k - 1 {
                        assert(last_upto(eds, k as int, edu.entity as int) == k - 1);
                    } else if edu.entity == ed.entity {
                        assert(last_upto(eds, k as int, edu.entity as int) == k - 1);
                    } else {
                        assert(world.bodies@[edu.entity as int] == wp.bodies@[edu.entity as int]);
                        assert(world.visible@[edu.entity as int] == wp.visible@[edu.entity as int]);
                        assert(last_upto(eds, k as int, edu.entity as int)
                            == last_upto(eds, k as int - 1, edu.entity as int));
                    }
                }
            }
        }
    }
    proof {
        assert forall|x: int| 0 <= x < w0.n() && !edges_name_entity(eds, x)
            implies (#[trigger] world.bodies@[x]) == w0.bodies@[x]
                && world.visible@[x] == w0.visible@[x] by {}
        assert forall|k: int| 0 <= k < eds.len() implies ({
            let ed = #[trigger] edge_slot(eds, k);
            (ed.entity as int) != c ==> {
                let lu = last_upto(eds, eds.len() as int, ed.entity as int);
                &&& world.bodies@[ed.entity as int].active
                &&& world.visible@[ed.entity as int]
                &&& world.bodies@[ed.entity as int].position == eds[lu].position
                &&& world.bodies@[ed.entity as int].rotation == eds[lu].rotation
            }
        }) by {}
    }
}

/// An independent copy of a list of entities.
fn copy_entities(v: &Vec<usize>) -> (r: Vec<usize>)
    ensures
        r@ == v@,
{
    let mut out: Vec<usize> = Vec::new();
    let mut i: usize = 0;
    while i < v.len()
        invariant
            i <= v@.len(),
            out@ == v@.subrange(0, i as int),
        decreases v@.len() - i,
    {
        out.push(v[i]);
        i = i + 1;
    }
    proof {
        assert(out@ =~= v@);
    }
    out
}

/// Activate the bodies of the listed entities; nothing else changes.
#[verifier::rlimit(30)]
fn activate_list(world: &mut World, list: &Vec<usize>)
    requires
        old(world).wf(),
        forall|t: int| 0 <= t < list@.len() ==> ((#[trigger] list@[t]) as int) < old(world).n(),
    ensures
        final(world).wf(),
        final(world).n() == old(world).n(),
        same_layout(*old(world), *final(world)),
        final(world).connections@ == old(world).connections@,
        final(world).active_room@ == old(world).active_room@,
        final(world).visible@ == old(world).visible@,
        forall|x: int| 0 <= x < old(world).n()
            ==> same_core(#[trigger] final(world).bodies@[x], old(world).bodies@[x]),
        forall|x: int| 0 <= x < old(world).n()
            ==> (#[trigger] final(world).bodies@[x]).position == old(world).bodies@[x].position
                && final(world).bodies@[x].rotation == old(world).bodies@[x].rotation
                && final(world).bodies@[x].sensor == old(world).bodies@[x].sensor,
        forall|x: int| 0 <= x < old(world).n() && !list@.contains(x as usize)
            ==> (#[trigger] final(world).bodies@[x]) == old(world).bodies@[x],
        forall|x: int| 0 <= x < old(world).n() && old(world).bodies@[x].active
            ==> (#[trigger] final(world).bodies@[x]).active,
        forall|t: int| 0 <= t < list@.len()
            ==> final(world).bodies@[(#[trigger] list@[t]) as int].active,
{
    let ghost w0 = *world;
    let n = list.len();
    let mut t: usize = 0;
    while t < n
        invariant
            t <= n,
            n == list@.len(),
            forall|u: int| 0 <= u < list@.len() ==> ((#[trigger] list@[u]) as int) < w0.n(),
            world.wf(),
            world.n() == w0.n(),
            same_layout(w0, *world),
            world.connections@ == w0.connections@,
            world.active_room@ == w0.active_room@,
            world.visible@ == w0.visible@,
            forall|x: int| 0 <= x < w0.n()
                ==> same_core(#[trigger] world.bodies@[x], w0.bodies@[x]),
            forall|x: int| 0 <= x < w0.n()
                ==> (#[trigger] world.bodies@[x]).position == w0.bodies@[x].position
                    && world.bodies@[x].rotation == w0.bodies@[x].rotation
                    && world.bodies@[x].sensor == w0.bodies@[x].sensor,
            forall|x: int| 0 <= x < w0.n() && !list@.contains(x as usize)
                ==> (#[trigger] world.bodies@[x]) == w0.bodies@[x],
            forall|x: int| 0 <= x < w0.n() && w0.bodies@[x].active
                ==> (#[trigger] world.bodies@[x]).active,
            forall|u: int| 0 <= u < t
                ==> world.bodies@[(#[trigger] list@[u]) as int].active,
        decreases n - t,
    {
        let ghost wp = *world;
        let ent = list[t];
        let body = &mut world.bodies[ent];
        body.active = true;
        t = t + 1;
        proof {
            assert(list@.contains(list@[t - 1]));
            assert forall|x: int| 0 <= x < w0.n()
                implies same_core(#[trigger] world.bodies@[x], w0.bodies@[x]) by {
                if x != ent as int {
                    assert(world.bodies@[x] == wp.bodies@[x]);
                } else {
                    assert(same_core(wp.bodies@[x], w0.bodies@[x]));
                }
            }
            assert forall|x: int| 0 <= x < w0.n()
                implies (#[trigger] world.bodies@[x]).position == w0.bodies@[x].position
                    && world.bodies@[x].rotation == w0.bodies@[x].rotation
                    && world.bodies@[x].sensor == w0.bodies@[x].sensor by {
                if x != ent as int {
                    assert(world.bodies@[x] == wp.bodies@[x]);
                }
            }
        }
    }
}

} // verus!

verus! {

} // verus!

verus! {

/// Maintain the activation window.  When no room carries the active mark,
/// the world is first resynced defensively: every door connection is forced
/// closed and every room deactivated and hidden.  Then, when the current
/// pointer names a room, exactly that room and its direct neighbours are
/// simulated and visible: the current room is activated (its transform reset
/// to the identity on first activation and the room marked), every
/// neighbour is placed at the relative isometry of an adjacency record
/// naming it and activated, every other room is deactivated and hidden, and
/// the current room's doors are activated.
#[verifier::rlimit(60)]
pub fn room_system(world: &mut World)
    requires
        old(world).wf(),
    ensures
        final(world).wf(),
        final(world).n() == old(world).n(),
        same_layout(*old(world), *final(world)),
        forall|x: int| 0 <= x < old(world).n()
            ==> same_core(#[trigger] final(world).bodies@[x], old(world).bodies@[x]),
        any_active_room(*old(world)) ==> final(world).connections@ == old(world).connections@,
        !any_active_room(*old(world)) ==> forall|x: int| 0 <= x < old(world).n()
            ==> match #[trigger] final(world).connections@[x] {
                Some(c) => !c.open && match old(world).connections@[x] {
                    Some(c0) => c.this == c0.this && c.room == c0.room && c.sensor == c0.sensor,
                    None => false,
                },
                None => old(world).connections@[x] is None,
            },
        !old(world).room_marker@[old(world).current.entity as int]
            ==> final(world).active_room@ == old(world).active_room@,
        ({
            let w0 = *old(world);
            let w1 = *final(world);
            let c = w0.current.entity as int;
            let eds = w0.edges@[c].edges@;
            let dl = w0.door_sets@[c].vec@;
            w0.room_marker@[c] ==> {
                &&& w1.active_room@ == w0.active_room@.update(c, true)
                &&& w1.visible@[c]
                &&& w1.bodies@[c].active
                &&& (!w0.active_room@[c] ==> w1.bodies@[c].position == (Vec2 { x: 0, y: 0 })
                    && w1.bodies@[c].rotation == Rot::Deg0)
                &&& forall|r: int| 0 <= r < w0.n() && w0.room_marker@[r] && r != c
                    && !edges_name_entity(eds, r) && !dl.contains(r as usize)
                    ==> !(#[trigger] w1.bodies@[r]).active && !w1.visible@[r]
                &&& forall|k: int| 0 <= k < eds.len() ==> {
                    let ed = #[trigger] edge_slot(eds, k);
                    (ed.entity as int) != c ==> {
                        let lu = last_upto(eds, eds.len() as int, ed.entity as int);
                        &&& w1.bodies@[ed.entity as int].active
                        &&& w1.visible@[ed.entity as int]
                        &&& w1.bodies@[ed.entity as int].position == eds[lu].position
                        &&& w1.bodies@[ed.entity as int].rotation == eds[lu].rotation
                    }
                }
                &&& forall|t: int| 0 <= t < dl.len()
                    ==> w1.bodies@[(#[trigger] dl[t]) as int].active
            }
        }),
{
    let ghost w0 = *world;
    let n = world.bodies.len();
    let mut any_active = false;
    let mut e: usize = 0;
    while e < n
        invariant
            e <= n,
            n == world.n(),
            *world == w0,
            world.wf(),
            any_active <==> exists|x: int| 0 <= x < e && #[trigger] world.active_room@[x],
        decreases n - e,
    {
        if world.active_room[e] {
            any_active = true;
        }
        e = e + 1;
    }
    proof {
        assert(any_active == any_active_room(w0));
    }
    if !any_active {
        resync_connections(world);
        resync_rooms(world);
    }
    let ghost wr = *world;
    let cur = world.current.entity;
    if world.room_marker[cur] {
        let ghost c = cur as int;
        let ghost eds = w0.edges@[c].edges@;
        let ghost dl = w0.door_sets@[c].vec@;
        proof {
            assert(wr.edges@[c] == w0.edges@[c]);
            assert(wr.door_sets@[c] == w0.door_sets@[c]);
        }
        window_deactivate(world, cur);
        let ghost w1 = *world;
        window_current(world, cur);
        let ghost w2 = *world;
        window_neighbors(world, cur);
        let ghost w3 = *world;
        let doors = copy_entities(&world.door_sets[cur].vec);
        activate_list(world, &doors);
        proof {
            assert(doors@ == dl);
            assert forall|x: int| 0 <= x < w0.n()
                implies same_core(#[trigger] world.bodies@[x], w0.bodies@[x]) by {
                assert(same_core(world.bodies@[x], w3.bodies@[x]));
                assert(same_core(w3.bodies@[x], w2.bodies@[x]));
                assert(same_core(w2.bodies@[x], w1.bodies@[x]));
                assert(same_core(w1.bodies@[x], wr.bodies@[x]));
                assert(same_core(wr.bodies@[x], w0.bodies@[x]));
            }
            assert(world.active_room@ == w0.active_room@.update(c, true));
            assert(world.visible@[c]) by {
                assert(w2.visible@[c]);
                assert(w3.visible@[c] == w2.visible@[c]);
            }
            assert(world.bodies@[c].active) by {
                assert(w2.bodies@[c].active);
                assert(w3.bodies@[c] == w2.bodies@[c]);
                assert(world.bodies@[c].active == w3.bodies@[c].active || doors@.contains(cur));
            }
            if !w0.active_room@[c] {
                assert(world.bodies@[c].position == (Vec2 { x: 0, y: 0 })
                    && world.bodies@[c].rotation == Rot::Deg0) by {
                    assert(w2.bodies@[c].position == (Vec2 { x: 0, y: 0 }));
                    assert(w2.bodies@[c].rotation == Rot::Deg0);
                    assert(w3.bodies@[c] == w2.bodies@[c]);
                    assert(world.bodies@[c].position == w3.bodies@[c].position);
                    assert(world.bodies@[c].rotation == w3.bodies@[c].rotation);
                }
            }
            assert forall|r: int| 0 <= r < w0.n() && w0.room_marker@[r] && r != c
                && !edges_name_entity(eds, r) && !dl.contains(r as usize)
                implies !(#[trigger] world.bodies@[r]).active && !world.visible@[r] by {
                assert(!w1.bodies@[r].active && !w1.visible@[r]);
                assert(w2.bodies@[r] == w1.bodies@[r]);
                assert(w2.visible@[r] == w1.visible@[r]);
                assert(w3.bodies@[r] == w2.bodies@[r]);
                assert(w3.visible@[r] == w2.visible@[r]);
                assert(world.bodies@[r] == w3.bodies@[r]);
                assert(world.visible@[r] == w3.visible@[r]);
            }
            assert forall|k: int| 0 <= k < eds.len() implies ({
                let ed = #[trigger] edge_slot(eds, k);
                (ed.entity as int) != c ==> {
                    let lu = last_upto(eds, eds.len() as int, ed.entity as int);
                    &&& world.bodies@[ed.entity as int].active
                    &&& world.visible@[ed.entity as int]
                    &&& world.bodies@[ed.entity as int].position == eds[lu].position
                    &&& world.bodies@[ed.entity as int].rotation == eds[lu].rotation
                }
            }) by {
                let ed = edge_slot(eds, k);
                assert(ed == eds[k]);
                if (ed.entity as int) != c {
                    assert(w3.bodies@[ed.entity as int].active);
                    assert(w3.visible@[ed.entity as int]);
                    assert(world.bodies@[ed.entity as int].active);
                    assert(world.visible@[ed.entity as int]);
                    assert(world.bodies@[ed.entity as int].position
                        == w3.bodies@[ed.entity as int].position);
                    assert(world.bodies@[ed.entity as int].rotation
                        == w3.bodies@[ed.entity as int].rotation);
                }
            }
            assert forall|t: int| 0 <= t < dl.len()
                implies world.bodies@[(#[trigger] dl[t]) as int].active by {
                assert(world.bodies@[dl[t] as int].active);
            }
        }
    }
}

} // verus!

verus! {

/// Toggle a door.  Opening swings the leaf a quarter turn anticlockwise
/// about its hinge half a unit in from its corner and makes it a sensor so
/// the doorway can be walked through; closing swings it back and makes it
/// solid again.  The connected room's trigger volume is simulated exactly
/// while the door stands open.
pub fn toggle_door(world: &mut World, door: usize)
    requires
        old(world).wf(),
        (door as int) < old(world).n(),
        old(world).connections@[door as int] is Some,
    ensures
        final(world).wf(),
        final(world).n() == old(world).n(),
        same_layout(*old(world), *final(world)),
        final(world).active_room@ == old(world).active_room@,
        final(world).visible@ == old(world).visible@,
        ({
            let w0 = *old(world);
            let w1 = *final(world);
            let d = door as int;
            let c0 = w0.connections@[d]->Some_0;
            let b0 = w0.bodies@[d];
            let b1 = w1.bodies@[d];
            &&& w1.connections@ == w0.connections@.update(d, Some(Connection { open: !c0.open, ..c0 }))
            &&& (c0.sensor as int != d
                ==> w1.bodies@[c0.sensor as int].active == !c0.open
                    && same_core(w1.bodies@[c0.sensor as int], w0.bodies@[c0.sensor as int]))
            &&& forall|x: int| 0 <= x < w0.n() && x != d && x != c0.sensor as int
                ==> (#[trigger] w1.bodies@[x]) == w0.bodies@[x]
            &&& b1.sensor == !c0.open
            &&& same_core(b1, b0)
            &&& (!c0.open ==> {
                let off_x = b0.rotation.spec_invert().rot_x(500, 500);
                let off_y = b0.rotation.spec_invert().rot_y(500, 500);
                &&& b1.rotation == b0.rotation.plus(Rot::Deg90)
                &&& b1.position.x == crate::fixed::clip(b0.position.x + off_x)
                &&& b1.position.y == crate::fixed::clip(b0.position.y + off_y)
            })
            &&& (c0.open ==> {
                let newrot = b0.rotation.plus(Rot::Deg270);
                let off_x = newrot.spec_invert().rot_x(500, 500);
                let off_y = newrot.spec_invert().rot_y(500, 500);
                &&& b1.rotation == newrot
                &&& b1.position.x == crate::fixed::clip(b0.position.x - off_x)
                &&& b1.position.y == crate::fixed::clip(b0.position.y - off_y)
            })
        }),
{
    let conn = match world.connections[door] {
        Some(c) => c,
        None => {
            proof {
                assert(false);
            }
            Connection { this: 0, room: 0, sensor: 0, open: false }
        },
    };
    let now_open = !conn.open;
    world.connections[door] = Some(Connection { open: now_open, ..conn });
    let oldrot = world.bodies[door].rotation;
    let oldpos = world.bodies[door].position;
    if now_open {
        let inv = oldrot.invert();
        let offset = inv.rotate(Vec2 { x: 500, y: 500 });
        let px = crate::fixed::cadd(oldpos.x, offset.x);
        let py = crate::fixed::cadd(oldpos.y, offset.y);
        let leaf = &mut world.bodies[door];
        leaf.position = Vec2 { x: px, y: py };
        leaf.rotation = oldrot.compose(Rot::Deg90);
        leaf.sensor = true;
    } else {
        let newrot = oldrot.compose(Rot::Deg270);
        let inv = newrot.invert();
        let offset = inv.rotate(Vec2 { x: 500, y: 500 });
        let px = crate::fixed::csub(oldpos.x, offset.x);
        let py = crate::fixed::csub(oldpos.y, offset.y);
        let leaf = &mut world.bodies[door];
        leaf.position = Vec2 { x: px, y: py };
        leaf.rotation = newrot;
        leaf.sensor = false;
    }
    let volume = &mut world.bodies[conn.sensor];
    volume.active = now_open;
}

} // verus!

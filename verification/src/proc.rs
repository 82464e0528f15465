//! Procedural room-graph generation.
//!
//! A level prototype is an ordered list of rooms, each with a set of door
//! openings and directed edges saying which other room each door leads to.
//! The generator draws sizes, door sets and edge targets at random; the
//! spawner turns a prototype into a world of bodies, sensors and adjacency
//! records (see `room`).

use vstd::prelude::*;

use crate::geom::{Rot, Vec2};
use crate::phys::{EntitySet, entity_set_contents, Joint, RigidBody, Shape, Status, INF_MASS};
use crate::room::{Connection, CurrentRoom, Edges, Room, RoomSensor, World};

verus! {

/// A cardinal door direction.  North faces negative y, South positive y,
/// East negative x, West positive x.
#[derive(Clone, Copy, Debug, PartialEq, Eq, Structural, Hash)]
pub enum Door {
    North,
    South,
    East,
    West,
}

impl Door {
    /// The opposite direction.
    pub open spec fn opposite(self) -> Door {
        match self {
            Door::North => Door::South,
            Door::South => Door::North,
            Door::East => Door::West,
            Door::West => Door::East,
        }
    }

    /// The opposite direction.
    pub fn not(self) -> (r: Door)
        ensures
            r == self.opposite(),
    {
        match self {
            Door::North => Door::South,
            Door::South => Door::North,
            Door::East => Door::West,
            Door::West => Door::East,
        }
    }

    /// The relative yaw that joins a room's door `self` to another room's
    /// door `other`: a half turn for equal directions, none for opposite
    /// ones, and a quarter turn either way for perpendicular pairs.
    pub open spec fn rotation_spec(self, other: Door) -> Rot {
        match (self, other) {
            (Door::North, Door::North) => Rot::Deg180,
            (Door::North, Door::South) => Rot::Deg0,
            (Door::North, Door::East) => Rot::Deg270,
            (Door::North, Door::West) => Rot::Deg90,
            (Door::South, Door::North) => Rot::Deg0,
            (Door::South, Door::South) => Rot::Deg180,
            (Door::South, Door::East) => Rot::Deg90,
            (Door::South, Door::West) => Rot::Deg270,
            (Door::East, Door::North) => Rot::Deg90,
            (Door::East, Door::South) => Rot::Deg270,
            (Door::East, Door::East) => Rot::Deg180,
            (Door::East, Door::West) => Rot::Deg0,
            (Door::West, Door::North) => Rot::Deg270,
            (Door::West, Door::South) => Rot::Deg90,
            (Door::West, Door::East) => Rot::Deg0,
            (Door::West, Door::West) => Rot::Deg180,
        }
    }

    /// The door-pair rotation rule, as a run-time value.
    pub fn rotation(self, other: Door) -> (r: Rot)
        ensures
            r == self.rotation_spec(other),
    {
        match (self, other) {
            (Door::North, Door::North) => Rot::Deg180,
            (Door::North, Door::South) => Rot::Deg0,
            (Door::North, Door::East) => Rot::Deg270,
            (Door::North, Door::West) => Rot::Deg90,
            (Door::South, Door::North) => Rot::Deg0,
            (Door::South, Door::South) => Rot::Deg180,
            (Door::South, Door::East) => Rot::Deg90,
            (Door::South, Door::West) => Rot::Deg270,
            (Door::East, Door::North) => Rot::Deg90,
            (Door::East, Door::South) => Rot::Deg270,
            (Door::East, Door::East) => Rot::Deg180,
            (Door::East, Door::West) => Rot::Deg0,
            (Door::West, Door::North) => Rot::Deg270,
            (Door::West, Door::South) => Rot::Deg90,
            (Door::West, Door::East) => Rot::Deg0,
            (Door::West, Door::West) => Rot::Deg180,
        }
    }

    /// The outward unit axis of this door, in the simulation plane.
    pub open spec fn origin_spec(self) -> Vec2 {
        match self {
            Door::North => Vec2 { x: 0, y: -1i64 },
            Door::South => Vec2 { x: 0, y: 1 },
            Door::East => Vec2 { x: -1i64, y: 0 },
            Door::West => Vec2 { x: 1, y: 0 },
        }
    }

    /// The outward unit axis of this door.
    pub fn origin(self) -> (r: Vec2)
        ensures
            r == self.origin_spec(),
    {
        match self {
            Door::North => Vec2 { x: 0, y: -1i64 },
            Door::South => Vec2 { x: 0, y: 1 },
            Door::East => Vec2 { x: -1i64, y: 0 },
            Door::West => Vec2 { x: 1, y: 0 },
        }
    }
}

/// LAW: the door rotation rule turns equal directions by a half turn and
/// opposite directions not at all, for every direction.
pub proof fn lemma_door_rotation_involutive()
    ensures
        forall|d: Door| (#[trigger] d.rotation_spec(d)) == Rot::Deg180,
        forall|d: Door| (#[trigger] d.rotation_spec(d.opposite())) == Rot::Deg0,
{
    assert forall|d: Door| (#[trigger] d.rotation_spec(d)) == Rot::Deg180 by {
        match d {
            Door::North => {},
            Door::South => {},
            Door::East => {},
            Door::West => {},
        }
    }
    assert forall|d: Door| (#[trigger] d.rotation_spec(d.opposite())) == Rot::Deg0 by {
        match d {
            Door::North => {},
            Door::South => {},
            Door::East => {},
            Door::West => {},
        }
    }
}

/// The set of door directions a room has, one flag per direction.
#[derive(Clone, Copy, Debug, PartialEq, Eq, Structural, Hash)]
pub struct Doors {
    pub north: bool,
    pub south: bool,
    pub east: bool,
    pub west: bool,
}

impl Doors {
    pub open spec fn has(self, d: Door) -> bool {
        match d {
            Door::North => self.north,
            Door::South => self.south,
            Door::East => self.east,
            Door::West => self.west,
        }
    }

    /// How many directions are present.
    pub open spec fn count(self) -> int {
        (if self.north { 1int } else { 0 }) + (if self.south { 1int } else { 0 })
            + (if self.east { 1int } else { 0 }) + (if self.west { 1int } else { 0 })
    }

    pub fn new() -> (r: Doors)
        ensures
            forall|d: Door| !r.has(d),
            r.count() == 0,
    {
        Doors { north: false, south: false, east: false, west: false }
    }

    pub fn contains(&self, d: Door) -> (r: bool)
        ensures
            r == self.has(d),
    {
        match d {
            Door::North => self.north,
            Door::South => self.south,
            Door::East => self.east,
            Door::West => self.west,
        }
    }

    pub fn insert(&mut self, d: Door)
        ensures
            final(self).has(d),
            forall|o: Door| o != d ==> final(self).has(o) == old(self).has(o),
            old(self).has(d) ==> *final(self) == *old(self),
            !old(self).has(d) ==> final(self).count() == old(self).count() + 1,
    {
        match d {
            Door::North => self.north = true,
            Door::South => self.south = true,
            Door::East => self.east = true,
            Door::West => self.west = true,
        }
    }
}

/// One directed edge of a room: its door `from` leads to door `to` of the
/// room prototype at `index`.
#[derive(Clone, Copy, Debug, PartialEq, Eq, Structural, Hash)]
pub struct EdgePrototype {
    pub index: usize,
    pub from: Door,
    pub to: Door,
}

/// One room to be: its extents, its door openings, its outgoing edges and
/// its prop names.
#[derive(Clone, Debug)]
pub struct RoomPrototype {
    pub width: i64,
    pub depth: i64,
    pub height: i64,
    pub doors: Doors,
    pub edges: Vec<EdgePrototype>,
    pub props: Vec<String>,
}

/// A whole level to be: its rooms and the index of the room the player
/// starts in.
#[derive(Clone, Debug)]
pub struct LevelPrototype {
    pub start: usize,
    pub rooms: Vec<RoomPrototype>,
}

/// A room's extents are workable (room enough for door gaps) and its edges
/// point at existing rooms.
pub open spec fn room_proto_wf(r: RoomPrototype, n: int) -> bool {
    &&& 2000 <= r.width <= 1_000_000_000
    &&& 2000 <= r.depth <= 1_000_000_000
    &&& 0 <= r.height <= 1_000_000_000
    &&& forall|k: int| 0 <= k < r.edges.len() ==> (#[trigger] r.edges[k]).index < n
}

/// Every door of the room is served by at least one edge leaving from it.
pub open spec fn doors_have_edges(r: RoomPrototype) -> bool {
    forall|d: Door| r.doors.has(d)
        ==> exists|k: int| 0 <= k < r.edges.len() && (#[trigger] r.edges[k]).from == d
}

/// A level prototype fit to spawn.
pub open spec fn level_wf(l: LevelPrototype) -> bool {
    &&& 0 < l.rooms.len()
    &&& l.start < l.rooms.len()
    &&& forall|i: int| 0 <= i < l.rooms.len()
        ==> room_proto_wf(#[trigger] l.rooms[i], l.rooms.len() as int)
    &&& forall|i: int| 0 <= i < l.rooms.len() ==> doors_have_edges(#[trigger] l.rooms[i])
}

} // verus!

verus! {

/// Relies on `rand::random`: a fresh value from the thread-local generator.
/// Nothing is assumed about which value comes back.
#[verifier::external_body]
fn random_u64() -> (r: u64) {
    rand::random()
}

/// A random value in `[lo, hi]`.
fn rand_in_range(lo: i64, hi: i64) -> (r: i64)
    requires
        lo <= hi,
        hi - lo < 1_000_000_000_000,
    ensures
        lo <= r <= hi,
{
    let span: u64 = (hi - lo) as u64 + 1;
    let off = random_u64() % span;
    lo + (off as i64)
}

/// A random index below `n`.
fn rand_index(n: usize) -> (r: usize)
    requires
        n > 0,
    ensures
        r < n,
{
    (random_u64() % (n as u64)) as usize
}

/// A random door direction.
fn rand_door() -> (r: Door) {
    match random_u64() % 4 {
        0 => Door::North,
        1 => Door::South,
        2 => Door::East,
        _ => Door::West,
    }
}

/// A random event with probability `p` in thousandths.
fn rand_chance(p: i64) -> (r: bool) {
    let d = random_u64() % 1000;
    (d as i64) < p
}

/// What the level builder is asked for: how many rooms, their size and
/// height ranges, and the chance of pushing a room twice in a row.
#[derive(Clone, Copy, Debug, PartialEq, Eq, Structural)]
pub struct Parameters {
    pub size: usize,
    pub min_size: i64,
    pub max_size: i64,
    pub min_height: i64,
    pub max_height: i64,
    pub clone_probability: i64,
}

/// Workable generator bounds: at least two rooms (each edge needs another
/// room to point at), sizes that leave room for door gaps.
pub open spec fn params_wf(p: Parameters) -> bool {
    &&& 2 <= p.size <= 100_000
    &&& 2000 <= p.min_size <= p.max_size <= 1_000_000_000
    &&& 0 <= p.min_height <= p.max_height <= 1_000_000_000
}

/// A randomly chosen permutation of the four door directions.
fn shuffled_doors() -> (r: [Door; 4])
    ensures
        r@.contains(Door::North) && r@.contains(Door::South) && r@.contains(Door::East)
            && r@.contains(Door::West),
        forall|p: int, q: int| 0 <= p < q < 4 ==> r@[p] != r@[q],
{
    let mut arr: [Door; 4] = [Door::North, Door::South, Door::East, Door::West];
    let i1 = rand_index(4);
    let tmp1 = arr[0];
    arr[0] = arr[i1];
    arr[i1] = tmp1;
    let i2 = 1 + rand_index(3);
    let tmp2 = arr[1];
    arr[1] = arr[i2];
    arr[i2] = tmp2;
    let i3 = 2 + rand_index(2);
    let tmp3 = arr[2];
    arr[2] = arr[i3];
    arr[i3] = tmp3;
    proof {
        assert forall|d: Door| arr@.contains(d) by {
            assert(arr@[0] == d || arr@[1] == d || arr@[2] == d || arr@[3] == d);
        }
    }
    arr
}

/// Build a random level: `size` rooms with sizes in the configured ranges
/// (a room is sometimes pushed twice, as a repeated motif), one to three
/// distinct doors per room, and for each door one edge to a random other
/// room's random door.  The start room is the first.
pub fn generate(params: &Parameters) -> (r: LevelPrototype)
    requires
        params_wf(*params),
    ensures
        r.start == 0,
        r.rooms.len() == params.size,
        level_wf(r),
        forall|i: int| 0 <= i < r.rooms.len() ==> {
            let room = #[trigger] r.rooms[i];
            &&& params.min_size <= room.width <= params.max_size
            &&& params.min_size <= room.depth <= params.max_size
            &&& params.min_height <= room.height <= params.max_height
            &&& 1 <= room.doors.count() <= 3
            &&& room.edges.len() == room.doors.count()
            &&& forall|k: int| 0 <= k < room.edges.len() ==> (#[trigger] room.edges[k]).index != i
        },
{
    let mut rooms: Vec<RoomPrototype> = Vec::new();
    let mut size = params.size;
    while size > 0
        invariant
            params_wf(*params),
            rooms@.len() + size == params.size,
            forall|i: int| 0 <= i < rooms@.len() ==> {
                let room = #[trigger] rooms@[i];
                &&& params.min_size <= room.width <= params.max_size
                &&& params.min_size <= room.depth <= params.max_size
                &&& params.min_height <= room.height <= params.max_height
                &&& room.doors == (Doors { north: false, south: false, east: false, west: false })
                &&& room.edges@.len() == 0
            },
        decreases size,
    {
        let width = rand_in_range(params.min_size, params.max_size);
        let depth = rand_in_range(params.min_size, params.max_size);
        let height = rand_in_range(params.min_height, params.max_height);
        let room = RoomPrototype {
            width,
            depth,
            height,
            doors: Doors::new(),
            edges: Vec::new(),
            props: Vec::new(),
        };
        if rand_chance(params.clone_probability) {
            let twin = RoomPrototype {
                width,
                depth,
                height,
                doors: Doors::new(),
                edges: Vec::new(),
                props: Vec::new(),
            };
            rooms.push(twin);
            size = size - 1;
        }
        if size > 0 {
            rooms.push(room);
            size = size - 1;
        }
    }
    let len = rooms.len();
    let mut i: usize = 0;
    while i < len
        invariant
            params_wf(*params),
            len == rooms@.len(),
            len == params.size,
            i <= len,
            forall|t: int| 0 <= t < len ==> {
                let room = #[trigger] rooms@[t];
                &&& params.min_size <= room.width <= params.max_size
                &&& params.min_size <= room.depth <= params.max_size
                &&& params.min_height <= room.height <= params.max_height
            },
            forall|t: int| 0 <= t < i ==> {
                let room = #[trigger] rooms@[t];
                &&& 1 <= room.doors.count() <= 3
                &&& room.edges@.len() == room.doors.count()
                &&& doors_have_edges(room)
                &&& forall|k: int| 0 <= k < room.edges@.len()
                    ==> (#[trigger] room.edges@[k]).index != t && room.edges@[k].index < len
            },
        decreases len - i,
    {
        let n = 1 + rand_index(3);
        let order = shuffled_doors();
        let mut doors = Doors::new();
        let mut edges: Vec<EdgePrototype> = Vec::new();
        let mut k: usize = 0;
        while k < n
            invariant
                k <= n,
                n <= 3,
                i < len,
                2 <= len,
                doors.count() == k,
                edges@.len() == k,
                order@.len() == 4,
                forall|p: int, q: int| 0 <= p < q < 4 ==> order@[p] != order@[q],
                forall|t: int| 0 <= t < k ==> doors.has((#[trigger] order@[t])),
                forall|d: Door| #[trigger] doors.has(d)
                    ==> exists|t: int| 0 <= t < k && (#[trigger] order@[t]) == d,
                forall|t: int| 0 <= t < k ==> (#[trigger] edges@[t]).from == order@[t],
                forall|t: int| 0 <= t < k
                    ==> (#[trigger] edges@[t]).index != i && edges@[t].index < len,
            decreases n - k,
        {
            let from = order[k];
            proof {
                assert(order@[k as int] == from);
                assert(!doors.has(from)) by {
                    if doors.has(from) {
                        let t = choose|t: int| 0 <= t < k && order@[t] == from;
                        assert(order@[t] != order@[k as int]);
                    }
                }
            }
            doors.insert(from);
            let mut target = rand_index(len - 1);
            if target >= i {
                target = target + 1;
            }
            let to = rand_door();
            edges.push(EdgePrototype { index: target, from, to });
            k = k + 1;
        }
        let room = &mut rooms[i];
        room.doors = doors;
        room.edges = edges;
        i = i + 1;
        proof {
            assert(doors_have_edges(rooms@[i - 1])) by {
                assert forall|d: Door| #[trigger] rooms@[i - 1].doors.has(d)
                    implies exists|t: int|
                        0 <= t < rooms@[i - 1].edges.len()
                        && (#[trigger] rooms@[i - 1].edges[t]).from == d by {
                    assert(doors.has(d));
                    let t = choose|t: int| 0 <= t < n && order@[t] == d;
                    assert(rooms@[i - 1].edges[t].from == d);
                }
            }
        }
    }
    LevelPrototype { start: 0, rooms }
}

} // verus!

verus! {

/// One resolved edge of the room graph: prototype edge `index` of room `i`
/// leads to room `j`; `a` and `b` are the two rooms' entities.
#[derive(Clone, Copy, Debug, PartialEq, Eq, Structural, Hash)]
pub struct DcEdge {
    pub index: usize,
    pub i: usize,
    pub j: usize,
    pub a: usize,
    pub b: usize,
}

/// The flattened, entity-resolved edge list of a spawned level.
#[derive(Debug)]
pub struct Dcg {
    pub edges: Vec<DcEdge>,
}

impl Dcg {
    pub fn new(edges: Vec<DcEdge>) -> (r: Dcg)
        ensures
            r.edges@ == edges@,
    {
        Dcg { edges }
    }
}

} // verus!

verus! {

/// Half a nonnegative length, rounded down.
fn half(x: i64) -> (r: i64)
    requires
        0 <= x,
    ensures
        r == x as int / 2,
{
    ((x as u64) / 2) as i64
}

/// The wall shapes of a room: four walls of thickness a tenth of a unit,
/// each split into two segments leaving a one-unit gap where the room has a
/// door on that side.  Lengths are halved rounding down.
pub open spec fn wall_shapes(r: RoomPrototype) -> Seq<Shape> {
    let hw = r.width as int / 2;
    let hd = r.depth as int / 2;
    let north = if r.doors.north {
        seq![
            Shape { offset: Vec2 { x: (-hw) as i64, y: (-hd - 100) as i64 }, width: (hw - 500) as i64, height: 100 },
            Shape { offset: Vec2 { x: 500, y: (-hd - 100) as i64 }, width: (hw - 500) as i64, height: 100 },
        ]
    } else {
        seq![Shape { offset: Vec2 { x: (-hw) as i64, y: (-hd - 100) as i64 }, width: r.width, height: 100 }]
    };
    let south = if r.doors.south {
        seq![
            Shape { offset: Vec2 { x: (-hw) as i64, y: hd as i64 }, width: (hw - 500) as i64, height: 100 },
            Shape { offset: Vec2 { x: 500, y: hd as i64 }, width: (hw - 500) as i64, height: 100 },
        ]
    } else {
        seq![Shape { offset: Vec2 { x: (-hw) as i64, y: hd as i64 }, width: r.width, height: 100 }]
    };
    let east = if r.doors.east {
        seq![
            Shape { offset: Vec2 { x: (-hw - 100) as i64, y: (-hd) as i64 }, width: 100, height: (hd - 500) as i64 },
            Shape { offset: Vec2 { x: (-hw - 100) as i64, y: 500 }, width: 100, height: (hd - 500) as i64 },
        ]
    } else {
        seq![Shape { offset: Vec2 { x: (-hw - 100) as i64, y: (-hd) as i64 }, width: 100, height: r.depth }]
    };
    let west = if r.doors.west {
        seq![
            Shape { offset: Vec2 { x: hw as i64, y: (-hd) as i64 }, width: 100, height: (hd - 500) as i64 },
            Shape { offset: Vec2 { x: hw as i64, y: 500 }, width: 100, height: (hd - 500) as i64 },
        ]
    } else {
        seq![Shape { offset: Vec2 { x: hw as i64, y: (-hd) as i64 }, width: 100, height: r.depth }]
    };
    north + south + east + west
}

/// A room's trigger volume: the room's footprint shrunk by a margin.
pub open spec fn sensor_shape(r: RoomPrototype) -> Shape {
    let w = r.width - 1500;
    let d = r.depth - 1500;
    Shape {
        offset: Vec2 { x: (-(w / 2)) as i64, y: (-(d / 2)) as i64 },
        width: w as i64,
        height: d as i64,
    }
}

/// Where a door of direction `d` sits on its room's boundary.
pub open spec fn door_position(r: RoomPrototype, d: Door) -> Vec2 {
    match d {
        Door::North => Vec2 { x: 0, y: (-(r.depth as int / 2)) as i64 },
        Door::South => Vec2 { x: 0, y: (r.depth as int / 2) as i64 },
        Door::East => Vec2 { x: (-(r.width as int / 2)) as i64, y: 0 },
        Door::West => Vec2 { x: (r.width as int / 2) as i64, y: 0 },
    }
}

/// How a door of direction `d` is turned.
pub open spec fn door_rotation(d: Door) -> Rot {
    match d {
        Door::North => Rot::Deg0,
        Door::South => Rot::Deg180,
        Door::East => Rot::Deg90,
        Door::West => Rot::Deg270,
    }
}

/// The physical door leaf: one unit wide, a tenth of a unit thick.
pub open spec fn door_shape() -> Shape {
    Shape { offset: Vec2 { x: -500i64, y: 0 }, width: 1000, height: 100 }
}

/// The relative origin of a joined room: the two rooms' half extents summed
/// along the axis of the host's door; the neighbour contributes its half
/// depth when its own door is on its north or south side, else its half
/// width.
pub open spec fn edge_origin(from: Door, to: Door, ihw: int, ihd: int, jhw: int, jhd: int) -> Vec2 {
    let jt = match to {
        Door::North => jhd,
        Door::South => jhd,
        Door::East => jhw,
        Door::West => jhw,
    };
    match from {
        Door::North => Vec2 { x: 0, y: (-(ihd + jt)) as i64 },
        Door::South => Vec2 { x: 0, y: (ihd + jt) as i64 },
        Door::East => Vec2 { x: (-(ihw + jt)) as i64, y: 0 },
        Door::West => Vec2 { x: (ihw + jt) as i64, y: 0 },
    }
}

/// The adjacency records of room `i`: one per prototype edge, in order,
/// naming the target room's entity and the relative isometry from the
/// door-pair rule table.
pub open spec fn room_edges_spec(l: LevelPrototype, i: int) -> Seq<Room> {
    let r = l.rooms@[i];
    Seq::new(r.edges@.len(), |k: int| {
        let ep = r.edges@[k];
        let tgt = l.rooms@[ep.index as int];
        Room {
            entity: (2 * ep.index) as usize,
            position: edge_origin(
                ep.from,
                ep.to,
                r.width as int / 2,
                r.depth as int / 2,
                tgt.width as int / 2,
                tgt.depth as int / 2,
            ),
            rotation: ep.from.rotation_spec(ep.to),
        }
    })
}

/// The flattened edges of room `i`, entity-resolved.
pub open spec fn dcg_room(l: LevelPrototype, i: int) -> Seq<DcEdge> {
    Seq::new(l.rooms@[i].edges@.len(), |k: int| {
        let ep = l.rooms@[i].edges@[k];
        DcEdge {
            index: k as usize,
            i: i as usize,
            j: ep.index,
            a: (2 * i) as usize,
            b: (2 * ep.index) as usize,
        }
    })
}

/// The flattened edges of the first `i` rooms.
pub open spec fn dcg_upto(l: LevelPrototype, i: int) -> Seq<DcEdge>
    decreases i,
{
    if i <= 0 {
        Seq::empty()
    } else {
        dcg_upto(l, i - 1) + dcg_room(l, i - 1)
    }
}

/// The whole level's flattened, entity-resolved edge list.
pub open spec fn dcg_spec(l: LevelPrototype) -> Seq<DcEdge> {
    dcg_upto(l, l.rooms@.len() as int)
}

/// The target of the last edge leaving door `d`, or -1 when none does.
pub open spec fn last_from(edges: Seq<EdgePrototype>, d: Door) -> int
    decreases edges.len(),
{
    if edges.len() == 0 {
        -1
    } else if edges.last().from == d {
        edges.last().index as int
    } else {
        last_from(edges.drop_last(), d)
    }
}

/// When some edge leaves door `d`, `last_from` names one of the edges'
/// targets.
pub proof fn lemma_last_from_exists(edges: Seq<EdgePrototype>, d: Door)
    requires
        exists|k: int| 0 <= k < edges.len() && (#[trigger] edges[k]).from == d,
    ensures
        exists|k: int| 0 <= k < edges.len() && (#[trigger] edges[k]).from == d
            && edges[k].index as int == last_from(edges, d),
    decreases edges.len(),
{
    if edges.last().from == d {
        assert(edges[edges.len() - 1].from == d);
    } else {
        let k0 = choose|k: int| 0 <= k < edges.len() && (#[trigger] edges[k]).from == d;
        assert(edges.drop_last()[k0] == edges[k0]);
        lemma_last_from_exists(edges.drop_last(), d);
        let k1 = choose|k: int|
            0 <= k < edges.drop_last().len() && (#[trigger] edges.drop_last()[k]).from == d
                && edges.drop_last()[k].index as int == last_from(edges.drop_last(), d);
        assert(edges[k1] == edges.drop_last()[k1]);
    }
}

} // verus!

verus! {

/// Build a room's static wall body: inactive until its room is in the
/// activation window.
fn build_room_body(r: &RoomPrototype) -> (b: RigidBody)
    requires
        2000 <= r.width <= 1_000_000_000,
        2000 <= r.depth <= 1_000_000_000,
    ensures
        b.shape@ == wall_shapes(*r),
        b.position == (Vec2 { x: 0, y: 0 }),
        b.rotation == Rot::Deg0,
        b.velocity == (Vec2 { x: 0, y: 0 }),
        b.accumulator == (Vec2 { x: 0, y: 0 }),
        b.status == Status::Static,
        b.inv_mass == 0,
        b.restitution == 500,
        !b.active,
        !b.sensor,
        b.wf(),
{
    let hw = half(r.width);
    let hd = half(r.depth);
    let mut body = RigidBody::new(Status::Static, INF_MASS, 500);
    body.set_active(false);
    if r.doors.contains(Door::North) {
        body = body.shape(Vec2 { x: -hw, y: -hd - 100 }, hw - 500, 100);
        body = body.shape(Vec2 { x: 500, y: -hd - 100 }, hw - 500, 100);
    } else {
        body = body.shape(Vec2 { x: -hw, y: -hd - 100 }, r.width, 100);
    }
    if r.doors.contains(Door::South) {
        body = body.shape(Vec2 { x: -hw, y: hd }, hw - 500, 100);
        body = body.shape(Vec2 { x: 500, y: hd }, hw - 500, 100);
    } else {
        body = body.shape(Vec2 { x: -hw, y: hd }, r.width, 100);
    }
    if r.doors.contains(Door::East) {
        body = body.shape(Vec2 { x: -hw - 100, y: -hd }, 100, hd - 500);
        body = body.shape(Vec2 { x: -hw - 100, y: 500 }, 100, hd - 500);
    } else {
        body = body.shape(Vec2 { x: -hw - 100, y: -hd }, 100, r.depth);
    }
    if r.doors.contains(Door::West) {
        body = body.shape(Vec2 { x: hw, y: -hd }, 100, hd - 500);
        body = body.shape(Vec2 { x: hw, y: 500 }, 100, hd - 500);
    } else {
        body = body.shape(Vec2 { x: hw, y: -hd }, 100, r.depth);
    }
    proof {
        assert(body.shape@ =~= wall_shapes(*r));
    }
    body
}

/// Build a room's trigger volume: an inactive sensor body slightly smaller
/// than the room.
fn build_room_sensor(r: &RoomPrototype) -> (b: RigidBody)
    requires
        2000 <= r.width <= 1_000_000_000,
        2000 <= r.depth <= 1_000_000_000,
    ensures
        b.shape@ == seq![sensor_shape(*r)],
        b.position == (Vec2 { x: 0, y: 0 }),
        b.rotation == Rot::Deg0,
        b.velocity == (Vec2 { x: 0, y: 0 }),
        b.accumulator == (Vec2 { x: 0, y: 0 }),
        b.status == Status::Static,
        !b.active,
        b.sensor,
        b.wf(),
{
    let w = r.width - 1500;
    let d = r.depth - 1500;
    let mut body = RigidBody::new(Status::Static, INF_MASS, 500)
        .shape(Vec2 { x: -half(w), y: -half(d) }, w, d);
    body.set_active(false);
    body.set_sensor(true);
    proof {
        assert(body.shape@ =~= seq![sensor_shape(*r)]);
    }
    body
}

/// Build a door leaf's body: a thin static slab on its wall, turned to face
/// along its door's direction, inactive until its room is current.
fn build_door_body(r: &RoomPrototype, d: Door) -> (b: RigidBody)
    requires
        2000 <= r.width <= 1_000_000_000,
        2000 <= r.depth <= 1_000_000_000,
    ensures
        b.shape@ == seq![door_shape()],
        b.position == door_position(*r, d),
        b.rotation == door_rotation(d),
        b.velocity == (Vec2 { x: 0, y: 0 }),
        b.accumulator == (Vec2 { x: 0, y: 0 }),
        b.status == Status::Static,
        !b.active,
        !b.sensor,
        b.wf(),
{
    let pos = match d {
        Door::North => Vec2 { x: 0, y: -half(r.depth) },
        Door::South => Vec2 { x: 0, y: half(r.depth) },
        Door::East => Vec2 { x: -half(r.width), y: 0 },
        Door::West => Vec2 { x: half(r.width), y: 0 },
    };
    let rot = match d {
        Door::North => Rot::Deg0,
        Door::South => Rot::Deg180,
        Door::East => Rot::Deg90,
        Door::West => Rot::Deg270,
    };
    let mut body = RigidBody::new(Status::Static, INF_MASS, 500)
        .position(pos)
        .rotation(rot)
        .shape(Vec2 { x: -500, y: 0 }, 1000, 100);
    body.set_active(false);
    proof {
        assert(body.shape@ =~= seq![door_shape()]);
    }
    body
}

} // verus!

verus! {

/// What spawning establishes for room `t`: entity `2t` is the room's wall
/// body and entity `2t+1` its trigger volume, both inactive and at the
/// origin, joined rigidly, with no door state yet.
pub open spec fn spawned_room_ok(w: World, l: LevelPrototype, t: int) -> bool {
    let room = l.rooms@[t];
    let rb = w.bodies@[2 * t];
    let sb = w.bodies@[2 * t + 1];
    &&& w.room_marker@[2 * t]
    &&& !w.room_marker@[2 * t + 1]
    &&& rb.shape@ == wall_shapes(room)
    &&& rb.status == Status::Static
    &&& rb.inv_mass == 0
    &&& rb.restitution == 500
    &&& !rb.active
    &&& !rb.sensor
    &&& rb.position == (Vec2 { x: 0, y: 0 })
    &&& rb.rotation == Rot::Deg0
    &&& sb.shape@ == seq![sensor_shape(room)]
    &&& sb.status == Status::Static
    &&& !sb.active
    &&& sb.sensor
    &&& sb.position == (Vec2 { x: 0, y: 0 })
    &&& w.room_sensors@[2 * t + 1] == Some(RoomSensor((2 * t) as usize))
    &&& w.room_sensors@[2 * t] is None
    &&& w.joints@[t] == (Joint {
        body1: (2 * t) as usize,
        body2: (2 * t + 1) as usize,
        offset: Vec2 { x: 0, y: 0 },
        angle: Rot::Deg0,
    })
    &&& w.connections@[2 * t] is None
    &&& w.connections@[2 * t + 1] is None
    &&& !w.visible@[2 * t]
    &&& !w.visible@[2 * t + 1]
    &&& !w.active_room@[2 * t]
    &&& !w.active_room@[2 * t + 1]
}

/// What spawning establishes for a door entity `e`: a thin inactive leaf on
/// the boundary of its owning room, whose connection names the target of the
/// last edge leaving its door, that room's sensor, and starts closed.
pub open spec fn spawned_door_ok(w: World, l: LevelPrototype, e: int) -> bool {
    let db = w.bodies@[e];
    &&& db.shape@ == seq![door_shape()]
    &&& db.status == Status::Static
    &&& !db.active
    &&& !db.sensor
    &&& !w.room_marker@[e]
    &&& w.room_sensors@[e] is None
    &&& match w.connections@[e] {
        Some(c) => exists|t: int, d: Door|
            #![trigger l.rooms@[t].doors.has(d)]
            {
                &&& 0 <= t < l.rooms@.len()
                &&& l.rooms@[t].doors.has(d)
                &&& c.this == (2 * t) as usize
                &&& c.room as int == 2 * last_from(l.rooms@[t].edges@, d)
                &&& c.sensor as int == c.room as int + 1
                &&& !c.open
                &&& db.position == door_position(l.rooms@[t], d)
                &&& db.rotation == door_rotation(d)
                &&& w.parent@[e] == Some(c.this)
                &&& w.door_sets@[2 * t].vec@.contains(e as usize)
            },
        None => false,
    }
}

/// Everything the spawner guarantees of the world it builds: two entities
/// per room (walls and sensor) joined rigidly, the adjacency records from
/// the door-pair rule table, the flattened edge list, the current-room
/// pointer on the start room, and one door entity per distinct room-to-room
/// doorway.
pub open spec fn spawn_invariant(w: World, l: LevelPrototype) -> bool {
    let n_rooms = l.rooms@.len() as int;
    &&& w.tables_wf()
    &&& 2 * n_rooms <= w.n() < 0x1000_0000
    &&& w.joints@.len() == n_rooms
    &&& w.dcg.edges@ == dcg_spec(l)
    &&& w.current.entity as int == 2 * l.start
    &&& forall|t: int| 0 <= t < n_rooms ==> spawned_room_ok(w, l, t)
    &&& forall|t: int| 0 <= t < n_rooms
        ==> (#[trigger] w.edges@[2 * t]).edges@ == room_edges_spec(l, t)
    &&& forall|e: int| 2 * n_rooms <= e < w.n() ==> spawned_door_ok(w, l, e)
    &&& forall|i: int| 0 <= i < w.n() ==> (#[trigger] w.characters@[i]) is None
    &&& forall|i: int| 0 <= i < w.n() ==> (#[trigger] w.sensors@[i]) is None
}

/// Spawn the door of room `i` facing `d`, unless the room lacks that door
/// or a door of this room to the same target was already spawned.
fn handle_door(w: &mut World, level: &LevelPrototype, created: &mut EntitySet, i: usize, d: Door)
    requires
        level_wf(*level),
        level.rooms@.len() <= 100_000,
        (i as int) < level.rooms@.len(),
        spawn_invariant(*old(w), *level),
        old(w).n() < 0xFFF_FFFF,
    ensures
        spawn_invariant(*final(w), *level),
        old(w).n() <= final(w).n() <= old(w).n() + 1,
{
    let ghost l = *level;
    let ghost room_spec = level.rooms@[i as int];
    if !level.rooms[i].doors.contains(d) {
        return;
    }
    let m = level.rooms[i].edges.len();
    let mut tgt: usize = 0;
    let mut found = false;
    let mut k: usize = 0;
    while k < m
        invariant
            k <= m,
            m == room_spec.edges@.len(),
            room_spec == level.rooms@[i as int],
            (i as int) < level.rooms@.len(),
            found <==> last_from(room_spec.edges@.subrange(0, k as int), d) >= 0,
            found ==> tgt as int == last_from(room_spec.edges@.subrange(0, k as int), d),
        decreases m - k,
    {
        let ep = level.rooms[i].edges[k];
        proof {
            assert(room_spec.edges@.subrange(0, k as int + 1).drop_last()
                =~= room_spec.edges@.subrange(0, k as int));
            assert(room_spec.edges@.subrange(0, k as int + 1).last() == ep);
        }
        if ep.from == d {
            tgt = ep.index;
            found = true;
        }
        k = k + 1;
    }
    proof {
        assert(room_spec.edges@.subrange(0, m as int) =~= room_spec.edges@);
        assert(doors_have_edges(room_spec));
        assert(room_spec.doors.has(d));
        lemma_last_from_exists(room_spec.edges@, d);
        let kw = choose|kk: int|
            0 <= kk < room_spec.edges@.len() && (#[trigger] room_spec.edges@[kk]).from == d
                && room_spec.edges@[kk].index as int == last_from(room_spec.edges@, d);
        assert(room_spec.edges@[kw].index < level.rooms@.len());
    }
    let key: u64 = (i as u64) * 0x1_0000_0000u64 + (tgt as u64);
    if created.contains(key) {
        return;
    }
    let _was_new = created.insert(key);
    let ghost w0 = *w;
    let db = build_door_body(&level.rooms[i], d);
    let e = w.add_entity(db);
    let ghost w1 = *w;
    w.connections[e] = Some(Connection { this: 2 * i, room: 2 * tgt, sensor: 2 * tgt + 1, open: false });
    w.parent[e] = Some(2 * i);
    let ds = &mut w.door_sets[2 * i];
    ds.vec.push(e);
    proof {
        let n_rooms = l.rooms@.len() as int;
        assert(w.bodies@ == w0.bodies@.push(db));
        assert(w.tables_wf()) by {
            assert forall|x: int| 0 <= x < w.n() implies match #[trigger] w.connections@[x] {
                Some(c) => (c.this as int) < w.n() && (c.room as int) < w.n()
                    && (c.sensor as int) < w.n(),
                None => true,
            } by {
                if x != e as int {
                    assert(w.connections@[x] == w1.connections@[x]);
                }
            }
            assert forall|x: int| 0 <= x < w.n() implies match #[trigger] w.parent@[x] {
                Some(p) => (p as int) < w.n(),
                None => true,
            } by {
                if x != e as int {
                    assert(w.parent@[x] == w1.parent@[x]);
                }
            }
            assert forall|x: int, kk: int| 0 <= x < w.n()
                && 0 <= kk < (#[trigger] w.door_sets@[x]).vec@.len()
                implies ((#[trigger] w.door_sets@[x].vec@[kk]) as int) < w.n() by {
                if x == 2 * i as int {
                    assert(w.door_sets@[x].vec@ == w1.door_sets@[x].vec@.push(e));
                    if kk < w1.door_sets@[x].vec@.len() {
                        assert(w.door_sets@[x].vec@[kk] == w1.door_sets@[x].vec@[kk]);
                    }
                } else {
                    assert(w.door_sets@[x].vec@ == w1.door_sets@[x].vec@);
                }
            }
        }
        assert forall|t: int| 0 <= t < n_rooms implies spawned_room_ok(*w, l, t) by {
            assert(spawned_room_ok(w0, l, t));
        }
        assert forall|t: int| 0 <= t < n_rooms
            implies (#[trigger] w.edges@[2 * t]).edges@ == room_edges_spec(l, t) by {
            assert(w.edges@[2 * t].edges@ == w0.edges@[2 * t].edges@);
        }
        assert forall|x: int| 2 * n_rooms <= x < w.n() implies spawned_door_ok(*w, l, x) by {
            if x == e as int {
                assert(w.door_sets@[2 * i as int].vec@.last() == e);
                assert(w.door_sets@[2 * i as int].vec@.contains(e));
                assert(room_spec.doors.has(d));
                assert(l.rooms@[i as int].doors.has(d));
                assert(spawned_door_ok(*w, l, x));
            } else {
                assert(spawned_door_ok(w0, l, x));
                let c0 = w0.connections@[x]->Some_0;
                let (t0, d0) = choose|t0: int, d0: Door|
                    #![trigger l.rooms@[t0].doors.has(d0)]
                    {
                        &&& 0 <= t0 < l.rooms@.len()
                        &&& l.rooms@[t0].doors.has(d0)
                        &&& c0.this == (2 * t0) as usize
                        &&& c0.room as int == 2 * last_from(l.rooms@[t0].edges@, d0)
                        &&& c0.sensor as int == c0.room as int + 1
                        &&& !c0.open
                        &&& w0.bodies@[x].position == door_position(l.rooms@[t0], d0)
                        &&& w0.bodies@[x].rotation == door_rotation(d0)
                        &&& w0.parent@[x] == Some(c0.this)
                        &&& w0.door_sets@[2 * t0].vec@.contains(x as usize)
                    };
                assert(w.connections@[x] == w0.connections@[x]);
                assert(w.bodies@[x] == w0.bodies@[x]);
                assert(w.parent@[x] == w0.parent@[x]);
                assert(w.door_sets@[2 * t0].vec@.contains(x as usize)) by {
                    let u = choose|u: int|
                        0 <= u < w0.door_sets@[2 * t0].vec@.len()
                            && (#[trigger] w0.door_sets@[2 * t0].vec@[u]) == x as usize;
                    if 2 * t0 == 2 * i as int {
                        assert(w.door_sets@[2 * t0].vec@[u] == x as usize);
                    } else {
                        assert(w.door_sets@[2 * t0].vec@ == w0.door_sets@[2 * t0].vec@);
                    }
                }
                assert(spawned_door_ok(*w, l, x));
            }
        }
    }
}

} // verus!

verus! {

/// Instantiate a level: for every room, a wall body and a room sensor joined
/// rigidly; the flattened edge list; per-room adjacency records from the
/// door-pair rule table; one door entity per distinct doorway; the current
/// room set to the start room.  Everything starts inactive and hidden.
pub fn spawn(level: &LevelPrototype) -> (w: World)
    requires
        level_wf(*level),
        level.rooms@.len() <= 100_000,
    ensures
        w.wf(),
        spawn_invariant(w, *level),
        w.n() <= 6 * level.rooms@.len(),
{
    let ghost l = *level;
    let mut w = World::new();
    let n_rooms = level.rooms.len();
    let mut i: usize = 0;
    while i < n_rooms
        invariant
            level_wf(l),
            l == *level,
            n_rooms == l.rooms@.len(),
            n_rooms <= 100_000,
            i <= n_rooms,
            w.tables_wf(),
            w.n() == 2 * i,
            w.joints@.len() == i,
            w.dcg.edges@ == Seq::<DcEdge>::empty(),
            forall|t: int| 0 <= t < i ==> spawned_room_ok(w, l, t),
            forall|t: int| 0 <= t < i
                ==> (#[trigger] w.edges@[2 * t]).edges@ == Seq::<Room>::empty(),
            forall|x: int| 0 <= x < w.n() ==> (#[trigger] w.characters@[x]) is None,
            forall|x: int| 0 <= x < w.n() ==> (#[trigger] w.sensors@[x]) is None,
        decreases n_rooms - i,
    {
        let ghost wprev = w;
        let room_body = build_room_body(&level.rooms[i]);
        let e_room = w.add_entity(room_body);
        let sensor_body = build_room_sensor(&level.rooms[i]);
        let e_sensor = w.add_entity(sensor_body);
        w.room_marker[e_room] = true;
        w.room_sensors[e_sensor] = Some(RoomSensor(e_room));
        w.joints.push(Joint::new(e_room, e_sensor));
        i = i + 1;
        proof {
            assert forall|t: int| 0 <= t < i implies spawned_room_ok(w, l, t) by {
                if t < i - 1 {
                    assert(spawned_room_ok(wprev, l, t));
                    assert(w.bodies@[2 * t] == wprev.bodies@[2 * t]);
                    assert(w.bodies@[2 * t + 1] == wprev.bodies@[2 * t + 1]);
                }
            }
            assert(w.tables_wf()) by {
                assert forall|x: int| 0 <= x < w.n() implies match #[trigger] w.room_sensors@[x] {
                    Some(rs) => (rs.0 as int) < w.n(),
                    None => true,
                } by {}
            }
        }
    }
    let ghost wmid = w;
    w.current = CurrentRoom { entity: 2 * level.start };
    proof {
        assert forall|t: int| 0 <= t < n_rooms implies spawned_room_ok(w, l, t) by {
            assert(spawned_room_ok(wmid, l, t));
        }
    }
    let mut i2: usize = 0;
    while i2 < n_rooms
        invariant
            level_wf(l),
            l == *level,
            n_rooms == l.rooms@.len(),
            n_rooms <= 100_000,
            i2 <= n_rooms,
            w.tables_wf(),
            w.n() == 2 * n_rooms,
            w.joints@.len() == n_rooms,
            w.current.entity as int == 2 * l.start,
            w.dcg.edges@ == dcg_upto(l, i2 as int),
            forall|t: int| 0 <= t < n_rooms ==> spawned_room_ok(w, l, t),
            forall|t: int| 0 <= t < i2
                ==> (#[trigger] w.edges@[2 * t]).edges@ == room_edges_spec(l, t),
            forall|x: int| 0 <= x < w.n() ==> (#[trigger] w.characters@[x]) is None,
            forall|x: int| 0 <= x < w.n() ==> (#[trigger] w.sensors@[x]) is None,
        decreases n_rooms - i2,
    {
        let ghost wprev = w;
        let m = level.rooms[i2].edges.len();
        let mut adj: Vec<Room> = Vec::new();
        let mut k: usize = 0;
        while k < m
            invariant
                level_wf(l),
                l == *level,
                n_rooms == l.rooms@.len(),
                n_rooms <= 100_000,
                i2 < n_rooms,
                m == l.rooms@[i2 as int].edges@.len(),
                k <= m,
                adj@.len() == k,
                forall|u: int| 0 <= u < k ==> adj@[u] == room_edges_spec(l, i2 as int)[u],
                w.dcg.edges@.len() == dcg_upto(l, i2 as int).len() + k,
                forall|u: int| 0 <= u < dcg_upto(l, i2 as int).len()
                    ==> w.dcg.edges@[u] == dcg_upto(l, i2 as int)[u],
                forall|u: int| 0 <= u < k
                    ==> w.dcg.edges@[dcg_upto(l, i2 as int).len() + u] == dcg_room(l, i2 as int)[u],
                w.tables_wf(),
                w.n() == 2 * n_rooms,
                w.joints@.len() == n_rooms,
                w.current.entity as int == 2 * l.start,
                forall|t: int| 0 <= t < n_rooms ==> spawned_room_ok(w, l, t),
                forall|t: int| 0 <= t < i2
                    ==> (#[trigger] w.edges@[2 * t]).edges@ == room_edges_spec(l, t),
                forall|x: int| 0 <= x < w.n() ==> (#[trigger] w.characters@[x]) is None,
                forall|x: int| 0 <= x < w.n() ==> (#[trigger] w.sensors@[x]) is None,
            decreases m - k,
        {
            let ghost winner = w;
            let ep = level.rooms[i2].edges[k];
            proof {
                assert(room_proto_wf(l.rooms@[i2 as int], n_rooms as int));
            }
            let ihw = half(level.rooms[i2].width);
            let ihd = half(level.rooms[i2].depth);
            let jt = match ep.to {
                Door::North => half(level.rooms[ep.index].depth),
                Door::South => half(level.rooms[ep.index].depth),
                Door::East => half(level.rooms[ep.index].width),
                Door::West => half(level.rooms[ep.index].width),
            };
            let pos = match ep.from {
                Door::North => Vec2 { x: 0, y: -(ihd + jt) },
                Door::South => Vec2 { x: 0, y: ihd + jt },
                Door::East => Vec2 { x: -(ihw + jt), y: 0 },
                Door::West => Vec2 { x: ihw + jt, y: 0 },
            };
            adj.push(Room { entity: 2 * ep.index, position: pos, rotation: ep.from.rotation(ep.to) });
            w.dcg.edges.push(DcEdge {
                index: k,
                i: i2,
                j: ep.index,
                a: 2 * i2,
                b: 2 * ep.index,
            });
            k = k + 1;
            proof {
                assert forall|t: int| 0 <= t < n_rooms implies spawned_room_ok(w, l, t) by {
                    assert(spawned_room_ok(winner, l, t));
                }
            }
        }
        proof {
            assert(adj@ =~= room_edges_spec(l, i2 as int));
            assert(w.dcg.edges@ =~= dcg_upto(l, i2 as int + 1));
        }
        let ghost wmid2 = w;
        w.edges[2 * i2] = Edges { edges: adj };
        i2 = i2 + 1;
        proof {
            assert forall|t: int| 0 <= t < n_rooms implies spawned_room_ok(w, l, t) by {
                assert(spawned_room_ok(wmid2, l, t));
                assert(w.bodies@ == wmid2.bodies@);
            }
            assert forall|t: int| 0 <= t < i2
                implies (#[trigger] w.edges@[2 * t]).edges@ == room_edges_spec(l, t) by {
                if t < i2 - 1 {
                    assert(w.edges@[2 * t] == wmid2.edges@[2 * t]);
                }
            }
        }
    }
    let mut created = EntitySet::new();
    let mut i3: usize = 0;
    while i3 < n_rooms
        invariant
            level_wf(l),
            l == *level,
            n_rooms == l.rooms@.len(),
            n_rooms <= 100_000,
            i3 <= n_rooms,
            spawn_invariant(w, l),
            w.n() <= 2 * n_rooms + 4 * i3,
        decreases n_rooms - i3,
    {
        handle_door(&mut w, level, &mut created, i3, Door::North);
        handle_door(&mut w, level, &mut created, i3, Door::South);
        handle_door(&mut w, level, &mut created, i3, Door::East);
        handle_door(&mut w, level, &mut created, i3, Door::West);
        i3 = i3 + 1;
    }
    w
}

} // verus!

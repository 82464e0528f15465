//! The hand-built level: a chain of bedrooms, corridors and looping rooms.

use vstd::prelude::*;

use crate::proc::{
    doors_have_edges, level_wf, room_proto_wf, Door, Doors, EdgePrototype, LevelPrototype,
    RoomPrototype,
};

verus! {

/// Check that every room's extents are workable, every edge points at an
/// existing room, and every door is served by an edge.
pub fn validate(level: &LevelPrototype) -> (ok: bool)
    ensures
        ok ==> level_wf(*level),
{
    let n = level.rooms.len();
    if n == 0 || level.start >= n {
        return false;
    }
    let mut i: usize = 0;
    while i < n
        invariant
            i <= n,
            n == level.rooms@.len(),
            level.start < n,
            0 < n,
            forall|t: int| 0 <= t < i
                ==> room_proto_wf(#[trigger] level.rooms@[t], n as int)
                    && doors_have_edges(level.rooms@[t]),
        decreases n - i,
    {
        let room = &level.rooms[i];
        if !(2000 <= room.width && room.width <= 1_000_000_000) {
            return false;
        }
        if !(2000 <= room.depth && room.depth <= 1_000_000_000) {
            return false;
        }
        if !(0 <= room.height && room.height <= 1_000_000_000) {
            return false;
        }
        let m = room.edges.len();
        let mut k: usize = 0;
        while k < m
            invariant
                k <= m,
                m == room.edges@.len(),
                n == level.rooms@.len(),
                (i as int) < level.rooms@.len(),
                room == &level.rooms@[i as int],
                forall|u: int| 0 <= u < k ==> (#[trigger] room.edges@[u]).index < n,
            decreases m - k,
        {
            if room.edges[k].index >= n {
                return false;
            }
            k = k + 1;
        }
        let dirs = [Door::North, Door::South, Door::East, Door::West];
        let mut d: usize = 0;
        while d < 4
            invariant
                d <= 4,
                m == room.edges@.len(),
                n == level.rooms@.len(),
                (i as int) < level.rooms@.len(),
                room == &level.rooms@[i as int],
                dirs@ =~= seq![Door::North, Door::South, Door::East, Door::West],
                forall|u: int| 0 <= u < d ==> (room.doors.has(#[trigger] dirs@[u]) ==> exists|e: int|
                    0 <= e < room.edges@.len() && (#[trigger] room.edges@[e]).from == dirs@[u]),
            decreases 4 - d,
        {
            let dir = dirs[d];
            if room.doors.contains(dir) {
                let mut found = false;
                let mut k2: usize = 0;
                while k2 < m
                    invariant
                        k2 <= m,
                        m == room.edges@.len(),
                        (i as int) < level.rooms@.len(),
                        room == &level.rooms@[i as int],
                        found ==> exists|e: int| 0 <= e < room.edges@.len()
                            && (#[trigger] room.edges@[e]).from == dir,
                    decreases m - k2,
                {
                    if room.edges[k2].from == dir {
                        found = true;
                    }
                    k2 = k2 + 1;
                }
                if !found {
                    return false;
                }
            }
            d = d + 1;
        }
        proof {
            assert(doors_have_edges(level.rooms@[i as int])) by {
                assert forall|dd: Door| level.rooms@[i as int].doors.has(dd)
                    implies exists|e: int| 0 <= e < level.rooms@[i as int].edges@.len()
                        && (#[trigger] level.rooms@[i as int].edges@[e]).from == dd by {
                    assert(dd == Door::North || dd == Door::South || dd == Door::East
                        || dd == Door::West);
                    assert(dirs@[0] == Door::North && dirs@[1] == Door::South
                        && dirs@[2] == Door::East && dirs@[3] == Door::West);
                }
            }
        }
        i = i + 1;
    }
    true
}

/// One room prototype, without props.
fn room(width: i64, depth: i64, height: i64, doors: Doors, edges: Vec<EdgePrototype>) -> (r:
    RoomPrototype)
    ensures
        r.width == width,
        r.depth == depth,
        r.height == height,
        r.doors == doors,
        r.edges@ == edges@,
        r.props@.len() == 0,
{
    RoomPrototype { width, depth, height, doors, edges, props: Vec::new() }
}

/// One directed edge.
fn edge(index: usize, from: Door, to: Door) -> (r: EdgePrototype)
    ensures
        r == (EdgePrototype { index, from, to }),
{
    EdgePrototype { index, from, to }
}

/// A door set given as four flags: north, south, east, west.
fn doors(north: bool, south: bool, east: bool, west: bool) -> (r: Doors)
    ensures
        r == (Doors { north, south, east, west }),
{
    Doors { north, south, east, west }
}

/// The smallest level that holds together: two rooms facing each other.
fn fallback() -> (r: LevelPrototype)
    ensures
        level_wf(r),
        r.start == 0,
{
    let mut rooms: Vec<RoomPrototype> = Vec::new();
    let mut e0: Vec<EdgePrototype> = Vec::new();
    e0.push(edge(1, Door::South, Door::North));
    rooms.push(room(8000, 8000, 2000, doors(false, true, false, false), e0));
    let mut e1: Vec<EdgePrototype> = Vec::new();
    e1.push(edge(0, Door::North, Door::South));
    rooms.push(room(8000, 8000, 2000, doors(true, false, false, false), e1));
    let lv = LevelPrototype { start: 0, rooms };
    proof {
        assert forall|i: int| 0 <= i < lv.rooms@.len()
            implies room_proto_wf(#[trigger] lv.rooms@[i], lv.rooms@.len() as int)
                && doors_have_edges(lv.rooms@[i]) by {
            if i == 0 {
                assert forall|d: Door| lv.rooms@[0].doors.has(d)
                    implies exists|e: int| 0 <= e < lv.rooms@[0].edges@.len()
                        && (#[trigger] lv.rooms@[0].edges@[e]).from == d by {
                    assert(lv.rooms@[0].edges@[0].from == Door::South);
                }
            } else {
                assert forall|d: Door| lv.rooms@[1].doors.has(d)
                    implies exists|e: int| 0 <= e < lv.rooms@[1].edges@.len()
                        && (#[trigger] lv.rooms@[1].edges@[e]).from == d by {
                    assert(lv.rooms@[1].edges@[0].from == Door::North);
                }
            }
        }
    }
    lv
}

/// Build the game's level: twenty-five rooms chained from the first bedroom
/// through the looping flower rooms to the final one with no doors.
pub fn new() -> (r: LevelPrototype)
    ensures
        level_wf(r),
        r.start == 0,
{
    let mut rooms: Vec<RoomPrototype> = Vec::new();
    let mut e: Vec<EdgePrototype> = Vec::new();
    e.push(edge(1, Door::East, Door::West));
    rooms.push(room(12000, 8000, 2000, doors(false, false, true, false), e));
    let mut e: Vec<EdgePrototype> = Vec::new();
    e.push(edge(2, Door::North, Door::West));
    rooms.push(room(2000, 8000, 2000, doors(true, false, false, false), e));
    let mut e: Vec<EdgePrototype> = Vec::new();
    e.push(edge(3, Door::East, Door::North));
    rooms.push(room(12000, 8000, 2000, doors(false, false, true, false), e));
    let mut e: Vec<EdgePrototype> = Vec::new();
    e.push(edge(4, Door::East, Door::North));
    e.push(edge(5, Door::South, Door::North));
    rooms.push(room(4000, 4000, 2000, doors(false, true, true, false), e));
    let mut e: Vec<EdgePrototype> = Vec::new();
    e.push(edge(3, Door::East, Door::North));
    rooms.push(room(4000, 4000, 2000, doors(false, false, true, false), e));
    let mut e: Vec<EdgePrototype> = Vec::new();
    e.push(edge(3, Door::East, Door::West));
    e.push(edge(6, Door::West, Door::North));
    rooms.push(room(8000, 8000, 2000, doors(false, false, true, true), e));
    let mut e: Vec<EdgePrototype> = Vec::new();
    e.push(edge(3, Door::East, Door::West));
    e.push(edge(7, Door::West, Door::North));
    rooms.push(room(8000, 8000, 2000, doors(false, false, true, true), e));
    let mut e: Vec<EdgePrototype> = Vec::new();
    e.push(edge(3, Door::East, Door::West));
    e.push(edge(8, Door::West, Door::North));
    rooms.push(room(8000, 8000, 2000, doors(false, false, true, true), e));
    let mut e: Vec<EdgePrototype> = Vec::new();
    e.push(edge(12, Door::East, Door::West));
    e.push(edge(9, Door::West, Door::North));
    rooms.push(room(8000, 8000, 2000, doors(false, false, true, true), e));
    let mut e: Vec<EdgePrototype> = Vec::new();
    e.push(edge(3, Door::East, Door::West));
    e.push(edge(10, Door::West, Door::North));
    rooms.push(room(8000, 8000, 2000, doors(false, false, true, true), e));
    let mut e: Vec<EdgePrototype> = Vec::new();
    e.push(edge(3, Door::East, Door::West));
    e.push(edge(11, Door::West, Door::North));
    rooms.push(room(8000, 8000, 2000, doors(false, false, true, true), e));
    let mut e: Vec<EdgePrototype> = Vec::new();
    e.push(edge(3, Door::East, Door::West));
    e.push(edge(5, Door::West, Door::North));
    rooms.push(room(8000, 8000, 2000, doors(false, false, true, true), e));
    let mut e: Vec<EdgePrototype> = Vec::new();
    e.push(edge(13, Door::East, Door::North));
    rooms.push(room(32000, 3000, 2000, doors(false, false, true, false), e));
    let mut e: Vec<EdgePrototype> = Vec::new();
    e.push(edge(14, Door::West, Door::East));
    rooms.push(room(6000, 6000, 2000, doors(false, false, false, true), e));
    let mut e: Vec<EdgePrototype> = Vec::new();
    e.push(edge(15, Door::North, Door::South));
    rooms.push(room(6000, 6000, 2000, doors(true, false, false, false), e));
    let mut e: Vec<EdgePrototype> = Vec::new();
    e.push(edge(16, Door::East, Door::West));
    rooms.push(room(6000, 6000, 2000, doors(false, false, true, false), e));
    let mut e: Vec<EdgePrototype> = Vec::new();
    e.push(edge(17, Door::South, Door::North));
    rooms.push(room(6000, 6000, 2000, doors(false, true, false, false), e));
    let mut e: Vec<EdgePrototype> = Vec::new();
    e.push(edge(18, Door::West, Door::East));
    rooms.push(room(6000, 6000, 2000, doors(false, false, false, true), e));
    let mut e: Vec<EdgePrototype> = Vec::new();
    e.push(edge(19, Door::West, Door::North));
    rooms.push(room(32000, 3000, 2000, doors(false, false, false, true), e));
    let mut e: Vec<EdgePrototype> = Vec::new();
    e.push(edge(20, Door::South, Door::East));
    rooms.push(room(12000, 12000, 2000, doors(false, true, false, false), e));
    let mut e: Vec<EdgePrototype> = Vec::new();
    e.push(edge(21, Door::West, Door::North));
    rooms.push(room(12000, 8000, 2000, doors(false, false, false, true), e));
    let mut e: Vec<EdgePrototype> = Vec::new();
    e.push(edge(22, Door::South, Door::North));
    rooms.push(room(10000, 10000, 2000, doors(false, true, false, false), e));
    let mut e: Vec<EdgePrototype> = Vec::new();
    e.push(edge(23, Door::South, Door::North));
    rooms.push(room(10000, 10000, 2000, doors(false, true, false, false), e));
    let mut e: Vec<EdgePrototype> = Vec::new();
    e.push(edge(24, Door::South, Door::East));
    rooms.push(room(12000, 8000, 2000, doors(false, true, false, false), e));
    let e: Vec<EdgePrototype> = Vec::new();
    rooms.push(room(12000, 8000, 2000, doors(false, false, false, false), e));
    let lv = LevelPrototype { start: 0, rooms };
    if validate(&lv) {
        lv
    } else {
        fallback()
    }
}

} // verus!

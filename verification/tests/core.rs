use roomphys::array::Array;
use roomphys::geom::{Rot, Vec2};
use roomphys::level;
use roomphys::phys::{collide, joints_system, physics_system, Friction, Joint, Manifold, RigidBody, Status, INF_MASS};
use roomphys::proc::{generate, spawn, Door, Doors, EdgePrototype, LevelPrototype, Parameters, RoomPrototype};
use roomphys::room::{room_system, CurrentRoom};

fn body_with_box(status: Status, mass: i64) -> RigidBody {
    RigidBody::new(status, mass, 0).shape(Vec2::new(-250, -250), 500, 500)
}

#[test]
fn array_push_pop_and_bounds() {
    let mut a: Array<i64, 4> = Array::new();
    assert_eq!(a.capacity(), 4);
    assert!(a.is_empty());
    a.push(10);
    a.push(20);
    a.push(30);
    assert_eq!(a.len(), 3);
    assert_eq!(a.index(1), 20);
    a.set(1, 25);
    assert_eq!(a.index(1), 25);
    assert_eq!(a.pop(), Some(30));
    assert_eq!(a.len(), 2);
    a.insert(0, 5);
    assert_eq!(a.index(0), 5);
    assert_eq!(a.remove(1), 10);
    assert_eq!(a.swap_remove(0), 5);
    assert_eq!(a.len(), 1);
    a.clear();
    assert_eq!(a.pop(), None);
}

#[test]
fn array_truncate_and_reserve() {
    let mut a: Array<i64, 2> = Array::new();
    a.push(1);
    a.push(2);
    let mut b: Array<i64, 5> = a.reserve_exact();
    b.push(3);
    assert_eq!(b.len(), 3);
    b.truncate(1);
    assert_eq!(b.len(), 1);
    assert_eq!(b.as_slice(), &[1]);
}

#[test]
fn rotations_compose_and_invert() {
    assert_eq!(Rot::Deg90.compose(Rot::Deg90), Rot::Deg180);
    assert_eq!(Rot::Deg270.compose(Rot::Deg180), Rot::Deg90);
    assert_eq!(Rot::Deg90.invert(), Rot::Deg270);
    let v = Rot::Deg90.rotate(Vec2::new(100, 0));
    assert_eq!((v.x, v.y), (0, 100));
    let w = Rot::Deg180.rotate(Vec2::new(3, 4));
    assert_eq!((w.x, w.y), (-3, -4));
}

#[test]
fn door_rotation_table_involutive() {
    for d in [Door::North, Door::South, Door::East, Door::West] {
        assert_eq!(d.rotation(d).degrees(), 180);
        assert_eq!(d.rotation(d.not()).degrees(), 0);
    }
    assert_eq!(Door::North.rotation(Door::East), Rot::Deg270);
    assert_eq!(Door::North.rotation(Door::West), Rot::Deg90);
    assert_eq!(Door::East.rotation(Door::North), Rot::Deg90);
    assert_eq!(Door::West.rotation(Door::South), Rot::Deg90);
}

#[test]
fn non_overlapping_boxes_yield_no_manifold() {
    let a = body_with_box(Status::Dynamic, 1000);
    let b = body_with_box(Status::Dynamic, 1000).position(Vec2::new(2000, 0));
    let ms = collide(0, 1, &a, &b);
    assert!(ms.is_empty());
    let c = body_with_box(Status::Dynamic, 1000).position(Vec2::new(0, 600));
    let ms = collide(0, 1, &a, &c);
    assert!(ms.is_empty());
}

#[test]
fn overlapping_boxes_yield_signed_manifold() {
    let a = body_with_box(Status::Dynamic, 1000);
    let b = body_with_box(Status::Dynamic, 1000).position(Vec2::new(400, -100));
    let ms = collide(7, 9, &a, &b);
    assert_eq!(ms.len(), 1);
    let m = ms[0];
    assert_eq!(m.a, 7);
    assert_eq!(m.b, 9);
    assert!(m.p_x >= 0 && m.p_y >= 0);
    assert_eq!(m.p_x, 100);
    assert_eq!(m.n_x, 1);
    assert_eq!(m.n_y, -1);
}

#[test]
fn inactive_bodies_are_untouched_by_the_integrator() {
    let mut frozen = body_with_box(Status::Dynamic, 1000).position(Vec2::new(123, 456));
    frozen.velocity = Vec2::new(5000, -5000);
    frozen.set_active(false);
    let mover = body_with_box(Status::Dynamic, 1000).position(Vec2::new(120, 450));
    let mut bodies = vec![frozen, mover];
    let mut events: Vec<Manifold> = Vec::new();
    physics_system(100, &Friction(950), &mut events, &mut bodies);
    assert_eq!(bodies[0].position, Vec2::new(123, 456));
    assert_eq!(bodies[0].velocity, Vec2::new(5000, -5000));
}

#[test]
fn head_on_impulse_conserves_momentum() {
    let mut a = body_with_box(Status::Dynamic, 1000);
    a.velocity = Vec2::new(1000, 0);
    let mut b = body_with_box(Status::Dynamic, 1000).position(Vec2::new(400, 0));
    b.velocity = Vec2::new(-1000, 0);
    let before = a.velocity.x + b.velocity.x;
    let mut bodies = vec![a, b];
    let mut events: Vec<Manifold> = Vec::new();
    physics_system(0, &Friction(1000), &mut events, &mut bodies);
    let after = bodies[0].velocity.x + bodies[1].velocity.x;
    assert_eq!(before, after);
    let rv = bodies[1].velocity.x - bodies[0].velocity.x;
    assert!(rv >= 0, "pair still approaching: {rv}");
    assert_eq!(bodies[0].velocity.x, 0);
    assert_eq!(bodies[1].velocity.x, 0);
}

#[test]
fn sensor_contact_is_reported_not_resolved() {
    let mut trigger = body_with_box(Status::Static, INF_MASS);
    trigger.set_sensor(true);
    let mut walker = body_with_box(Status::Semikinematic, 1000).position(Vec2::new(100, 0));
    walker.velocity = Vec2::new(1000, 0);
    let mut bodies = vec![trigger, walker];
    let mut events: Vec<Manifold> = Vec::new();
    physics_system(100, &Friction(1000), &mut events, &mut bodies);
    assert_eq!(events.len(), 1);
    assert_eq!(events[0].a, 0);
    assert_eq!(events[0].b, 1);
    // the walker kept its full displacement: no push-back from a sensor
    assert_eq!(bodies[1].position.x, 200);
}

#[test]
fn semikinematic_snap_is_applied_once_per_axis() {
    // a wall carrying two identical shapes produces two manifolds for the
    // same pair; the snap must not be applied twice
    let mut s = body_with_box(Status::Semikinematic, 1000);
    s.velocity = Vec2::new(2000, 0);
    let wall = RigidBody::new(Status::Static, INF_MASS, 0)
        .position(Vec2::new(400, 0))
        .shape(Vec2::new(-250, -250), 500, 500)
        .shape(Vec2::new(-250, -250), 500, 500);
    let mut bodies = vec![s, wall];
    let mut events: Vec<Manifold> = Vec::new();
    physics_system(100, &Friction(1000), &mut events, &mut bodies);
    // the snap undoes exactly this tick's displacement, once
    assert_eq!(bodies[0].position.x, 0);
    assert_eq!(bodies[0].position.y, 0);
}

#[test]
fn semikinematic_wall_contact_never_overshoots() {
    let mut s = body_with_box(Status::Semikinematic, 1000);
    s.velocity = Vec2::new(2000, 0);
    let wall = RigidBody::new(Status::Static, INF_MASS, 0)
        .position(Vec2::new(700, 0))
        .shape(Vec2::new(-250, -250), 500, 500);
    let mut bodies = vec![s, wall];
    let mut events: Vec<Manifold> = Vec::new();
    let x0 = bodies[0].position.x;
    physics_system(100, &Friction(1000), &mut events, &mut bodies);
    let x1 = bodies[0].position.x;
    assert!(x1 >= x0, "moved backwards: {x0} -> {x1}");
    assert!(x1 - x0 <= 200, "moved more than this tick's displacement");
    physics_system(100, &Friction(1000), &mut events, &mut bodies);
    let x2 = bodies[0].position.x;
    assert!(x2 >= x1, "oscillated: {x1} -> {x2}");
    assert!(x2 - x1 <= 200);
}

#[test]
fn joints_slave_the_follower() {
    let mut owner = body_with_box(Status::Static, INF_MASS).position(Vec2::new(1000, 0));
    owner = owner.rotation(Rot::Deg90);
    let follower = body_with_box(Status::Static, INF_MASS);
    let mut bodies = vec![owner, follower];
    let joints = vec![Joint::new(0, 1).offset(Vec2::new(100, 0)).angle(Rot::Deg180)];
    joints_system(&joints, &mut bodies);
    assert_eq!(bodies[1].position, Vec2::new(1000, 100));
    assert_eq!(bodies[1].rotation, Rot::Deg270);
}

fn two_room_level() -> LevelPrototype {
    // room 0 opens south into room 1's north door; room 1 has no door back
    let r0 = RoomPrototype {
        width: 8000,
        depth: 8000,
        height: 2000,
        doors: Doors { north: false, south: true, east: false, west: false },
        edges: vec![EdgePrototype { index: 1, from: Door::South, to: Door::North }],
        props: Vec::new(),
    };
    let r1 = RoomPrototype {
        width: 8000,
        depth: 8000,
        height: 2000,
        doors: Doors { north: false, south: false, east: false, west: false },
        edges: Vec::new(),
        props: Vec::new(),
    };
    LevelPrototype { start: 0, rooms: vec![r0, r1] }
}

#[test]
fn spawn_builds_one_entity_pair_per_room() {
    let lv = two_room_level();
    assert!(level::validate(&lv));
    let w = spawn(&lv);
    assert_eq!(w.joints.len(), 2);
    assert!(w.room_marker[0] && w.room_marker[2]);
    assert!(!w.room_marker[1] && !w.room_marker[3]);
    assert_eq!(w.room_sensors[1], Some(roomphys::room::RoomSensor(0)));
    assert_eq!(w.room_sensors[3], Some(roomphys::room::RoomSensor(2)));
    assert_eq!(w.current, CurrentRoom { entity: 0 });
    // one door entity for room 0's south door
    assert_eq!(w.bodies.len(), 5);
    let c = w.connections[4].expect("door connection");
    assert_eq!(c.this, 0);
    assert_eq!(c.room, 2);
    assert_eq!(c.sensor, 3);
    assert!(!c.open);
}

#[test]
fn joined_rooms_sit_half_extents_apart() {
    let lv = two_room_level();
    let w = spawn(&lv);
    // south-to-north: the neighbour sits one half depth of each room away
    assert_eq!(w.edges[0].edges.len(), 1);
    let rec = w.edges[0].edges[0];
    assert_eq!(rec.entity, 2);
    assert_eq!(rec.position, Vec2::new(0, 8000));
    assert_eq!(rec.rotation, Rot::Deg0);
    assert_eq!(w.dcg.edges.len(), 1);
    assert_eq!(w.dcg.edges[0].i, 0);
    assert_eq!(w.dcg.edges[0].j, 1);
}

#[test]
fn room_handoff_resets_the_new_frame_and_drops_the_old_room() {
    let lv = two_room_level();
    let mut w = spawn(&lv);
    room_system(&mut w);
    assert!(w.bodies[0].active);
    assert!(w.visible[0]);
    assert!(w.active_room[0]);
    // the neighbour is placed at the joined offset and simulated
    assert!(w.bodies[2].active);
    assert_eq!(w.bodies[2].position, Vec2::new(0, 8000));
    // hand the current-room pointer to room 1
    w.current = CurrentRoom { entity: 2 };
    w.active_room[0] = false;
    room_system(&mut w);
    assert!(w.active_room[2]);
    assert_eq!(w.bodies[2].position, Vec2::new(0, 0));
    assert_eq!(w.bodies[2].rotation, Rot::Deg0);
    // room 1 has no edge back, so room 0 leaves the window
    assert!(!w.bodies[0].active);
    assert!(!w.visible[0]);
}

#[test]
fn generator_respects_its_ranges() {
    let params = Parameters {
        size: 6,
        min_size: 4000,
        max_size: 9000,
        min_height: 2000,
        max_height: 3000,
        clone_probability: 500,
    };
    let lv = generate(&params);
    assert_eq!(lv.rooms.len(), 6);
    assert_eq!(lv.start, 0);
    assert!(level::validate(&lv));
    for (i, r) in lv.rooms.iter().enumerate() {
        assert!(r.width >= 4000 && r.width <= 9000);
        assert!(r.depth >= 4000 && r.depth <= 9000);
        assert!(r.height >= 2000 && r.height <= 3000);
        let count = [r.doors.north, r.doors.south, r.doors.east, r.doors.west]
            .iter()
            .filter(|b| **b)
            .count();
        assert!((1..=3).contains(&count));
        assert_eq!(r.edges.len(), count);
        for e in &r.edges {
            assert_ne!(e.index, i);
            assert!(e.index < 6);
        }
    }
}

#[test]
fn hand_built_level_holds_together() {
    let lv = level::new();
    assert_eq!(lv.rooms.len(), 25);
    assert_eq!(lv.start, 0);
    assert!(level::validate(&lv));
    let w = spawn(&lv);
    assert_eq!(w.joints.len(), 25);
}

#[test]
fn friction_damps_velocity() {
    let mut b = body_with_box(Status::Dynamic, 1000);
    b.velocity = Vec2::new(1000, -2000);
    let mut bodies = vec![b];
    let mut events: Vec<Manifold> = Vec::new();
    physics_system(0, &Friction(950), &mut events, &mut bodies);
    assert_eq!(bodies[0].velocity, Vec2::new(950, -1900));
}

#[test]
fn forces_accumulate_then_clear() {
    let mut b = body_with_box(Status::Dynamic, 1000);
    b.accumulator = Vec2::new(3000, 0);
    let mut bodies = vec![b];
    let mut events: Vec<Manifold> = Vec::new();
    physics_system(500, &Friction(1000), &mut events, &mut bodies);
    assert_eq!(bodies[0].velocity.x, 1500);
    assert_eq!(bodies[0].accumulator, Vec2::new(0, 0));
}

#[test]
fn door_toggle_round_trips() {
    let lv = two_room_level();
    let mut w = spawn(&lv);
    let leaf0 = w.bodies[4].position;
    let rot0 = w.bodies[4].rotation;
    roomphys::room::toggle_door(&mut w, 4);
    assert!(w.connections[4].unwrap().open);
    assert!(w.bodies[4].sensor);
    assert!(w.bodies[3].active, "the joined room's trigger volume wakes up");
    assert_ne!(w.bodies[4].position, leaf0);
    roomphys::room::toggle_door(&mut w, 4);
    assert!(!w.connections[4].unwrap().open);
    assert!(!w.bodies[4].sensor);
    assert!(!w.bodies[3].active);
    assert_eq!(w.bodies[4].position, leaf0);
    assert_eq!(w.bodies[4].rotation, rot0);
}

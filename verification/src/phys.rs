//! Axis-aligned, semikinematic rigid-body physics in the plane.
//!
//! Bodies carry a bounded list of rectangular shapes.  Each tick the engine
//! integrates velocities, finds overlapping shape pairs (a full pairwise
//! broad phase followed by a separating-axis narrow phase), and resolves the
//! resulting contact manifolds axis by axis with impulses and positional
//! correction.  Sensor contacts produce events instead of forces.

use vstd::prelude::*;

use itertools::Itertools;

use crate::array::Array;
use crate::fixed::{clip, clip64, div_t, iabs, in_range, sign, LIMIT};
use crate::geom::{Rot, Vec2};

verus! {

/// The mass given to an immovable body: its inverse mass becomes zero.
pub const INF_MASS: i64 = 0;

/// Global velocity damping applied once per tick, in thousandths.
#[derive(Clone, Copy, Debug, PartialEq, Eq, Structural)]
pub struct Friction(pub i64);

impl Default for Friction {
    /// The engine's default damping keeps 950/1000 of the velocity.
    fn default() -> (r: Self)
        ensures
            r.0 == 950,
    {
        Friction(950)
    }
}

/// How a body reacts to contacts.
#[derive(Clone, Copy, Debug, PartialEq, Eq, Structural, Hash)]
pub enum Status {
    /// Full impulse response.
    Dynamic,
    /// Never moves.
    Static,
    /// Driven by game logic; snapped out of penetration instead of bounced.
    Semikinematic,
}

/// A rectangle in a body's local frame: its lower corner and its extent.
#[derive(Clone, Copy, Debug, PartialEq, Eq, Structural, Hash)]
pub struct Shape {
    pub offset: Vec2,
    pub width: i64,
    pub height: i64,
}

impl Shape {
    pub open spec fn wf(self) -> bool {
        self.offset.wf() && 0 <= self.width <= LIMIT && 0 <= self.height <= LIMIT
    }
}

/// A rectangle in world space, as componentwise bounds.
#[derive(Clone, Copy, Debug, PartialEq, Eq, Structural, Hash)]
pub struct Aabb {
    pub min: Vec2,
    pub max: Vec2,
}

impl Aabb {
    pub open spec fn wf(self) -> bool {
        self.min.wf() && self.max.wf() && self.min.x <= self.max.x && self.min.y <= self.max.y
    }
}

/// Rigidly slaves `body2`'s transform to `body1`'s.
#[derive(Clone, Copy, Debug, PartialEq, Eq, Structural, Hash)]
pub struct Joint {
    pub body1: usize,
    pub body2: usize,
    pub offset: Vec2,
    pub angle: Rot,
}

impl Joint {
    pub fn new(body1: usize, body2: usize) -> (r: Joint)
        ensures
            r == (Joint { body1, body2, offset: Vec2 { x: 0, y: 0 }, angle: Rot::Deg0 }),
    {
        Joint { body1, body2, offset: Vec2 { x: 0, y: 0 }, angle: Rot::Deg0 }
    }

    pub fn offset(self, offset: Vec2) -> (r: Joint)
        ensures
            r == (Joint { offset, ..self }),
    {
        Joint { offset, ..self }
    }

    pub fn angle(self, angle: Rot) -> (r: Joint)
        ensures
            r == (Joint { angle, ..self }),
    {
        Joint { angle, ..self }
    }
}

/// A rigid body: transform, motion state, shape list and contact behaviour.
pub struct RigidBody {
    pub position: Vec2,
    pub rotation: Rot,
    pub velocity: Vec2,
    pub accumulator: Vec2,
    pub shape: Array<Shape, 8>,
    pub status: Status,
    pub inv_mass: i64,
    pub restitution: i64,
    pub active: bool,
    pub sensor: bool,
}

/// Whether two bodies agree on every observable field.
pub open spec fn same_body(a: RigidBody, b: RigidBody) -> bool {
    &&& a.position == b.position
    &&& a.rotation == b.rotation
    &&& a.velocity == b.velocity
    &&& a.accumulator == b.accumulator
    &&& a.shape@ == b.shape@
    &&& a.status == b.status
    &&& a.inv_mass == b.inv_mass
    &&& a.restitution == b.restitution
    &&& a.active == b.active
    &&& a.sensor == b.sensor
}

impl RigidBody {
    pub open spec fn wf(self) -> bool {
        &&& self.position.wf()
        &&& self.velocity.wf()
        &&& self.accumulator.wf()
        &&& self.shape.wf()
        &&& forall|i: int| 0 <= i < self.shape@.len() ==> (#[trigger] self.shape@[i]).wf()
        &&& 0 <= self.inv_mass <= 1_000_000
        &&& 0 <= self.restitution <= 1000
    }

    /// A fresh body at the origin: active, not a sensor, with no shapes.
    /// A zero `mass` means an immovable body of infinite mass.
    pub fn new(status: Status, mass: i64, restitution: i64) -> (r: RigidBody)
        requires
            mass >= 0,
            0 <= restitution <= 1000,
        ensures
            r.position == (Vec2 { x: 0, y: 0 }),
            r.rotation == Rot::Deg0,
            r.velocity == (Vec2 { x: 0, y: 0 }),
            r.accumulator == (Vec2 { x: 0, y: 0 }),
            r.shape@ == Seq::<Shape>::empty(),
            r.status == status,
            r.inv_mass == if mass == INF_MASS { 0int } else { div_t(1_000_000, mass as int) },
            r.restitution == restitution,
            r.active,
            !r.sensor,
            r.wf(),
    {
        let inv_mass: i64 = if mass == INF_MASS {
            0
        } else {
            proof {
                crate::fixed::lemma_div_shrinks(1_000_000, mass as int);
            }
            ((1_000_000u64) / (mass as u64)) as i64
        };
        RigidBody {
            position: Vec2::zero(),
            rotation: Rot::Deg0,
            velocity: Vec2::zero(),
            accumulator: Vec2::zero(),
            shape: Array::new(),
            status,
            inv_mass,
            restitution,
            active: true,
            sensor: false,
        }
    }

    pub fn is_active(&self) -> (r: bool)
        ensures
            r == self.active,
    {
        self.active
    }

    pub fn set_active(&mut self, active: bool)
        ensures
            final(self).active == active,
            *final(self) == (RigidBody { active, ..*old(self) }),
    {
        self.active = active;
    }

    pub fn set_sensor(&mut self, sensor: bool)
        ensures
            *final(self) == (RigidBody { sensor, ..*old(self) }),
    {
        self.sensor = sensor;
    }

    pub fn position(self, position: Vec2) -> (r: RigidBody)
        ensures
            r == (RigidBody { position, ..self }),
    {
        RigidBody { position, ..self }
    }

    pub fn rotation(self, rotation: Rot) -> (r: RigidBody)
        ensures
            r == (RigidBody { rotation, ..self }),
    {
        RigidBody { rotation, ..self }
    }

    /// Append one local rectangle to the shape list.
    pub fn shape(self, offset: Vec2, width: i64, height: i64) -> (r: RigidBody)
        requires
            self.shape@.len() < 8,
        ensures
            r.shape@ == self.shape@.push(Shape { offset, width, height }),
            r == (RigidBody { shape: r.shape, ..self }),
    {
        let mut shape = self.shape;
        shape.push(Shape { offset, width, height });
        RigidBody { shape, ..self }
    }

    /// An independent copy of this body.
    pub fn duplicate(&self) -> (r: RigidBody)
        ensures
            same_body(r, *self),
    {
        RigidBody {
            position: self.position,
            rotation: self.rotation,
            velocity: self.velocity,
            accumulator: self.accumulator,
            shape: self.shape.duplicate(),
            status: self.status,
            inv_mass: self.inv_mass,
            restitution: self.restitution,
            active: self.active,
            sensor: self.sensor,
        }
    }

    /// The world bounding box of one local shape: the shape's two opposite
    /// corners are rotated by the body's rotation and translated by its
    /// position, and the componentwise bounds are clamped to the coordinate
    /// range.
    pub open spec fn aabb_of(pos: Vec2, rot: Rot, s: Shape) -> Aabb {
        let c1x = pos.x + rot.rot_x(s.offset.x as int, s.offset.y as int);
        let c1y = pos.y + rot.rot_y(s.offset.x as int, s.offset.y as int);
        let c2x = pos.x + rot.rot_x(s.offset.x + s.width, s.offset.y + s.height);
        let c2y = pos.y + rot.rot_y(s.offset.x + s.width, s.offset.y + s.height);
        Aabb {
            min: Vec2 {
                x: clip(if c1x <= c2x { c1x } else { c2x }) as i64,
                y: clip(if c1y <= c2y { c1y } else { c2y }) as i64,
            },
            max: Vec2 {
                x: clip(if c1x >= c2x { c1x } else { c2x }) as i64,
                y: clip(if c1y >= c2y { c1y } else { c2y }) as i64,
            },
        }
    }

    /// The world bounding boxes of all this body's shapes, in order.
    pub open spec fn aabbs_spec(self) -> Seq<Aabb> {
        Seq::new(self.shape@.len(), |i: int| Self::aabb_of(self.position, self.rotation, self.shape@[i]))
    }

    /// Compute the world bounding box of one shape.
    fn world_aabb(pos: Vec2, rot: Rot, s: Shape) -> (r: Aabb)
        requires
            pos.wf(),
            s.wf(),
        ensures
            r == Self::aabb_of(pos, rot, s),
            r.wf(),
    {
        let corner1 = rot.rotate(s.offset);
        let corner2 = rot.rotate(Vec2 { x: s.offset.x + s.width, y: s.offset.y + s.height });
        let c1x = pos.x + corner1.x;
        let c1y = pos.y + corner1.y;
        let c2x = pos.x + corner2.x;
        let c2y = pos.y + corner2.y;
        let min_x = clip64(if c1x <= c2x { c1x } else { c2x });
        let min_y = clip64(if c1y <= c2y { c1y } else { c2y });
        let max_x = clip64(if c1x >= c2x { c1x } else { c2x });
        let max_y = clip64(if c1y >= c2y { c1y } else { c2y });
        Aabb { min: Vec2 { x: min_x, y: min_y }, max: Vec2 { x: max_x, y: max_y } }
    }

    /// The world bounding boxes of this body's shapes.
    pub fn aabbs(&self) -> (r: Vec<Aabb>)
        requires
            self.wf(),
        ensures
            r@ == self.aabbs_spec(),
            forall|i: int| 0 <= i < r@.len() ==> (#[trigger] r@[i]).wf(),
    {
        let mut out: Vec<Aabb> = Vec::new();
        let n = self.shape.len();
        let mut i: usize = 0;
        while i < n
            invariant
                i <= n,
                n == self.shape@.len(),
                self.wf(),
                out@.len() == i,
                forall|k: int| 0 <= k < i ==> out@[k] == Self::aabb_of(self.position, self.rotation, self.shape@[k]),
                forall|k: int| 0 <= k < i ==> (#[trigger] out@[k]).wf(),
            decreases n - i,
        {
            let s = self.shape.index(i);
            out.push(Self::world_aabb(self.position, self.rotation, s));
            i = i + 1;
        }
        proof {
            assert(out@ =~= self.aabbs_spec());
        }
        out
    }
}

/// One detected overlap between two bodies' shapes, for one tick: the pair of
/// body identifiers, the penetration depth and contact normal sign on each
/// axis, and per-body flags telling whether that body's box lies strictly
/// inside the other's on each axis.
#[derive(Clone, Copy, Debug, PartialEq, Eq, Structural)]
pub struct Manifold {
    pub a: usize,
    pub b: usize,
    pub p_x: i64,
    pub p_y: i64,
    pub n_x: i64,
    pub n_y: i64,
    pub a_cx: bool,
    pub a_cy: bool,
    pub b_cx: bool,
    pub b_cy: bool,
}

/// The separating-axis test for one pair of boxes.  Working with doubled
/// quantities keeps the centre deltas exact: `dx2` is twice the distance
/// between centres and `ox2` twice the x overlap.  A manifold exists exactly
/// when both doubled overlaps are positive; the penetration depth is half the
/// doubled overlap, rounded down, and the normal takes the sign of the centre
/// delta, counting a tie as positive.
pub open spec fn manifold_of(e1: usize, e2: usize, a: Aabb, b: Aabb) -> Option<Manifold> {
    let dx2 = (b.min.x + b.max.x) - (a.min.x + a.max.x);
    let ox2 = ((a.max.x - a.min.x) + (b.max.x - b.min.x)) - iabs(dx2);
    let dy2 = (b.min.y + b.max.y) - (a.min.y + a.max.y);
    let oy2 = ((a.max.y - a.min.y) + (b.max.y - b.min.y)) - iabs(dy2);
    if ox2 > 0 && oy2 > 0 {
        Some(Manifold {
            a: e1,
            b: e2,
            p_x: (ox2 / 2) as i64,
            p_y: (oy2 / 2) as i64,
            n_x: sign(dx2) as i64,
            n_y: sign(dy2) as i64,
            a_cx: a.min.x > b.min.x && a.max.x < b.max.x,
            a_cy: a.min.y > b.min.y && a.max.y < b.max.y,
            b_cx: b.min.x > a.min.x && b.max.x < a.max.x,
            b_cy: b.min.y > a.min.y && b.max.y < a.max.y,
        })
    } else {
        None
    }
}

/// Run the separating-axis test on one pair of boxes.
pub fn collide_boxes(e1: usize, e2: usize, a: Aabb, b: Aabb) -> (r: Option<Manifold>)
    requires
        a.wf(),
        b.wf(),
    ensures
        r == manifold_of(e1, e2, a, b),
{
    let dx2 = (b.min.x + b.max.x) - (a.min.x + a.max.x);
    let adx2 = if dx2 < 0 { -dx2 } else { dx2 };
    let ox2 = ((a.max.x - a.min.x) + (b.max.x - b.min.x)) - adx2;
    let dy2 = (b.min.y + b.max.y) - (a.min.y + a.max.y);
    let ady2 = if dy2 < 0 { -dy2 } else { dy2 };
    let oy2 = ((a.max.y - a.min.y) + (b.max.y - b.min.y)) - ady2;
    if ox2 > 0 && oy2 > 0 {
        Some(Manifold {
            a: e1,
            b: e2,
            p_x: ox2 / 2,
            p_y: oy2 / 2,
            n_x: if dx2 < 0 { -1 } else { 1 },
            n_y: if dy2 < 0 { -1 } else { 1 },
            a_cx: a.min.x > b.min.x && a.max.x < b.max.x,
            a_cy: a.min.y > b.min.y && a.max.y < b.max.y,
            b_cx: b.min.x > a.min.x && b.max.x < a.max.x,
            b_cy: b.min.y > a.min.y && b.max.y < a.max.y,
        })
    } else {
        None
    }
}

/// Every pair of one box from `aa` and one from `bb`, in row-major order.
pub open spec fn pair_seq(aa: Seq<Aabb>, bb: Seq<Aabb>) -> Seq<(Aabb, Aabb)> {
    Seq::new(aa.len() * bb.len(), |k: int| (aa[k / bb.len() as int], bb[k % bb.len() as int]))
}

/// Relies on itertools' `cartesian_product`: it pairs every element of the
/// first iterator with every element of the second, outer loop first, which
/// is exactly row-major order.
#[verifier::external_body]
fn aabb_pairs(a: &Vec<Aabb>, b: &Vec<Aabb>) -> (r: Vec<(Aabb, Aabb)>)
    ensures
        r@ == pair_seq(a@, b@),
{
    a.iter().cloned().cartesian_product(b.iter().cloned()).collect()
}

/// The manifolds of the first `k` box pairs, in order.
pub open spec fn manifolds_upto(e1: usize, e2: usize, pairs: Seq<(Aabb, Aabb)>, k: int) -> Seq<Manifold>
    decreases k,
{
    if k <= 0 {
        Seq::empty()
    } else {
        manifolds_upto(e1, e2, pairs, k - 1) + match manifold_of(e1, e2, pairs[k - 1].0, pairs[k - 1].1) {
            Some(m) => seq![m],
            None => Seq::empty(),
        }
    }
}

/// All manifolds between two bodies: one separating-axis test for every pair
/// of one shape from each body.
pub open spec fn collide_spec(e1: usize, e2: usize, body1: RigidBody, body2: RigidBody) -> Seq<Manifold> {
    let pairs = pair_seq(body1.aabbs_spec(), body2.aabbs_spec());
    manifolds_upto(e1, e2, pairs, pairs.len() as int)
}

/// Collide every shape of `body1` against every shape of `body2`, yielding
/// zero or more manifolds, never deduplicated.
pub fn collide(e1: usize, e2: usize, body1: &RigidBody, body2: &RigidBody) -> (r: Vec<Manifold>)
    requires
        body1.wf(),
        body2.wf(),
    ensures
        r@ == collide_spec(e1, e2, *body1, *body2),
{
    let a = body1.aabbs();
    let b = body2.aabbs();
    let pairs = aabb_pairs(&a, &b);
    let mut out: Vec<Manifold> = Vec::new();
    let n = pairs.len();
    let mut k: usize = 0;
    while k < n
        invariant
            k <= n,
            n == pairs@.len(),
            pairs@ == pair_seq(body1.aabbs_spec(), body2.aabbs_spec()),
            forall|i: int| 0 <= i < a@.len() ==> (#[trigger] a@[i]).wf(),
            forall|i: int| 0 <= i < b@.len() ==> (#[trigger] b@[i]).wf(),
            a@ == body1.aabbs_spec(),
            b@ == body2.aabbs_spec(),
            out@ == manifolds_upto(e1, e2, pairs@, k as int),
        decreases n - k,
    {
        let pair = pairs[k];
        let pa = pair.0;
        let pb = pair.1;
        proof {
            let lb = b@.len() as int;
            assert(lb > 0) by {
                if lb == 0 {
                    assert(pairs@.len() == a@.len() * 0);
                    assert(a@.len() * 0 == 0) by (nonlinear_arith);
                }
            }
            assert(0 <= (k as int) % lb < lb) by (nonlinear_arith)
                requires lb > 0;
            assert(0 <= (k as int) / lb < a@.len() as int) by (nonlinear_arith)
                requires lb > 0, 0 <= k as int, (k as int) < a@.len() * lb;
            assert(pa == a@[(k as int) / lb] && pb == b@[(k as int) % lb]);
        }
        match collide_boxes(e1, e2, pa, pb) {
            Some(m) => {
                out.push(m);
            },
            None => {},
        }
        k = k + 1;
        proof {
            assert(out@ =~= manifolds_upto(e1, e2, pairs@, k as int));
        }
    }
    out
}

/// LAW: a pair of boxes whose overlap is zero or negative on either axis
/// produces no manifold; one that overlaps on both axes always produces one.
pub proof fn lemma_no_overlap_no_manifold(e1: usize, e2: usize, a: Aabb, b: Aabb)
    ensures
        ({
            let dx2 = (b.min.x + b.max.x) - (a.min.x + a.max.x);
            let ox2 = ((a.max.x - a.min.x) + (b.max.x - b.min.x)) - iabs(dx2);
            let dy2 = (b.min.y + b.max.y) - (a.min.y + a.max.y);
            let oy2 = ((a.max.y - a.min.y) + (b.max.y - b.min.y)) - iabs(dy2);
            (ox2 <= 0 || oy2 <= 0) <==> manifold_of(e1, e2, a, b) is None
        }),
{
}

/// LAW: every manifold carries a non-negative penetration depth on each axis,
/// and its normal sign matches the sign of the centre-to-centre delta, with a
/// tie counting as positive.
pub proof fn lemma_manifold_normal_and_depth(e1: usize, e2: usize, a: Aabb, b: Aabb)
    requires
        a.wf(),
        b.wf(),
        manifold_of(e1, e2, a, b) is Some,
    ensures
        ({
            let m = manifold_of(e1, e2, a, b)->Some_0;
            let dx2 = (b.min.x + b.max.x) - (a.min.x + a.max.x);
            let dy2 = (b.min.y + b.max.y) - (a.min.y + a.max.y);
            &&& 0 <= m.p_x <= 2 * LIMIT
            &&& 0 <= m.p_y <= 2 * LIMIT
            &&& m.n_x == sign(dx2)
            &&& m.n_y == sign(dy2)
            &&& m.a == e1
            &&& m.b == e2
        }),
{
    let dx2 = (b.min.x + b.max.x) - (a.min.x + a.max.x);
    let ox2 = ((a.max.x - a.min.x) + (b.max.x - b.min.x)) - iabs(dx2);
    let dy2 = (b.min.y + b.max.y) - (a.min.y + a.max.y);
    let oy2 = ((a.max.y - a.min.y) + (b.max.y - b.min.y)) - iabs(dy2);
    assert(ox2 <= 4 * LIMIT);
    assert(0 <= ox2 / 2 <= 2 * LIMIT);
    assert(0 <= oy2 / 2 <= 2 * LIMIT);
}

/// Every manifold in a collision pass is well formed: its identifiers are the
/// two bodies', its penetrations lie in range and its normals are signs.
pub open spec fn manifold_wf(m: Manifold, e1: usize, e2: usize) -> bool {
    &&& m.a == e1
    &&& m.b == e2
    &&& 0 <= m.p_x <= 2 * LIMIT
    &&& 0 <= m.p_y <= 2 * LIMIT
    &&& (m.n_x == 1 || m.n_x == -1)
    &&& (m.n_y == 1 || m.n_y == -1)
}

/// All manifolds of `manifolds_upto` are well formed, given well-formed boxes.
pub proof fn lemma_manifolds_upto_wf(e1: usize, e2: usize, pairs: Seq<(Aabb, Aabb)>, k: int)
    requires
        forall|i: int| 0 <= i < pairs.len() ==> (#[trigger] pairs[i]).0.wf() && pairs[i].1.wf(),
        k <= pairs.len(),
    ensures
        forall|j: int| 0 <= j < manifolds_upto(e1, e2, pairs, k).len()
            ==> manifold_wf(#[trigger] manifolds_upto(e1, e2, pairs, k)[j], e1, e2),
    decreases k,
{
    if k > 0 {
        lemma_manifolds_upto_wf(e1, e2, pairs, k - 1);
        let prev = manifolds_upto(e1, e2, pairs, k - 1);
        let cur = manifolds_upto(e1, e2, pairs, k);
        match manifold_of(e1, e2, pairs[k - 1].0, pairs[k - 1].1) {
            Some(m) => {
                lemma_manifold_normal_and_depth(e1, e2, pairs[k - 1].0, pairs[k - 1].1);
                assert forall|j: int| 0 <= j < cur.len() implies manifold_wf(cur[j], e1, e2) by {
                    if j < prev.len() {
                        assert(cur[j] == prev[j]);
                    } else {
                        assert(cur[j] == m);
                    }
                }
            },
            None => {
                assert(cur =~= prev);
            },
        }
    }
}

} // verus!

verus! {

/// A dedup set of entity identifiers, used to apply the semikinematic snap
/// at most once per body and axis within a tick.
#[verifier::external_body]
pub struct EntitySet {
    inner: hashbrown::HashSet<u64>,
}

pub uninterp spec fn entity_set_contents(s: &EntitySet) -> Set<u64>;

impl EntitySet {
    /// Relies on hashbrown's `HashSet::new`: the fresh set is empty.
    #[verifier::external_body]
    pub fn new() -> (r: EntitySet)
        ensures
            entity_set_contents(&r) == Set::<u64>::empty(),
    {
        EntitySet { inner: hashbrown::HashSet::new() }
    }

    /// Relies on hashbrown's `HashSet::insert`: it adds the value and reports
    /// whether the value was absent.
    #[verifier::external_body]
    pub fn insert(&mut self, v: u64) -> (r: bool)
        ensures
            entity_set_contents(final(self)) == entity_set_contents(old(self)).insert(v),
            r == !entity_set_contents(old(self)).contains(v),
    {
        self.inner.insert(v)
    }

    /// Relies on hashbrown's `HashSet::contains`: membership.
    #[verifier::external_body]
    pub fn contains(&self, v: u64) -> (r: bool)
        ensures
            r == entity_set_contents(self).contains(v),
    {
        self.inner.contains(&v)
    }
}

/// One body after integration: its position advanced by its velocity over
/// `dt` thousandths of a second.
pub open spec fn integrate_body(b: RigidBody, dt: int) -> RigidBody {
    RigidBody {
        position: Vec2 {
            x: clip(b.position.x + div_t(b.velocity.x * dt, 1000)) as i64,
            y: clip(b.position.y + div_t(b.velocity.y * dt, 1000)) as i64,
        },
        ..b
    }
}

/// The whole store after integration: active bodies advance, inactive bodies
/// are untouched.
pub open spec fn integrate_all(bs: Seq<RigidBody>, dt: int) -> Seq<RigidBody> {
    Seq::new(bs.len(), |i: int| if bs[i].active { integrate_body(bs[i], dt) } else { bs[i] })
}

/// Advance one coordinate by its velocity.
fn integrate_axis(p: i64, v: i64, dt: i64) -> (r: i64)
    requires
        in_range(p as int),
        in_range(v as int),
        0 <= dt <= 3_600_000,
    ensures
        r == clip(p + div_t(v * dt, 1000)),
{
    proof {
        assert(iabs(v as int) * iabs(dt as int) <= i64::MAX) by (nonlinear_arith)
            requires iabs(v as int) <= LIMIT as int && 0 <= dt <= 3_600_000;
    }
    crate::fixed::cadd(p, crate::fixed::mul_div_t(v, dt, 1000))
}

/// Integrate every active body.
fn integrate_pass(bodies: &mut Vec<RigidBody>, dt: i64)
    requires
        forall|i: int| 0 <= i < old(bodies)@.len() ==> (#[trigger] old(bodies)@[i]).wf(),
        0 <= dt <= 3_600_000,
    ensures
        final(bodies)@ == integrate_all(old(bodies)@, dt as int),
        forall|i: int| 0 <= i < final(bodies)@.len() ==> (#[trigger] final(bodies)@[i]).wf(),
{
    let n = bodies.len();
    let mut i: usize = 0;
    while i < n
        invariant
            i <= n,
            n == bodies@.len(),
            bodies@.len() == old(bodies)@.len(),
            forall|k: int| 0 <= k < n ==> (#[trigger] bodies@[k]).wf(),
            forall|k: int| 0 <= k < i ==> bodies@[k] == integrate_all(old(bodies)@, dt as int)[k],
            forall|k: int| i <= k < n ==> bodies@[k] == old(bodies)@[k],
            0 <= dt <= 3_600_000,
        decreases n - i,
    {
        if bodies[i].active {
            let px = integrate_axis(bodies[i].position.x, bodies[i].velocity.x, dt);
            let py = integrate_axis(bodies[i].position.y, bodies[i].velocity.y, dt);
            let b = &mut bodies[i];
            b.position = Vec2 { x: px, y: py };
        }
        i = i + 1;
    }
    proof {
        assert(bodies@ =~= integrate_all(old(bodies)@, dt as int));
    }
}

} // verus!

verus! {

/// `n * p` for a normal sign `n`.
proof fn lemma_sign_mul(n: int, p: int)
    requires
        n == 1 || n == -1,
    ensures
        n * p == if n == 1 { p } else { -p },
{
    assert(n * p == if n == 1 { p } else { -p }) by (nonlinear_arith)
        requires n == 1 || n == -1;
}

/// The scalar impulse along one axis: relative velocity `rv` scaled by one
/// plus the smaller restitution, divided by the summed inverse masses.  Two
/// immovable bodies take no impulse.
pub open spec fn impulse_j(a: RigidBody, b: RigidBody, rv: int) -> int {
    let e = if a.restitution <= b.restitution { a.restitution as int } else { b.restitution as int };
    let ims = a.inv_mass + b.inv_mass;
    if ims == 0 {
        0
    } else {
        -div_t((1000 + e) * rv, ims)
    }
}

/// The unsigned positional correction along one axis: the penetration beyond
/// a small slop, scaled by a fifth and divided by the summed inverse masses.
pub open spec fn correction_c(a: RigidBody, b: RigidBody, p: int) -> int {
    let ims = a.inv_mass + b.inv_mass;
    let pm = if p - 10 > 0 { p - 10 } else { 0 };
    if ims == 0 {
        0
    } else {
        div_t(pm * 200, ims)
    }
}

/// A dynamic body taking the impulse and correction with negative sign (the
/// first body of a manifold), on the x axis.
pub open spec fn dynamic_x_sub(c: RigidBody, imp: int, corrn: int) -> RigidBody {
    RigidBody {
        velocity: Vec2 { x: clip(c.velocity.x - clip(div_t(imp * c.inv_mass, 1000))) as i64, ..c.velocity },
        position: Vec2 { x: clip(c.position.x - clip(div_t(c.inv_mass * corrn, 1000))) as i64, ..c.position },
        ..c
    }
}

/// A dynamic body taking the impulse and correction with positive sign (the
/// second body of a manifold), on the x axis.
pub open spec fn dynamic_x_add(c: RigidBody, imp: int, corrn: int) -> RigidBody {
    RigidBody {
        velocity: Vec2 { x: clip(c.velocity.x + clip(div_t(imp * c.inv_mass, 1000))) as i64, ..c.velocity },
        position: Vec2 { x: clip(c.position.x + clip(div_t(c.inv_mass * corrn, 1000))) as i64, ..c.position },
        ..c
    }
}

pub open spec fn dynamic_y_sub(c: RigidBody, imp: int, corrn: int) -> RigidBody {
    RigidBody {
        velocity: Vec2 { y: clip(c.velocity.y - clip(div_t(imp * c.inv_mass, 1000))) as i64, ..c.velocity },
        position: Vec2 { y: clip(c.position.y - clip(div_t(c.inv_mass * corrn, 1000))) as i64, ..c.position },
        ..c
    }
}

pub open spec fn dynamic_y_add(c: RigidBody, imp: int, corrn: int) -> RigidBody {
    RigidBody {
        velocity: Vec2 { y: clip(c.velocity.y + clip(div_t(imp * c.inv_mass, 1000))) as i64, ..c.velocity },
        position: Vec2 { y: clip(c.position.y + clip(div_t(c.inv_mass * corrn, 1000))) as i64, ..c.position },
        ..c
    }
}

/// The semikinematic snap on the x axis: the body moves by the push-out
/// delta `d` when that is strictly smaller than its own displacement this
/// tick and points against it; otherwise its own displacement is undone.
pub open spec fn semi_snap_x(c: RigidBody, d: int, dt: int) -> RigidBody {
    let v = div_t(c.velocity.x * dt, 1000);
    let newx = if sign(v) != sign(d) && iabs(d) < iabs(v) {
        clip(c.position.x + d)
    } else {
        clip(c.position.x - v)
    };
    RigidBody { position: Vec2 { x: newx as i64, ..c.position }, ..c }
}

pub open spec fn semi_snap_y(c: RigidBody, d: int, dt: int) -> RigidBody {
    let v = div_t(c.velocity.y * dt, 1000);
    let newy = if sign(v) != sign(d) && iabs(d) < iabs(v) {
        clip(c.position.y + d)
    } else {
        clip(c.position.y - v)
    };
    RigidBody { position: Vec2 { y: newy as i64, ..c.position }, ..c }
}

/// Resolve the x axis for the first body of a manifold.
pub open spec fn resolve_x_body_a(bs: Seq<RigidBody>, skx: Set<u64>, m: Manifold, j: int, c: int, dt: int)
    -> (Seq<RigidBody>, Set<u64>) {
    let a = bs[m.a as int];
    let imp = j;
    let corrn = m.n_x * c;
    match a.status {
        Status::Static => (bs, skx),
        Status::Dynamic => (bs.update(m.a as int, dynamic_x_sub(a, imp, corrn)), skx),
        Status::Semikinematic => {
            if !skx.contains(m.a as u64) && !m.a_cx {
                (bs.update(m.a as int, semi_snap_x(a, -m.n_x * m.p_x, dt)), skx.insert(m.a as u64))
            } else {
                (bs, skx)
            }
        },
    }
}

/// Resolve the x axis for the second body of a manifold.
pub open spec fn resolve_x_body_b(bs: Seq<RigidBody>, skx: Set<u64>, m: Manifold, j: int, c: int, dt: int)
    -> (Seq<RigidBody>, Set<u64>) {
    let b = bs[m.b as int];
    let imp = j;
    let corrn = m.n_x * c;
    match b.status {
        Status::Static => (bs, skx),
        Status::Dynamic => (bs.update(m.b as int, dynamic_x_add(b, imp, corrn)), skx),
        Status::Semikinematic => {
            if !skx.contains(m.b as u64) && !m.b_cx {
                (bs.update(m.b as int, semi_snap_x(b, m.n_x * m.p_x, dt)), skx.insert(m.b as u64))
            } else {
                (bs, skx)
            }
        },
    }
}

pub open spec fn resolve_y_body_a(bs: Seq<RigidBody>, sky: Set<u64>, m: Manifold, j: int, c: int, dt: int)
    -> (Seq<RigidBody>, Set<u64>) {
    let a = bs[m.a as int];
    let imp = j;
    let corrn = m.n_y * c;
    match a.status {
        Status::Static => (bs, sky),
        Status::Dynamic => (bs.update(m.a as int, dynamic_y_sub(a, imp, corrn)), sky),
        Status::Semikinematic => {
            if !sky.contains(m.a as u64) && !m.a_cy {
                (bs.update(m.a as int, semi_snap_y(a, -m.n_y * m.p_y, dt)), sky.insert(m.a as u64))
            } else {
                (bs, sky)
            }
        },
    }
}

pub open spec fn resolve_y_body_b(bs: Seq<RigidBody>, sky: Set<u64>, m: Manifold, j: int, c: int, dt: int)
    -> (Seq<RigidBody>, Set<u64>) {
    let b = bs[m.b as int];
    let imp = j;
    let corrn = m.n_y * c;
    match b.status {
        Status::Static => (bs, sky),
        Status::Dynamic => (bs.update(m.b as int, dynamic_y_add(b, imp, corrn)), sky),
        Status::Semikinematic => {
            if !sky.contains(m.b as u64) && !m.b_cy {
                (bs.update(m.b as int, semi_snap_y(b, m.n_y * m.p_y, dt)), sky.insert(m.b as u64))
            } else {
                (bs, sky)
            }
        },
    }
}

/// Resolve one manifold's x axis: impulse and correction are computed from
/// the two bodies as they stand, then applied to the first body and then to
/// the second.
pub open spec fn resolve_step_x(bs: Seq<RigidBody>, skx: Set<u64>, m: Manifold, dt: int)
    -> (Seq<RigidBody>, Set<u64>) {
    let a = bs[m.a as int];
    let b = bs[m.b as int];
    let rv = b.velocity.x - a.velocity.x;
    let j = impulse_j(a, b, rv);
    let c = correction_c(a, b, m.p_x as int);
    let r1 = resolve_x_body_a(bs, skx, m, j, c, dt);
    resolve_x_body_b(r1.0, r1.1, m, j, c, dt)
}

pub open spec fn resolve_step_y(bs: Seq<RigidBody>, sky: Set<u64>, m: Manifold, dt: int)
    -> (Seq<RigidBody>, Set<u64>) {
    let a = bs[m.a as int];
    let b = bs[m.b as int];
    let rv = b.velocity.y - a.velocity.y;
    let j = impulse_j(a, b, rv);
    let c = correction_c(a, b, m.p_y as int);
    let r1 = resolve_y_body_a(bs, sky, m, j, c, dt);
    resolve_y_body_b(r1.0, r1.1, m, j, c, dt)
}

/// Resolve one manifold: a contact touching a sensor only queues an event;
/// a solid contact is resolved fully on x and then fully on y.
pub open spec fn resolve_step(
    bs: Seq<RigidBody>,
    skx: Set<u64>,
    sky: Set<u64>,
    ev: Seq<Manifold>,
    m: Manifold,
    dt: int,
) -> (Seq<RigidBody>, Set<u64>, Set<u64>, Seq<Manifold>) {
    let a = bs[m.a as int];
    let b = bs[m.b as int];
    if a.sensor || b.sensor {
        (bs, skx, sky, ev.push(m))
    } else {
        let rx = resolve_step_x(bs, skx, m, dt);
        let ry = resolve_step_y(rx.0, sky, m, dt);
        (ry.0, rx.1, ry.1, ev)
    }
}

/// Resolve the first `k` manifolds in order.
pub open spec fn resolve_upto(
    bs: Seq<RigidBody>,
    skx: Set<u64>,
    sky: Set<u64>,
    ev: Seq<Manifold>,
    ms: Seq<Manifold>,
    dt: int,
    k: int,
) -> (Seq<RigidBody>, Set<u64>, Set<u64>, Seq<Manifold>)
    decreases k,
{
    if k <= 0 {
        (bs, skx, sky, ev)
    } else {
        let r = resolve_upto(bs, skx, sky, ev, ms, dt, k - 1);
        resolve_step(r.0, r.1, r.2, r.3, ms[k - 1], dt)
    }
}

} // verus!

verus! {

/// Apply an impulse and positional correction to one dynamic body's x axis.
fn apply_dynamic_x(c: &mut RigidBody, imp: i64, corrn: i64, add: bool)
    ensures
        !add ==> *final(c) == dynamic_x_sub(*old(c), imp as int, corrn as int),
        add ==> *final(c) == dynamic_x_add(*old(c), imp as int, corrn as int),
        old(c).wf() ==> final(c).wf(),
{
    let dv = crate::fixed::mul_div_clip(imp, c.inv_mass, 1000);
    let dp = crate::fixed::mul_div_clip(c.inv_mass, corrn, 1000);
    if add {
        c.velocity.x = crate::fixed::cadd(c.velocity.x, dv);
        c.position.x = crate::fixed::cadd(c.position.x, dp);
    } else {
        c.velocity.x = crate::fixed::csub(c.velocity.x, dv);
        c.position.x = crate::fixed::csub(c.position.x, dp);
    }
}

fn apply_dynamic_y(c: &mut RigidBody, imp: i64, corrn: i64, add: bool)
    ensures
        !add ==> *final(c) == dynamic_y_sub(*old(c), imp as int, corrn as int),
        add ==> *final(c) == dynamic_y_add(*old(c), imp as int, corrn as int),
        old(c).wf() ==> final(c).wf(),
{
    let dv = crate::fixed::mul_div_clip(imp, c.inv_mass, 1000);
    let dp = crate::fixed::mul_div_clip(c.inv_mass, corrn, 1000);
    if add {
        c.velocity.y = crate::fixed::cadd(c.velocity.y, dv);
        c.position.y = crate::fixed::cadd(c.position.y, dp);
    } else {
        c.velocity.y = crate::fixed::csub(c.velocity.y, dv);
        c.position.y = crate::fixed::csub(c.position.y, dp);
    }
}

/// Apply the semikinematic snap to one body's x axis.
fn apply_semi_x(c: &mut RigidBody, d: i64, dt: i64)
    requires
        -i64::MAX <= d,
        in_range(old(c).velocity.x as int),
        0 <= dt <= 3_600_000,
    ensures
        *final(c) == semi_snap_x(*old(c), d as int, dt as int),
        old(c).wf() ==> final(c).wf(),
{
    let vel = c.velocity.x;
    proof {
        assert(iabs(vel as int) * iabs(dt as int) <= i64::MAX) by (nonlinear_arith)
            requires iabs(vel as int) <= LIMIT as int && 0 <= dt <= 3_600_000;
    }
    let v = crate::fixed::mul_div_t(vel, dt, 1000);
    let sign_differs = (v < 0) != (d < 0);
    let av = if v < 0 { -v } else { v };
    let ad = if d < 0 { -d } else { d };
    if sign_differs && ad < av {
        c.position.x = crate::fixed::cadd(c.position.x, d);
    } else {
        c.position.x = crate::fixed::csub(c.position.x, v);
    }
}

fn apply_semi_y(c: &mut RigidBody, d: i64, dt: i64)
    requires
        -i64::MAX <= d,
        in_range(old(c).velocity.y as int),
        0 <= dt <= 3_600_000,
    ensures
        *final(c) == semi_snap_y(*old(c), d as int, dt as int),
        old(c).wf() ==> final(c).wf(),
{
    let vel = c.velocity.y;
    proof {
        assert(iabs(vel as int) * iabs(dt as int) <= i64::MAX) by (nonlinear_arith)
            requires iabs(vel as int) <= LIMIT as int && 0 <= dt <= 3_600_000;
    }
    let v = crate::fixed::mul_div_t(vel, dt, 1000);
    let sign_differs = (v < 0) != (d < 0);
    let av = if v < 0 { -v } else { v };
    let ad = if d < 0 { -d } else { d };
    if sign_differs && ad < av {
        c.position.y = crate::fixed::cadd(c.position.y, d);
    } else {
        c.position.y = crate::fixed::csub(c.position.y, v);
    }
}

} // verus!

verus! {

/// Resolve one solid manifold's x axis against the body store.
fn resolve_axis_x(bodies: &mut Vec<RigidBody>, skx: &mut EntitySet, m: Manifold, dt: i64)
    requires
        (m.a as int) < old(bodies)@.len(),
        (m.b as int) < old(bodies)@.len(),
        m.a != m.b,
        0 <= m.p_x <= 2 * LIMIT,
        m.n_x == 1 || m.n_x == -1,
        0 <= dt <= 3_600_000,
        forall|i: int| 0 <= i < old(bodies)@.len() ==> (#[trigger] old(bodies)@[i]).wf(),
    ensures
        final(bodies)@ == resolve_step_x(old(bodies)@, entity_set_contents(old(skx)), m, dt as int).0,
        entity_set_contents(final(skx)) == resolve_step_x(old(bodies)@, entity_set_contents(old(skx)), m, dt as int).1,
        final(bodies)@.len() == old(bodies)@.len(),
        forall|i: int| 0 <= i < final(bodies)@.len() ==> (#[trigger] final(bodies)@[i]).wf(),
{
    let ghost bs0 = bodies@;
    let ghost set0 = entity_set_contents(skx);
    let a_vx = bodies[m.a].velocity.x;
    let b_vx = bodies[m.b].velocity.x;
    let a_rest = bodies[m.a].restitution;
    let b_rest = bodies[m.b].restitution;
    let a_im = bodies[m.a].inv_mass;
    let b_im = bodies[m.b].inv_mass;
    let rv = b_vx - a_vx;
    let e = if a_rest <= b_rest { a_rest } else { b_rest };
    let ims = a_im + b_im;
    let j: i64 = if ims == 0 {
        0
    } else {
        let kf = 1000 + e;
        proof {
            assert(iabs(kf as int) * iabs(rv as int) <= i64::MAX) by (nonlinear_arith)
                requires 0 <= kf <= 2000 && iabs(rv as int) <= 2 * (LIMIT as int);
        }
        -crate::fixed::mul_div_t(kf, rv, ims)
    };
    let cbase: i64 = if ims == 0 {
        0
    } else {
        let pm = if m.p_x > 10 { m.p_x - 10 } else { 0 };
        proof {
            assert(iabs(pm as int) * iabs(200int) <= i64::MAX) by (nonlinear_arith)
                requires 0 <= pm <= 2 * (LIMIT as int);
        }
        crate::fixed::mul_div_t(pm, 200, ims)
    };
    proof {
        assert(j == impulse_j(bs0[m.a as int], bs0[m.b as int], rv as int));
        assert(cbase == correction_c(bs0[m.a as int], bs0[m.b as int], m.p_x as int));
    }
    let imp = j;
    let corrn = if m.n_x < 0 { -cbase } else { cbase };
    proof {
        lemma_sign_mul(m.n_x as int, cbase as int);
        assert(corrn == (m.n_x as int) * (cbase as int));
    }
    let ghost r1 = resolve_x_body_a(bs0, set0, m, j as int, cbase as int, dt as int);
    let st_a = bodies[m.a].status;
    match st_a {
        Status::Static => {},
        Status::Dynamic => {
            apply_dynamic_x(&mut bodies[m.a], imp, corrn, false);
        },
        Status::Semikinematic => {
            if !skx.contains(m.a as u64) {
                if !m.a_cx {
                    let _was_new = skx.insert(m.a as u64);
                    let d = if m.n_x < 0 { m.p_x } else { -m.p_x };
                    proof {
                        lemma_sign_mul(-(m.n_x as int), m.p_x as int);
                    }
                    apply_semi_x(&mut bodies[m.a], d, dt);
                }
            }
        },
    }
    proof {
        assert(bodies@ =~= r1.0);
        assert(entity_set_contents(skx) =~= r1.1);
        assert forall|i: int| 0 <= i < bodies@.len() implies (#[trigger] bodies@[i]).wf() by {
            if i != m.a as int {
                assert(bodies@[i] == bs0[i]);
            }
        }
    }
    let ghost r2 = resolve_x_body_b(r1.0, r1.1, m, j as int, cbase as int, dt as int);
    let st_b = bodies[m.b].status;
    match st_b {
        Status::Static => {},
        Status::Dynamic => {
            apply_dynamic_x(&mut bodies[m.b], imp, corrn, true);
        },
        Status::Semikinematic => {
            if !skx.contains(m.b as u64) {
                if !m.b_cx {
                    let _was_new = skx.insert(m.b as u64);
                    let d = if m.n_x < 0 { -m.p_x } else { m.p_x };
                    proof {
                        lemma_sign_mul(m.n_x as int, m.p_x as int);
                    }
                    apply_semi_x(&mut bodies[m.b], d, dt);
                }
            }
        },
    }
    proof {
        assert(bodies@ =~= r2.0);
        assert(entity_set_contents(skx) =~= r2.1);
        assert forall|i: int| 0 <= i < bodies@.len() implies (#[trigger] bodies@[i]).wf() by {
            if i != m.b as int {
                assert(bodies@[i] == r1.0[i]);
            }
        }
    }
}

} // verus!

verus! {

/// Resolve one solid manifold's y axis against the body store.
fn resolve_axis_y(bodies: &mut Vec<RigidBody>, sky: &mut EntitySet, m: Manifold, dt: i64)
    requires
        (m.a as int) < old(bodies)@.len(),
        (m.b as int) < old(bodies)@.len(),
        m.a != m.b,
        0 <= m.p_y <= 2 * LIMIT,
        m.n_y == 1 || m.n_y == -1,
        0 <= dt <= 3_600_000,
        forall|i: int| 0 <= i < old(bodies)@.len() ==> (#[trigger] old(bodies)@[i]).wf(),
    ensures
        final(bodies)@ == resolve_step_y(old(bodies)@, entity_set_contents(old(sky)), m, dt as int).0,
        entity_set_contents(final(sky)) == resolve_step_y(old(bodies)@, entity_set_contents(old(sky)), m, dt as int).1,
        final(bodies)@.len() == old(bodies)@.len(),
        forall|i: int| 0 <= i < final(bodies)@.len() ==> (#[trigger] final(bodies)@[i]).wf(),
{
    let ghost bs0 = bodies@;
    let ghost set0 = entity_set_contents(sky);
    let a_vy = bodies[m.a].velocity.y;
    let b_vy = bodies[m.b].velocity.y;
    let a_rest = bodies[m.a].restitution;
    let b_rest = bodies[m.b].restitution;
    let a_im = bodies[m.a].inv_mass;
    let b_im = bodies[m.b].inv_mass;
    let rv = b_vy - a_vy;
    let e = if a_rest <= b_rest { a_rest } else { b_rest };
    let ims = a_im + b_im;
    let j: i64 = if ims == 0 {
        0
    } else {
        let kf = 1000 + e;
        proof {
            assert(iabs(kf as int) * iabs(rv as int) <= i64::MAX) by (nonlinear_arith)
                requires 0 <= kf <= 2000 && iabs(rv as int) <= 2 * (LIMIT as int);
        }
        -crate::fixed::mul_div_t(kf, rv, ims)
    };
    let cbase: i64 = if ims == 0 {
        0
    } else {
        let pm = if m.p_y > 10 { m.p_y - 10 } else { 0 };
        proof {
            assert(iabs(pm as int) * iabs(200int) <= i64::MAX) by (nonlinear_arith)
                requires 0 <= pm <= 2 * (LIMIT as int);
        }
        crate::fixed::mul_div_t(pm, 200, ims)
    };
    proof {
        assert(j == impulse_j(bs0[m.a as int], bs0[m.b as int], rv as int));
        assert(cbase == correction_c(bs0[m.a as int], bs0[m.b as int], m.p_y as int));
    }
    let imp = j;
    let corrn = if m.n_y < 0 { -cbase } else { cbase };
    proof {
        lemma_sign_mul(m.n_y as int, cbase as int);
        assert(corrn == (m.n_y as int) * (cbase as int));
    }
    let ghost r1 = resolve_y_body_a(bs0, set0, m, j as int, cbase as int, dt as int);
    let st_a = bodies[m.a].status;
    match st_a {
        Status::Static => {},
        Status::Dynamic => {
            apply_dynamic_y(&mut bodies[m.a], imp, corrn, false);
        },
        Status::Semikinematic => {
            if !sky.contains(m.a as u64) {
                if !m.a_cy {
                    let _was_new = sky.insert(m.a as u64);
                    let d = if m.n_y < 0 { m.p_y } else { -m.p_y };
                    proof {
                        lemma_sign_mul(-(m.n_y as int), m.p_y as int);
                    }
                    apply_semi_y(&mut bodies[m.a], d, dt);
                }
            }
        },
    }
    proof {
        assert(bodies@ =~= r1.0);
        assert(entity_set_contents(sky) =~= r1.1);
        assert forall|i: int| 0 <= i < bodies@.len() implies (#[trigger] bodies@[i]).wf() by {
            if i != m.a as int {
                assert(bodies@[i] == bs0[i]);
            }
        }
    }
    let ghost r2 = resolve_y_body_b(r1.0, r1.1, m, j as int, cbase as int, dt as int);
    let st_b = bodies[m.b].status;
    match st_b {
        Status::Static => {},
        Status::Dynamic => {
            apply_dynamic_y(&mut bodies[m.b], imp, corrn, true);
        },
        Status::Semikinematic => {
            if !sky.contains(m.b as u64) {
                if !m.b_cy {
                    let _was_new = sky.insert(m.b as u64);
                    let d = if m.n_y < 0 { -m.p_y } else { m.p_y };
                    proof {
                        lemma_sign_mul(m.n_y as int, m.p_y as int);
                    }
                    apply_semi_y(&mut bodies[m.b], d, dt);
                }
            }
        },
    }
    proof {
        assert(bodies@ =~= r2.0);
        assert(entity_set_contents(sky) =~= r2.1);
        assert forall|i: int| 0 <= i < bodies@.len() implies (#[trigger] bodies@[i]).wf() by {
            if i != m.b as int {
                assert(bodies@[i] == r1.0[i]);
            }
        }
    }
}

} // verus!

verus! {

/// Resolve one manifold: route sensor contacts to the event queue, resolve
/// solid ones fully on x and then fully on y.
fn resolve_manifold(
    bodies: &mut Vec<RigidBody>,
    skx: &mut EntitySet,
    sky: &mut EntitySet,
    events: &mut Vec<Manifold>,
    m: Manifold,
    dt: i64,
)
    requires
        (m.a as int) < old(bodies)@.len(),
        (m.b as int) < old(bodies)@.len(),
        m.a != m.b,
        0 <= m.p_x <= 2 * LIMIT,
        0 <= m.p_y <= 2 * LIMIT,
        m.n_x == 1 || m.n_x == -1,
        m.n_y == 1 || m.n_y == -1,
        0 <= dt <= 3_600_000,
        forall|i: int| 0 <= i < old(bodies)@.len() ==> (#[trigger] old(bodies)@[i]).wf(),
    ensures
        ({
            let r = resolve_step(
                old(bodies)@,
                entity_set_contents(old(skx)),
                entity_set_contents(old(sky)),
                old(events)@,
                m,
                dt as int,
            );
            &&& final(bodies)@ == r.0
            &&& entity_set_contents(final(skx)) == r.1
            &&& entity_set_contents(final(sky)) == r.2
            &&& final(events)@ == r.3
        }),
        final(bodies)@.len() == old(bodies)@.len(),
        forall|i: int| 0 <= i < final(bodies)@.len() ==> (#[trigger] final(bodies)@[i]).wf(),
{
    let a_sensor = bodies[m.a].sensor;
    let b_sensor = bodies[m.b].sensor;
    if a_sensor || b_sensor {
        events.push(m);
    } else {
        resolve_axis_x(bodies, skx, m, dt);
        resolve_axis_y(bodies, sky, m, dt);
    }
}

} // verus!

verus! {

/// Clamped bounds stay ordered and in range.
proof fn lemma_aabb_of_wf(pos: Vec2, rot: Rot, s: Shape)
    requires
        pos.wf(),
        s.wf(),
    ensures
        RigidBody::aabb_of(pos, rot, s).wf(),
{
}

/// Every box a well-formed body produces is well formed.
proof fn lemma_aabbs_spec_wf(b: RigidBody)
    requires
        b.wf(),
    ensures
        forall|i: int| 0 <= i < b.aabbs_spec().len() ==> (#[trigger] b.aabbs_spec()[i]).wf(),
{
    assert forall|i: int| 0 <= i < b.aabbs_spec().len() implies (#[trigger] b.aabbs_spec()[i]).wf() by {
        lemma_aabb_of_wf(b.position, b.rotation, b.shape@[i]);
    }
}

/// Row-major pairing of well-formed boxes yields well-formed pairs.
proof fn lemma_pair_seq_wf(aa: Seq<Aabb>, bb: Seq<Aabb>)
    requires
        forall|i: int| 0 <= i < aa.len() ==> (#[trigger] aa[i]).wf(),
        forall|i: int| 0 <= i < bb.len() ==> (#[trigger] bb[i]).wf(),
    ensures
        forall|k: int| 0 <= k < pair_seq(aa, bb).len()
            ==> (#[trigger] pair_seq(aa, bb)[k]).0.wf() && pair_seq(aa, bb)[k].1.wf(),
{
    assert forall|k: int| 0 <= k < pair_seq(aa, bb).len()
        implies (#[trigger] pair_seq(aa, bb)[k]).0.wf() && pair_seq(aa, bb)[k].1.wf() by {
        let lb = bb.len() as int;
        assert(lb > 0) by {
            if lb == 0 {
                assert(aa.len() * 0 == 0) by (nonlinear_arith);
            }
        }
        assert(0 <= k % lb < lb) by (nonlinear_arith)
            requires lb > 0;
        assert(0 <= k / lb < aa.len() as int) by (nonlinear_arith)
            requires lb > 0, 0 <= k, k < aa.len() * lb;
    }
}

/// Every manifold of a collision between two well-formed bodies names those
/// bodies and carries in-range penetrations and sign normals.
proof fn lemma_collide_spec_ok(e1: usize, e2: usize, b1: RigidBody, b2: RigidBody)
    requires
        b1.wf(),
        b2.wf(),
    ensures
        forall|t: int| 0 <= t < collide_spec(e1, e2, b1, b2).len()
            ==> manifold_wf(#[trigger] collide_spec(e1, e2, b1, b2)[t], e1, e2),
{
    lemma_aabbs_spec_wf(b1);
    lemma_aabbs_spec_wf(b2);
    lemma_pair_seq_wf(b1.aabbs_spec(), b2.aabbs_spec());
    let pairs = pair_seq(b1.aabbs_spec(), b2.aabbs_spec());
    lemma_manifolds_upto_wf(e1, e2, pairs, pairs.len() as int);
}

/// The manifolds of one ordered body pair, when both bodies are active and
/// at least one of them can move.
pub open spec fn pair_manifolds(bs: Seq<RigidBody>, i: int, j: int) -> Seq<Manifold> {
    if bs[i].active && bs[j].active
        && !(bs[i].status == Status::Static && bs[j].status == Status::Static) {
        collide_spec(i as usize, j as usize, bs[i], bs[j])
    } else {
        Seq::empty()
    }
}

/// The manifolds of body `i` against bodies `i+1 .. j`.
pub open spec fn row_manifolds(bs: Seq<RigidBody>, i: int, j: int) -> Seq<Manifold>
    decreases j - i,
{
    if j <= i + 1 {
        Seq::empty()
    } else {
        row_manifolds(bs, i, j - 1) + pair_manifolds(bs, i, j - 1)
    }
}

/// The manifolds of all ordered pairs drawn from the first `i` bodies and
/// their successors.
pub open spec fn rows_upto(bs: Seq<RigidBody>, i: int) -> Seq<Manifold>
    decreases i,
{
    if i <= 0 {
        Seq::empty()
    } else {
        rows_upto(bs, i - 1) + row_manifolds(bs, i - 1, bs.len() as int)
    }
}

/// The broad/narrow phase over the whole store: every ordered pair of active
/// bodies, at least one non-static, in storage order.
pub open spec fn all_manifolds(bs: Seq<RigidBody>) -> Seq<Manifold> {
    rows_upto(bs, bs.len() as int)
}

/// What holds of every manifold a collision pass puts in the list.
pub open spec fn manifold_ok(m: Manifold, bs: Seq<RigidBody>) -> bool {
    &&& (m.a as int) < (m.b as int) < bs.len()
    &&& bs[m.a as int].active
    &&& bs[m.b as int].active
    &&& 0 <= m.p_x <= 2 * LIMIT
    &&& 0 <= m.p_y <= 2 * LIMIT
    &&& (m.n_x == 1 || m.n_x == -1)
    &&& (m.n_y == 1 || m.n_y == -1)
}

/// Collect the manifolds of every ordered pair of bodies.
fn collect_pass(bodies: &Vec<RigidBody>) -> (r: Vec<Manifold>)
    requires
        forall|i: int| 0 <= i < bodies@.len() ==> (#[trigger] bodies@[i]).wf(),
    ensures
        r@ == all_manifolds(bodies@),
        forall|k: int| 0 <= k < r@.len() ==> manifold_ok(#[trigger] r@[k], bodies@),
{
    let n = bodies.len();
    let mut out: Vec<Manifold> = Vec::new();
    let mut i: usize = 0;
    while i < n
        invariant
            i <= n,
            n == bodies@.len(),
            forall|t: int| 0 <= t < n ==> (#[trigger] bodies@[t]).wf(),
            out@ == rows_upto(bodies@, i as int),
            forall|k: int| 0 <= k < out@.len() ==> manifold_ok(#[trigger] out@[k], bodies@),
        decreases n - i,
    {
        let mut jj: usize = i + 1;
        while jj < n
            invariant
                i < n,
                i + 1 <= jj <= n,
                n == bodies@.len(),
                forall|t: int| 0 <= t < n ==> (#[trigger] bodies@[t]).wf(),
                out@ == rows_upto(bodies@, i as int) + row_manifolds(bodies@, i as int, jj as int),
                forall|k: int| 0 <= k < out@.len() ==> manifold_ok(#[trigger] out@[k], bodies@),
            decreases n - jj,
        {
            if bodies[i].active && bodies[jj].active {
                let s1 = bodies[i].status;
                let s2 = bodies[jj].status;
                if !(s1 == Status::Static && s2 == Status::Static) {
                    let mut ms = collide(i, jj, &bodies[i], &bodies[jj]);
                    proof {
                        lemma_collide_spec_ok(i, jj, bodies@[i as int], bodies@[jj as int]);
                    }
                    out.append(&mut ms);
                }
            }
            jj = jj + 1;
            proof {
                assert(out@ =~= rows_upto(bodies@, i as int)
                    + row_manifolds(bodies@, i as int, jj as int));
            }
        }
        i = i + 1;
        proof {
            assert(out@ =~= rows_upto(bodies@, i as int));
        }
    }
    proof {
        assert(out@ =~= all_manifolds(bodies@));
    }
    out
}

/// One body at the end of a tick: forces folded into the velocity, friction
/// applied, the force accumulator cleared.  Inactive bodies are untouched.
pub open spec fn finish_body(b: RigidBody, dt: int, f: int) -> RigidBody {
    if !b.active {
        b
    } else {
        let vx1 = clip(b.velocity.x + div_t(b.accumulator.x * dt, 1000));
        let vy1 = clip(b.velocity.y + div_t(b.accumulator.y * dt, 1000));
        RigidBody {
            velocity: Vec2 {
                x: clip(div_t(vx1 * f, 1000)) as i64,
                y: clip(div_t(vy1 * f, 1000)) as i64,
            },
            accumulator: Vec2 { x: 0, y: 0 },
            ..b
        }
    }
}

pub open spec fn finish_all(bs: Seq<RigidBody>, dt: int, f: int) -> Seq<RigidBody> {
    Seq::new(bs.len(), |i: int| finish_body(bs[i], dt, f))
}

/// Fold forces and friction into every active body's velocity.
fn finish_pass(bodies: &mut Vec<RigidBody>, dt: i64, f: i64)
    requires
        forall|i: int| 0 <= i < old(bodies)@.len() ==> (#[trigger] old(bodies)@[i]).wf(),
        0 <= dt <= 3_600_000,
        0 <= f <= 1000,
    ensures
        final(bodies)@ == finish_all(old(bodies)@, dt as int, f as int),
        forall|i: int| 0 <= i < final(bodies)@.len() ==> (#[trigger] final(bodies)@[i]).wf(),
{
    let n = bodies.len();
    let mut i: usize = 0;
    while i < n
        invariant
            i <= n,
            n == bodies@.len(),
            bodies@.len() == old(bodies)@.len(),
            forall|k: int| 0 <= k < n ==> (#[trigger] bodies@[k]).wf(),
            forall|k: int| 0 <= k < i ==> bodies@[k] == finish_all(old(bodies)@, dt as int, f as int)[k],
            forall|k: int| i <= k < n ==> bodies@[k] == old(bodies)@[k],
            0 <= dt <= 3_600_000,
            0 <= f <= 1000,
        decreases n - i,
    {
        if bodies[i].active {
            let vx1 = integrate_axis(bodies[i].velocity.x, bodies[i].accumulator.x, dt);
            let vy1 = integrate_axis(bodies[i].velocity.y, bodies[i].accumulator.y, dt);
            let vx2 = crate::fixed::mul_div_clip(vx1, f, 1000);
            let vy2 = crate::fixed::mul_div_clip(vy1, f, 1000);
            let b = &mut bodies[i];
            b.velocity = Vec2 { x: vx2, y: vy2 };
            b.accumulator = Vec2 { x: 0, y: 0 };
        }
        i = i + 1;
    }
    proof {
        assert(bodies@ =~= finish_all(old(bodies)@, dt as int, f as int));
    }
}

/// One whole simulation tick over the body store: integration, the collision
/// pass, in-order manifold resolution with per-axis dedup sets, then force
/// and friction bookkeeping.  The second component is the event queue after
/// the tick: the queue as it was, extended by every sensor manifold.
pub open spec fn tick_spec(bs: Seq<RigidBody>, ev0: Seq<Manifold>, dt: int, f: int)
    -> (Seq<RigidBody>, Seq<Manifold>) {
    let mid = integrate_all(bs, dt);
    let ms = all_manifolds(mid);
    let r = resolve_upto(mid, Set::empty(), Set::empty(), ev0, ms, dt, ms.len() as int);
    (finish_all(r.0, dt, f), r.3)
}

/// A step of resolution never touches a body that is in neither slot of the
/// manifold.
proof fn lemma_resolve_step_frame(
    bs: Seq<RigidBody>,
    skx: Set<u64>,
    sky: Set<u64>,
    ev: Seq<Manifold>,
    m: Manifold,
    dt: int,
    t: int,
)
    requires
        0 <= t < bs.len(),
        (m.a as int) < bs.len(),
        (m.b as int) < bs.len(),
        t != m.a as int,
        t != m.b as int,
    ensures
        resolve_step(bs, skx, sky, ev, m, dt).0.len() == bs.len(),
        resolve_step(bs, skx, sky, ev, m, dt).0[t] == bs[t],
{
    let a = bs[m.a as int];
    let b = bs[m.b as int];
    if !(a.sensor || b.sensor) {
        let rvx = b.velocity.x - a.velocity.x;
        let jx = impulse_j(a, b, rvx);
        let cx = correction_c(a, b, m.p_x as int);
        let r1 = resolve_x_body_a(bs, skx, m, jx, cx, dt);
        assert(r1.0.len() == bs.len() && r1.0[t] == bs[t]);
        let rx = resolve_x_body_b(r1.0, r1.1, m, jx, cx, dt);
        assert(rx.0.len() == bs.len() && rx.0[t] == bs[t]);
        assert(rx == resolve_step_x(bs, skx, m, dt));
        let a2 = rx.0[m.a as int];
        let b2 = rx.0[m.b as int];
        let rvy = b2.velocity.y - a2.velocity.y;
        let jy = impulse_j(a2, b2, rvy);
        let cy = correction_c(a2, b2, m.p_y as int);
        let r3 = resolve_y_body_a(rx.0, sky, m, jy, cy, dt);
        assert(r3.0.len() == bs.len() && r3.0[t] == bs[t]);
        let ry = resolve_y_body_b(r3.0, r3.1, m, jy, cy, dt);
        assert(ry.0.len() == bs.len() && ry.0[t] == bs[t]);
        assert(ry == resolve_step_y(rx.0, sky, m, dt));
    }
}

/// LAW: a body that is inactive when the tick begins is never moved by
/// resolution, because manifolds only arise between active bodies.
proof fn lemma_resolve_upto_untouched(
    bs: Seq<RigidBody>,
    skx: Set<u64>,
    sky: Set<u64>,
    ev: Seq<Manifold>,
    ms: Seq<Manifold>,
    dt: int,
    k: int,
    t: int,
)
    requires
        forall|u: int| 0 <= u < ms.len() ==> manifold_ok(#[trigger] ms[u], bs),
        0 <= t < bs.len(),
        !bs[t].active,
        0 <= k <= ms.len(),
    ensures
        resolve_upto(bs, skx, sky, ev, ms, dt, k).0.len() == bs.len(),
        resolve_upto(bs, skx, sky, ev, ms, dt, k).0[t] == bs[t],
    decreases k,
{
    if k > 0 {
        lemma_resolve_upto_untouched(bs, skx, sky, ev, ms, dt, k - 1, t);
        let r = resolve_upto(bs, skx, sky, ev, ms, dt, k - 1);
        lemma_resolve_step_frame(r.0, r.1, r.2, r.3, ms[k - 1], dt, t);
    }
}

/// Run one simulation tick.  Every active body is advanced by its velocity,
/// all overlapping active pairs are detected, solid manifolds are resolved in
/// order (x axis fully, then y) and sensor manifolds are appended to
/// `events`, then forces and friction are folded into the velocities.
/// Inactive bodies come out exactly as they went in.
pub fn physics_system(dt: i64, friction: &Friction, events: &mut Vec<Manifold>, bodies: &mut Vec<RigidBody>)
    requires
        forall|i: int| 0 <= i < old(bodies)@.len() ==> (#[trigger] old(bodies)@[i]).wf(),
        0 <= dt <= 3_600_000,
        0 <= friction.0 <= 1000,
    ensures
        final(bodies)@ == tick_spec(old(bodies)@, old(events)@, dt as int, friction.0 as int).0,
        final(events)@ == tick_spec(old(bodies)@, old(events)@, dt as int, friction.0 as int).1,
        final(bodies)@.len() == old(bodies)@.len(),
        forall|i: int| 0 <= i < final(bodies)@.len() ==> (#[trigger] final(bodies)@[i]).wf(),
        forall|i: int| 0 <= i < old(bodies)@.len() && !(#[trigger] old(bodies)@[i]).active
            ==> final(bodies)@[i] == old(bodies)@[i],
{
    let ghost ev0 = events@;
    integrate_pass(bodies, dt);
    let ghost mid = bodies@;
    let manifolds = collect_pass(bodies);
    let ghost ms = manifolds@;
    let mut skx = EntitySet::new();
    let mut sky = EntitySet::new();
    let n = manifolds.len();
    let mut k: usize = 0;
    while k < n
        invariant
            k <= n,
            n == ms.len(),
            ms == manifolds@,
            forall|u: int| 0 <= u < ms.len() ==> manifold_ok(#[trigger] ms[u], mid),
            mid.len() == bodies@.len(),
            0 <= dt <= 3_600_000,
            ({
                let r = resolve_upto(mid, Set::empty(), Set::empty(), ev0, ms, dt as int, k as int);
                &&& bodies@ == r.0
                &&& entity_set_contents(&skx) == r.1
                &&& entity_set_contents(&sky) == r.2
                &&& events@ == r.3
            }),
            forall|i: int| 0 <= i < bodies@.len() ==> (#[trigger] bodies@[i]).wf(),
        decreases n - k,
    {
        let m = manifolds[k];
        resolve_manifold(bodies, &mut skx, &mut sky, events, m, dt);
        k = k + 1;
    }
    let ghost f = friction.0 as int;
    finish_pass(bodies, dt, friction.0);
    proof {
        assert forall|i: int| 0 <= i < old(bodies)@.len() && !(#[trigger] old(bodies)@[i]).active
            implies bodies@[i] == old(bodies)@[i] by {
            assert(mid[i] == old(bodies)@[i]);
            lemma_resolve_upto_untouched(
                mid, Set::empty(), Set::empty(), ev0, ms, dt as int, ms.len() as int, i,
            );
        }
    }
}

} // verus!

verus! {

/// One joint applied: the follower takes the owner's transform, offset
/// rotated into the owner's frame and angle composed onto its rotation.
pub open spec fn apply_joint(bs: Seq<RigidBody>, j: Joint) -> Seq<RigidBody> {
    if (j.body1 as int) < bs.len() && (j.body2 as int) < bs.len() {
        let b1 = bs[j.body1 as int];
        let b2 = bs[j.body2 as int];
        let rx = b1.rotation.rot_x(j.offset.x as int, j.offset.y as int);
        let ry = b1.rotation.rot_y(j.offset.x as int, j.offset.y as int);
        bs.update(j.body2 as int, RigidBody {
            position: Vec2 {
                x: clip(b1.position.x + rx) as i64,
                y: clip(b1.position.y + ry) as i64,
            },
            rotation: b1.rotation.plus(j.angle),
            ..b2
        })
    } else {
        bs
    }
}

/// The first `k` joints applied in order.
pub open spec fn joints_upto(joints: Seq<Joint>, bs: Seq<RigidBody>, k: int) -> Seq<RigidBody>
    decreases k,
{
    if k <= 0 {
        bs
    } else {
        apply_joint(joints_upto(joints, bs, k - 1), joints[k - 1])
    }
}

/// Re-slave every joint's follower to its owner, in joint order.
pub fn joints_system(joints: &Vec<Joint>, bodies: &mut Vec<RigidBody>)
    requires
        forall|i: int| 0 <= i < old(bodies)@.len() ==> (#[trigger] old(bodies)@[i]).wf(),
        forall|k: int| 0 <= k < joints@.len() ==> {
            &&& (#[trigger] joints@[k]).body1 < old(bodies)@.len()
            &&& joints@[k].body2 < old(bodies)@.len()
            &&& joints@[k].offset.wf()
        },
    ensures
        final(bodies)@ == joints_upto(joints@, old(bodies)@, joints@.len() as int),
        final(bodies)@.len() == old(bodies)@.len(),
        forall|i: int| 0 <= i < final(bodies)@.len() ==> (#[trigger] final(bodies)@[i]).wf(),
{
    let n = joints.len();
    let mut k: usize = 0;
    while k < n
        invariant
            k <= n,
            n == joints@.len(),
            bodies@.len() == old(bodies)@.len(),
            forall|t: int| 0 <= t < joints@.len() ==> {
                &&& (#[trigger] joints@[t]).body1 < old(bodies)@.len()
                &&& joints@[t].body2 < old(bodies)@.len()
                &&& joints@[t].offset.wf()
            },
            bodies@ == joints_upto(joints@, old(bodies)@, k as int),
            forall|i: int| 0 <= i < bodies@.len() ==> (#[trigger] bodies@[i]).wf(),
        decreases n - k,
    {
        let jt = joints[k];
        let ghost before = bodies@;
        let b1pos = bodies[jt.body1].position;
        let b1rot = bodies[jt.body1].rotation;
        let rotoff = b1rot.rotate(jt.offset);
        let px = crate::fixed::cadd(b1pos.x, rotoff.x);
        let py = crate::fixed::cadd(b1pos.y, rotoff.y);
        let newrot = b1rot.compose(jt.angle);
        let b2 = &mut bodies[jt.body2];
        b2.position = Vec2 { x: px, y: py };
        b2.rotation = newrot;
        k = k + 1;
        proof {
            assert(bodies@ =~= joints_upto(joints@, old(bodies)@, k as int));
            assert forall|i: int| 0 <= i < bodies@.len() implies (#[trigger] bodies@[i]).wf() by {
                if i != jt.body2 as int {
                    assert(bodies@[i] == before[i]);
                }
            }
        }
    }
}

} // verus!

verus! {

/// LAW (dedup): the first semikinematic snap on an axis marks the body, and
/// once the body is marked, any further resolution on that axis within the
/// same tick leaves both the store and the mark set unchanged, whatever the
/// later manifold's data.
pub proof fn lemma_semikinematic_dedup_x(
    bs: Seq<RigidBody>,
    skx: Set<u64>,
    m1: Manifold,
    j1: int,
    c1: int,
    m2: Manifold,
    j2: int,
    c2: int,
    dt: int,
)
    requires
        m1.a == m2.a,
        (m1.a as int) < bs.len(),
        bs[m1.a as int].status == Status::Semikinematic,
    ensures
        ({
            let r1 = resolve_x_body_a(bs, skx, m1, j1, c1, dt);
            let r2 = resolve_x_body_a(r1.0, r1.1, m2, j2, c2, dt);
            &&& (!skx.contains(m1.a as u64) && !m1.a_cx) ==> r1.1.contains(m1.a as u64)
            &&& r1.1.contains(m1.a as u64) ==> r2 == r1
        }),
{
    let r1 = resolve_x_body_a(bs, skx, m1, j1, c1, dt);
    assert(r1.0.len() == bs.len());
    if r1.1.contains(m1.a as u64) {
        assert(r1.0[m1.a as int].status == Status::Semikinematic);
    }
}

/// LAW (dedup), y axis: as on x.
pub proof fn lemma_semikinematic_dedup_y(
    bs: Seq<RigidBody>,
    sky: Set<u64>,
    m1: Manifold,
    j1: int,
    c1: int,
    m2: Manifold,
    j2: int,
    c2: int,
    dt: int,
)
    requires
        m1.a == m2.a,
        (m1.a as int) < bs.len(),
        bs[m1.a as int].status == Status::Semikinematic,
    ensures
        ({
            let r1 = resolve_y_body_a(bs, sky, m1, j1, c1, dt);
            let r2 = resolve_y_body_a(r1.0, r1.1, m2, j2, c2, dt);
            &&& (!sky.contains(m1.a as u64) && !m1.a_cy) ==> r1.1.contains(m1.a as u64)
            &&& r1.1.contains(m1.a as u64) ==> r2 == r1
        }),
{
    let r1 = resolve_y_body_a(bs, sky, m1, j1, c1, dt);
    assert(r1.0.len() == bs.len());
    if r1.1.contains(m1.a as u64) {
        assert(r1.0[m1.a as int].status == Status::Semikinematic);
    }
}

/// LAW (no tunnelling, no push-along): a semikinematic snap never moves the
/// body further than its own displacement this tick, and never in the
/// direction of its velocity.
pub proof fn lemma_semi_snap_bounded_x(c: RigidBody, d: int, dt: int)
    requires
        iabs(c.position.x as int) <= (LIMIT as int) / 2,
        iabs(d) <= (LIMIT as int) / 2,
        iabs(div_t(c.velocity.x as int * dt, 1000)) <= (LIMIT as int) / 2,
    ensures
        ({
            let v = div_t(c.velocity.x as int * dt, 1000);
            let r = semi_snap_x(c, d, dt);
            &&& iabs(r.position.x - c.position.x) <= iabs(v)
            &&& (r.position.x - c.position.x) * sign(v) <= 0
        }),
{
    let v = div_t(c.velocity.x as int * dt, 1000);
    let r = semi_snap_x(c, d, dt);
    if sign(v) != sign(d) && iabs(d) < iabs(v) {
        assert(r.position.x == c.position.x + d);
        lemma_sign_mul(sign(v), d);
    } else {
        assert(r.position.x == c.position.x - v);
        lemma_sign_mul(sign(v), -v);
    }
}

} // verus!

verus! {

/// LAW (momentum): when two dynamic bodies of equal inverse mass and zero
/// restitution meet head on, resolving the x axis conserves the sum of their
/// velocities exactly, never leaves them approaching faster than before,
/// never turns the approach into an overshoot, and cancels the approach
/// speed up to integer rounding: exact arithmetic would bring the relative
/// velocity along the normal to exactly zero.
pub proof fn lemma_head_on_momentum_x(bs: Seq<RigidBody>, skx: Set<u64>, m: Manifold, dt: int)
    requires
        (m.a as int) < bs.len(),
        (m.b as int) < bs.len(),
        m.a != m.b,
        m.n_x == 1 || m.n_x == -1,
        ({
            let a = bs[m.a as int];
            let b = bs[m.b as int];
            &&& a.status == Status::Dynamic
            &&& b.status == Status::Dynamic
            &&& a.inv_mass == b.inv_mass
            &&& 1 <= a.inv_mass <= 1_000_000
            &&& a.restitution == 0
            &&& b.restitution == 0
            &&& iabs(a.velocity.x as int) <= (LIMIT as int) / 2
            &&& iabs(b.velocity.x as int) <= (LIMIT as int) / 2
            &&& (b.velocity.x - a.velocity.x) * m.n_x < 0
        }),
    ensures
        ({
            let r = resolve_step_x(bs, skx, m, dt);
            let a = bs[m.a as int];
            let b = bs[m.b as int];
            let a2 = r.0[m.a as int];
            let b2 = r.0[m.b as int];
            let im = a.inv_mass as int;
            &&& a2.velocity.x + b2.velocity.x == a.velocity.x + b.velocity.x
            &&& (b2.velocity.x - a2.velocity.x) * m.n_x <= 0
            &&& (b.velocity.x - a.velocity.x) * m.n_x <= (b2.velocity.x - a2.velocity.x) * m.n_x
            &&& (b2.velocity.x - a2.velocity.x) * m.n_x >= -(2 * (im / 1000) + 4)
        }),
{
    let a = bs[m.a as int];
    let b = bs[m.b as int];
    let im = a.inv_mass as int;
    let n = m.n_x as int;
    let u = b.velocity.x - a.velocity.x;
    lemma_sign_mul(n, u);
    let j = impulse_j(a, b, u);
    assert(j == -div_t(1000 * u, 2 * im));
    let w = iabs(u);
    assert(w <= LIMIT);
    crate::fixed::lemma_half_truncated(w, im);
    let q1 = (1000 * w) / (2 * im);
    let q2 = (q1 * im) / 1000;
    let tt = div_t(j * im, 1000);
    if u >= 0 {
        assert(j == -q1);
        assert(j * im == -(q1 * im)) by (nonlinear_arith)
            requires j == -q1;
        assert(tt == -q2);
    } else {
        assert(j == q1);
        assert(j * im == q1 * im) by (nonlinear_arith)
            requires j == q1;
        assert(tt == q2);
    }
    assert(0 <= q2 <= w);
    let r1 = resolve_x_body_a(bs, skx, m, j, correction_c(a, b, m.p_x as int), dt);
    let a2 = r1.0[m.a as int];
    assert(a2 == dynamic_x_sub(a, j, m.n_x * correction_c(a, b, m.p_x as int)));
    assert(clip(tt) == tt);
    assert(a2.velocity.x == a.velocity.x - tt);
    let r2 = resolve_x_body_b(r1.0, r1.1, m, j, correction_c(a, b, m.p_x as int), dt);
    assert(r1.0[m.b as int] == b);
    let b2 = r2.0[m.b as int];
    assert(b2.velocity.x == b.velocity.x + tt);
    assert(r2.0[m.a as int] == a2);
    assert(r2 == resolve_step_x(bs, skx, m, dt));
    let rv2 = b2.velocity.x - a2.velocity.x;
    assert(rv2 == u + 2 * tt);
    lemma_sign_mul(n, rv2 as int);
}

} // verus!

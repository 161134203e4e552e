use vstd::prelude::*;

use crate::fixed::{in_limit, Vec2, LIMIT, SCALE};

verus! {

/// Largest tick rate (ticks per second) a world may run at.
pub const MAX_TICK_RATE: i64 = 65536;

/// Mass of a dynamic particle, in raw units (`SCALE` is one unit).
#[derive(Clone, Copy, Debug, PartialEq, Eq, Structural)]
pub struct Mass(pub i64);

/// Restitution coefficient in raw units: `0` absorbs, `SCALE` is perfectly elastic.
#[derive(Clone, Copy, Debug, PartialEq, Eq, Structural)]
pub struct Restitution(pub i64);

#[derive(Clone, Copy, Debug, PartialEq, Eq, Structural)]
pub struct CircleCollider {
    pub radius: i64,
}

/// An axis-aligned box, given by its full width and height.
#[derive(Clone, Copy, Debug, PartialEq, Eq, Structural)]
pub struct BoxCollider {
    pub size: Vec2,
}

#[derive(Clone, Copy, Debug, PartialEq, Eq, Structural)]
pub enum Collider {
    Circle(CircleCollider),
    Box(BoxCollider),
}

/// One body of the simulation. Without a mass it is static and never moves.
#[derive(Clone, Copy, Debug, PartialEq, Eq, Structural)]
pub struct Particle {
    pub pos: Vec2,
    pub prev_pos: Vec2,
    pub vel: Vec2,
    pub pre_solve_vel: Vec2,
    pub mass: Option<Mass>,
    pub restitution: Restitution,
    pub collider: Collider,
}

/// Gravity in raw units per second squared.
#[derive(Clone, Copy, Debug, PartialEq, Eq, Structural)]
pub struct Gravity(pub Vec2);

/// A touching pair found by the position solver; `normal` points from `a` to `b`
/// and has length `SCALE` up to rounding.
#[derive(Clone, Copy, Debug, PartialEq, Eq, Structural)]
pub struct Contact {
    pub a: usize,
    pub b: usize,
    pub normal: Vec2,
}

/// Candidate pairs of dynamic circles from the broad phase, `a < b`.
pub struct CollisionPairs(pub Vec<(usize, usize)>);

/// Contacts between two dynamic circles.
pub struct Contacts(pub Vec<Contact>);

/// Contacts between a dynamic circle (`a`) and a static body (`b`).
pub struct StaticContacts(pub Vec<Contact>);

impl Default for Mass {
    /// One unit of mass.
    fn default() -> (r: Self)
        ensures
            r == Mass(SCALE),
    {
        Mass(SCALE)
    }
}

impl Default for Restitution {
    /// 0.3, rounded down to raw units.
    fn default() -> (r: Self)
        ensures
            r == Restitution(19660),
    {
        Restitution(19660)
    }
}

impl Default for CircleCollider {
    /// A radius of 25 units.
    fn default() -> (r: Self)
        ensures
            r.radius == 25 * SCALE,
    {
        CircleCollider { radius: 25 * SCALE }
    }
}

impl Default for BoxCollider {
    /// A 50 by 50 box.
    fn default() -> (r: Self)
        ensures
            r.size.x == 50 * SCALE && r.size.y == 50 * SCALE,
    {
        BoxCollider { size: Vec2 { x: 50 * SCALE, y: 50 * SCALE } }
    }
}

impl Default for Gravity {
    /// 9.81 units per second squared, downwards, rounded to raw units.
    fn default() -> (r: Self)
        ensures
            r.0.x == 0 && r.0.y == -642908,
    {
        Gravity(Vec2 { x: 0, y: -642908 })
    }
}

impl Particle {
    pub open spec fn is_dynamic(self) -> bool {
        self.mass is Some
    }

    pub open spec fn is_circle(self) -> bool {
        self.collider is Circle
    }

    pub open spec fn is_box(self) -> bool {
        self.collider is Box
    }

    pub open spec fn is_dynamic_circle(self) -> bool {
        self.is_dynamic() && self.is_circle()
    }

    pub open spec fn mass_value(self) -> int {
        match self.mass {
            Some(m) => m.0 as int,
            None => 0,
        }
    }

    pub open spec fn radius(self) -> int {
        match self.collider {
            Collider::Circle(c) => c.radius as int,
            Collider::Box(_) => 0,
        }
    }

    pub open spec fn box_size(self) -> Vec2 {
        match self.collider {
            Collider::Circle(_) => Vec2 { x: 0, y: 0 },
            Collider::Box(b) => b.size,
        }
    }

    pub open spec fn valid(self) -> bool {
        &&& self.pos.in_limit()
        &&& self.prev_pos.in_limit()
        &&& self.vel.in_limit()
        &&& self.pre_solve_vel.in_limit()
        &&& match self.mass {
            Some(m) => 1 <= m.0 <= LIMIT,
            None => true,
        }
        &&& 0 <= self.restitution.0 <= SCALE
        &&& match self.collider {
            Collider::Circle(c) => 0 <= c.radius <= LIMIT,
            Collider::Box(b) => 0 <= b.size.x <= LIMIT && 0 <= b.size.y <= LIMIT,
        }
    }

    /// Whether the particle may enter a world, as `valid` states.
    pub fn is_valid(&self) -> (r: bool)
        ensures
            r == self.valid(),
    {
        let vecs_ok = in_range(self.pos) && in_range(self.prev_pos) && in_range(self.vel) && in_range(
            self.pre_solve_vel,
        );
        let mass_ok = match self.mass {
            Some(m) => 1 <= m.0 && m.0 <= LIMIT,
            None => true,
        };
        let shape_ok = match self.collider {
            Collider::Circle(c) => 0 <= c.radius && c.radius <= LIMIT,
            Collider::Box(b) => 0 <= b.size.x && b.size.x <= LIMIT && 0 <= b.size.y && b.size.y <= LIMIT,
        };
        vecs_ok && mass_ok && 0 <= self.restitution.0 && self.restitution.0 <= SCALE && shape_ok
    }

    /// Same body: only position and velocity may differ.
    pub open spec fn same_body(self, other: Particle) -> bool {
        &&& self.mass == other.mass
        &&& self.restitution == other.restitution
        &&& self.collider == other.collider
    }

    /// A dynamic circle with the given state.
    pub fn dynamic_circle(pos: Vec2, vel: Vec2, mass: i64, radius: i64, restitution: i64) -> (r:
        Particle)
        ensures
            r.pos == pos && r.prev_pos == pos,
            r.vel == vel && r.pre_solve_vel == vel,
            r.mass == Some(Mass(mass)),
            r.restitution == Restitution(restitution),
            r.collider == Collider::Circle(CircleCollider { radius }),
    {
        Particle {
            pos,
            prev_pos: pos,
            vel,
            pre_solve_vel: vel,
            mass: Some(Mass(mass)),
            restitution: Restitution(restitution),
            collider: Collider::Circle(CircleCollider { radius }),
        }
    }

    /// A static circle at `pos`.
    pub fn static_circle(pos: Vec2, radius: i64, restitution: i64) -> (r: Particle)
        ensures
            r.pos == pos && r.prev_pos == pos,
            r.vel == (Vec2 { x: 0, y: 0 }) && r.pre_solve_vel == (Vec2 { x: 0, y: 0 }),
            r.mass is None,
            r.restitution == Restitution(restitution),
            r.collider == Collider::Circle(CircleCollider { radius }),
    {
        Particle {
            pos,
            prev_pos: pos,
            vel: Vec2::zero(),
            pre_solve_vel: Vec2::zero(),
            mass: None,
            restitution: Restitution(restitution),
            collider: Collider::Circle(CircleCollider { radius }),
        }
    }

    /// A static box centred at `pos` with full extents `size`.
    pub fn static_box(pos: Vec2, size: Vec2, restitution: i64) -> (r: Particle)
        ensures
            r.pos == pos && r.prev_pos == pos,
            r.vel == (Vec2 { x: 0, y: 0 }) && r.pre_solve_vel == (Vec2 { x: 0, y: 0 }),
            r.mass is None,
            r.restitution == Restitution(restitution),
            r.collider == Collider::Box(BoxCollider { size }),
    {
        Particle {
            pos,
            prev_pos: pos,
            vel: Vec2::zero(),
            pre_solve_vel: Vec2::zero(),
            mass: None,
            restitution: Restitution(restitution),
            collider: Collider::Box(BoxCollider { size }),
        }
    }
}

impl Contact {
    pub open spec fn normal_ok(self) -> bool {
        -SCALE <= self.normal.x <= SCALE && -SCALE <= self.normal.y <= SCALE
    }
}

fn in_range(v: Vec2) -> (r: bool)
    ensures
        r == v.in_limit(),
{
    -LIMIT <= v.x && v.x <= LIMIT && -LIMIT <= v.y && v.y <= LIMIT
}

/// Every particle is valid.
pub open spec fn all_valid(ps: Seq<Particle>) -> bool {
    forall|i: int| 0 <= i < ps.len() ==> (#[trigger] ps[i]).valid()
}

/// `new` holds the same bodies as `old`, and the static ones are untouched.
pub open spec fn keeps_statics(old: Seq<Particle>, new: Seq<Particle>) -> bool {
    &&& new.len() == old.len()
    &&& forall|i: int| 0 <= i < old.len() ==> (#[trigger] new[i]).same_body(old[i])
    &&& forall|i: int| 0 <= i < old.len() && !old[i].is_dynamic() ==> #[trigger] new[i] == old[i]
}

pub proof fn lemma_keeps_statics_trans(a: Seq<Particle>, b: Seq<Particle>, c: Seq<Particle>)
    requires
        keeps_statics(a, b),
        keeps_statics(b, c),
    ensures
        keeps_statics(a, c),
{
    assert forall|i: int| 0 <= i < a.len() implies (#[trigger] c[i]).same_body(a[i]) by {
        assert(c[i].same_body(b[i]) && b[i].same_body(a[i]));
    }
    assert forall|i: int| 0 <= i < a.len() && !a[i].is_dynamic() implies #[trigger] c[i] == a[i] by {
        assert(b[i] == a[i]);
        assert(!b[i].is_dynamic());
    }
}

/// Replacing a dynamic particle by a valid state of the same body keeps validity and
/// leaves the statics alone.
pub proof fn lemma_set_dynamic(orig: Seq<Particle>, cur: Seq<Particle>, i: int, q: Particle)
    requires
        keeps_statics(orig, cur),
        all_valid(cur),
        0 <= i < cur.len(),
        cur[i].is_dynamic(),
        q.same_body(cur[i]),
        q.valid(),
    ensures
        keeps_statics(orig, cur.update(i, q)),
        all_valid(cur.update(i, q)),
{
    let nw = cur.update(i, q);
    assert forall|j: int| 0 <= j < orig.len() implies (#[trigger] nw[j]).same_body(orig[j]) by {
        assert(cur[j].same_body(orig[j]));
    }
    assert forall|j: int| 0 <= j < orig.len() && !orig[j].is_dynamic() implies #[trigger] nw[j] == orig[j] by {
        assert(cur[j].same_body(orig[j]));
        assert(cur[j] == orig[j]);
    }
    assert forall|j: int| 0 <= j < nw.len() implies (#[trigger] nw[j]).valid() by {
        if j != i {
            assert(cur[j].valid());
        }
    }
}

/// A pair index that names two distinct dynamic circles.
pub open spec fn dynamic_pair_ok(ps: Seq<Particle>, a: int, b: int) -> bool {
    0 <= a < b < ps.len() && ps[a].is_dynamic_circle() && ps[b].is_dynamic_circle()
}

/// A contact of a dynamic circle `a` against a static body `b`.
pub open spec fn static_pair_ok(ps: Seq<Particle>, a: int, b: int) -> bool {
    0 <= a < ps.len() && 0 <= b < ps.len() && ps[a].is_dynamic_circle() && !ps[b].is_dynamic()
}

pub open spec fn pairs_ok(ps: Seq<Particle>, pairs: Seq<(usize, usize)>) -> bool {
    forall|k: int|
        0 <= k < pairs.len() ==> dynamic_pair_ok(ps, (#[trigger] pairs[k]).0 as int, pairs[k].1 as int)
}

pub open spec fn contacts_ok(ps: Seq<Particle>, cs: Seq<Contact>) -> bool {
    forall|k: int|
        0 <= k < cs.len() ==> dynamic_pair_ok(ps, (#[trigger] cs[k]).a as int, cs[k].b as int)
            && cs[k].normal_ok()
}

pub open spec fn static_contacts_ok(ps: Seq<Particle>, cs: Seq<Contact>) -> bool {
    forall|k: int|
        0 <= k < cs.len() ==> static_pair_ok(ps, (#[trigger] cs[k]).a as int, cs[k].b as int)
            && cs[k].normal_ok()
}

pub proof fn lemma_refs_kept(old: Seq<Particle>, new: Seq<Particle>, pairs: Seq<(usize, usize)>, cs: Seq<Contact>, scs: Seq<Contact>)
    requires
        keeps_statics(old, new),
        pairs_ok(old, pairs),
        contacts_ok(old, cs),
        static_contacts_ok(old, scs),
    ensures
        pairs_ok(new, pairs),
        contacts_ok(new, cs),
        static_contacts_ok(new, scs),
{
    assert forall|k: int| 0 <= k < pairs.len() implies dynamic_pair_ok(new, (#[trigger] pairs[k]).0 as int, pairs[k].1 as int) by {
        assert(new[pairs[k].0 as int].same_body(old[pairs[k].0 as int]));
        assert(new[pairs[k].1 as int].same_body(old[pairs[k].1 as int]));
    }
    assert forall|k: int| 0 <= k < cs.len() implies dynamic_pair_ok(new, (#[trigger] cs[k]).a as int, cs[k].b as int) && cs[k].normal_ok() by {
        assert(new[cs[k].a as int].same_body(old[cs[k].a as int]));
        assert(new[cs[k].b as int].same_body(old[cs[k].b as int]));
    }
    assert forall|k: int| 0 <= k < scs.len() implies static_pair_ok(new, (#[trigger] scs[k]).a as int, scs[k].b as int) && scs[k].normal_ok() by {
        assert(new[scs[k].a as int].same_body(old[scs[k].a as int]));
        assert(new[scs[k].b as int].same_body(old[scs[k].b as int]));
    }
}

/// The particles and the per-tick records of one simulation.
pub struct World {
    pub particles: Vec<Particle>,
    pub gravity: Gravity,
    /// Fixed ticks per second; one tick lasts `1 / tick_rate` seconds.
    pub tick_rate: i64,
    /// Position-solver passes per tick.
    pub substeps: u32,
    pub collision_pairs: CollisionPairs,
    pub contacts: Contacts,
    pub static_contacts: StaticContacts,
}

impl World {
    pub open spec fn wf(&self) -> bool {
        &&& all_valid(self.particles@)
        &&& self.gravity.0.in_limit()
        &&& 1 <= self.tick_rate <= MAX_TICK_RATE
        &&& pairs_ok(self.particles@, self.collision_pairs.0@)
        &&& contacts_ok(self.particles@, self.contacts.0@)
        &&& static_contacts_ok(self.particles@, self.static_contacts.0@)
    }

    /// An empty world.
    pub fn new(gravity: Vec2, tick_rate: i64, substeps: u32) -> (r: World)
        requires
            gravity.in_limit(),
            1 <= tick_rate <= MAX_TICK_RATE,
        ensures
            r.wf(),
            r.particles@.len() == 0,
            r.gravity == Gravity(gravity),
            r.tick_rate == tick_rate,
            r.substeps == substeps,
            r.collision_pairs.0@.len() == 0,
            r.contacts.0@.len() == 0,
            r.static_contacts.0@.len() == 0,
    {
        World {
            particles: Vec::new(),
            gravity: Gravity(gravity),
            tick_rate,
            substeps,
            collision_pairs: CollisionPairs(Vec::new()),
            contacts: Contacts(Vec::new()),
            static_contacts: StaticContacts(Vec::new()),
        }
    }

    /// Adds a particle and returns its handle.
    pub fn spawn(&mut self, p: Particle) -> (handle: usize)
        requires
            old(self).wf(),
            p.valid(),
        ensures
            final(self).wf(),
            handle == old(self).particles@.len(),
            final(self).particles@ == old(self).particles@.push(p),
            final(self).gravity == old(self).gravity,
            final(self).tick_rate == old(self).tick_rate,
            final(self).substeps == old(self).substeps,
            final(self).collision_pairs.0@ == old(self).collision_pairs.0@,
            final(self).contacts.0@ == old(self).contacts.0@,
            final(self).static_contacts.0@ == old(self).static_contacts.0@,
    {
        let handle = self.particles.len();
        self.particles.push(p);
        proof {
            let o = old(self).particles@;
            let n = self.particles@;
            assert forall|i: int| 0 <= i < n.len() implies (#[trigger] n[i]).valid() by {
                if i < o.len() {
                    assert(n[i] == o[i]);
                }
            }
            assert forall|k: int| 0 <= k < self.collision_pairs.0@.len() implies dynamic_pair_ok(n, (#[trigger] self.collision_pairs.0@[k]).0 as int, self.collision_pairs.0@[k].1 as int) by {
                let pr = self.collision_pairs.0@[k];
                assert(dynamic_pair_ok(o, pr.0 as int, pr.1 as int));
                assert(n[pr.0 as int] == o[pr.0 as int] && n[pr.1 as int] == o[pr.1 as int]);
            }
            assert forall|k: int| 0 <= k < self.contacts.0@.len() implies dynamic_pair_ok(n, (#[trigger] self.contacts.0@[k]).a as int, self.contacts.0@[k].b as int) && self.contacts.0@[k].normal_ok() by {
                let c = self.contacts.0@[k];
                assert(dynamic_pair_ok(o, c.a as int, c.b as int));
                assert(n[c.a as int] == o[c.a as int] && n[c.b as int] == o[c.b as int]);
            }
            assert forall|k: int| 0 <= k < self.static_contacts.0@.len() implies static_pair_ok(n, (#[trigger] self.static_contacts.0@[k]).a as int, self.static_contacts.0@[k].b as int) && self.static_contacts.0@[k].normal_ok() by {
                let c = self.static_contacts.0@[k];
                assert(static_pair_ok(o, c.a as int, c.b as int));
                assert(n[c.a as int] == o[c.a as int] && n[c.b as int] == o[c.b as int]);
            }
        }
        handle
    }
}

} // verus!

use vstd::prelude::*;

use crate::contact::{
    box_contact, box_contact_spec, circle_contact, circle_contact_spec, nudge, nudge_spec,
    normal_ok, restitution_delta, velocity_delta,
};
use crate::fixed::{div_trunc, sat, saturate, tdiv, Vec2, LIMIT, SCALE};
use crate::world::{keeps_statics, Collider, Contact, Particle, World, MAX_TICK_RATE};

verus! {

/// Semi-implicit Euler for one tick of `1 / rate` seconds: gravity (as the force `m * g`
/// divided by `m`) changes the velocity first, the new velocity then moves the position.
/// Static particles are left as they are.
pub open spec fn integrated(p: Particle, g: Vec2, rate: int) -> Particle {
    if p.is_dynamic() {
        let m = p.mass_value();
        let v = Vec2 {
            x: sat(p.vel.x + tdiv(m * g.x, m * rate)) as i64,
            y: sat(p.vel.y + tdiv(m * g.y, m * rate)) as i64,
        };
        let x = Vec2 {
            x: sat(p.pos.x + tdiv(v.x as int, rate)) as i64,
            y: sat(p.pos.y + tdiv(v.y as int, rate)) as i64,
        };
        Particle { pos: x, prev_pos: p.pos, vel: v, pre_solve_vel: v, ..p }
    } else {
        p
    }
}

/// The velocity of a dynamic particle recomputed from its displacement over the tick.
pub open spec fn derived(p: Particle, rate: int) -> Particle {
    if p.is_dynamic() {
        let v = Vec2 {
            x: sat((p.pos.x - p.prev_pos.x) * rate) as i64,
            y: sat((p.pos.y - p.prev_pos.y) * rate) as i64,
        };
        Particle { vel: v, ..p }
    } else {
        p
    }
}

/// Pushes two overlapping dynamic circles apart along their normal, each by its share
/// `w_self / (w_a + w_b)` of the depth, where `w = 1 / mass`.
pub open spec fn resolve_pair(ps: Seq<Particle>, a: int, b: int) -> (Seq<Particle>, Option<Contact>) {
    let pa = ps[a];
    let pb = ps[b];
    match circle_contact_spec(pa.pos, pa.radius(), pb.pos, pb.radius()) {
        None => (ps, None),
        Some((nx, ny, d)) => {
            let n = Vec2 { x: nx as i64, y: ny as i64 };
            let ma = pa.mass_value();
            let mb = pb.mass_value();
            let qa = Particle { pos: nudge_spec(pa.pos, n, -d, mb, ma + mb), ..pa };
            let qb = Particle { pos: nudge_spec(pb.pos, n, d, ma, ma + mb), ..pb };
            (ps.update(a, qa).update(b, qb), Some(Contact { a: a as usize, b: b as usize, normal: n }))
        },
    }
}

pub open spec fn push_some(cs: Seq<Contact>, c: Option<Contact>) -> Seq<Contact> {
    match c {
        Some(c) => cs.push(c),
        None => cs,
    }
}

/// The first `k` candidate pairs resolved in order, with the contacts they produced.
pub open spec fn pairs_pass(ps: Seq<Particle>, pairs: Seq<(usize, usize)>, k: int) -> (Seq<Particle>, Seq<Contact>)
    decreases k,
{
    if k <= 0 {
        (ps, seq![])
    } else {
        let (q, cs) = pairs_pass(ps, pairs, k - 1);
        let (q2, c) = resolve_pair(q, pairs[k - 1].0 as int, pairs[k - 1].1 as int);
        (q2, push_some(cs, c))
    }
}

/// Whether `p` is a static body of the kind a pass handles (boxes or circles).
pub open spec fn static_target(p: Particle, boxes: bool) -> bool {
    !p.is_dynamic() && if boxes {
        p.is_box()
    } else {
        p.is_circle()
    }
}

/// Pushes dynamic circle `a` out of static body `b` by the whole depth.
pub open spec fn resolve_static(ps: Seq<Particle>, a: int, b: int, boxes: bool) -> (Seq<Particle>, Option<Contact>) {
    let pa = ps[a];
    let pb = ps[b];
    if !static_target(pb, boxes) {
        (ps, None)
    } else {
        let c = if boxes {
            box_contact_spec(pa.pos, pa.radius(), pb.pos, pb.box_size())
        } else {
            circle_contact_spec(pa.pos, pa.radius(), pb.pos, pb.radius())
        };
        match c {
            None => (ps, None),
            Some((nx, ny, d)) => {
                let n = Vec2 { x: nx as i64, y: ny as i64 };
                (
                    ps.update(a, Particle { pos: nudge_spec(pa.pos, n, -d, 1, 1), ..pa }),
                    Some(Contact { a: a as usize, b: b as usize, normal: n }),
                )
            },
        }
    }
}

/// Dynamic circle `a` against the static bodies below index `b`.
pub open spec fn against_statics(ps: Seq<Particle>, a: int, b: int, boxes: bool) -> (Seq<Particle>, Seq<Contact>)
    decreases b,
{
    if b <= 0 {
        (ps, seq![])
    } else {
        let (q, cs) = against_statics(ps, a, b - 1, boxes);
        let (q2, c) = resolve_static(q, a, b - 1, boxes);
        (q2, push_some(cs, c))
    }
}

/// The dynamic circles below index `a`, each against every static body of the kind.
pub open spec fn statics_pass(ps: Seq<Particle>, a: int, boxes: bool) -> (Seq<Particle>, Seq<Contact>)
    decreases a,
{
    if a <= 0 {
        (ps, seq![])
    } else {
        let (q, cs) = statics_pass(ps, a - 1, boxes);
        if q[a - 1].is_dynamic_circle() {
            let (q2, cs2) = against_statics(q, a - 1, q.len() as int, boxes);
            (q2, cs + cs2)
        } else {
            (q, cs)
        }
    }
}

/// Restitution between two dynamic circles: the correction is split by inverse mass,
/// `a` gains its share along the normal and `b` loses its share.
pub open spec fn resolve_contact_vel(ps: Seq<Particle>, c: Contact) -> Seq<Particle> {
    let pa = ps[c.a as int];
    let pb = ps[c.b as int];
    let ma = pa.mass_value();
    let mb = pb.mass_value();
    let d = restitution_delta(
        pa.pre_solve_vel,
        pb.pre_solve_vel,
        pa.vel,
        pb.vel,
        c.normal,
        pa.restitution.0 + pb.restitution.0,
    );
    ps.update(c.a as int, Particle { vel: nudge_spec(pa.vel, c.normal, d, mb, ma + mb), ..pa }).update(
        c.b as int,
        Particle { vel: nudge_spec(pb.vel, c.normal, -d, ma, ma + mb), ..pb },
    )
}

/// Restitution of a dynamic circle against a static body, which counts as at rest.
pub open spec fn resolve_static_vel(ps: Seq<Particle>, c: Contact) -> Seq<Particle> {
    let pa = ps[c.a as int];
    let pb = ps[c.b as int];
    let zero = Vec2 { x: 0, y: 0 };
    let d = restitution_delta(
        pa.pre_solve_vel,
        zero,
        pa.vel,
        zero,
        c.normal,
        pa.restitution.0 + pb.restitution.0,
    );
    ps.update(c.a as int, Particle { vel: nudge_spec(pa.vel, c.normal, d, 1, 1), ..pa })
}

/// The first `k` contacts applied in order; `statics` picks the static variant.
pub open spec fn vel_pass(ps: Seq<Particle>, cs: Seq<Contact>, k: int, statics: bool) -> Seq<Particle>
    decreases k,
{
    if k <= 0 {
        ps
    } else {
        let q = vel_pass(ps, cs, k - 1, statics);
        if statics {
            resolve_static_vel(q, cs[k - 1])
        } else {
            resolve_contact_vel(q, cs[k - 1])
        }
    }
}

/// Two dynamic circles that overlap by `d` along the x axis, `a` on the left, are pushed
/// apart along x: `a` back by `d * m_b / (m_a + m_b)`, `b` forward by `d * m_a / (m_a + m_b)`
/// (rounded down), so the lighter one moves more; when the shares divide exactly the gap
/// closes to the sum of the radii. This holds as long as no position reaches the limit.
pub proof fn lemma_axis_overlap_split(ps: Seq<Particle>, a: int, b: int)
    requires
        0 <= a < ps.len(),
        0 <= b < ps.len(),
        a != b,
        ps[a].is_dynamic_circle(),
        ps[b].is_dynamic_circle(),
        ps[a].valid(),
        ps[b].valid(),
        ps[a].pos.y == ps[b].pos.y,
        0 < ps[b].pos.x - ps[a].pos.x < ps[a].radius() + ps[b].radius(),
        ({
            let q = resolve_pair(ps, a, b).0;
            -LIMIT < q[a].pos.x < LIMIT && -LIMIT < q[b].pos.x < LIMIT
        }),
    ensures
        ({
            let (pa, pb) = (ps[a], ps[b]);
            let (ma, mb) = (pa.mass_value(), pb.mass_value());
            let d = pa.radius() + pb.radius() - (pb.pos.x - pa.pos.x);
            let (q, c) = resolve_pair(ps, a, b);
            &&& c == Some(Contact { a: a as usize, b: b as usize, normal: Vec2 { x: SCALE, y: 0 } })
            &&& q[a].pos.x == pa.pos.x - (d * mb) / (ma + mb)
            &&& q[b].pos.x == pb.pos.x + (d * ma) / (ma + mb)
            &&& q[a].pos.y == pa.pos.y && q[b].pos.y == pb.pos.y
            &&& (d * mb) % (ma + mb) == 0 ==> q[b].pos.x - q[a].pos.x == pa.radius() + pb.radius()
        }),
{
    let (pa, pb) = (ps[a], ps[b]);
    let (ma, mb) = (pa.mass_value(), pb.mass_value());
    let dist = pb.pos.x - pa.pos.x;
    let d = pa.radius() + pb.radius() - dist;
    let s = SCALE as int;
    assert(dist * dist + 0 * 0 == dist * dist) by (nonlinear_arith);
    assert(dist * dist <= dist * dist < (dist + 1) * (dist + 1)) by (nonlinear_arith)
        requires
            dist > 0,
    ;
    crate::fixed::lemma_sqrt_floor_unique((dist * dist) as nat, dist as nat);
    assert(0 < dist * dist < (pa.radius() + pb.radius()) * (pa.radius() + pb.radius())) by (nonlinear_arith)
        requires
            0 < dist < pa.radius() + pb.radius(),
    ;
    crate::fixed::lemma_tdiv_cancel(s, 1, dist);
    assert(dist * s == s * dist && 1 * dist == dist) by (nonlinear_arith);
    assert(tdiv(0 * s, dist) == 0) by (nonlinear_arith)
        requires
            dist > 0,
    ;
    assert(circle_contact_spec(pa.pos, pa.radius(), pb.pos, pb.radius()) == Some((s, 0int, d)));
    let den = ma + mb;
    crate::fixed::lemma_tdiv_cancel(-(d * mb), den, s);
    crate::fixed::lemma_tdiv_cancel(d * ma, den, s);
    assert(s * (-d) * mb == -(d * mb) * s && s * d * ma == (d * ma) * s && s * den == den * s)
        by (nonlinear_arith);
    assert(0 * (-d) * mb == 0 && 0 * d * ma == 0) by (nonlinear_arith);
    assert(d * mb >= 0 && d * ma >= 0) by (nonlinear_arith)
        requires
            d > 0,
            mb >= 1,
            ma >= 1,
    ;
    crate::fixed::lemma_tdiv_bound(d * mb, den);
    assert(tdiv(-(d * mb), den) == -((d * mb) / den));
    if (d * mb) % den == 0 {
        assert((d * mb) / den + (d * ma) / den == d) by (nonlinear_arith)
            requires
                (d * mb) % den == 0,
                den == ma + mb,
                den >= 2,
        {
            vstd::arithmetic::div_mod::lemma_fundamental_div_mod(d * mb, den);
            vstd::arithmetic::div_mod::lemma_fundamental_div_mod(d * ma, den);
            vstd::arithmetic::div_mod::lemma_fundamental_div_mod(d * den, den);
            assert(d * ma == d * den - d * mb);
            vstd::arithmetic::div_mod::lemma_div_multiples_vanish(d, den);
            vstd::arithmetic::div_mod::lemma_mod_multiples_vanish(-((d * mb) / den), d * den, den);
        }
    }
}

/// A dynamic circle whose centre lies strictly within half the width of a static box, and
/// at or beyond its top or bottom face, is resolved by that face: its x stays, it is set
/// on the face at `radius` from it, and the contact normal is `(0, -SCALE)` above the box
/// and `(0, SCALE)` below it. This holds as long as the new position stays within the limit.
pub proof fn lemma_box_face_resolution(ps: Seq<Particle>, a: int, b: int)
    requires
        0 <= a < ps.len(),
        0 <= b < ps.len(),
        ps[a].is_dynamic_circle(),
        ps[a].valid(),
        ps[b].valid(),
        static_target(ps[b], true),
        crate::fixed::abs(ps[a].pos.x - ps[b].pos.x) < ps[b].box_size().x / 2,
        crate::fixed::abs(ps[a].pos.y - ps[b].pos.y) >= ps[b].box_size().y / 2,
        resolve_static(ps, a, b, true).1 is Some,
        -LIMIT < resolve_static(ps, a, b, true).0[a].pos.y < LIMIT,
    ensures
        ({
            let (pa, pb) = (ps[a], ps[b]);
            let sg = crate::fixed::signum(pa.pos.y - pb.pos.y);
            let (q, c) = resolve_static(ps, a, b, true);
            &&& c == Some(Contact { a: a as usize, b: b as usize, normal: Vec2 { x: 0, y: (-sg * SCALE) as i64 } })
            &&& q[a].pos.x == pa.pos.x
            &&& q[a].pos.y == pb.pos.y + sg * (pb.box_size().y / 2 + pa.radius())
        }),
{
    let (pa, pb) = (ps[a], ps[b]);
    let dy = pa.pos.y - pb.pos.y;
    let sg = crate::fixed::signum(dy);
    let s = SCALE as int;
    let size = pb.box_size();
    crate::contact::lemma_circle_over_box_meets_face(pa.pos, pa.radius(), pb.pos, size);
    let depth = pa.radius() - (crate::fixed::abs(dy) - size.y / 2);
    assert(depth >= 0);
    crate::fixed::lemma_tdiv_cancel(sg * depth, 1, s);
    assert((-sg * s) * (-depth) * 1 == (sg * depth) * s && 1 * s == s * 1) by (nonlinear_arith);
    assert(0 * (-depth) * 1 == 0) by (nonlinear_arith);
    assert(sg * crate::fixed::abs(dy) == dy);
    assert(sg * depth + sg * crate::fixed::abs(dy) == sg * (size.y / 2 + pa.radius())) by (nonlinear_arith)
        requires
            depth == pa.radius() - (crate::fixed::abs(dy) - size.y / 2),
    ;
}

/// What every pass of the tick leaves the same.
pub open spec fn same_setup(w: &World, o: &World) -> bool {
    &&& w.gravity == o.gravity
    &&& w.tick_rate == o.tick_rate
    &&& w.substeps == o.substeps
}

fn set_pos(p: Particle, pos: Vec2) -> (r: Particle)
    ensures
        r == (Particle { pos, ..p }),
{
    Particle { pos, ..p }
}

fn set_vel(p: Particle, vel: Vec2) -> (r: Particle)
    ensures
        r == (Particle { vel, ..p }),
{
    Particle { vel, ..p }
}

fn radius_of(p: &Particle) -> (r: i64)
    requires
        p.is_circle(),
    ensures
        r == p.radius(),
{
    match p.collider {
        Collider::Circle(c) => c.radius,
        Collider::Box(_) => 0,
    }
}

fn size_of(p: &Particle) -> (r: Vec2)
    requires
        p.is_box(),
    ensures
        r == p.box_size(),
{
    match p.collider {
        Collider::Circle(_) => Vec2 { x: 0, y: 0 },
        Collider::Box(b) => b.size,
    }
}

fn mass_of(p: &Particle) -> (r: i64)
    requires
        p.is_dynamic(),
    ensures
        r == p.mass_value(),
{
    match p.mass {
        Some(m) => m.0,
        None => 0,
    }
}

impl World {
    /// Advances every dynamic particle by `integrated`.
    pub fn integrate(&mut self)
        requires
            old(self).wf(),
        ensures
            final(self).wf(),
            same_setup(final(self), old(self)),
            final(self).collision_pairs.0@ == old(self).collision_pairs.0@,
            final(self).contacts.0@ == old(self).contacts.0@,
            final(self).static_contacts.0@ == old(self).static_contacts.0@,
            keeps_statics(old(self).particles@, final(self).particles@),
            forall|i: int|
                0 <= i < old(self).particles@.len() ==> #[trigger] final(self).particles@[i]
                    == integrated(old(self).particles@[i], old(self).gravity.0, old(self).tick_rate as int),
    {
        let ghost ps = self.particles@;
        let g = self.gravity.0;
        let rate = self.tick_rate;
        let n = self.particles.len();
        let mut i: usize = 0;
        while i < n
            invariant
                old(self).wf(),
                self.wf(),
                same_setup(self, old(self)),
                self.collision_pairs.0@ == old(self).collision_pairs.0@,
                self.contacts.0@ == old(self).contacts.0@,
                self.static_contacts.0@ == old(self).static_contacts.0@,
                ps == old(self).particles@,
                g == self.gravity.0,
                rate == self.tick_rate,
                n == ps.len(),
                i <= n,
                keeps_statics(ps, self.particles@),
                forall|j: int| 0 <= j < i ==> #[trigger] self.particles@[j] == integrated(ps[j], g, rate as int),
                forall|j: int| i <= j < n ==> #[trigger] self.particles@[j] == ps[j],
            decreases n - i,
        {
            let p = self.particles[i];
            assert(p.valid());
            if let Some(m) = p.mass {
                let m128 = m.0 as i128;
                assert(1 <= m128 * rate <= LIMIT * MAX_TICK_RATE) by (nonlinear_arith)
                    requires
                        1 <= m128 <= LIMIT,
                        1 <= rate <= MAX_TICK_RATE,
                ;
                let den = m128 * (rate as i128);
                assert(m128 * g.x <= LIMIT * LIMIT && m128 * g.x >= -(LIMIT * LIMIT) && m128 * g.y
                    <= LIMIT * LIMIT && m128 * g.y >= -(LIMIT * LIMIT)) by (nonlinear_arith)
                    requires
                        1 <= m128 <= LIMIT,
                        -LIMIT <= g.x <= LIMIT,
                        -LIMIT <= g.y <= LIMIT,
                ;
                assert(1 <= den <= LIMIT * MAX_TICK_RATE) by (nonlinear_arith)
                    requires
                        den == m128 * rate,
                        1 <= m128 <= LIMIT,
                        1 <= rate <= MAX_TICK_RATE,
                ;
                let dvx = div_trunc(m128 * (g.x as i128), den);
                let dvy = div_trunc(m128 * (g.y as i128), den);
                proof {
                    crate::fixed::lemma_tdiv_bound(m128 * g.x, den as int);
                    crate::fixed::lemma_tdiv_bound(m128 * g.y, den as int);
                }
                let v = Vec2 { x: saturate(p.vel.x as i128 + dvx), y: saturate(p.vel.y as i128 + dvy) };
                let dx = div_trunc(v.x as i128, rate as i128);
                let dy = div_trunc(v.y as i128, rate as i128);
                proof {
                    crate::fixed::lemma_tdiv_bound(v.x as int, rate as int);
                    crate::fixed::lemma_tdiv_bound(v.y as int, rate as int);
                }
                let x = Vec2 { x: saturate(p.pos.x as i128 + dx), y: saturate(p.pos.y as i128 + dy) };
                let q = Particle { pos: x, prev_pos: p.pos, vel: v, pre_solve_vel: v, ..p };
                self.particles.set(i, q);
                proof {
                    assert(q == integrated(ps[i as int], g, rate as int));
                }
            }
            proof {
                assert(self.particles@[i as int] == integrated(ps[i as int], g, rate as int));
                crate::world::lemma_refs_kept(
                    ps,
                    self.particles@,
                    self.collision_pairs.0@,
                    self.contacts.0@,
                    self.static_contacts.0@,
                );
            }
            i = i + 1;
        }
    }

    /// Recomputes the velocity of every dynamic particle by `derived`.
    pub fn update_vel(&mut self)
        requires
            old(self).wf(),
        ensures
            final(self).wf(),
            same_setup(final(self), old(self)),
            final(self).collision_pairs.0@ == old(self).collision_pairs.0@,
            final(self).contacts.0@ == old(self).contacts.0@,
            final(self).static_contacts.0@ == old(self).static_contacts.0@,
            keeps_statics(old(self).particles@, final(self).particles@),
            forall|i: int|
                0 <= i < old(self).particles@.len() ==> #[trigger] final(self).particles@[i]
                    == derived(old(self).particles@[i], old(self).tick_rate as int),
    {
        let ghost ps = self.particles@;
        let rate = self.tick_rate;
        let n = self.particles.len();
        let mut i: usize = 0;
        while i < n
            invariant
                old(self).wf(),
                self.wf(),
                same_setup(self, old(self)),
                self.collision_pairs.0@ == old(self).collision_pairs.0@,
                self.contacts.0@ == old(self).contacts.0@,
                self.static_contacts.0@ == old(self).static_contacts.0@,
                ps == old(self).particles@,
                rate == self.tick_rate,
                n == ps.len(),
                i <= n,
                keeps_statics(ps, self.particles@),
                forall|j: int| 0 <= j < i ==> #[trigger] self.particles@[j] == derived(ps[j], rate as int),
                forall|j: int| i <= j < n ==> #[trigger] self.particles@[j] == ps[j],
            decreases n - i,
        {
            let p = self.particles[i];
            assert(p.valid());
            if p.mass.is_some() {
                let ex: i128 = p.pos.x as i128 - p.prev_pos.x as i128;
                let ey: i128 = p.pos.y as i128 - p.prev_pos.y as i128;
                assert(-(2 * LIMIT * MAX_TICK_RATE) <= ex * rate <= 2 * LIMIT * MAX_TICK_RATE && -(2
                    * LIMIT * MAX_TICK_RATE) <= ey * rate <= 2 * LIMIT * MAX_TICK_RATE) by (nonlinear_arith)
                    requires
                        -2 * LIMIT <= ex <= 2 * LIMIT,
                        -2 * LIMIT <= ey <= 2 * LIMIT,
                        1 <= rate <= MAX_TICK_RATE,
                ;
                let v = Vec2 { x: saturate(ex * (rate as i128)), y: saturate(ey * (rate as i128)) };
                self.particles.set(i, set_vel(p, v));
            }
            proof {
                assert(self.particles@[i as int] == derived(ps[i as int], rate as int));
                crate::world::lemma_refs_kept(
                    ps,
                    self.particles@,
                    self.collision_pairs.0@,
                    self.contacts.0@,
                    self.static_contacts.0@,
                );
            }
            i = i + 1;
        }
    }

    /// Resolves the candidate pairs in order, as `pairs_pass` states, appending the contacts.
    pub fn solve_pos(&mut self)
        requires
            old(self).wf(),
        ensures
            final(self).wf(),
            same_setup(final(self), old(self)),
            final(self).collision_pairs.0@ == old(self).collision_pairs.0@,
            final(self).static_contacts.0@ == old(self).static_contacts.0@,
            keeps_statics(old(self).particles@, final(self).particles@),
            final(self).particles@ == pairs_pass(
                old(self).particles@,
                old(self).collision_pairs.0@,
                old(self).collision_pairs.0@.len() as int,
            ).0,
            final(self).contacts.0@ == old(self).contacts.0@ + pairs_pass(
                old(self).particles@,
                old(self).collision_pairs.0@,
                old(self).collision_pairs.0@.len() as int,
            ).1,
    {
        let ghost ps = self.particles@;
        let ghost pairs = self.collision_pairs.0@;
        let ghost cs0 = self.contacts.0@;
        let n = self.collision_pairs.0.len();
        let mut k: usize = 0;
        while k < n
            invariant
                old(self).wf(),
                self.wf(),
                same_setup(self, old(self)),
                self.collision_pairs.0@ == pairs,
                self.static_contacts.0@ == old(self).static_contacts.0@,
                ps == old(self).particles@,
                pairs == old(self).collision_pairs.0@,
                cs0 == old(self).contacts.0@,
                n == pairs.len(),
                k <= n,
                keeps_statics(ps, self.particles@),
                self.particles@ == pairs_pass(ps, pairs, k as int).0,
                self.contacts.0@ == cs0 + pairs_pass(ps, pairs, k as int).1,
            decreases n - k,
        {
            let (a, b) = self.collision_pairs.0[k];
            let ghost cur = self.particles@;
            assert(crate::world::dynamic_pair_ok(cur, a as int, b as int));
            let pa = self.particles[a];
            let pb = self.particles[b];
            assert(pa.valid() && pb.valid());
            let ra = radius_of(&pa);
            let rb = radius_of(&pb);
            let ma = mass_of(&pa);
            let mb = mass_of(&pb);
            if let Some((nrm, d)) = circle_contact(pa.pos, ra, pb.pos, rb) {
                let qa = set_pos(pa, nudge(pa.pos, nrm, -d, mb, ma + mb));
                let qb = set_pos(pb, nudge(pb.pos, nrm, d, ma, ma + mb));
                self.particles.set(a, qa);
                proof {
                    crate::world::lemma_set_dynamic(ps, cur, a as int, qa);
                }
                self.particles.set(b, qb);
                proof {
                    crate::world::lemma_set_dynamic(ps, cur.update(a as int, qa), b as int, qb);
                }
                self.contacts.0.push(Contact { a, b, normal: nrm });
            }
            proof {
                crate::world::lemma_refs_kept(ps, self.particles@, pairs, cs0, self.static_contacts.0@);
                let now = self.particles@;
                let cs = self.contacts.0@;
                let prev = cs0 + pairs_pass(ps, pairs, k as int).1;
                assert forall|j: int| 0 <= j < cs.len() implies crate::world::dynamic_pair_ok(now, (#[trigger] cs[j]).a as int, cs[j].b as int) && cs[j].normal_ok() by {
                    if j < prev.len() {
                        assert(cs[j] == prev[j]);
                        assert(crate::world::dynamic_pair_ok(cur, cs[j].a as int, cs[j].b as int));
                    }
                    assert(now[cs[j].a as int].same_body(cur[cs[j].a as int]));
                    assert(now[cs[j].b as int].same_body(cur[cs[j].b as int]));
                }
            }
            k = k + 1;
        }
    }

    /// Resolves every dynamic circle against the static circles, as `statics_pass` states.
    pub fn solve_pos_statics(&mut self)
        requires
            old(self).wf(),
        ensures
            final(self).wf(),
            same_setup(final(self), old(self)),
            final(self).collision_pairs.0@ == old(self).collision_pairs.0@,
            final(self).contacts.0@ == old(self).contacts.0@,
            keeps_statics(old(self).particles@, final(self).particles@),
            final(self).particles@ == statics_pass(old(self).particles@, old(self).particles@.len() as int, false).0,
            final(self).static_contacts.0@ == old(self).static_contacts.0@ + statics_pass(
                old(self).particles@,
                old(self).particles@.len() as int,
                false,
            ).1,
    {
        self.solve_pos_against(false);
    }

    /// Resolves every dynamic circle against the static boxes, as `statics_pass` states.
    pub fn solve_pos_static_boxes(&mut self)
        requires
            old(self).wf(),
        ensures
            final(self).wf(),
            same_setup(final(self), old(self)),
            final(self).collision_pairs.0@ == old(self).collision_pairs.0@,
            final(self).contacts.0@ == old(self).contacts.0@,
            keeps_statics(old(self).particles@, final(self).particles@),
            final(self).particles@ == statics_pass(old(self).particles@, old(self).particles@.len() as int, true).0,
            final(self).static_contacts.0@ == old(self).static_contacts.0@ + statics_pass(
                old(self).particles@,
                old(self).particles@.len() as int,
                true,
            ).1,
    {
        self.solve_pos_against(true);
    }

    fn solve_pos_against(&mut self, boxes: bool)
        requires
            old(self).wf(),
        ensures
            final(self).wf(),
            same_setup(final(self), old(self)),
            final(self).collision_pairs.0@ == old(self).collision_pairs.0@,
            final(self).contacts.0@ == old(self).contacts.0@,
            keeps_statics(old(self).particles@, final(self).particles@),
            final(self).particles@ == statics_pass(old(self).particles@, old(self).particles@.len() as int, boxes).0,
            final(self).static_contacts.0@ == old(self).static_contacts.0@ + statics_pass(
                old(self).particles@,
                old(self).particles@.len() as int,
                boxes,
            ).1,
    {
        let ghost ps = self.particles@;
        let ghost scs0 = self.static_contacts.0@;
        let n = self.particles.len();
        let mut a: usize = 0;
        while a < n
            invariant
                old(self).wf(),
                self.wf(),
                same_setup(self, old(self)),
                self.collision_pairs.0@ == old(self).collision_pairs.0@,
                self.contacts.0@ == old(self).contacts.0@,
                ps == old(self).particles@,
                scs0 == old(self).static_contacts.0@,
                n == ps.len(),
                a <= n,
                keeps_statics(ps, self.particles@),
                self.particles@ == statics_pass(ps, a as int, boxes).0,
                self.static_contacts.0@ == scs0 + statics_pass(ps, a as int, boxes).1,
            decreases n - a,
        {
            let ghost q = self.particles@;
            let ghost scs1 = self.static_contacts.0@;
            let p = self.particles[a];
            if p.mass.is_some() && matches!(p.collider, Collider::Circle(_)) {
                let mut b: usize = 0;
                while b < n
                    invariant
                        old(self).wf(),
                        self.wf(),
                        same_setup(self, old(self)),
                        self.collision_pairs.0@ == old(self).collision_pairs.0@,
                        self.contacts.0@ == old(self).contacts.0@,
                        ps == old(self).particles@,
                        scs0 == old(self).static_contacts.0@,
                        n == ps.len(),
                        n == q.len(),
                        a < n,
                        b <= n,
                        q[a as int].is_dynamic_circle(),
                        keeps_statics(ps, self.particles@),
                        keeps_statics(ps, q),
                        self.particles@ == against_statics(q, a as int, b as int, boxes).0,
                        self.static_contacts.0@ == scs1 + against_statics(q, a as int, b as int, boxes).1,
                    decreases n - b,
                {
                    let ghost cur = self.particles@;
                    let pa = self.particles[a];
                    let pb = self.particles[b];
                    assert(pa.valid() && pb.valid());
                    assert(cur[a as int].same_body(ps[a as int]));
                    let target = pb.mass.is_none() && if boxes {
                        matches!(pb.collider, Collider::Box(_))
                    } else {
                        matches!(pb.collider, Collider::Circle(_))
                    };
                    if target {
                        let ra = radius_of(&pa);
                        let hit = if boxes {
                            box_contact(pa.pos, ra, pb.pos, size_of(&pb))
                        } else {
                            circle_contact(pa.pos, ra, pb.pos, radius_of(&pb))
                        };
                        if let Some((nrm, d)) = hit {
                            let qa = set_pos(pa, nudge(pa.pos, nrm, -d, 1, 1));
                            self.particles.set(a, qa);
                            proof {
                                crate::world::lemma_set_dynamic(ps, cur, a as int, qa);
                            }
                            self.static_contacts.0.push(Contact { a, b, normal: nrm });
                        }
                    }
                    proof {
                        crate::world::lemma_refs_kept(
                            ps,
                            self.particles@,
                            self.collision_pairs.0@,
                            self.contacts.0@,
                            scs0,
                        );
                        let now = self.particles@;
                        let cs = self.static_contacts.0@;
                        let prev = scs1 + against_statics(q, a as int, b as int, boxes).1;
                        assert forall|j: int| 0 <= j < cs.len() implies crate::world::static_pair_ok(now, (#[trigger] cs[j]).a as int, cs[j].b as int) && cs[j].normal_ok() by {
                            if j < prev.len() {
                                assert(cs[j] == prev[j]);
                                assert(crate::world::static_pair_ok(cur, cs[j].a as int, cs[j].b as int));
                                assert(now[cs[j].a as int].same_body(cur[cs[j].a as int]));
                                assert(now[cs[j].b as int].same_body(cur[cs[j].b as int]));
                            } else {
                                assert(now[a as int].same_body(cur[a as int]));
                                assert(now[b as int].same_body(cur[b as int]));
                            }
                        }
                    }
                    b = b + 1;
                }
            }
            proof {
                assert(q[a as int].same_body(ps[a as int]));
            }
            a = a + 1;
        }
    }

    /// Applies restitution for every dynamic contact in order, as `vel_pass` states.
    pub fn solve_vel(&mut self)
        requires
            old(self).wf(),
        ensures
            final(self).wf(),
            same_setup(final(self), old(self)),
            final(self).collision_pairs.0@ == old(self).collision_pairs.0@,
            final(self).contacts.0@ == old(self).contacts.0@,
            final(self).static_contacts.0@ == old(self).static_contacts.0@,
            keeps_statics(old(self).particles@, final(self).particles@),
            final(self).particles@ == vel_pass(
                old(self).particles@,
                old(self).contacts.0@,
                old(self).contacts.0@.len() as int,
                false,
            ),
    {
        self.solve_vel_pass(false);
    }

    /// Applies restitution for every static contact in order, as `vel_pass` states.
    pub fn solve_vel_statics(&mut self)
        requires
            old(self).wf(),
        ensures
            final(self).wf(),
            same_setup(final(self), old(self)),
            final(self).collision_pairs.0@ == old(self).collision_pairs.0@,
            final(self).contacts.0@ == old(self).contacts.0@,
            final(self).static_contacts.0@ == old(self).static_contacts.0@,
            keeps_statics(old(self).particles@, final(self).particles@),
            final(self).particles@ == vel_pass(
                old(self).particles@,
                old(self).static_contacts.0@,
                old(self).static_contacts.0@.len() as int,
                true,
            ),
    {
        self.solve_vel_pass(true);
    }

    fn solve_vel_pass(&mut self, statics: bool)
        requires
            old(self).wf(),
        ensures
            final(self).wf(),
            same_setup(final(self), old(self)),
            final(self).collision_pairs.0@ == old(self).collision_pairs.0@,
            final(self).contacts.0@ == old(self).contacts.0@,
            final(self).static_contacts.0@ == old(self).static_contacts.0@,
            keeps_statics(old(self).particles@, final(self).particles@),
            final(self).particles@ == vel_pass(
                old(self).particles@,
                if statics {
                    old(self).static_contacts.0@
                } else {
                    old(self).contacts.0@
                },
                if statics {
                    old(self).static_contacts.0@.len() as int
                } else {
                    old(self).contacts.0@.len() as int
                },
                statics,
            ),
    {
        let ghost ps = self.particles@;
        let ghost cs = if statics {
            self.static_contacts.0@
        } else {
            self.contacts.0@
        };
        let n = if statics {
            self.static_contacts.0.len()
        } else {
            self.contacts.0.len()
        };
        let mut k: usize = 0;
        while k < n
            invariant
                old(self).wf(),
                self.wf(),
                same_setup(self, old(self)),
                self.collision_pairs.0@ == old(self).collision_pairs.0@,
                self.contacts.0@ == old(self).contacts.0@,
                self.static_contacts.0@ == old(self).static_contacts.0@,
                ps == old(self).particles@,
                cs == if statics {
                    old(self).static_contacts.0@
                } else {
                    old(self).contacts.0@
                },
                n == cs.len(),
                k <= n,
                keeps_statics(ps, self.particles@),
                self.particles@ == vel_pass(ps, cs, k as int, statics),
            decreases n - k,
        {
            let ghost cur = self.particles@;
            let c = if statics {
                self.static_contacts.0[k]
            } else {
                self.contacts.0[k]
            };
            assert(c == cs[k as int]);
            let pa = self.particles[c.a];
            let pb = self.particles[c.b];
            assert(pa.valid() && pb.valid());
            let e_sum = pa.restitution.0 + pb.restitution.0;
            if statics {
                let zero = Vec2 { x: 0, y: 0 };
                let d = velocity_delta(pa.pre_solve_vel, zero, pa.vel, zero, c.normal, e_sum);
                let qa = set_vel(pa, nudge(pa.vel, c.normal, d, 1, 1));
                self.particles.set(c.a, qa);
                proof {
                    crate::world::lemma_set_dynamic(ps, cur, c.a as int, qa);
                }
            } else {
                let ma = mass_of(&pa);
                let mb = mass_of(&pb);
                let d = velocity_delta(pa.pre_solve_vel, pb.pre_solve_vel, pa.vel, pb.vel, c.normal, e_sum);
                let qa = set_vel(pa, nudge(pa.vel, c.normal, d, mb, ma + mb));
                let qb = set_vel(pb, nudge(pb.vel, c.normal, -d, ma, ma + mb));
                self.particles.set(c.a, qa);
                proof {
                    crate::world::lemma_set_dynamic(ps, cur, c.a as int, qa);
                }
                self.particles.set(c.b, qb);
                proof {
                    crate::world::lemma_set_dynamic(ps, cur.update(c.a as int, qa), c.b as int, qb);
                }
            }
            proof {
                crate::world::lemma_refs_kept(
                    ps,
                    self.particles@,
                    self.collision_pairs.0@,
                    self.contacts.0@,
                    self.static_contacts.0@,
                );
            }
            k = k + 1;
        }
    }
}

} // verus!

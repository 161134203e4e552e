use vstd::prelude::*;

use crate::broad_phase::{broad_phase, is_candidate, lemma_broad_phase_candidates, within_margin};
use crate::contact::nudge_spec;
use crate::fixed::{div_trunc, lemma_tdiv_bound, sat, saturate, tdiv, Vec2, LIMIT, SCALE};
use crate::solver::{
    derived, integrated, pairs_pass, resolve_contact_vel, resolve_pair, same_setup, statics_pass,
    vel_pass,
};
use crate::world::{keeps_statics, lemma_keeps_statics_trans, Contact, Particle, World};

verus! {

/// One position-solver pass: the candidate pairs, then the static circles, then the
/// static boxes. Returns the particles, the dynamic contacts and the static contacts.
pub open spec fn substep(ps: Seq<Particle>, pairs: Seq<(usize, usize)>) -> (Seq<Particle>, Seq<Contact>, Seq<Contact>) {
    let (q1, c1) = pairs_pass(ps, pairs, pairs.len() as int);
    let (q2, s1) = statics_pass(q1, q1.len() as int, false);
    let (q3, s2) = statics_pass(q2, q2.len() as int, true);
    (q3, c1, s1 + s2)
}

/// `k` position-solver passes against the same candidate pairs, with all their contacts.
pub open spec fn substeps(ps: Seq<Particle>, pairs: Seq<(usize, usize)>, k: int) -> (Seq<Particle>, Seq<Contact>, Seq<Contact>)
    decreases k,
{
    if k <= 0 {
        (ps, seq![], seq![])
    } else {
        let (q, c, s) = substeps(ps, pairs, k - 1);
        let (q2, c2, s2) = substep(q, pairs);
        (q2, c + c2, s + s2)
    }
}

/// One fixed tick: broad phase, integration, `n` solver passes, velocity derivation,
/// then restitution for the dynamic and then for the static contacts. Returns the
/// particles, the candidate pairs, the dynamic contacts and the static contacts.
pub open spec fn tick(ps: Seq<Particle>, g: Vec2, rate: int, n: int) -> (Seq<Particle>, Seq<(usize, usize)>, Seq<Contact>, Seq<Contact>) {
    let pairs = broad_phase(ps, rate);
    let moved = Seq::new(ps.len(), |i: int| integrated(ps[i], g, rate));
    let (solved, cs, scs) = substeps(moved, pairs, n);
    let measured = Seq::new(solved.len(), |i: int| derived(solved[i], rate));
    let bounced = vel_pass(measured, cs, cs.len() as int, false);
    let settled = vel_pass(bounced, scs, scs.len() as int, true);
    (settled, pairs, cs, scs)
}

/// The particles after `t` ticks.
pub open spec fn ticks_of(ps: Seq<Particle>, g: Vec2, rate: int, n: int, t: nat) -> Seq<Particle>
    decreases t,
{
    if t == 0 {
        ps
    } else {
        tick(ticks_of(ps, g, rate, n, (t - 1) as nat), g, rate, n).0
    }
}

/// The pairs and contacts of `w` are those of tick number `t` (counted from one) of a run
/// that started from `o`.
pub open spec fn last_tick_lists(w: &World, o: &World, t: nat) -> bool {
    let last = tick(
        ticks_of(o.particles@, o.gravity.0, o.tick_rate as int, o.substeps as int, (t - 1) as nat),
        o.gravity.0,
        o.tick_rate as int,
        o.substeps as int,
    );
    &&& w.collision_pairs.0@ == last.1
    &&& w.contacts.0@ == last.2
    &&& w.static_contacts.0@ == last.3
}

/// A position between the previous and the current one: `alpha = 0` is the previous,
/// `alpha = SCALE` the current.
pub open spec fn interpolated(p: Particle, alpha: int) -> Vec2 {
    Vec2 {
        x: sat(p.prev_pos.x + tdiv((p.pos.x - p.prev_pos.x) * alpha, SCALE as int)) as i64,
        y: sat(p.prev_pos.y + tdiv((p.pos.y - p.prev_pos.y) * alpha, SCALE as int)) as i64,
    }
}

/// Every contact the pass over the candidate pairs makes is between a listed pair.
proof fn lemma_pairs_pass_listed(ps: Seq<Particle>, pairs: Seq<(usize, usize)>, k: int)
    requires
        0 <= k <= pairs.len(),
    ensures
        forall|j: int|
            0 <= j < pairs_pass(ps, pairs, k).1.len() ==> pairs.contains(
                ((#[trigger] pairs_pass(ps, pairs, k).1[j]).a, pairs_pass(ps, pairs, k).1[j].b),
            ),
    decreases k,
{
    if k > 0 {
        lemma_pairs_pass_listed(ps, pairs, k - 1);
        let (q, cs) = pairs_pass(ps, pairs, k - 1);
        let (q2, c) = resolve_pair(q, pairs[k - 1].0 as int, pairs[k - 1].1 as int);
        let all = pairs_pass(ps, pairs, k).1;
        assert forall|j: int| 0 <= j < all.len() implies pairs.contains(((#[trigger] all[j]).a, all[j].b)) by {
            if j < cs.len() {
                assert(all[j] == cs[j]);
            } else {
                assert(pairs[k - 1] == (all[j].a, all[j].b));
            }
        }
    }
}

/// Every dynamic contact of `k` solver passes is between a listed pair.
proof fn lemma_substeps_listed(ps: Seq<Particle>, pairs: Seq<(usize, usize)>, k: int)
    ensures
        forall|j: int|
            0 <= j < substeps(ps, pairs, k).1.len() ==> pairs.contains(
                ((#[trigger] substeps(ps, pairs, k).1[j]).a, substeps(ps, pairs, k).1[j].b),
            ),
    decreases k,
{
    if k > 0 {
        lemma_substeps_listed(ps, pairs, k - 1);
        let (q, c, s) = substeps(ps, pairs, k - 1);
        lemma_pairs_pass_listed(q, pairs, pairs.len() as int);
        let c2 = substep(q, pairs).1;
        let all = substeps(ps, pairs, k).1;
        assert forall|j: int| 0 <= j < all.len() implies pairs.contains(((#[trigger] all[j]).a, all[j].b)) by {
            if j < c.len() {
                assert(all[j] == c[j]);
            } else {
                assert(all[j] == c2[j - c.len()]);
            }
        }
    }
}

/// Restitution between two dynamic circles of equal mass leaves their total momentum
/// unchanged, component by component and so along the contact normal, as long as no
/// resulting velocity reaches the representable limit.
pub proof fn lemma_equal_masses_conserve_momentum(ps: Seq<Particle>, c: Contact)
    requires
        0 <= c.a < ps.len(),
        0 <= c.b < ps.len(),
        c.a != c.b,
        ps[c.a as int].is_dynamic(),
        ps[c.a as int].mass == ps[c.b as int].mass,
        ps[c.a as int].valid(),
        ps[c.b as int].valid(),
        ({
            let q = resolve_contact_vel(ps, c);
            &&& -LIMIT < q[c.a as int].vel.x < LIMIT
            &&& -LIMIT < q[c.a as int].vel.y < LIMIT
            &&& -LIMIT < q[c.b as int].vel.x < LIMIT
            &&& -LIMIT < q[c.b as int].vel.y < LIMIT
        }),
    ensures
        ({
            let q = resolve_contact_vel(ps, c);
            let (a, b) = (c.a as int, c.b as int);
            let n = c.normal;
            &&& q[a].vel.x + q[b].vel.x == ps[a].vel.x + ps[b].vel.x
            &&& q[a].vel.y + q[b].vel.y == ps[a].vel.y + ps[b].vel.y
            &&& (q[a].vel.x + q[b].vel.x) * n.x + (q[a].vel.y + q[b].vel.y) * n.y == (ps[a].vel.x
                + ps[b].vel.x) * n.x + (ps[a].vel.y + ps[b].vel.y) * n.y
        }),
{
    let (a, b) = (c.a as int, c.b as int);
    let pa = ps[a];
    let pb = ps[b];
    let m = pa.mass_value();
    let n = c.normal;
    let d = crate::contact::restitution_delta(
        pa.pre_solve_vel,
        pb.pre_solve_vel,
        pa.vel,
        pb.vel,
        n,
        pa.restitution.0 + pb.restitution.0,
    );
    let q = resolve_contact_vel(ps, c);
    assert(q[a].vel == nudge_spec(pa.vel, n, d, m, m + m));
    assert(q[b].vel == nudge_spec(pb.vel, n, -d, m, m + m));
    assert(n.x * (-d) * m == -(n.x * d * m) && n.y * (-d) * m == -(n.y * d * m)) by (nonlinear_arith);
    lemma_tdiv_bound(n.x * d * m, SCALE * (m + m));
    lemma_tdiv_bound(n.y * d * m, SCALE * (m + m));
}

impl World {
    /// Empties both contact lists.
    pub fn clear_contacts(&mut self)
        requires
            old(self).wf(),
        ensures
            final(self).wf(),
            same_setup(final(self), old(self)),
            final(self).particles@ == old(self).particles@,
            final(self).collision_pairs.0@ == old(self).collision_pairs.0@,
            final(self).contacts.0@.len() == 0,
            final(self).static_contacts.0@.len() == 0,
    {
        self.contacts.0.clear();
        self.static_contacts.0.clear();
    }

    /// Runs the position solver `substeps` times, as `substeps` states.
    pub fn run_substeps(&mut self)
        requires
            old(self).wf(),
        ensures
            final(self).wf(),
            same_setup(final(self), old(self)),
            final(self).collision_pairs.0@ == old(self).collision_pairs.0@,
            keeps_statics(old(self).particles@, final(self).particles@),
            ({
                let (q, c, s) = substeps(
                    old(self).particles@,
                    old(self).collision_pairs.0@,
                    old(self).substeps as int,
                );
                &&& final(self).particles@ == q
                &&& final(self).contacts.0@ == old(self).contacts.0@ + c
                &&& final(self).static_contacts.0@ == old(self).static_contacts.0@ + s
            }),
    {
        let ghost ps = self.particles@;
        let ghost pairs = self.collision_pairs.0@;
        let ghost c0 = self.contacts.0@;
        let ghost s0 = self.static_contacts.0@;
        let n = self.substeps;
        let mut k: u32 = 0;
        while k < n
            invariant
                self.wf(),
                same_setup(self, old(self)),
                ps == old(self).particles@,
                pairs == old(self).collision_pairs.0@,
                c0 == old(self).contacts.0@,
                s0 == old(self).static_contacts.0@,
                self.collision_pairs.0@ == pairs,
                n == self.substeps,
                k <= n,
                keeps_statics(ps, self.particles@),
                ({
                    let (q, c, s) = substeps(ps, pairs, k as int);
                    &&& self.particles@ == q
                    &&& self.contacts.0@ == c0 + c
                    &&& self.static_contacts.0@ == s0 + s
                }),
            decreases n - k,
        {
            let ghost start = self.particles@;
            self.solve_pos();
            let ghost after_pairs = self.particles@;
            self.solve_pos_statics();
            let ghost after_circles = self.particles@;
            self.solve_pos_static_boxes();
            proof {
                lemma_keeps_statics_trans(ps, start, after_pairs);
                lemma_keeps_statics_trans(ps, after_pairs, after_circles);
                lemma_keeps_statics_trans(ps, after_circles, self.particles@);
                let (q, c, s) = substeps(ps, pairs, k as int);
                let (next, new_contacts, new_static) = substep(q, pairs);
                assert(self.contacts.0@ =~= c0 + (c + new_contacts));
                assert(self.static_contacts.0@ =~= s0 + (s + new_static));
            }
            k = k + 1;
        }
    }

    /// Advances the world by one fixed tick, as `tick` states. Static particles stay as
    /// they are, and every dynamic contact is between two particles that were within the
    /// safety margin of each other at the start of the tick.
    pub fn step(&mut self)
        requires
            old(self).wf(),
        ensures
            final(self).wf(),
            same_setup(final(self), old(self)),
            (
                final(self).particles@,
                final(self).collision_pairs.0@,
                final(self).contacts.0@,
                final(self).static_contacts.0@,
            ) == tick(
                old(self).particles@,
                old(self).gravity.0,
                old(self).tick_rate as int,
                old(self).substeps as int,
            ),
            keeps_statics(old(self).particles@, final(self).particles@),
            forall|k: int|
                0 <= k < final(self).contacts.0@.len() ==> {
                    let c = #[trigger] final(self).contacts.0@[k];
                    &&& c.a < c.b
                    &&& within_margin(
                        old(self).particles@[c.a as int],
                        old(self).particles@[c.b as int],
                        old(self).tick_rate as int,
                    )
                },
    {
        let ghost ps = self.particles@;
        let ghost g = self.gravity.0;
        let ghost rate = self.tick_rate as int;
        let count = self.particles.len();
        assert(ps.len() == count);
        self.collect_collision_pairs();
        let ghost pairs = self.collision_pairs.0@;
        self.integrate();
        let ghost q1 = self.particles@;
        assert(q1 =~= Seq::new(ps.len(), |i: int| integrated(ps[i], g, rate)));
        self.clear_contacts();
        assert(self.contacts.0@ =~= seq![]);
        assert(self.static_contacts.0@ =~= seq![]);
        self.run_substeps();
        let ghost q2 = self.particles@;
        proof {
            let (qq, c, s) = substeps(q1, pairs, self.substeps as int);
            assert(self.contacts.0@ =~= c);
            assert(self.static_contacts.0@ =~= s);
        }
        self.update_vel();
        let ghost q3 = self.particles@;
        assert(q3 =~= Seq::new(q2.len(), |i: int| derived(q2[i], rate)));
        self.solve_vel();
        let ghost q4 = self.particles@;
        self.solve_vel_statics();
        proof {
            lemma_keeps_statics_trans(ps, q1, q2);
            lemma_keeps_statics_trans(ps, q2, q3);
            lemma_keeps_statics_trans(ps, q3, q4);
            lemma_keeps_statics_trans(ps, q4, self.particles@);
            lemma_broad_phase_candidates(ps, rate, ps.len() as int);
            lemma_substeps_listed(q1, pairs, self.substeps as int);
            let cs = self.contacts.0@;
            assert forall|k: int| 0 <= k < cs.len() implies {
                let c = #[trigger] cs[k];
                &&& c.a < c.b
                &&& within_margin(ps[c.a as int], ps[c.b as int], rate)
            } by {
                let c = cs[k];
                assert(pairs.contains((c.a, c.b)));
                let m = choose|m: int| 0 <= m < pairs.len() && pairs[m] == (c.a, c.b);
                assert(is_candidate(ps, c.a as int, c.b as int, rate));
            }
        }
    }

    /// Advances the world by `ticks` fixed ticks, as `ticks_of` states; static particles
    /// stay as they are. After at least one tick, the candidate pairs and the contacts are
    /// those of the last tick; after none, they are left as they were.
    pub fn run(&mut self, ticks: u32)
        requires
            old(self).wf(),
        ensures
            final(self).wf(),
            same_setup(final(self), old(self)),
            keeps_statics(old(self).particles@, final(self).particles@),
            final(self).particles@ == ticks_of(
                old(self).particles@,
                old(self).gravity.0,
                old(self).tick_rate as int,
                old(self).substeps as int,
                ticks as nat,
            ),
            ticks > 0 ==> last_tick_lists(final(self), old(self), ticks as nat),
            ticks == 0 ==> {
                &&& final(self).collision_pairs.0@ == old(self).collision_pairs.0@
                &&& final(self).contacts.0@ == old(self).contacts.0@
                &&& final(self).static_contacts.0@ == old(self).static_contacts.0@
            },
    {
        let ghost ps = self.particles@;
        let ghost g = self.gravity.0;
        let ghost rate = self.tick_rate as int;
        let ghost n = self.substeps as int;
        let mut t: u32 = 0;
        while t < ticks
            invariant
                self.wf(),
                same_setup(self, old(self)),
                ps == old(self).particles@,
                g == old(self).gravity.0,
                rate == old(self).tick_rate as int,
                n == old(self).substeps as int,
                keeps_statics(ps, self.particles@),
                t <= ticks,
                self.particles@ == ticks_of(ps, g, rate, n, t as nat),
                t > 0 ==> last_tick_lists(self, old(self), t as nat),
                t == 0 ==> {
                    &&& self.collision_pairs.0@ == old(self).collision_pairs.0@
                    &&& self.contacts.0@ == old(self).contacts.0@
                    &&& self.static_contacts.0@ == old(self).static_contacts.0@
                },
            decreases ticks - t,
        {
            let ghost before = self.particles@;
            self.step();
            proof {
                lemma_keeps_statics_trans(ps, before, self.particles@);
            }
            t = t + 1;
        }
    }

    /// The position to draw each particle at, `alpha / SCALE` of the way from its previous
    /// to its current position, as `interpolated` states.
    pub fn sync_transforms(&self, alpha: i64) -> (r: Vec<Vec2>)
        requires
            self.wf(),
            0 <= alpha <= SCALE,
        ensures
            r@.len() == self.particles@.len(),
            forall|i: int| 0 <= i < r@.len() ==> #[trigger] r@[i] == interpolated(self.particles@[i], alpha as int),
    {
        let mut out: Vec<Vec2> = Vec::new();
        let n = self.particles.len();
        let mut i: usize = 0;
        while i < n
            invariant
                self.wf(),
                0 <= alpha <= SCALE,
                n == self.particles@.len(),
                i <= n,
                out@.len() == i,
                forall|j: int| 0 <= j < i ==> #[trigger] out@[j] == interpolated(self.particles@[j], alpha as int),
            decreases n - i,
        {
            let p = self.particles[i];
            assert(p.valid());
            let ex: i128 = p.pos.x as i128 - p.prev_pos.x as i128;
            let ey: i128 = p.pos.y as i128 - p.prev_pos.y as i128;
            assert(-(2 * LIMIT * SCALE) <= ex * alpha <= 2 * LIMIT * SCALE && -(2 * LIMIT * SCALE) <= ey
                * alpha <= 2 * LIMIT * SCALE) by (nonlinear_arith)
                requires
                    -2 * LIMIT <= ex <= 2 * LIMIT,
                    -2 * LIMIT <= ey <= 2 * LIMIT,
                    0 <= alpha <= SCALE,
            ;
            let tx = div_trunc(ex * (alpha as i128), SCALE as i128);
            let ty = div_trunc(ey * (alpha as i128), SCALE as i128);
            proof {
                lemma_tdiv_bound(ex * alpha, SCALE as int);
                lemma_tdiv_bound(ey * alpha, SCALE as int);
            }
            out.push(
                Vec2 { x: saturate(p.prev_pos.x as i128 + tx), y: saturate(p.prev_pos.y as i128 + ty) },
            );
            i = i + 1;
        }
        out
    }
}

} // verus!

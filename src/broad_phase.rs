use vstd::prelude::*;

use crate::fixed::{isqrt_ceil, lemma_sqrt_ceil, sqrt_ceil, sqrt_floor, Vec2, LIMIT};
use crate::world::{all_valid, dynamic_pair_ok, Particle, World, MAX_TICK_RATE};

verus! {

/// How many ticks' worth of relative motion the broad phase allows for.
pub const MARGIN_FACTOR: i64 = 2;

/// `ceil(a / b)` for `a >= 0`, `b >= 1`.
pub open spec fn ceil_div(a: int, b: int) -> int {
    (a + b - 1) / b
}

/// The safety margin `k * dt * sqrt(|va|^2 + |vb|^2)`, rounded up, with `dt = 1 / rate`.
pub open spec fn safety_margin(va: Vec2, vb: Vec2, rate: int) -> int {
    let s = sqrt_ceil((va.x * va.x + va.y * va.y + vb.x * vb.x + vb.y * vb.y) as nat) as int;
    ceil_div(MARGIN_FACTOR * s, rate)
}

/// Whether the centres of `a` and `b` are closer than their radii plus the safety margin.
pub open spec fn within_margin(a: Particle, b: Particle, rate: int) -> bool {
    let dx = b.pos.x - a.pos.x;
    let dy = b.pos.y - a.pos.y;
    let r = a.radius() + b.radius() + safety_margin(a.vel, b.vel, rate);
    dx * dx + dy * dy < r * r
}

pub open spec fn is_candidate(ps: Seq<Particle>, i: int, j: int, rate: int) -> bool {
    ps[i].is_dynamic_circle() && ps[j].is_dynamic_circle() && within_margin(ps[i], ps[j], rate)
}

/// Candidates `(i, j)` for `i < j' < j`, in order of `j'`.
pub open spec fn candidates_row(ps: Seq<Particle>, rate: int, i: int, j: int) -> Seq<(usize, usize)>
    decreases j - i,
{
    if j <= i + 1 {
        seq![]
    } else {
        candidates_row(ps, rate, i, j - 1) + if is_candidate(ps, i, j - 1, rate) {
            seq![(i as usize, (j - 1) as usize)]
        } else {
            seq![]
        }
    }
}

/// Candidates whose first index is below `i`, in lexicographic order.
pub open spec fn candidates_upto(ps: Seq<Particle>, rate: int, i: int) -> Seq<(usize, usize)>
    decreases i,
{
    if i <= 0 {
        seq![]
    } else {
        candidates_upto(ps, rate, i - 1) + candidates_row(ps, rate, i - 1, ps.len() as int)
    }
}

/// Every unordered pair of dynamic circles within the safety margin, once, as `(i, j)`
/// with `i < j`, in lexicographic order.
pub open spec fn broad_phase(ps: Seq<Particle>, rate: int) -> Seq<(usize, usize)> {
    candidates_upto(ps, rate, ps.len() as int)
}

/// The pairs listed by the broad phase are exactly candidates.
pub open spec fn only_candidates(ps: Seq<Particle>, rate: int, pairs: Seq<(usize, usize)>) -> bool {
    forall|k: int|
        0 <= k < pairs.len() ==> {
            let (i, j) = #[trigger] pairs[k];
            0 <= i < j < ps.len() && is_candidate(ps, i as int, j as int, rate)
        }
}

proof fn lemma_row_candidates(ps: Seq<Particle>, rate: int, i: int, j: int)
    requires
        0 <= i,
        j <= ps.len() <= usize::MAX,
    ensures
        only_candidates(ps, rate, candidates_row(ps, rate, i, j)),
    decreases j - i,
{
    if j > i + 1 {
        lemma_row_candidates(ps, rate, i, j - 1);
        let front = candidates_row(ps, rate, i, j - 1);
        let all = candidates_row(ps, rate, i, j);
        assert forall|k: int| 0 <= k < all.len() implies {
            let (a, b) = #[trigger] all[k];
            0 <= a < b < ps.len() && is_candidate(ps, a as int, b as int, rate)
        } by {
            if k < front.len() {
                assert(all[k] == front[k]);
            } else {
                assert(all[k] == (i as usize, (j - 1) as usize));
            }
        }
    }
}

/// Everything the broad phase lists is a candidate pair.
pub proof fn lemma_broad_phase_candidates(ps: Seq<Particle>, rate: int, i: int)
    requires
        0 <= i <= ps.len() <= usize::MAX,
    ensures
        only_candidates(ps, rate, candidates_upto(ps, rate, i)),
    decreases i,
{
    if i > 0 {
        lemma_broad_phase_candidates(ps, rate, i - 1);
        lemma_row_candidates(ps, rate, i - 1, ps.len() as int);
        let front = candidates_upto(ps, rate, i - 1);
        let row = candidates_row(ps, rate, i - 1, ps.len() as int);
        let all = candidates_upto(ps, rate, i);
        assert forall|k: int| 0 <= k < all.len() implies {
            let (a, b) = #[trigger] all[k];
            0 <= a < b < ps.len() && is_candidate(ps, a as int, b as int, rate)
        } by {
            if k < front.len() {
                assert(all[k] == front[k]);
            } else {
                assert(all[k] == row[k - front.len()]);
            }
        }
    }
}

/// Two vectors `u`, `w` with `|u| >= r + m` and `|w| <= m` (`r`, `m` not negative) give
/// `|u + w| >= r`; stated on squared lengths.
proof fn lemma_far_plus_short(ux: int, uy: int, wx: int, wy: int, r: int, m: int)
    requires
        r >= 0,
        m >= 0,
        ux * ux + uy * uy >= (r + m) * (r + m),
        wx * wx + wy * wy <= m * m,
    ensures
        (ux + wx) * (ux + wx) + (uy + wy) * (uy + wy) >= r * r,
{
    let a = ux * ux + uy * uy;
    let b = wx * wx + wy * wy;
    let p = ux * wx + uy * wy;
    let a0 = (r + m) * (r + m);
    let rr = r * r;
    let (c1, c2, d1, d2) = (ux * wx, uy * wy, ux * wy, uy * wx);
    assert(a * b == (ux * ux) * (wx * wx) + (ux * ux) * (wy * wy) + (uy * uy) * (wx * wx) + (uy * uy)
        * (wy * wy)) by (nonlinear_arith)
        requires
            a == ux * ux + uy * uy,
            b == wx * wx + wy * wy,
    ;
    assert((ux * ux) * (wx * wx) == c1 * c1 && (uy * uy) * (wy * wy) == c2 * c2 && (ux * ux) * (wy
        * wy) == d1 * d1 && (uy * uy) * (wx * wx) == d2 * d2 && c1 * c2 == d1 * d2)
        by (nonlinear_arith)
        requires
            c1 == ux * wx,
            c2 == uy * wy,
            d1 == ux * wy,
            d2 == uy * wx,
    ;
    assert(p * p == c1 * c1 + 2 * (c1 * c2) + c2 * c2) by (nonlinear_arith)
        requires
            p == c1 + c2,
    ;
    assert((d1 - d2) * (d1 - d2) == d1 * d1 - 2 * (d1 * d2) + d2 * d2) by (nonlinear_arith);
    assert(a * b - p * p == (ux * wy - uy * wx) * (ux * wy - uy * wx));
    assert(p * p <= a * b) by (nonlinear_arith)
        requires
            a * b - p * p == (ux * wy - uy * wx) * (ux * wy - uy * wx),
    ;
    assert(b >= 0) by (nonlinear_arith)
        requires
            b == wx * wx + wy * wy,
    ;
    assert(rr >= 0 && a0 >= b + rr && a0 - b - rr >= 2 * r * m) by (nonlinear_arith)
        requires
            a0 == (r + m) * (r + m),
            rr == r * r,
            b <= m * m,
            r >= 0,
            m >= 0,
    ;
    assert((a0 - b - rr) * (a0 - b - rr) >= 4 * rr * b) by (nonlinear_arith)
        requires
            a0 - b - rr >= 2 * r * m,
            rr == r * r,
            0 <= b <= m * m,
            r >= 0,
            m >= 0,
    ;
    assert((a0 + b - rr) * (a0 + b - rr) - 4 * a0 * b == (a0 - b - rr) * (a0 - b - rr) - 4 * rr * b)
        by (nonlinear_arith);
    assert((a + b - rr) * (a + b - rr) - 4 * a * b - ((a0 + b - rr) * (a0 + b - rr) - 4 * a0 * b) == (a
        - a0) * (a + a0 - 2 * (b + rr))) by (nonlinear_arith);
    assert((a - a0) * (a + a0 - 2 * (b + rr)) >= 0) by (nonlinear_arith)
        requires
            a >= a0,
            a0 >= b + rr,
    ;
    assert(a + b - rr >= 0);
    if a + 2 * p + b < rr {
        assert(false) by (nonlinear_arith)
            requires
                a + 2 * p + b < rr,
                a + b - rr >= 0,
                (a + b - rr) * (a + b - rr) >= 4 * a * b,
                p * p <= a * b,
        ;
    }
    assert((ux + wx) * (ux + wx) + (uy + wy) * (uy + wy) == a + 2 * p + b) by (nonlinear_arith)
        requires
            a == ux * ux + uy * uy,
            b == wx * wx + wy * wy,
            p == ux * wx + uy * wy,
    ;
}

/// The safety margin is never below `k * dt * sqrt(|va|^2 + |vb|^2)`: stated without roots,
/// `(margin * rate)^2 >= k^2 * (|va|^2 + |vb|^2)`.
pub proof fn lemma_margin_covers_speed(va: Vec2, vb: Vec2, rate: int)
    requires
        rate >= 1,
    ensures
        safety_margin(va, vb, rate) >= 0,
        (safety_margin(va, vb, rate) * rate) * (safety_margin(va, vb, rate) * rate) >= MARGIN_FACTOR
            * MARGIN_FACTOR * (va.x * va.x + va.y * va.y + vb.x * vb.x + vb.y * vb.y),
{
    let speed2 = va.x * va.x + va.y * va.y + vb.x * vb.x + vb.y * vb.y;
    assert(speed2 >= 0) by (nonlinear_arith)
        requires
            speed2 == va.x * va.x + va.y * va.y + vb.x * vb.x + vb.y * vb.y,
    ;
    lemma_sqrt_ceil(speed2 as nat);
    let s = sqrt_ceil(speed2 as nat) as int;
    let x = MARGIN_FACTOR * s;
    let m = safety_margin(va, vb, rate);
    assert(m == (x + rate - 1) / rate);
    vstd::arithmetic::div_mod::lemma_fundamental_div_mod(x + rate - 1, rate);
    vstd::arithmetic::div_mod::lemma_div_pos_is_pos(x + rate - 1, rate);
    assert(m * rate >= x) by (nonlinear_arith)
        requires
            x + rate - 1 == rate * m + (x + rate - 1) % rate,
            0 <= (x + rate - 1) % rate < rate,
    {
        vstd::arithmetic::div_mod::lemma_mod_bound(x + rate - 1, rate);
    }
    assert((m * rate) * (m * rate) >= MARGIN_FACTOR * MARGIN_FACTOR * speed2) by (nonlinear_arith)
        requires
            m * rate >= x,
            x == MARGIN_FACTOR * s,
            s >= 0,
            s * s >= speed2,
    ;
}

/// A pair the broad phase leaves out cannot overlap after the two centres move relative to
/// each other by no more than the safety margin: no false negatives within the margin.
pub proof fn lemma_dropped_pair_stays_apart(a: Particle, b: Particle, rate: int, da: Vec2, db: Vec2)
    requires
        a.valid(),
        b.valid(),
        a.is_circle(),
        b.is_circle(),
        rate >= 1,
        !within_margin(a, b, rate),
        (db.x - da.x) * (db.x - da.x) + (db.y - da.y) * (db.y - da.y) <= safety_margin(a.vel, b.vel, rate)
            * safety_margin(a.vel, b.vel, rate),
    ensures
        ((b.pos.x + db.x) - (a.pos.x + da.x)) * ((b.pos.x + db.x) - (a.pos.x + da.x)) + ((b.pos.y
            + db.y) - (a.pos.y + da.y)) * ((b.pos.y + db.y) - (a.pos.y + da.y)) >= (a.radius()
            + b.radius()) * (a.radius() + b.radius()),
{
    lemma_margin_covers_speed(a.vel, b.vel, rate);
    let m = safety_margin(a.vel, b.vel, rate);
    let r = a.radius() + b.radius();
    let ux = b.pos.x - a.pos.x;
    let uy = b.pos.y - a.pos.y;
    lemma_far_plus_short(ux, uy, db.x - da.x, db.y - da.y, r, m);
    assert((b.pos.x + db.x) - (a.pos.x + da.x) == ux + (db.x - da.x));
    assert((b.pos.y + db.y) - (a.pos.y + da.y) == uy + (db.y - da.y));
}

/// Whether two particles are candidates, as `within_margin` states.
fn within_margin_exec(a: &Particle, b: &Particle, ra: i64, rb: i64, rate: i64) -> (r: bool)
    requires
        a.valid(),
        b.valid(),
        ra == a.radius(),
        rb == b.radius(),
        0 <= ra <= LIMIT,
        0 <= rb <= LIMIT,
        1 <= rate <= MAX_TICK_RATE,
    ensures
        r == within_margin(*a, *b, rate as int),
{
    let vax = a.vel.x as i128;
    let vay = a.vel.y as i128;
    let vbx = b.vel.x as i128;
    let vby = b.vel.y as i128;
    assert(0 <= vax * vax <= LIMIT * LIMIT && 0 <= vay * vay <= LIMIT * LIMIT && 0 <= vbx * vbx
        <= LIMIT * LIMIT && 0 <= vby * vby <= LIMIT * LIMIT) by (nonlinear_arith)
        requires
            -LIMIT <= vax <= LIMIT,
            -LIMIT <= vay <= LIMIT,
            -LIMIT <= vbx <= LIMIT,
            -LIMIT <= vby <= LIMIT,
    ;
    let speed2: i128 = vax * vax + vay * vay + vbx * vbx + vby * vby;
    let s = isqrt_ceil(speed2 as u128);
    proof {
        lemma_sqrt_ceil(speed2 as nat);
        crate::fixed::lemma_sqrt_floor(speed2 as nat);
        let f = sqrt_floor(speed2 as nat);
        assert(f <= 2 * LIMIT) by (nonlinear_arith)
            requires
                f * f <= speed2,
                speed2 <= 4 * (LIMIT * LIMIT),
        ;
    }
    let m: i128 = ((MARGIN_FACTOR as i128) * (s as i128) + (rate as i128) - 1) / (rate as i128);
    proof {
        let x = MARGIN_FACTOR * s + rate - 1;
        vstd::arithmetic::div_mod::lemma_div_is_ordered_by_denominator(x, 1, rate as int);
        vstd::arithmetic::div_mod::lemma_div_pos_is_pos(x, rate as int);
        assert(x / 1 == x);
    }
    let dx: i128 = b.pos.x as i128 - a.pos.x as i128;
    let dy: i128 = b.pos.y as i128 - a.pos.y as i128;
    let r: i128 = ra as i128 + rb as i128 + m;
    assert(0 <= dx * dx <= 4 * (LIMIT * LIMIT) && 0 <= dy * dy <= 4 * (LIMIT * LIMIT) && r * r <= 64 * (
    LIMIT * LIMIT)) by (nonlinear_arith)
        requires
            -2 * LIMIT <= dx <= 2 * LIMIT,
            -2 * LIMIT <= dy <= 2 * LIMIT,
            0 <= r <= 8 * LIMIT,
    ;
    dx * dx + dy * dy < r * r
}

impl World {
    /// Replaces the candidate pairs with `broad_phase` of the current particles.
    pub fn collect_collision_pairs(&mut self)
        requires
            old(self).wf(),
        ensures
            final(self).wf(),
            final(self).particles@ == old(self).particles@,
            final(self).gravity == old(self).gravity,
            final(self).tick_rate == old(self).tick_rate,
            final(self).substeps == old(self).substeps,
            final(self).contacts.0@ == old(self).contacts.0@,
            final(self).static_contacts.0@ == old(self).static_contacts.0@,
            final(self).collision_pairs.0@ == broad_phase(old(self).particles@, old(self).tick_rate as int),
    {
        let ghost ps = self.particles@;
        let rate = self.tick_rate;
        let mut pairs: Vec<(usize, usize)> = Vec::new();
        let n = self.particles.len();
        let mut i: usize = 0;
        while i < n
            invariant
                self.particles@ == ps,
                n == ps.len(),
                all_valid(ps),
                1 <= rate <= MAX_TICK_RATE,
                i <= n,
                pairs@ == candidates_upto(ps, rate as int, i as int),
            decreases n - i,
        {
            let a = self.particles[i];
            let mut j: usize = i + 1;
            while j < n
                invariant
                    self.particles@ == ps,
                    n == ps.len(),
                    all_valid(ps),
                    1 <= rate <= MAX_TICK_RATE,
                    i < n,
                    i + 1 <= j <= n,
                    a == ps[i as int],
                    pairs@ == candidates_upto(ps, rate as int, i as int) + candidates_row(
                        ps,
                        rate as int,
                        i as int,
                        j as int,
                    ),
                decreases n - j,
            {
                let b = self.particles[j];
                assert(ps[i as int].valid() && ps[j as int].valid());
                if let (Some(_), Some(_)) = (a.mass, b.mass) {
                    if let (crate::world::Collider::Circle(ca), crate::world::Collider::Circle(cb)) = (
                        a.collider,
                        b.collider,
                    ) {
                        if within_margin_exec(&a, &b, ca.radius, cb.radius, rate) {
                            pairs.push((i, j));
                        }
                    }
                }
                proof {
                    let front = candidates_upto(ps, rate as int, i as int);
                    let row = candidates_row(ps, rate as int, i as int, j as int);
                    let row2 = candidates_row(ps, rate as int, i as int, (j + 1) as int);
                    assert(row2 == row + if is_candidate(ps, i as int, j as int, rate as int) {
                        seq![(i as usize, j as usize)]
                    } else {
                        seq![]
                    });
                    assert(front + row2 =~= pairs@);
                }
                j = j + 1;
            }
            proof {
                assert(candidates_upto(ps, rate as int, (i + 1) as int) == candidates_upto(
                    ps,
                    rate as int,
                    i as int,
                ) + candidates_row(ps, rate as int, i as int, n as int));
            }
            i = i + 1;
        }
        proof {
            lemma_broad_phase_candidates(ps, rate as int, ps.len() as int);
            let bp = broad_phase(ps, rate as int);
            assert forall|k: int| 0 <= k < bp.len() implies dynamic_pair_ok(ps, (#[trigger] bp[k]).0 as int, bp[k].1 as int) by {
                let (x, y) = bp[k];
                assert(is_candidate(ps, x as int, y as int, rate as int));
            }
        }
        self.collision_pairs.0 = pairs;
    }
}

} // verus!

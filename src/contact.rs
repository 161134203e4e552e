use vstd::prelude::*;

use crate::fixed::{
    abs, div_trunc, in_limit, isqrt, lemma_component_le_root, lemma_tdiv_bound, sat, saturate,
    signum, sqrt_floor, tdiv, Vec2, LIMIT, SCALE,
};

verus! {

/// Largest magnitude of an amount that `nudge` scales a normal by.
pub const MAX_AMOUNT: i64 = 35184372088832;

/// Contact of two circles: the normal from `a` to `b` (length `SCALE`) and the depth of
/// overlap, or `None` when they do not overlap or their centres coincide.
pub open spec fn circle_contact_spec(pa: Vec2, ra: int, pb: Vec2, rb: int) -> Option<(int, int, int)> {
    let dx = pb.x - pa.x;
    let dy = pb.y - pa.y;
    let d2 = dx * dx + dy * dy;
    let r = ra + rb;
    if 0 < d2 < r * r {
        let len = sqrt_floor(d2 as nat) as int;
        Some((tdiv(dx * SCALE, len), tdiv(dy * SCALE, len), r - len))
    } else {
        None
    }
}

/// Which feature of a box a circle meets.
pub enum BoxFeature {
    Corner,
    VerticalEdge,
    HorizontalEdge,
}

/// The feature of the box (centre `pb`, full extents `size`) nearest to a circle at `pa`
/// of radius `r`, or `None` when one axis alone already separates them.
pub open spec fn box_feature(pa: Vec2, r: int, pb: Vec2, size: Vec2) -> Option<BoxFeature> {
    let cx = abs(pa.x - pb.x) - size.x / 2;
    let cy = abs(pa.y - pb.y) - size.y / 2;
    if cx > r || cy > r {
        None
    } else if cx > 0 && cy > 0 {
        Some(BoxFeature::Corner)
    } else if cx > cy {
        Some(BoxFeature::VerticalEdge)
    } else {
        Some(BoxFeature::HorizontalEdge)
    }
}

/// Contact of a circle (`pa`, radius `r`) with a box: the normal from the circle towards
/// the box and the depth, or `None` when they do not touch.
pub open spec fn box_contact_spec(pa: Vec2, r: int, pb: Vec2, size: Vec2) -> Option<(int, int, int)> {
    let dx = pa.x - pb.x;
    let dy = pa.y - pb.y;
    let cx = abs(dx) - size.x / 2;
    let cy = abs(dy) - size.y / 2;
    match box_feature(pa, r, pb, size) {
        None => None,
        Some(BoxFeature::Corner) => {
            let cc2 = cx * cx + cy * cy;
            if cc2 > r * r {
                None
            } else {
                let dist = sqrt_floor(cc2 as nat) as int;
                Some(
                    (
                        tdiv(-signum(dx) * cx * SCALE, dist),
                        tdiv(-signum(dy) * cy * SCALE, dist),
                        r - dist,
                    ),
                )
            }
        },
        Some(BoxFeature::VerticalEdge) => Some((-signum(dx) * SCALE, 0, r - cx)),
        Some(BoxFeature::HorizontalEdge) => Some((0, -signum(dy) * SCALE, r - cy)),
    }
}

/// `p` moved along the normal `n` by `amount * num / den`, rounded toward zero and clamped.
pub open spec fn nudge_spec(p: Vec2, n: Vec2, amount: int, num: int, den: int) -> Vec2 {
    Vec2 {
        x: sat(p.x + tdiv(n.x * amount * num, SCALE * den)) as i64,
        y: sat(p.y + tdiv(n.y * amount * num, SCALE * den)) as i64,
    }
}

/// Relative speed of `a` with respect to `b` along `n`.
pub open spec fn normal_speed(va: Vec2, vb: Vec2, n: Vec2) -> int {
    tdiv((va.x - vb.x) * n.x + (va.y - vb.y) * n.y, SCALE as int)
}

/// The change of normal speed that restitution asks for: the speed after the position
/// solve is cancelled and `e` times the speed before it is reversed, where `e` is the
/// mean of the two coefficients (`e_sum / 2`).
pub open spec fn restitution_delta(pre_a: Vec2, pre_b: Vec2, va: Vec2, vb: Vec2, n: Vec2, e_sum: int) -> int {
    -normal_speed(va, vb, n) - tdiv(e_sum * normal_speed(pre_a, pre_b, n), 2 * SCALE)
}

pub open spec fn normal_ok(n: Vec2) -> bool {
    -SCALE <= n.x <= SCALE && -SCALE <= n.y <= SCALE
}

/// A circle whose centre lies strictly within half the width of the box never meets a corner;
/// when its centre is also at or beyond the top or bottom face, it meets that horizontal
/// face, with the normal `(0, -SCALE)` above the box and `(0, SCALE)` below it.
pub proof fn lemma_circle_over_box_meets_face(pa: Vec2, r: int, pb: Vec2, size: Vec2)
    requires
        abs(pa.x - pb.x) < size.x / 2,
    ensures
        box_feature(pa, r, pb, size) != Some(BoxFeature::Corner),
        abs(pa.y - pb.y) >= size.y / 2 && box_contact_spec(pa, r, pb, size) is Some ==> {
            &&& box_feature(pa, r, pb, size) == Some(BoxFeature::HorizontalEdge)
            &&& box_contact_spec(pa, r, pb, size) == Some(
                (0int, -signum(pa.y - pb.y) * SCALE, r - (abs(pa.y - pb.y) - size.y / 2)),
            )
        },
{
}

proof fn lemma_tdiv_le(a: int, b: int, m: int)
    requires
        b >= 1,
        m >= 0,
        abs(a) <= m * b,
    ensures
        abs(tdiv(a, b)) <= m,
{
    lemma_tdiv_bound(a, b);
    let q = abs(tdiv(a, b));
    assert(q <= m) by (nonlinear_arith)
        requires
            q * b <= m * b,
            b >= 1,
            q >= 0,
    ;
}

proof fn lemma_abs_mul(a: int, b: int, x: int, y: int)
    requires
        abs(a) <= x,
        abs(b) <= y,
    ensures
        abs(a * b) <= x * y,
        -(x * y) <= a * b <= x * y,
{
    assert(abs(a * b) == abs(a) * abs(b)) by (nonlinear_arith);
    assert(abs(a) * abs(b) <= x * y) by (nonlinear_arith)
        requires
            0 <= abs(a) <= x,
            0 <= abs(b) <= y,
    ;
}

/// Contact of two circles, as `circle_contact_spec` states.
pub fn circle_contact(pa: Vec2, ra: i64, pb: Vec2, rb: i64) -> (r: Option<(Vec2, i64)>)
    requires
        pa.in_limit(),
        pb.in_limit(),
        0 <= ra <= LIMIT,
        0 <= rb <= LIMIT,
    ensures
        r is Some <==> circle_contact_spec(pa, ra as int, pb, rb as int) is Some,
        r matches Some((n, d)) ==> {
            &&& circle_contact_spec(pa, ra as int, pb, rb as int) == Some(
                (n.x as int, n.y as int, d as int),
            )
            &&& normal_ok(n)
            &&& 0 < d <= 2 * LIMIT
        },
{
    let dx: i128 = pb.x as i128 - pa.x as i128;
    let dy: i128 = pb.y as i128 - pa.y as i128;
    proof {
        lemma_abs_mul(dx as int, dx as int, 2 * LIMIT, 2 * LIMIT);
        lemma_abs_mul(dy as int, dy as int, 2 * LIMIT, 2 * LIMIT);
    }
    let d2: i128 = dx * dx + dy * dy;
    let rr: i128 = ra as i128 + rb as i128;
    proof {
        lemma_abs_mul(rr as int, rr as int, 2 * LIMIT, 2 * LIMIT);
    }
    if 0 < d2 && d2 < rr * rr {
        let len_u = isqrt(d2 as u128);
        assert(len_u < rr) by (nonlinear_arith)
            requires
                len_u * len_u <= d2,
                d2 < rr * rr,
                rr >= 0,
        ;
        assert(len_u >= 1) by (nonlinear_arith)
            requires
                d2 < (len_u + 1) * (len_u + 1),
                d2 >= 1,
        ;
        let len: i128 = len_u as i128;
        proof {
            assert(dx * dx <= d2 && dy * dy <= d2) by (nonlinear_arith)
                requires
                    d2 == dx * dx + dy * dy,
            ;
            lemma_component_le_root(dx as int, d2 as int, len as int);
            lemma_component_le_root(dy as int, d2 as int, len as int);
            lemma_abs_mul(dx as int, SCALE as int, len as int, SCALE as int);
            lemma_abs_mul(dy as int, SCALE as int, len as int, SCALE as int);
            assert(len * SCALE == SCALE * len) by (nonlinear_arith);
            lemma_tdiv_le(dx * SCALE, len as int, SCALE as int);
            lemma_tdiv_le(dy * SCALE, len as int, SCALE as int);
        }
        let nx = div_trunc(dx * (SCALE as i128), len);
        let ny = div_trunc(dy * (SCALE as i128), len);
        Some((Vec2 { x: nx as i64, y: ny as i64 }, (rr - len) as i64))
    } else {
        None
    }
}

/// The feature of a box that a circle meets, as `box_feature` states.
pub fn nearest_feature(pa: Vec2, r: i64, pb: Vec2, size: Vec2) -> (f: Option<BoxFeature>)
    requires
        pa.in_limit(),
        pb.in_limit(),
        0 <= r <= LIMIT,
        0 <= size.x <= LIMIT,
        0 <= size.y <= LIMIT,
    ensures
        f == box_feature(pa, r as int, pb, size),
{
    let dx: i128 = pa.x as i128 - pb.x as i128;
    let dy: i128 = pa.y as i128 - pb.y as i128;
    let ax: i128 = if dx >= 0 { dx } else { -dx };
    let ay: i128 = if dy >= 0 { dy } else { -dy };
    let cx: i128 = ax - (size.x / 2) as i128;
    let cy: i128 = ay - (size.y / 2) as i128;
    let rr = r as i128;
    if cx > rr || cy > rr {
        None
    } else if cx > 0 && cy > 0 {
        Some(BoxFeature::Corner)
    } else if cx > cy {
        Some(BoxFeature::VerticalEdge)
    } else {
        Some(BoxFeature::HorizontalEdge)
    }
}

/// Contact of a circle with a box, as `box_contact_spec` states.
pub fn box_contact(pa: Vec2, r: i64, pb: Vec2, size: Vec2) -> (c: Option<(Vec2, i64)>)
    requires
        pa.in_limit(),
        pb.in_limit(),
        0 <= r <= LIMIT,
        0 <= size.x <= LIMIT,
        0 <= size.y <= LIMIT,
    ensures
        c is Some <==> box_contact_spec(pa, r as int, pb, size) is Some,
        c matches Some((n, d)) ==> {
            &&& box_contact_spec(pa, r as int, pb, size) == Some(
                (n.x as int, n.y as int, d as int),
            )
            &&& normal_ok(n)
            &&& 0 <= d <= 2 * LIMIT
        },
{
    let dx: i128 = pa.x as i128 - pb.x as i128;
    let dy: i128 = pa.y as i128 - pb.y as i128;
    let sx: i128 = if dx >= 0 { 1 } else { -1 };
    let sy: i128 = if dy >= 0 { 1 } else { -1 };
    let ax: i128 = if dx >= 0 { dx } else { -dx };
    let ay: i128 = if dy >= 0 { dy } else { -dy };
    let cx: i128 = ax - (size.x / 2) as i128;
    let cy: i128 = ay - (size.y / 2) as i128;
    let rr = r as i128;
    match nearest_feature(pa, r, pb, size) {
        None => None,
        Some(BoxFeature::Corner) => {
            proof {
                lemma_abs_mul(cx as int, cx as int, 2 * LIMIT, 2 * LIMIT);
                lemma_abs_mul(cy as int, cy as int, 2 * LIMIT, 2 * LIMIT);
                lemma_abs_mul(rr as int, rr as int, LIMIT as int, LIMIT as int);
            }
            let cc2: i128 = cx * cx + cy * cy;
            if cc2 > rr * rr {
                None
            } else {
                assert(cc2 >= 2) by (nonlinear_arith)
                    requires
                        cx >= 1,
                        cy >= 1,
                        cc2 == cx * cx + cy * cy,
                ;
                let dist_u = isqrt(cc2 as u128);
                assert(1 <= dist_u <= rr) by (nonlinear_arith)
                    requires
                        dist_u * dist_u <= cc2,
                        cc2 < (dist_u + 1) * (dist_u + 1),
                        cc2 <= rr * rr,
                        cc2 >= 2,
                        rr >= 1,
                ;
                let dist: i128 = dist_u as i128;
                proof {
                    assert(cx * cx <= cc2 && cy * cy <= cc2) by (nonlinear_arith)
                        requires
                            cc2 == cx * cx + cy * cy,
                    ;
                    lemma_component_le_root(cx as int, cc2 as int, dist as int);
                    lemma_component_le_root(cy as int, cc2 as int, dist as int);
                    assert(abs(-sx * cx) == abs(cx as int) && abs(-sy * cy) == abs(cy as int))
                        by (nonlinear_arith)
                        requires
                            sx == 1 || sx == -1,
                            sy == 1 || sy == -1,
                    ;
                    lemma_abs_mul(-sx * cx, SCALE as int, dist as int, SCALE as int);
                    lemma_abs_mul(-sy * cy, SCALE as int, dist as int, SCALE as int);
                    assert(dist * SCALE == SCALE * dist) by (nonlinear_arith);
                    lemma_tdiv_le(-sx * cx * SCALE, dist as int, SCALE as int);
                    lemma_tdiv_le(-sy * cy * SCALE, dist as int, SCALE as int);
                }
                let nx = div_trunc(-sx * cx * (SCALE as i128), dist);
                let ny = div_trunc(-sy * cy * (SCALE as i128), dist);
                Some((Vec2 { x: nx as i64, y: ny as i64 }, (rr - dist) as i64))
            }
        },
        Some(BoxFeature::VerticalEdge) => Some(
            (Vec2 { x: (-sx * (SCALE as i128)) as i64, y: 0 }, (rr - cx) as i64),
        ),
        Some(BoxFeature::HorizontalEdge) => Some(
            (Vec2 { x: 0, y: (-sy * (SCALE as i128)) as i64 }, (rr - cy) as i64),
        ),
    }
}

/// Moves `p` along `n` by `amount * num / den`, as `nudge_spec` states.
pub fn nudge(p: Vec2, n: Vec2, amount: i64, num: i64, den: i64) -> (r: Vec2)
    requires
        p.in_limit(),
        normal_ok(n),
        -MAX_AMOUNT <= amount <= MAX_AMOUNT,
        1 <= num <= den <= 4 * LIMIT,
    ensures
        r == nudge_spec(p, n, amount as int, num as int, den as int),
        r.in_limit(),
{
    proof {
        lemma_abs_mul(n.x as int, amount as int, SCALE as int, MAX_AMOUNT as int);
        lemma_abs_mul(n.y as int, amount as int, SCALE as int, MAX_AMOUNT as int);
        lemma_abs_mul(n.x * amount, num as int, SCALE * MAX_AMOUNT, 4 * LIMIT);
        lemma_abs_mul(n.y * amount, num as int, SCALE * MAX_AMOUNT, 4 * LIMIT);
        lemma_tdiv_bound(n.x * amount * num, SCALE * den);
        lemma_tdiv_bound(n.y * amount * num, SCALE * den);
    }
    let den_s: i128 = (SCALE as i128) * (den as i128);
    let tx = div_trunc((n.x as i128) * (amount as i128) * (num as i128), den_s);
    let ty = div_trunc((n.y as i128) * (amount as i128) * (num as i128), den_s);
    Vec2 { x: saturate(p.x as i128 + tx), y: saturate(p.y as i128 + ty) }
}

/// The restitution correction along `n`, as `restitution_delta` states.
pub fn velocity_delta(pre_a: Vec2, pre_b: Vec2, va: Vec2, vb: Vec2, n: Vec2, e_sum: i64) -> (d: i64)
    requires
        pre_a.in_limit(),
        pre_b.in_limit(),
        va.in_limit(),
        vb.in_limit(),
        normal_ok(n),
        0 <= e_sum <= 2 * SCALE,
    ensures
        d == restitution_delta(pre_a, pre_b, va, vb, n, e_sum as int),
        -MAX_AMOUNT <= d <= MAX_AMOUNT,
{
    let pre = normal_component(pre_a, pre_b, n);
    let now = normal_component(va, vb, n);
    proof {
        lemma_abs_mul(e_sum as int, pre as int, 2 * SCALE, 4 * LIMIT);
        assert(2 * SCALE * (4 * LIMIT) == (4 * LIMIT) * (2 * SCALE));
        lemma_tdiv_le(e_sum * pre, 2 * SCALE, 4 * LIMIT);
    }
    let e_term = div_trunc((e_sum as i128) * (pre as i128), 2 * (SCALE as i128));
    (-(now as i128) - e_term) as i64
}

/// Relative speed along `n`, as `normal_speed` states.
fn normal_component(va: Vec2, vb: Vec2, n: Vec2) -> (s: i64)
    requires
        va.in_limit(),
        vb.in_limit(),
        normal_ok(n),
    ensures
        s == normal_speed(va, vb, n),
        abs(s as int) <= 4 * LIMIT,
{
    let rx: i128 = va.x as i128 - vb.x as i128;
    let ry: i128 = va.y as i128 - vb.y as i128;
    proof {
        lemma_abs_mul(rx as int, n.x as int, 2 * LIMIT, SCALE as int);
        lemma_abs_mul(ry as int, n.y as int, 2 * LIMIT, SCALE as int);
        assert(2 * LIMIT * SCALE + 2 * LIMIT * SCALE == (4 * LIMIT) * SCALE);
        lemma_tdiv_le(rx * n.x + ry * n.y, SCALE as int, 4 * LIMIT);
    }
    div_trunc(rx * (n.x as i128) + ry * (n.y as i128), SCALE as i128) as i64
}

} // verus!

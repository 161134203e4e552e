use vstd::prelude::*;

verus! {

/// Raw units that make one unit of length (or of mass, or of a coefficient).
pub const SCALE: i64 = 65536;

/// Largest magnitude that a stored coordinate, velocity, size or mass may have.
pub const LIMIT: i64 = 1099511627776;

/// Division that rounds toward zero, as Rust's `/` does on signed integers.
pub open spec fn tdiv(a: int, b: int) -> int {
    if a >= 0 {
        a / b
    } else {
        -((-a) / b)
    }
}

/// Clamps `x` into the representable range `[-LIMIT, LIMIT]`.
pub open spec fn sat(x: int) -> int {
    if x > LIMIT {
        LIMIT as int
    } else if x < -LIMIT {
        -LIMIT as int
    } else {
        x
    }
}

pub open spec fn in_limit(x: int) -> bool {
    -LIMIT <= x <= LIMIT
}

pub open spec fn abs(x: int) -> int {
    if x >= 0 {
        x
    } else {
        -x
    }
}

/// +1 for zero and positive values, -1 for negative ones.
pub open spec fn signum(x: int) -> int {
    if x >= 0 {
        1
    } else {
        -1
    }
}

/// The largest `r` with `r * r <= x`.
pub open spec fn sqrt_floor(x: nat) -> nat
    decreases x,
{
    if x == 0 {
        0
    } else {
        let r = sqrt_floor((x - 1) as nat);
        if (r + 1) * (r + 1) <= x {
            r + 1
        } else {
            r
        }
    }
}

/// The smallest `r` with `x <= r * r`.
pub open spec fn sqrt_ceil(x: nat) -> nat {
    let r = sqrt_floor(x);
    if r * r == x {
        r
    } else {
        r + 1
    }
}

pub proof fn lemma_sqrt_floor(x: nat)
    ensures
        sqrt_floor(x) * sqrt_floor(x) <= x < (sqrt_floor(x) + 1) * (sqrt_floor(x) + 1),
    decreases x,
{
    if x > 0 {
        lemma_sqrt_floor((x - 1) as nat);
        let r = sqrt_floor((x - 1) as nat);
        assert(r * r <= x - 1 < (r + 1) * (r + 1));
        if (r + 1) * (r + 1) <= x {
            let s = sqrt_floor(x);
            assert(s == r + 1);
            assert(s * s <= x < (s + 1) * (s + 1)) by (nonlinear_arith)
                requires
                    s == r + 1,
                    (r + 1) * (r + 1) <= x,
                    x - 1 < (r + 1) * (r + 1),
            ;
        } else {
            let s = sqrt_floor(x);
            assert(s == r);
            assert(s * s <= x < (s + 1) * (s + 1));
        }
    } else {
        assert(sqrt_floor(x) == 0);
        assert(x == 0);
        let s = sqrt_floor(x);
        assert(s * s <= x < (s + 1) * (s + 1)) by (nonlinear_arith)
            requires
                s == 0,
                x == 0,
        ;
    }
}

pub proof fn lemma_sqrt_floor_unique(x: nat, r: nat)
    requires
        r * r <= x < (r + 1) * (r + 1),
    ensures
        sqrt_floor(x) == r,
{
    lemma_sqrt_floor(x);
    let s = sqrt_floor(x);
    if s < r {
        assert((s + 1) * (s + 1) <= r * r) by (nonlinear_arith)
            requires
                s + 1 <= r,
        ;
    } else if s > r {
        assert((r + 1) * (r + 1) <= s * s) by (nonlinear_arith)
            requires
                r + 1 <= s,
        ;
    }
}

pub proof fn lemma_sqrt_ceil(x: nat)
    ensures
        x <= sqrt_ceil(x) * sqrt_ceil(x),
        sqrt_ceil(x) <= sqrt_floor(x) + 1,
{
    lemma_sqrt_floor(x);
}

/// A component of a vector never exceeds the floor root of the squared length.
pub proof fn lemma_component_le_root(c: int, d2: int, len: int)
    requires
        0 <= len,
        c * c <= d2,
        d2 < (len + 1) * (len + 1),
    ensures
        abs(c) <= len,
{
    if abs(c) > len {
        assert((len + 1) * (len + 1) <= c * c) by (nonlinear_arith)
            requires
                abs(c) >= len + 1,
                len >= 0,
        ;
    }
}

pub proof fn lemma_tdiv_bound(a: int, b: int)
    requires
        b >= 1,
    ensures
        abs(tdiv(a, b)) * b <= abs(a),
        abs(tdiv(a, b)) <= abs(a),
        tdiv(-a, b) == -tdiv(a, b),
{
    let m = abs(a);
    let q = m / b;
    assert(q * b <= m) by (nonlinear_arith)
        requires
            q == m / b,
            b >= 1,
            m >= 0,
    ;
    assert(q <= m) by (nonlinear_arith)
        requires
            q * b <= m,
            b >= 1,
            m >= 0,
            q >= 0,
    ;
    if a == 0 {
        assert(tdiv(-a, b) == -tdiv(a, b));
    }
}

/// `tdiv(a * k, b * k) == tdiv(a, b)` for a positive factor `k`.
pub proof fn lemma_tdiv_cancel(a: int, b: int, k: int)
    requires
        b >= 1,
        k >= 1,
    ensures
        tdiv(a * k, b * k) == tdiv(a, b),
{
    let m = abs(a);
    vstd::arithmetic::div_mod::lemma_div_multiples_vanish_quotient(k, m, b);
    assert(m * k == k * m && b * k == k * b) by (nonlinear_arith);
    if a < 0 {
        assert(abs(a * k) == m * k) by (nonlinear_arith)
            requires
                a < 0,
                k >= 1,
                m == -a,
        ;
        assert(a * k < 0) by (nonlinear_arith)
            requires
                a < 0,
                k >= 1,
        ;
    } else {
        assert(a * k >= 0) by (nonlinear_arith)
            requires
                a >= 0,
                k >= 1,
        ;
    }
}

/// A vector of raw fixed-point values.
#[derive(Clone, Copy, Debug, PartialEq, Eq, Structural)]
pub struct Vec2 {
    pub x: i64,
    pub y: i64,
}

impl Vec2 {
    pub open spec fn in_limit(self) -> bool {
        in_limit(self.x as int) && in_limit(self.y as int)
    }

    pub fn new(x: i64, y: i64) -> (r: Vec2)
        ensures
            r.x == x,
            r.y == y,
    {
        Vec2 { x, y }
    }

    pub fn zero() -> (r: Vec2)
        ensures
            r.x == 0,
            r.y == 0,
    {
        Vec2 { x: 0, y: 0 }
    }
}

/// Rust's `/` on a signed dividend and a positive divisor.
pub fn div_trunc(a: i128, b: i128) -> (r: i128)
    requires
        b > 0,
        a > i128::MIN,
    ensures
        r == tdiv(a as int, b as int),
{
    if a >= 0 {
        a / b
    } else {
        let m: i128 = -a;
        -(m / b)
    }
}

/// Clamps a wide value into `[-LIMIT, LIMIT]`.
pub fn saturate(x: i128) -> (r: i64)
    ensures
        r == sat(x as int),
        in_limit(r as int),
{
    if x > LIMIT as i128 {
        LIMIT
    } else if x < -(LIMIT as i128) {
        -LIMIT
    } else {
        x as i64
    }
}

/// The floor square root of `x`.
pub fn isqrt(x: u128) -> (r: u128)
    requires
        x < 0x10000000000000000000000000,
    ensures
        r == sqrt_floor(x as nat),
        r * r <= x < (r + 1) * (r + 1),
{
    let mut lo: u128 = 0;
    let mut hi: u128 = 0x4000000000000;
    assert(hi * hi == 0x10000000000000000000000000);
    while hi - lo > 1
        invariant
            lo < hi <= 0x4000000000000,
            lo * lo <= x < hi * hi,
        decreases hi - lo,
    {
        let mid: u128 = lo + (hi - lo) / 2;
        assert(mid * mid <= 0x4000000000000 * 0x4000000000000) by (nonlinear_arith)
            requires
                mid < 0x4000000000000,
        ;
        if mid * mid <= x {
            lo = mid;
        } else {
            hi = mid;
        }
    }
    assert(hi == lo + 1);
    proof {
        lemma_sqrt_floor_unique(x as nat, lo as nat);
    }
    lo
}

/// The ceiling square root of `x`.
pub fn isqrt_ceil(x: u128) -> (r: u128)
    requires
        x < 0x10000000000000000000000000,
    ensures
        r == sqrt_ceil(x as nat),
{
    let f = isqrt(x);
    assert(f < 0x4000000000000) by (nonlinear_arith)
        requires
            f * f <= x,
            x < 0x10000000000000000000000000,
    ;
    if f * f == x {
        f
    } else {
        f + 1
    }
}

} // verus!

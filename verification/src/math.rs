use vstd::prelude::*;

verus! {

use vstd::arithmetic::div_mod::{
    lemma_fundamental_div_mod, lemma_fundamental_div_mod_converse, lemma_mod_bound,
    lemma_mod_pos_bound,
};

/// Number of fixed-point sub-units per world unit. All positions, velocities
/// and magnitudes in the simulation are integers in these sub-units.
pub const SCALE: i64 = 1000;

/// Magnitude bound on every coordinate the simulation handles, in sub-units.
/// Keeping all coordinates within this bound keeps every intermediate product
/// of the fixed-point arithmetic inside `i64`.
pub const COORD_LIMIT: i64 = 0x4000_0000;

/// A two-dimensional vector in fixed-point sub-units.
#[derive(Clone, Copy, PartialEq, Eq, Structural, Debug)]
pub struct Vec2 {
    pub x: i64,
    pub y: i64,
}

impl Vec2 {
    /// All coordinates the simulation works with stay within `COORD_LIMIT`.
    pub open spec fn bounded(self) -> bool {
        &&& -COORD_LIMIT <= self.x <= COORD_LIMIT
        &&& -COORD_LIMIT <= self.y <= COORD_LIMIT
    }

    /// Squared Euclidean norm.
    pub open spec fn norm2(self) -> int {
        self.x * self.x + self.y * self.y
    }

}

/// Wrapping a coordinate into a toroidal extent is the Euclidean remainder.
pub open spec fn wrap_spec(x: int, w: int) -> int {
    x % w
}

/// Fold `x` into the half-open interval `[0, w)`, treating the axis as a
/// circle of circumference `w`.
pub fn wrap_coord(x: i64, w: i64) -> (r: i64)
    requires
        0 < w,
        i64::MIN < x,
    ensures
        r == wrap_spec(x as int, w as int),
        0 <= r < w,
{
    if 0 <= x && x < w {
        proof {
            lemma_fundamental_div_mod_converse(x as int, w as int, 0, x as int);
        }
        x
    } else if x >= 0 {
        proof {
            lemma_mod_pos_bound(x as int, w as int);
        }
        x % w
    } else {
        let a = -x;
        let m = a % w;
        proof {
            lemma_mod_pos_bound(a as int, w as int);
            lemma_fundamental_div_mod(a as int, w as int);
            let q = a as int / w as int;
            if m == 0 {
                assert(x as int == (-q) * w + 0) by (nonlinear_arith)
                    requires
                        a == q * w,
                        x == -a,
                ;
                lemma_fundamental_div_mod_converse(x as int, w as int, -q, 0);
            } else {
                assert(x as int == (-q - 1) * w + (w - m)) by (nonlinear_arith)
                    requires
                        a as int == w as int * q + m as int,
                        x == -a,
                ;
                lemma_fundamental_div_mod_converse(x as int, w as int, -q - 1, w - m);
            }
        }
        if m == 0 {
            0
        } else {
            w - m
        }
    }
}

/// The wrap of any coordinate lands in `[0, w)`: the Euclidean remainder is
/// bounded by the modulus.
pub proof fn lemma_wrap_in_bounds(x: int, w: int)
    requires
        0 < w,
    ensures
        0 <= wrap_spec(x, w) < w,
{
    lemma_mod_bound(x, w);
}

/// Holds when `r` is the smallest non-negative integer whose square reaches `s`.
pub open spec fn is_ceil_sqrt(r: int, s: int) -> bool {
    &&& r >= 0
    &&& r * r >= s
    &&& r > 0 ==> (r - 1) * (r - 1) < s
}

/// The smallest non-negative integer whose square reaches `s`.
pub open spec fn ceil_sqrt(s: int) -> int {
    choose|r: int| is_ceil_sqrt(r, s)
}

/// Every non-negative integer has a ceiling square root, so `ceil_sqrt` is
/// meaningful on the whole range the simulation uses.
pub proof fn lemma_ceil_sqrt_exists(s: int)
    requires
        0 <= s,
    ensures
        is_ceil_sqrt(ceil_sqrt(s), s),
    decreases s,
{
    if s == 0 {
        assert(is_ceil_sqrt(0, 0));
    } else {
        lemma_ceil_sqrt_exists(s - 1);
        let r = ceil_sqrt(s - 1);
        if r * r >= s {
            assert(is_ceil_sqrt(r, s));
        } else {
            assert(r * r == s - 1);
            assert((r + 1) * (r + 1) >= s) by (nonlinear_arith)
                requires
                    r >= 0,
                    r * r == s - 1,
            ;
            assert(is_ceil_sqrt(r + 1, s));
        }
    }
}

pub proof fn lemma_ceil_sqrt_unique(a: int, b: int, s: int)
    requires
        is_ceil_sqrt(a, s),
        is_ceil_sqrt(b, s),
    ensures
        a == b,
{
    if a < b {
        assert(a * a <= (b - 1) * (b - 1)) by (nonlinear_arith)
            requires
                0 <= a,
                a <= b - 1,
        ;
    }
    if b < a {
        assert(b * b <= (a - 1) * (a - 1)) by (nonlinear_arith)
            requires
                0 <= b,
                b <= a - 1,
        ;
    }
}

/// Smallest non-negative integer `r` with `r * r >= s`, by bisection.
pub fn isqrt_ceil(s: i64) -> (r: i64)
    requires
        0 <= s <= 0x4000_0000_0000_0000,
    ensures
        is_ceil_sqrt(r as int, s as int),
        r == ceil_sqrt(s as int),
        0 <= r <= 0x8000_0000,
{
    if s == 0 {
        proof {
            assert(is_ceil_sqrt(0, 0));
            assert(is_ceil_sqrt(ceil_sqrt(0), 0));
            lemma_ceil_sqrt_unique(0, ceil_sqrt(0), 0);
        }
        return 0;
    }
    let mut lo: i64 = 0;
    let mut hi: i64 = 0x8000_0000;
    proof {
        assert(0x8000_0000i64 * 0x8000_0000i64 == 0x4000_0000_0000_0000) by (nonlinear_arith);
    }
    while lo + 1 < hi
        invariant
            0 <= lo < hi <= 0x8000_0000,
            lo * lo < s,
            hi * hi >= s,
            1 <= s <= 0x4000_0000_0000_0000,
        decreases hi - lo,
    {
        let mid = lo + (hi - lo) / 2;
        proof {
            lemma_mod_pos_bound((hi - lo) as int, 2);
            lemma_fundamental_div_mod((hi - lo) as int, 2);
            assert(mid * mid <= 0x4000_0000_0000_0000) by (nonlinear_arith)
                requires
                    0 <= mid <= 0x8000_0000,
            ;
        }
        if mid * mid >= s {
            hi = mid;
        } else {
            lo = mid;
        }
    }
    proof {
        assert(is_ceil_sqrt(hi as int, s as int));
        assert(is_ceil_sqrt(ceil_sqrt(s as int), s as int));
        lemma_ceil_sqrt_unique(hi as int, ceil_sqrt(s as int), s as int);
    }
    hi
}

/// `a * m / n` with the quotient rounded toward zero, so the result never
/// grows past the exact quotient in magnitude.
pub open spec fn mul_div_spec(a: int, m: int, n: int) -> int
    recommends
        m >= 0,
        n > 0,
{
    if a >= 0 {
        (a * m) / n
    } else {
        -(((-a) * m) / n)
    }
}

pub fn mul_div(a: i64, m: i64, n: i64) -> (r: i64)
    requires
        -COORD_LIMIT <= a <= COORD_LIMIT,
        0 <= m <= COORD_LIMIT,
        0 < n,
    ensures
        r == mul_div_spec(a as int, m as int, n as int),
{
    let aa = if a < 0 {
        -a
    } else {
        a
    };
    proof {
        assert(aa * m <= 0x4000_0000i64 * 0x4000_0000i64) by (nonlinear_arith)
            requires
                0 <= aa <= 0x4000_0000,
                0 <= m <= 0x4000_0000,
        ;
        assert(0x4000_0000i64 * 0x4000_0000i64 == 0x1000_0000_0000_0000) by (nonlinear_arith);
    }
    let p = aa * m;
    let q = p / n;
    proof {
        lemma_mod_pos_bound(p as int, n as int);
        lemma_fundamental_div_mod(p as int, n as int);
        assert(q >= 0) by (nonlinear_arith)
            requires
                p >= 0,
                n > 0,
                p as int == (n as int) * (q as int) + ((p as int) % (n as int)),
                0 <= (p as int) % (n as int),
                ((p as int) % (n as int)) < n as int,
        ;
        assert(q * n <= p) by (nonlinear_arith)
            requires
                p as int == (n as int) * (q as int) + ((p as int) % (n as int)),
                0 <= (p as int) % (n as int),
        ;
    }
    if a < 0 {
        -q
    } else {
        q
    }
}

/// Core bound of the fixed-point rescaling: dividing both components by an
/// integer at least the vector's norm and multiplying by `t` yields a vector
/// of norm at most `t`.
pub proof fn lemma_scaled_norm(x: int, y: int, t: int, n: int)
    requires
        0 <= t,
        0 < n,
        x * x + y * y <= n * n,
    ensures
        mul_div_spec(x, t, n) * mul_div_spec(x, t, n) + mul_div_spec(y, t, n) * mul_div_spec(
            y,
            t,
            n,
        ) <= t * t,
{
    let ax = if x >= 0 {
        x
    } else {
        -x
    };
    let ay = if y >= 0 {
        y
    } else {
        -y
    };
    let dx = (ax * t) / n;
    let dy = (ay * t) / n;
    assert(ax * t >= 0) by (nonlinear_arith)
        requires
            ax >= 0,
            t >= 0,
    ;
    assert(ay * t >= 0) by (nonlinear_arith)
        requires
            ay >= 0,
            t >= 0,
    ;
    lemma_fundamental_div_mod(ax * t, n);
    lemma_mod_pos_bound(ax * t, n);
    lemma_fundamental_div_mod(ay * t, n);
    lemma_mod_pos_bound(ay * t, n);
    assert(ax * ax == x * x) by (nonlinear_arith)
        requires
            ax == x || ax == -x,
    ;
    assert(ay * ay == y * y) by (nonlinear_arith)
        requires
            ay == y || ay == -y,
    ;
    assert(dx >= 0 && dx * n <= ax * t) by (nonlinear_arith)
        requires
            ax * t == n * dx + (ax * t) % n,
            0 <= (ax * t) % n < n,
            ax * t >= 0,
            n > 0,
    ;
    assert(dy >= 0 && dy * n <= ay * t) by (nonlinear_arith)
        requires
            ay * t == n * dy + (ay * t) % n,
            0 <= (ay * t) % n < n,
            ay * t >= 0,
            n > 0,
    ;
    assert((dx * dx + dy * dy) * (n * n) <= (t * t) * (n * n)) by (nonlinear_arith)
        requires
            0 <= dx,
            0 <= dy,
            0 <= t,
            0 < n,
            dx * n <= ax * t,
            dy * n <= ay * t,
            0 <= ax * t,
            0 <= ay * t,
            ax * ax == x * x,
            ay * ay == y * y,
            x * x + y * y <= n * n,
    ;
    assert(dx * dx + dy * dy <= t * t) by (nonlinear_arith)
        requires
            (dx * dx + dy * dy) * (n * n) <= (t * t) * (n * n),
            n > 0,
    ;
    assert(mul_div_spec(x, t, n) * mul_div_spec(x, t, n) == dx * dx) by (nonlinear_arith)
        requires
            mul_div_spec(x, t, n) == dx || mul_div_spec(x, t, n) == -dx,
    ;
    assert(mul_div_spec(y, t, n) * mul_div_spec(y, t, n) == dy * dy) by (nonlinear_arith)
        requires
            mul_div_spec(y, t, n) == dy || mul_div_spec(y, t, n) == -dy,
    ;
}

/// What rescaling `v` to magnitude `target` yields: each component is
/// multiplied by `target` and divided by the ceiling square root of the
/// squared norm. The zero vector stays zero.
pub open spec fn scale_to_spec(v: Vec2, target: int) -> Vec2 {
    if v.norm2() == 0 {
        v
    } else {
        Vec2 {
            x: mul_div_spec(v.x as int, target, ceil_sqrt(v.norm2())) as i64,
            y: mul_div_spec(v.y as int, target, ceil_sqrt(v.norm2())) as i64,
        }
    }
}

/// The rescaled vector's norm stays within `target`.
pub proof fn lemma_scale_to_spec_norm(v: Vec2, target: int)
    requires
        v.bounded(),
        0 <= target <= COORD_LIMIT,
    ensures
        scale_to_spec(v, target).norm2() <= target * target,
        scale_to_spec(v, target).bounded(),
        -target <= scale_to_spec(v, target).x <= target,
        -target <= scale_to_spec(v, target).y <= target,
{
    if v.norm2() == 0 {
        assert(v.x == 0 && v.y == 0) by (nonlinear_arith)
            requires
                v.x * v.x + v.y * v.y == 0,
        ;
        assert(scale_to_spec(v, target) == v);
        assert(v.norm2() <= target * target) by (nonlinear_arith)
            requires
                v.x == 0,
                v.y == 0,
                target >= 0,
        ;
    } else {
        let s = v.norm2();
        assert(s >= 0) by (nonlinear_arith)
            requires
                s == v.x * v.x + v.y * v.y,
        ;
        lemma_ceil_sqrt_exists(s);
        let n = ceil_sqrt(s);
        assert(n > 0) by (nonlinear_arith)
            requires
                n * n >= s,
                s > 0,
                n >= 0,
        ;
        lemma_scaled_norm(v.x as int, v.y as int, target, n);
        let qx = mul_div_spec(v.x as int, target, n);
        let qy = mul_div_spec(v.y as int, target, n);
        lemma_norm_component_bound(qx, qy, target);
        assert(qx as i64 == qx && qy as i64 == qy);
        assert(scale_to_spec(v, target).norm2() == qx * qx + qy * qy);
    }
}

/// Rescale `v` to magnitude at most `target`, keeping its direction: each
/// component is multiplied by `target` and divided by the ceiling of the
/// norm. The zero vector stays zero.
pub fn scale_to_magnitude(v: Vec2, target: i64) -> (r: Vec2)
    requires
        v.bounded(),
        0 <= target <= COORD_LIMIT,
    ensures
        r == scale_to_spec(v, target as int),
        v.norm2() == 0 ==> r == v,
        v.norm2() > 0 ==> r.x == mul_div_spec(v.x as int, target as int, ceil_sqrt(v.norm2())),
        v.norm2() > 0 ==> r.y == mul_div_spec(v.y as int, target as int, ceil_sqrt(v.norm2())),
        r.norm2() <= target * target,
        r.bounded(),
        -target <= r.x <= target,
        -target <= r.y <= target,
{
    proof {
        assert(v.x * v.x + v.y * v.y <= 2 * (0x4000_0000i64 * 0x4000_0000i64)) by (nonlinear_arith)
            requires
                -0x4000_0000 <= v.x <= 0x4000_0000,
                -0x4000_0000 <= v.y <= 0x4000_0000,
        ;
        assert(2 * (0x4000_0000i64 * 0x4000_0000i64) == 0x2000_0000_0000_0000) by (nonlinear_arith);
        assert(v.x * v.x >= 0) by (nonlinear_arith);
        assert(v.y * v.y >= 0) by (nonlinear_arith);
    }
    let s = v.x * v.x + v.y * v.y;
    if s == 0 {
        proof {
            assert(v.x == 0 && v.y == 0) by (nonlinear_arith)
                requires
                    v.x * v.x + v.y * v.y == 0,
            ;
        }
        return v;
    }
    let n = isqrt_ceil(s);
    proof {
        assert(n > 0) by (nonlinear_arith)
            requires
                (n as int) * (n as int) >= s,
                s > 0,
                n >= 0,
        ;
    }
    let rx = mul_div(v.x, target, n);
    let ry = mul_div(v.y, target, n);
    let r = Vec2 { x: rx, y: ry };
    proof {
        lemma_scaled_norm(v.x as int, v.y as int, target as int, n as int);
        lemma_mul_div_magnitude(v.x as int, target as int, n as int);
        lemma_mul_div_magnitude(v.y as int, target as int, n as int);
        assert(r.norm2() <= target * target);
        assert(target * target <= 0x4000_0000i64 * 0x4000_0000i64) by (nonlinear_arith)
            requires
                0 <= target <= 0x4000_0000,
        ;
        lemma_norm_component_bound(r.x as int, r.y as int, target as int);
        lemma_ceil_sqrt_exists(s as int);
        lemma_ceil_sqrt_unique(n as int, ceil_sqrt(s as int), s as int);
    }
    r
}

/// A component of a vector of norm at most `t >= 0` lies in `[-t, t]`.
pub proof fn lemma_norm_component_bound(x: int, y: int, t: int)
    requires
        0 <= t,
        x * x + y * y <= t * t,
    ensures
        -t <= x <= t,
        -t <= y <= t,
{
    assert(-t <= x <= t && -t <= y <= t) by (nonlinear_arith)
        requires
            0 <= t,
            x * x + y * y <= t * t,
    ;
}

/// The rescaled component never exceeds the original in sign-agreement terms:
/// its magnitude is bounded by `|a| * m / n` rounded down.
pub proof fn lemma_mul_div_magnitude(a: int, m: int, n: int)
    requires
        m >= 0,
        n > 0,
    ensures
        a >= 0 ==> 0 <= mul_div_spec(a, m, n),
        a < 0 ==> mul_div_spec(a, m, n) <= 0,
{
    let aa = if a >= 0 {
        a
    } else {
        -a
    };
    assert(aa * m >= 0) by (nonlinear_arith)
        requires
            aa >= 0,
            m >= 0,
    ;
    lemma_fundamental_div_mod(aa * m, n);
    lemma_mod_pos_bound(aa * m, n);
    let q = (aa * m) / n;
    assert(q >= 0) by (nonlinear_arith)
        requires
            aa * m == n * q + (aa * m) % n,
            0 <= (aa * m) % n < n,
            aa * m >= 0,
            n > 0,
    ;
}

} // verus!

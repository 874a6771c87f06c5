//! Small arithmetic helpers shared by the pipeline: floor division for
//! positive and for signed divisors, an integer square root, and the
//! projective-space point map used by perspective projection.

use vstd::prelude::*;

verus! {

/// `|a * b| <= m * n` whenever `|a| <= m` and `|b| <= n`.
pub proof fn lemma_mul_bounds(a: int, b: int, m: int, n: int)
    by (nonlinear_arith)
    requires
        -m <= a <= m,
        -n <= b <= n,
    ensures
        -(m * n) <= a * b <= m * n,
{
}

/// Floor division of `a` by a positive `b`: the largest `q` with `q * b <= a`.
/// This matches spec-level `/` (Euclidean division) for a positive divisor.
pub fn div_floor(a: i64, b: i64) -> (q: i64)
    requires
        b > 0,
        i64::MIN < a,
    ensures
        q == a as int / b as int,
        b * q <= a < b * (q + 1),
{
    let t: i64 = a / b;
    let r: i64 = a % b;
    let q: i64 = if r != 0 && a < 0 {
        t - 1
    } else {
        t
    };
    proof {
        vstd::arithmetic::div_mod::lemma_fundamental_div_mod(a as int, b as int);
        if a < 0 {
            vstd::arithmetic::div_mod::lemma_fundamental_div_mod(-(a as int), b as int);
            let u: int = (-(a as int)) / (b as int);
            assert(b * (-u) == -(b * u)) by (nonlinear_arith);
            assert(a as int == b * t + r);
            if r != 0 {
                assert((t - 1) * (b as int) == t * (b as int) - b) by (nonlinear_arith);
                vstd::arithmetic::div_mod::lemma_fundamental_div_mod_converse(
                    a as int,
                    b as int,
                    t - 1,
                    r + b,
                );
            } else {
                vstd::arithmetic::div_mod::lemma_fundamental_div_mod_converse(
                    a as int,
                    b as int,
                    t as int,
                    0,
                );
            }
        }
        vstd::arithmetic::div_mod::lemma_mod_bound(a as int, b as int);
        let qq: int = a as int / b as int;
        assert(b * (qq + 1) == b * qq + b) by (nonlinear_arith);
    }
    q
}

/// Floor division for 128-bit dividends, positive divisor.
pub fn div_floor_i128(a: i128, b: i128) -> (q: i128)
    requires
        b > 0,
        i128::MIN < a,
    ensures
        q == a as int / b as int,
        b * q <= a < b * (q + 1),
{
    let t: i128 = a / b;
    let r: i128 = a % b;
    let q: i128 = if r != 0 && a < 0 {
        t - 1
    } else {
        t
    };
    proof {
        vstd::arithmetic::div_mod::lemma_fundamental_div_mod(a as int, b as int);
        if a < 0 {
            vstd::arithmetic::div_mod::lemma_fundamental_div_mod(-(a as int), b as int);
            let u: int = (-(a as int)) / (b as int);
            assert(b * (-u) == -(b * u)) by (nonlinear_arith);
            assert(a as int == b * t + r);
            if r != 0 {
                assert((t - 1) * (b as int) == t * (b as int) - b) by (nonlinear_arith);
                vstd::arithmetic::div_mod::lemma_fundamental_div_mod_converse(
                    a as int,
                    b as int,
                    t - 1,
                    r + b,
                );
            } else {
                vstd::arithmetic::div_mod::lemma_fundamental_div_mod_converse(
                    a as int,
                    b as int,
                    t as int,
                    0,
                );
            }
        }
        vstd::arithmetic::div_mod::lemma_mod_bound(a as int, b as int);
        let qq: int = a as int / b as int;
        assert(b * (qq + 1) == b * qq + b) by (nonlinear_arith);
    }
    q
}

/// The integer square root of `n`, i.e. the largest `r` with `r * r <= n`
/// (0 for negative `n`).
pub open spec fn spec_isqrt(n: int) -> int
    decreases n,
{
    if n <= 0 {
        0
    } else {
        let r = spec_isqrt(n - 1);
        if (r + 1) * (r + 1) <= n {
            r + 1
        } else {
            r
        }
    }
}

/// `spec_isqrt(n)` really is the floor of the square root.
pub proof fn lemma_spec_isqrt_bounds(n: int)
    requires
        n >= 0,
    ensures
        0 <= spec_isqrt(n),
        spec_isqrt(n) * spec_isqrt(n) <= n,
        n < (spec_isqrt(n) + 1) * (spec_isqrt(n) + 1),
    decreases n,
{
    if n == 0 {
    } else {
        lemma_spec_isqrt_bounds(n - 1);
        let r = spec_isqrt(n - 1);
        assert(r * r <= n - 1 < (r + 1) * (r + 1));
        if (r + 1) * (r + 1) <= n {
            assert(n - 1 < (r + 1) * (r + 1));
            assert((r + 2) * (r + 2) > n) by (nonlinear_arith)
                requires
                    r >= 0 && n - 1 < (r + 1) * (r + 1) && n <= (r + 1) * (r + 1),
            ;
        }
    }
}

/// The two-sided bound `r * r <= n < (r + 1) * (r + 1)` pins the integer
/// square root down.
pub proof fn lemma_isqrt_unique(n: int, r: int)
    requires
        n >= 0,
        0 <= r,
        r * r <= n,
        n < (r + 1) * (r + 1),
    ensures
        r == spec_isqrt(n),
{
    lemma_spec_isqrt_bounds(n);
    let s = spec_isqrt(n);
    if r < s {
        assert((r + 1) * (r + 1) <= s * s) by (nonlinear_arith)
            requires
                0 <= r && r + 1 <= s,
        ;
    }
    if s < r {
        assert((s + 1) * (s + 1) <= r * r) by (nonlinear_arith)
            requires
                0 <= s && s + 1 <= r,
        ;
    }
}

/// The integer square root: the largest `r` with `r * r <= n`.
pub fn isqrt(n: i64) -> (r: i64)
    requires
        n >= 0,
    ensures
        0 <= r,
        r * r <= n < (r + 1) * (r + 1),
        r == spec_isqrt(n as int),
{
    let mut lo: i64 = 0;
    let mut hi: i64 = if n < 3037000500 {
        n + 1
    } else {
        3037000500
    };
    proof {
        assert(3037000500int * 3037000500int > i64::MAX as int) by (nonlinear_arith);
        assert((n + 1) * (n + 1) > n) by (nonlinear_arith)
            requires
                n >= 0,
        ;
    }
    while lo + 1 < hi
        invariant
            0 <= lo < hi <= 3037000500,
            lo * lo <= n,
            n < hi * hi,
        decreases hi - lo,
    {
        let mid: i64 = lo + (hi - lo) / 2;
        proof {
            assert(mid * mid <= 3037000499int * 3037000499int) by (nonlinear_arith)
                requires
                    0 <= mid <= 3037000499int,
            ;
            assert(3037000499int * 3037000499int < i64::MAX as int) by (nonlinear_arith);
        }
        if mid * mid <= n {
            lo = mid;
        } else {
            hi = mid;
        }
    }
    proof {
        lemma_isqrt_unique(n as int, lo as int);
    }
    lo
}

/// The integer square root for 128-bit inputs.
pub fn isqrt_i128(n: i128) -> (r: i128)
    requires
        n >= 0,
    ensures
        0 <= r,
        r * r <= n < (r + 1) * (r + 1),
        r == spec_isqrt(n as int),
{
    let mut lo: i128 = 0;
    let mut hi: i128 = if n < 13043817825332782212 {
        n + 1
    } else {
        13043817825332782213
    };
    proof {
        assert(13043817825332782213int * 13043817825332782213int > i128::MAX as int)
            by (nonlinear_arith);
        assert((n + 1) * (n + 1) > n) by (nonlinear_arith)
            requires
                n >= 0,
        ;
    }
    while lo + 1 < hi
        invariant
            0 <= lo < hi <= 13043817825332782213,
            lo * lo <= n,
            n < hi * hi,
        decreases hi - lo,
    {
        let mid: i128 = lo + (hi - lo) / 2;
        proof {
            assert(mid * mid <= 13043817825332782212int * 13043817825332782212int)
                by (nonlinear_arith)
                requires
                    0 <= mid <= 13043817825332782212int,
            ;
            assert(13043817825332782212int * 13043817825332782212int < i128::MAX as int)
                by (nonlinear_arith);
        }
        if mid * mid <= n {
            lo = mid;
        } else {
            hi = mid;
        }
    }
    proof {
        lemma_isqrt_unique(n as int, lo as int);
    }
    lo
}

/// Floor division for any nonzero divisor: the floor of the real quotient
/// `a / b`.  For a positive divisor this is spec-level `/`; for a negative
/// one, both operands are negated first.
pub open spec fn spec_floor_div(a: int, b: int) -> int {
    if b > 0 {
        a / b
    } else {
        (-a) / (-b)
    }
}

/// Floor division with either sign of divisor.
pub fn div_floor_signed(a: i64, b: i64) -> (q: i64)
    requires
        b != 0,
        i64::MIN < a,
        i64::MIN < b,
    ensures
        q == spec_floor_div(a as int, b as int),
{
    if b > 0 {
        div_floor(a, b)
    } else {
        div_floor(-a, -b)
    }
}

/// Maps a world-space point into projective (screen-plane) space for an
/// observer on the `z` axis at `observer_distance` from the origin: the point
/// is scaled by `1 / (1 - z / d)`, i.e. by `d / (d - z)`.  Coordinates are
/// plain fixed-point integers, so the scaling is exact floor arithmetic.
/// Only a point exactly on the observer plane (`z == d`) is rejected, where
/// the map diverges; behind the plane the map mirrors, as the formula says.
pub fn space_point_in_proj_space(point: (i64, i64, i64), observer_distance: i64) -> (r: Option<
    (i64, i64),
>)
    requires
        -0x2000_0000 <= point.0 <= 0x2000_0000,
        -0x2000_0000 <= point.1 <= 0x2000_0000,
        -0x2000_0000 <= point.2 <= 0x2000_0000,
        -0x2000_0000 <= observer_distance <= 0x2000_0000,
    ensures
        r is Some <==> point.2 != observer_distance,
        r is Some ==> {
            let d = observer_distance as int;
            let t = d - point.2;
            r->Some_0.0 == spec_floor_div(point.0 * d, t) && r->Some_0.1 == spec_floor_div(
                point.1 * d,
                t,
            )
        },
{
    let (x, y, z): (i64, i64, i64) = point;
    if z == observer_distance {
        return None;
    }
    let t: i64 = observer_distance - z;
    proof {
        lemma_mul_bounds(x as int, observer_distance as int, 0x2000_0000, 0x2000_0000);
        lemma_mul_bounds(y as int, observer_distance as int, 0x2000_0000, 0x2000_0000);
    }
    let sx: i64 = div_floor_signed(x * observer_distance, t);
    let sy: i64 = div_floor_signed(y * observer_distance, t);
    Some((sx, sy))
}

} // verus!

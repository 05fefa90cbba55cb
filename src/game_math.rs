use vstd::prelude::*;
use crate::config::{Config, MILLI, PLAYER_MOVE_SPEED, MAX_WORLD_SIZE};

verus! {

/// `r` is the least natural number whose square is at least `n`.
pub open spec fn is_ceil_sqrt(n: int, r: int) -> bool {
    &&& r >= 0
    &&& r * r >= n
    &&& (r == 0 || (r - 1) * (r - 1) < n)
}

/// Square root of `n`, rounded up.
pub open spec fn ceil_sqrt(n: int) -> int {
    choose|r: int| is_ceil_sqrt(n, r)
}

/// Radius, in milli-units, of an entity of the given mass: the radius is the
/// square root of the mass, rounded up to the next milli-unit.
pub open spec fn radius_of(mass: int) -> int {
    ceil_sqrt(mass * MILLI * MILLI)
}

/// A coordinate clamped into `[lo, hi]`.
pub open spec fn clamp(v: int, lo: int, hi: int) -> int {
    if v < lo {
        lo
    } else if v > hi {
        hi
    } else {
        v
    }
}

/// A coordinate of an entity of mass `mass` brought inside a world of edge
/// `extent` milli-units: into `[radius, extent - radius]`, or to the middle
/// of the axis where the entity is wider than the world.
pub open spec fn clamp_coord(v: int, mass: int, extent: int) -> int {
    let r = radius_of(mass);
    if r <= extent - r {
        clamp(v, r, extent - r)
    } else {
        extent / 2
    }
}

/// The ceiling square root is unique.
pub proof fn lemma_ceil_sqrt_unique(n: int, a: int, b: int)
    requires
        is_ceil_sqrt(n, a),
        is_ceil_sqrt(n, b),
    ensures
        a == b,
{
    if a < b {
        assert(a * a <= (b - 1) * (b - 1)) by (nonlinear_arith)
            requires 0 <= a <= b - 1;
    } else if b < a {
        assert(b * b <= (a - 1) * (a - 1)) by (nonlinear_arith)
            requires 0 <= b <= a - 1;
    }
}

/// Every natural number has a ceiling square root.
pub proof fn lemma_ceil_sqrt_exists(n: int)
    requires
        n >= 0,
    ensures
        exists|r: int| #[trigger] is_ceil_sqrt(n, r),
    decreases n,
{
    if n == 0 {
        assert(is_ceil_sqrt(0, 0));
    } else {
        lemma_ceil_sqrt_exists(n - 1);
        let r = choose|r: int| #[trigger] is_ceil_sqrt(n - 1, r);
        if r * r >= n {
            assert(is_ceil_sqrt(n, r));
        } else {
            assert(r * r == n - 1);
            assert((r + 1) * (r + 1) >= n) by (nonlinear_arith)
                requires r >= 0, r * r == n - 1;
            assert(is_ceil_sqrt(n, r + 1));
        }
    }
}

/// A coordinate brought inside the world keeps the whole entity inside:
/// `radius <= c <= extent - radius`, squared in milli-units, wherever the
/// entity fits in the world at all.
pub proof fn lemma_clamp_keeps_radius_inside(v: int, mass: int, extent: int)
    requires
        mass >= 0,
        radius_of(mass) <= extent - radius_of(mass),
    ensures
        0 <= clamp_coord(v, mass, extent) <= extent,
        clamp_coord(v, mass, extent) * clamp_coord(v, mass, extent) >= mass * MILLI * MILLI,
        (extent - clamp_coord(v, mass, extent)) * (extent - clamp_coord(v, mass, extent)) >= mass * MILLI * MILLI,
{
    let n = mass * MILLI * MILLI;
    lemma_ceil_sqrt_exists(n);
    let r = radius_of(mass);
    assert(is_ceil_sqrt(n, r));
    let c = clamp_coord(v, mass, extent);
    assert(r <= c <= extent - r);
    assert(c * c >= r * r) by (nonlinear_arith)
        requires 0 <= r <= c;
    assert((extent - c) * (extent - c) >= r * r) by (nonlinear_arith)
        requires 0 <= r <= extent - c;
}

/// Square root rounded down, by bisection.
fn floor_sqrt(n: u128) -> (r: u128)
    ensures
        r * r <= n,
        n < (r + 1) * (r + 1),
        r < 0x1_0000_0000_0000_0000u128,
{
    let mut lo: u128 = 0;
    let mut hi: u128 = 0x1_0000_0000_0000_0000;
    assert(n < hi * hi) by (nonlinear_arith)
        requires hi == 0x1_0000_0000_0000_0000u128, n <= u128::MAX;
    while lo + 1 < hi
        invariant
            lo < hi <= 0x1_0000_0000_0000_0000u128,
            lo * lo <= n,
            n < hi * hi,
        decreases hi - lo,
    {
        let mid = lo + (hi - lo) / 2;
        assert(mid * mid <= u128::MAX) by (nonlinear_arith)
            requires mid < 0x1_0000_0000_0000_0000u128;
        if mid * mid <= n {
            lo = mid;
        } else {
            hi = mid;
        }
    }
    lo
}

/// Square root rounded up.
pub fn ceil_sqrt_u128(n: u128) -> (r: u128)
    ensures
        r == ceil_sqrt(n as int),
        is_ceil_sqrt(n as int, r as int),
{
    let f = floor_sqrt(n);
    let r = if f * f == n {
        f
    } else {
        f + 1
    };
    proof {
        if f * f == n {
            assert(f == 0 || (f - 1) * (f - 1) < f * f) by (nonlinear_arith)
                requires f >= 0;
        } else {
            assert((f + 1) * (f + 1) == f * f + 2 * f + 1) by (nonlinear_arith);
        }
        assert(is_ceil_sqrt(n as int, r as int));
        let c = ceil_sqrt(n as int);
        assert(is_ceil_sqrt(n as int, c));
        lemma_ceil_sqrt_unique(n as int, r as int, c);
    }
    r
}

/// Mass-derived geometry and movement helpers.
pub struct GameMath;

impl GameMath {
    /// Radius of an entity of the given mass, in milli-units, rounded up.
    pub fn mass_to_radius(mass: u32) -> (r: u64)
        ensures
            r == radius_of(mass as int),
            r as int * r as int >= mass * MILLI * MILLI,
            r <= 0xFFFF_FFFF,
    {
        let n: u128 = (mass as u128) * 1_000_000;
        let r = ceil_sqrt_u128(n);
        proof {
            assert(is_ceil_sqrt(n as int, r as int));
            assert(r <= 0xFFFF_FFFF) by {
                if r > 0xFFFF_FFFF {
                    assert((r - 1) * (r - 1) >= 0xFFFF_FFFF * 0xFFFF_FFFFu128) by (nonlinear_arith)
                        requires r - 1 >= 0xFFFF_FFFF;
                }
            }
        }
        r as u64
    }

    /// Largest movement speed of a platformer entity; it does not depend on mass.
    pub fn mass_to_max_move_speed(_mass: u32) -> (r: i64)
        ensures
            r == PLAYER_MOVE_SPEED,
    {
        PLAYER_MOVE_SPEED
    }

    /// Brings one coordinate of an entity of mass `mass` inside the world.
    pub fn clamp_to_world(v: i64, mass: u32, config: &Config) -> (r: i64)
        requires
            config.wf(),
        ensures
            r == clamp_coord(v as int, mass as int, config.extent()),
            0 <= r <= config.extent(),
            clamp_coord(r as int, mass as int, config.extent()) == r,
    {
        let extent = config.extent_milli();
        let rad = Self::mass_to_radius(mass) as i64;
        if rad <= extent - rad {
            if v < rad {
                rad
            } else if v > extent - rad {
                extent - rad
            } else {
                v
            }
        } else {
            extent / 2
        }
    }
}

} // verus!

use vstd::prelude::*;
use crate::config::MILLI;
use crate::game_math::{ceil_sqrt, ceil_sqrt_u128, is_ceil_sqrt, lemma_ceil_sqrt_exists};

verus! {

/// A 2D vector in fixed point: each component counts milli-units
/// (positions, velocities) or thousandths (directions).
#[derive(Clone, Copy, Debug, PartialEq, Eq, Structural)]
pub struct DbVector2 {
    pub x: i64,
    pub y: i64,
}

/// Squared length of `(x, y)`.
pub open spec fn sqr_len(x: int, y: int) -> int {
    x * x + y * y
}

/// Squared lengths from this bound on are first shrunk, so that scaling
/// them by `MILLI * MILLI` stays within 128 bits.
pub const SHRINK_FROM: u128 = 0x10_0000_0000_0000_0000_0000_0000;

/// Factor by which a long vector is shrunk before it is normalized.
pub const SHRINK_BY: u128 = 0x1_0000;

/// `n / d`, rounded toward zero.
pub open spec fn div_toward_zero(n: int, d: int) -> int {
    if n >= 0 {
        n / d
    } else {
        -((-n) / d)
    }
}

/// `c * MILLI * MILLI / q`, rounded toward zero.
pub open spec fn scale_toward_zero(c: int, q: int) -> int {
    div_toward_zero(c * MILLI * MILLI, q)
}

/// The vector normalization works on: very long vectors are shrunk by
/// `SHRINK_BY`, each component rounded toward zero.
pub open spec fn working_vector(x: int, y: int) -> (int, int) {
    if sqr_len(x, y) >= SHRINK_FROM {
        (div_toward_zero(x, SHRINK_BY as int), div_toward_zero(y, SHRINK_BY as int))
    } else {
        (x, y)
    }
}

/// Direction of `(x, y)` scaled to length `MILLI`: each component is
/// `c * MILLI / |v|`, with `MILLI * |v|` rounded up and the quotient rounded
/// toward zero; the zero vector stays zero.
pub open spec fn unit_scaled(x: int, y: int) -> (int, int) {
    let (a, b) = working_vector(x, y);
    let q = ceil_sqrt(sqr_len(a, b) * MILLI * MILLI);
    if q == 0 {
        (0, 0)
    } else {
        (scale_toward_zero(a, q), scale_toward_zero(b, q))
    }
}

proof fn lemma_scaled_component(a: int, q: int)
    requires
        a >= 0,
        q > 0,
    ensures
        ((a * MILLI * MILLI) / q) * q <= a * MILLI * MILLI,
        (a * MILLI * MILLI) / q >= 0,
{
    let d = (a * MILLI * MILLI) / q;
    assert(d * q <= a * MILLI * MILLI && d >= 0) by (nonlinear_arith)
        requires d == (a * MILLI * MILLI) / q, a >= 0, q > 0;
}

/// The components of `unit_scaled` have squared length at most `MILLI * MILLI`.
proof fn lemma_unit_scaled_bound(x: int, y: int)
    ensures
        ({
            let (a, b) = unit_scaled(x, y);
            sqr_len(a, b) <= MILLI * MILLI
        }),
{
    let (x, y) = working_vector(x, y);
    let n = sqr_len(x, y) * MILLI * MILLI;
    let q = ceil_sqrt(n);
    assert(sqr_len(x, y) >= 0) by (nonlinear_arith)
        requires sqr_len(x, y) == x * x + y * y;
    lemma_ceil_sqrt_exists(n);
    if q != 0 {
        let ax = if x >= 0 { x } else { -x };
        let ay = if y >= 0 { y } else { -y };
        lemma_scaled_component(ax, q);
        lemma_scaled_component(ay, q);
        let a = (ax * MILLI * MILLI) / q;
        let b = (ay * MILLI * MILLI) / q;
        assert(ax * ax == x * x) by (nonlinear_arith)
            requires ax == x || ax == -x;
        assert(ay * ay == y * y) by (nonlinear_arith)
            requires ay == y || ay == -y;
        assert(q * q >= n);
        assert(a * a + b * b <= MILLI * MILLI) by (nonlinear_arith)
            requires
                a * q <= ax * (MILLI * MILLI),
                b * q <= ay * (MILLI * MILLI),
                a >= 0,
                b >= 0,
                ax >= 0,
                ay >= 0,
                q > 0,
                (ax * ax + ay * ay) * (MILLI * MILLI) <= q * q,
        ;
        let ux = scale_toward_zero(x, q);
        let uy = scale_toward_zero(y, q);
        assert(ux == a || ux == -a);
        assert(uy == b || uy == -b);
        assert(ux * ux == a * a) by (nonlinear_arith)
            requires ux == a || ux == -a;
        assert(uy * uy == b * b) by (nonlinear_arith)
            requires uy == b || uy == -b;
    }
}

/// Magnitude of a component, as an unsigned number.
fn magnitude_of(c: i64) -> (r: u128)
    ensures
        r == if c >= 0 { c as int } else { -c },
{
    if c >= 0 {
        c as u128
    } else {
        (-(c as i128)) as u128
    }
}

impl DbVector2 {
    pub fn new(x: i64, y: i64) -> (r: DbVector2)
        ensures
            r.x == x,
            r.y == y,
    {
        DbVector2 { x, y }
    }

    pub fn zero() -> (r: DbVector2)
        ensures
            r.x == 0,
            r.y == 0,
    {
        DbVector2 { x: 0, y: 0 }
    }

    pub open spec fn sqr_len(&self) -> int {
        sqr_len(self.x as int, self.y as int)
    }

    /// Squared length.
    pub fn sqr_magnitude(&self) -> (r: u128)
        ensures
            r == self.sqr_len(),
    {
        let x = self.x as i128;
        let y = self.y as i128;
        assert(x * x <= 0x4000_0000_0000_0000_0000_0000_0000_0000 && x * x >= 0) by (nonlinear_arith)
            requires -0x8000_0000_0000_0000 <= x <= 0x7FFF_FFFF_FFFF_FFFF;
        assert(y * y <= 0x4000_0000_0000_0000_0000_0000_0000_0000 && y * y >= 0) by (nonlinear_arith)
            requires -0x8000_0000_0000_0000 <= y <= 0x7FFF_FFFF_FFFF_FFFF;
        ((x * x) as u128) + ((y * y) as u128)
    }

    /// Length, rounded up.
    pub fn magnitude(&self) -> (r: u128)
        ensures
            r == ceil_sqrt(self.sqr_len()),
    {
        ceil_sqrt_u128(self.sqr_magnitude())
    }

    /// This vector's direction scaled to length `MILLI` (one unit), each
    /// component rounded toward zero, so the result never exceeds one unit;
    /// the zero vector stays zero.
    pub fn normalized(&self) -> (r: DbVector2)
        ensures
            (r.x as int, r.y as int) == unit_scaled(self.x as int, self.y as int),
            r.sqr_len() <= MILLI * MILLI,
    {
        proof {
            lemma_unit_scaled_bound(self.x as int, self.y as int);
        }
        let s = self.sqr_magnitude();
        let mut ax = magnitude_of(self.x);
        let mut ay = magnitude_of(self.y);
        if s >= SHRINK_FROM {
            ax = ax / SHRINK_BY;
            ay = ay / SHRINK_BY;
        }
        let ghost (wx, wy) = working_vector(self.x as int, self.y as int);
        assert(ax == if wx >= 0 { wx } else { -wx });
        assert(ay == if wy >= 0 { wy } else { -wy });
        assert(ax * ax == wx * wx) by (nonlinear_arith)
            requires ax == wx || ax == -wx;
        assert(ay * ay == wy * wy) by (nonlinear_arith)
            requires ay == wy || ay == -wy;
        assert(ax * ax + ay * ay < 0x100_0000_0000_0000_0000_0000_0000) by (nonlinear_arith)
            requires
                ax <= 0x8000_0000_0000_0000,
                ay <= 0x8000_0000_0000_0000,
                (s >= SHRINK_FROM ==> ax <= 0x8000_0000_0000 && ay <= 0x8000_0000_0000),
                (s < SHRINK_FROM ==> ax * ax + ay * ay == s),
        ;
        let n = (ax * ax + ay * ay) * 1_000_000;
        let q = ceil_sqrt_u128(n);
        if q == 0 {
            return DbVector2 { x: 0, y: 0 };
        }
        let qx = (ax * 1_000_000) / q;
        let qy = (ay * 1_000_000) / q;
        proof {
            let (ux, uy) = unit_scaled(self.x as int, self.y as int);
            assert(ux * ux + uy * uy <= MILLI * MILLI);
            assert(qx == ux || qx == -ux);
            assert(qy == uy || qy == -uy);
            assert(qx * qx == ux * ux) by (nonlinear_arith)
                requires qx == ux || qx == -ux;
            assert(qy * qy == uy * uy) by (nonlinear_arith)
                requires qy == uy || qy == -uy;
            assert(qx <= 1000 && qy <= 1000) by (nonlinear_arith)
                requires qx * qx + qy * qy <= 1_000_000, qx >= 0, qy >= 0;
        }
        let rx: i64 = if self.x >= 0 { qx as i64 } else { -(qx as i64) };
        let ry: i64 = if self.y >= 0 { qy as i64 } else { -(qy as i64) };
        DbVector2 { x: rx, y: ry }
    }
}

} // verus!

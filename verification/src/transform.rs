//! Affine transforms with coefficients of sixteen fractional bits.

use crate::math::div_trunc;
use crate::math::UNIT;
use crate::path::Point;
use crate::path::COORD_MAX;
use vstd::prelude::*;

verus! {

/// An affine map of the plane: `(x, y)` goes to
/// `(xx * x + xy * y + dx, yx * x + yy * y + dy)`, where the four factors
/// have sixteen fractional bits and the offset is in coordinate units.
#[derive(Debug, Clone, Copy, PartialEq, Eq, Structural)]
pub struct Transform {
    pub xx: i32,
    pub xy: i32,
    pub yx: i32,
    pub yy: i32,
    pub dx: i32,
    pub dy: i32,
}

/// `v`, kept within the finite coordinates.
pub open spec fn clamp_finite(v: int) -> int {
    if v < -COORD_MAX {
        -COORD_MAX as int
    } else if v > COORD_MAX {
        COORD_MAX as int
    } else {
        v
    }
}

/// `v`, kept within 32 bits.
pub open spec fn clamp_i32(v: int) -> i32 {
    if v < i32::MIN {
        i32::MIN
    } else if v > i32::MAX {
        i32::MAX
    } else {
        v as i32
    }
}

fn clamp_i32_exec(v: i128) -> (r: i32)
    ensures
        r == clamp_i32(v as int),
{
    if v < i32::MIN as i128 {
        i32::MIN
    } else if v > i32::MAX as i128 {
        i32::MAX
    } else {
        v as i32
    }
}

fn clamp_finite_exec(v: i128) -> (r: i32)
    ensures
        r == clamp_finite(v as int),
        -COORD_MAX <= r <= COORD_MAX,
{
    if v < -(COORD_MAX as i128) {
        -COORD_MAX
    } else if v > COORD_MAX as i128 {
        COORD_MAX
    } else {
        v as i32
    }
}

/// `a * x + b * y` for factors of sixteen fractional bits, rounded towards
/// zero.
pub open spec fn combine(a: int, x: int, b: int, y: int) -> int {
    div_trunc(a * x + b * y, UNIT as int)
}

fn combine_exec(a: i32, x: i32, b: i32, y: i32) -> (r: i128)
    ensures
        r == combine(a as int, x as int, b as int, y as int),
        -0x8000_0000_0000_0000 <= r <= 0x8000_0000_0000_0000,
{
    let ax: i128 = a as i128;
    let bx: i128 = b as i128;
    let xx: i128 = x as i128;
    let yy: i128 = y as i128;
    assert(-0x4000_0000_0000_0000 <= ax * xx <= 0x4000_0000_0000_0000 && -0x4000_0000_0000_0000
        <= bx * yy <= 0x4000_0000_0000_0000) by (nonlinear_arith)
        requires
            -0x8000_0000 <= ax <= 0x8000_0000,
            -0x8000_0000 <= bx <= 0x8000_0000,
            -0x8000_0000 <= xx <= 0x8000_0000,
            -0x8000_0000 <= yy <= 0x8000_0000,
    ;
    let sum: i128 = ax * xx + bx * yy;
    if sum >= 0 {
        let q = sum / (UNIT as i128);
        assert(0 <= q <= sum) by (nonlinear_arith)
            requires
                q == sum / 65536,
                sum >= 0,
        ;
        q
    } else {
        let q = (-sum) / (UNIT as i128);
        assert(0 <= q <= -sum) by (nonlinear_arith)
            requires
                q == (-sum) / 65536,
                sum < 0,
        ;
        -q
    }
}

impl Transform {
    /// The map that leaves every point where it is.
    pub open spec fn identity_map() -> Transform {
        Transform { xx: 65536, xy: 0, yx: 0, yy: 65536, dx: 0, dy: 0 }
    }

    /// Where the map takes `p`, kept within the finite coordinates.
    pub open spec fn image(&self, p: Point) -> Point {
        Point {
            x: clamp_finite(
                combine(self.xx as int, p.x as int, self.xy as int, p.y as int) + self.dx,
            ) as i32,
            y: clamp_finite(
                combine(self.yx as int, p.x as int, self.yy as int, p.y as int) + self.dy,
            ) as i32,
        }
    }

    /// The map that leaves every point where it is.
    pub fn identity() -> (t: Transform)
        ensures
            t == Transform::identity_map(),
    {
        Transform { xx: 65536, xy: 0, yx: 0, yy: 65536, dx: 0, dy: 0 }
    }

    /// Whether the map leaves every point where it is.
    pub fn is_identity(&self) -> (r: bool)
        ensures
            r == (*self == Transform::identity_map()),
    {
        self.xx == 65536 && self.xy == 0 && self.yx == 0 && self.yy == 65536 && self.dx == 0
            && self.dy == 0
    }

    /// The map that moves every point by `(dx, dy)`.
    pub fn translation(dx: i32, dy: i32) -> (t: Transform)
        ensures
            t == (Transform { dx, dy, ..Transform::identity_map() }),
    {
        Transform { xx: 65536, xy: 0, yx: 0, yy: 65536, dx, dy }
    }

    /// The map that scales by `sx` and `sy`, given in sixteen fractional
    /// bits, about the origin.
    pub fn scaling(sx: i32, sy: i32) -> (t: Transform)
        ensures
            t == (Transform { xx: sx, yy: sy, ..Transform::identity_map() }),
    {
        Transform { xx: sx, xy: 0, yx: 0, yy: sy, dx: 0, dy: 0 }
    }

    /// The map that applies `first` and then `self`, with every coefficient
    /// kept within 32 bits.
    pub open spec fn after(&self, first: Transform) -> Transform {
        Transform {
            xx: clamp_i32(combine(self.xx as int, first.xx as int, self.xy as int, first.yx as int)),
            xy: clamp_i32(combine(self.xx as int, first.xy as int, self.xy as int, first.yy as int)),
            yx: clamp_i32(combine(self.yx as int, first.xx as int, self.yy as int, first.yx as int)),
            yy: clamp_i32(combine(self.yx as int, first.xy as int, self.yy as int, first.yy as int)),
            dx: clamp_i32(
                combine(self.xx as int, first.dx as int, self.xy as int, first.dy as int) + self.dx,
            ),
            dy: clamp_i32(
                combine(self.yx as int, first.dx as int, self.yy as int, first.dy as int) + self.dy,
            ),
        }
    }

    /// The map that applies `first` and then `self`.
    pub fn compose(&self, first: &Transform) -> (t: Transform)
        ensures
            t == self.after(*first),
    {
        Transform {
            xx: clamp_i32_exec(combine_exec(self.xx, first.xx, self.xy, first.yx)),
            xy: clamp_i32_exec(combine_exec(self.xx, first.xy, self.xy, first.yy)),
            yx: clamp_i32_exec(combine_exec(self.yx, first.xx, self.yy, first.yx)),
            yy: clamp_i32_exec(combine_exec(self.yx, first.xy, self.yy, first.yy)),
            dx: clamp_i32_exec(
                combine_exec(self.xx, first.dx, self.xy, first.dy) + self.dx as i128,
            ),
            dy: clamp_i32_exec(
                combine_exec(self.yx, first.dx, self.yy, first.dy) + self.dy as i128,
            ),
        }
    }

    /// The map that moves by `(dx, dy)` and then applies `self`.
    pub fn translate(&self, dx: i32, dy: i32) -> (t: Transform)
        ensures
            t == self.after(Transform { dx, dy, ..Transform::identity_map() }),
    {
        self.compose(&Transform::translation(dx, dy))
    }

    /// The map that scales by `sx` and `sy`, in sixteen fractional bits, and
    /// then applies `self`.
    pub fn scale(&self, sx: i32, sy: i32) -> (t: Transform)
        ensures
            t == self.after(Transform { xx: sx, yy: sy, ..Transform::identity_map() }),
    {
        self.compose(&Transform::scaling(sx, sy))
    }

    /// The map that turns about the origin by the angle whose cosine and
    /// sine are `cos` and `sin`, in sixteen fractional bits, and then applies
    /// `self`.
    pub fn rotate(&self, cos: i32, sin: i32) -> (t: Transform)
        requires
            sin > i32::MIN,
        ensures
            t == self.after(
                Transform { xx: cos, xy: (-sin) as i32, yx: sin, yy: cos, dx: 0, dy: 0 },
            ),
    {
        self.compose(&Transform { xx: cos, xy: -sin, yx: sin, yy: cos, dx: 0, dy: 0 })
    }

    /// Where the map takes `p`, kept within the finite coordinates.
    pub fn apply(&self, p: Point) -> (q: Point)
        ensures
            q == self.image(p),
            q.finite(),
    {
        let x = combine_exec(self.xx, p.x, self.xy, p.y) + self.dx as i128;
        let y = combine_exec(self.yx, p.x, self.yy, p.y) + self.dy as i128;
        Point { x: clamp_finite_exec(x), y: clamp_finite_exec(y) }
    }
}

/// The identity leaves every finite point where it is.
pub proof fn lemma_identity_fixes(p: Point)
    requires
        p.finite(),
    ensures
        Transform::identity_map().image(p) == p,
{
    assert(combine(65536, p.x as int, 0, p.y as int) == p.x) by {
        lemma_unit_times(p.x as int);
    }
    assert(combine(0, p.x as int, 65536, p.y as int) == p.y) by {
        lemma_unit_times(p.y as int);
    }
}

/// One times a value, divided by one, is the value.
proof fn lemma_unit_times(v: int)
    ensures
        div_trunc(65536 * v + 0 * v, UNIT as int) == v,
        div_trunc(0 * v + 65536 * v, UNIT as int) == v,
        forall|w: int| div_trunc(#[trigger] (65536 * v + 0 * w), UNIT as int) == v,
        forall|w: int| div_trunc(#[trigger] (0 * w + 65536 * v), UNIT as int) == v,
{
    assert forall|w: int| div_trunc(#[trigger] (65536 * v + 0 * w), UNIT as int) == v by {
        assert(0 * w == 0);
    }
    assert forall|w: int| div_trunc(#[trigger] (0 * w + 65536 * v), UNIT as int) == v by {
        assert(0 * w == 0);
    }
}

} // verus!

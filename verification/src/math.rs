//! Rectangles, corner radii and the integer arithmetic that the geometry
//! rests on.

use crate::path::Point;
use crate::path::COORD_MAX;
use vstd::prelude::*;

verus! {

/// An axis-aligned rectangle: its top-left corner and its size, in
/// coordinate units.
#[derive(Debug, Clone, Copy, PartialEq, Eq, Structural, Hash, Default)]
pub struct Rect {
    pub x: i32,
    pub y: i32,
    pub width: i32,
    pub height: i32,
}

impl Rect {
    /// Whether the size is not negative and all four corners are finite
    /// points.
    pub open spec fn wf(&self) -> bool {
        &&& self.width >= 0
        &&& self.height >= 0
        &&& -COORD_MAX <= self.x
        &&& -COORD_MAX <= self.y
        &&& self.x + self.width <= COORD_MAX
        &&& self.y + self.height <= COORD_MAX
    }

    /// The rectangle with top-left corner `(x, y)` and the given size.
    pub fn xywh(x: i32, y: i32, width: i32, height: i32) -> (r: Rect)
        ensures
            r == (Rect { x, y, width, height }),
    {
        Rect { x, y, width, height }
    }

    /// Whether the rectangle is well formed.
    pub fn is_wf(&self) -> (r: bool)
        ensures
            r == self.wf(),
    {
        self.width >= 0 && self.height >= 0 && -COORD_MAX <= self.x && -COORD_MAX <= self.y
            && self.x as i64 + self.width as i64 <= COORD_MAX as i64 && self.y as i64
            + self.height as i64 <= COORD_MAX as i64
    }

    /// The part of the plane that lies in both rectangles; a rectangle
    /// without size where they do not meet.
    pub open spec fn meet(&self, other: Rect) -> Rect {
        let x0 = max(self.x as int, other.x as int);
        let y0 = max(self.y as int, other.y as int);
        let x1 = min(self.x + self.width, other.x + other.width);
        let y1 = min(self.y + self.height, other.y + other.height);
        Rect {
            x: x0 as i32,
            y: y0 as i32,
            width: max(x1 - x0, 0) as i32,
            height: max(y1 - y0, 0) as i32,
        }
    }

    /// The part of the plane that lies in both rectangles.
    pub fn intersect(&self, other: &Rect) -> (r: Rect)
        requires
            self.width >= 0,
            self.height >= 0,
            other.width >= 0,
            other.height >= 0,
        ensures
            r == self.meet(*other),
            r.width >= 0,
            r.height >= 0,
            self.wf() && other.wf() ==> r.wf(),
    {
        let x0: i64 = if self.x >= other.x {
            self.x as i64
        } else {
            other.x as i64
        };
        let y0: i64 = if self.y >= other.y {
            self.y as i64
        } else {
            other.y as i64
        };
        let ax: i64 = self.x as i64 + self.width as i64;
        let bx: i64 = other.x as i64 + other.width as i64;
        let ay: i64 = self.y as i64 + self.height as i64;
        let by: i64 = other.y as i64 + other.height as i64;
        let x1: i64 = if ax <= bx {
            ax
        } else {
            bx
        };
        let y1: i64 = if ay <= by {
            ay
        } else {
            by
        };
        let w: i64 = if x1 - x0 >= 0 {
            x1 - x0
        } else {
            0
        };
        let h: i64 = if y1 - y0 >= 0 {
            y1 - y0
        } else {
            0
        };
        Rect { x: x0 as i32, y: y0 as i32, width: w as i32, height: h as i32 }
    }

    pub fn top_left(&self) -> (p: Point)
        requires
            self.wf(),
        ensures
            p == (Point { x: self.x, y: self.y }),
    {
        Point { x: self.x, y: self.y }
    }

    pub fn top_right(&self) -> (p: Point)
        requires
            self.wf(),
        ensures
            p == (Point { x: (self.x + self.width) as i32, y: self.y }),
    {
        Point { x: self.x + self.width, y: self.y }
    }

    pub fn bottom_right(&self) -> (p: Point)
        requires
            self.wf(),
        ensures
            p == (Point { x: (self.x + self.width) as i32, y: (self.y + self.height) as i32 }),
    {
        Point { x: self.x + self.width, y: self.y + self.height }
    }

    pub fn bottom_left(&self) -> (p: Point)
        requires
            self.wf(),
        ensures
            p == (Point { x: self.x, y: (self.y + self.height) as i32 }),
    {
        Point { x: self.x, y: self.y + self.height }
    }
}

/// One radius for each corner of a rectangle, in coordinate units.
#[derive(Debug, Clone, Copy, PartialEq, Eq, Structural, Hash, Default)]
pub struct Corners {
    pub top_left: i32,
    pub top_right: i32,
    pub bottom_right: i32,
    pub bottom_left: i32,
}

impl Corners {
    /// The same radius for all four corners.
    pub fn with_all(radius: i32) -> (c: Corners)
        ensures
            c == (Corners {
                top_left: radius,
                top_right: radius,
                bottom_right: radius,
                bottom_left: radius,
            }),
    {
        Corners { top_left: radius, top_right: radius, bottom_right: radius, bottom_left: radius }
    }

    /// Whether all four radii are zero.
    pub fn is_zero(&self) -> (z: bool)
        ensures
            z == (self.top_left == 0 && self.top_right == 0 && self.bottom_right == 0
                && self.bottom_left == 0),
    {
        self.top_left == 0 && self.top_right == 0 && self.bottom_right == 0 && self.bottom_left
            == 0
    }
}

/// The magnitude of `v`.
pub open spec fn abs(v: int) -> int {
    if v < 0 {
        -v
    } else {
        v
    }
}

/// The smaller of `a` and `b`.
pub open spec fn min(a: int, b: int) -> int {
    if a <= b {
        a
    } else {
        b
    }
}

/// The larger of `a` and `b`.
pub open spec fn max(a: int, b: int) -> int {
    if a >= b {
        a
    } else {
        b
    }
}

/// `n / d` rounded to the nearest integer, halves rounded up, for `d > 0`.
pub open spec fn div_round(n: int, d: int) -> int
    recommends
        d > 0,
{
    (2 * n + d) / (2 * d)
}

/// `n / d` rounded to the nearest integer, halves rounded up.
pub fn div_round_i128(n: i128, d: i128) -> (q: i128)
    requires
        d > 0,
        -0x2000_0000_0000_0000_0000_0000_0000_0000 <= n <= 0x2000_0000_0000_0000_0000_0000_0000_0000,
        d <= 0x2000_0000_0000_0000_0000_0000_0000_0000,
    ensures
        q == div_round(n as int, d as int),
{
    let num: i128 = 2 * n + d;
    let den: i128 = 2 * d;
    // Rust divides towards zero; the quotient wanted here is the floor.
    if num >= 0 {
        num / den
    } else {
        let q: i128 = (-num) / den;
        let r: i128 = (-num) % den;
        proof {
            lemma_floor_of_negative((-num) as int, den as int);
        }
        if r == 0 {
            -q
        } else {
            -q - 1
        }
    }
}

/// The floor quotient of `-a` in terms of the quotient and remainder of `a`.
pub proof fn lemma_floor_of_negative(a: int, d: int)
    requires
        a >= 0,
        d > 0,
    ensures
        a % d == 0 ==> (-a) / d == -(a / d),
        a % d != 0 ==> (-a) / d == -(a / d) - 1,
{
    let q = a / d;
    let r = a % d;
    assert(a == q * d + r && 0 <= r < d) by {
        vstd::arithmetic::div_mod::lemma_fundamental_div_mod(a, d);
        vstd::arithmetic::div_mod::lemma_mod_bound(a, d);
        assert(d * q == q * d) by (nonlinear_arith);
    }
    if r == 0 {
        assert(-a == (-q) * d) by (nonlinear_arith)
            requires
                a == q * d + r,
                r == 0,
        ;
        vstd::arithmetic::div_mod::lemma_fundamental_div_mod_converse(-a, d, -q, 0);
    } else {
        assert(-a == (-q - 1) * d + (d - r)) by (nonlinear_arith)
            requires
                a == q * d + r,
        ;
        vstd::arithmetic::div_mod::lemma_fundamental_div_mod_converse(-a, d, -q - 1, d - r);
    }
}

/// The largest integer whose square does not exceed `n`.
pub open spec fn is_isqrt(n: int, r: int) -> bool {
    r >= 0 && r * r <= n && n < (r + 1) * (r + 1)
}

/// The integer square root of `n >= 0`: the largest `r` with `r * r <= n`.
pub open spec fn isqrt_of(n: int) -> int {
    choose|r: int| is_isqrt(n, r)
}

/// A number has at most one integer square root.
pub proof fn lemma_isqrt_unique(n: int, a: int, b: int)
    requires
        is_isqrt(n, a),
        is_isqrt(n, b),
    ensures
        a == b,
{
    if a < b {
        assert((a + 1) * (a + 1) <= b * b) by (nonlinear_arith)
            requires
                0 <= a,
                a + 1 <= b,
        ;
    }
    if b < a {
        assert((b + 1) * (b + 1) <= a * a) by (nonlinear_arith)
            requires
                0 <= b,
                b + 1 <= a,
        ;
    }
}

/// The integer square root of `n`: the largest `r` with `r * r <= n`.
pub fn isqrt(n: u64) -> (r: u64)
    ensures
        is_isqrt(n as int, r as int),
        r == isqrt_of(n as int),
        r <= 0xffff_ffff,
{
    // Binary search over 0..=2^32 - 1 for the last value whose square fits.
    let mut lo: u64 = 0;
    let mut hi: u64 = 0x1_0000_0000;
    assert(lo * lo <= n);
    while hi - lo > 1
        invariant
            lo < hi <= 0x1_0000_0000,
            lo * lo <= n,
            hi == 0x1_0000_0000 || n < hi * hi,
        decreases hi - lo,
    {
        let mid: u64 = lo + (hi - lo) / 2;
        assert(mid * mid <= 0xffff_ffff * 0xffff_ffff) by (nonlinear_arith)
            requires
                0 <= mid <= 0xffff_ffff,
        ;
        if mid * mid <= n {
            lo = mid;
        } else {
            hi = mid;
        }
    }
    proof {
        if hi == 0x1_0000_0000 {
            assert(n < hi * hi) by (nonlinear_arith)
                requires
                    hi == 0x1_0000_0000,
                    n <= 0xffff_ffff_ffff_ffff,
            ;
        }
        lemma_isqrt_unique(n as int, lo as int, isqrt_of(n as int));
    }
    lo
}

/// `a / b` rounded towards zero, for `b > 0`.
pub open spec fn div_trunc(a: int, b: int) -> int
    recommends
        b > 0,
{
    if a >= 0 {
        a / b
    } else {
        -((-a) / b)
    }
}

/// `a / b` rounded towards zero.
pub fn div_trunc_exec(a: i64, b: i64) -> (q: i64)
    requires
        b > 0,
        a > i64::MIN,
    ensures
        q == div_trunc(a as int, b as int),
        abs(q as int) <= abs(a as int),
{
    if a >= 0 {
        let q = a / b;
        assert(0 <= q <= a) by (nonlinear_arith)
            requires
                q == a / b,
                a >= 0,
                b > 0,
        ;
        q
    } else {
        let n: i64 = -a;
        let q = n / b;
        assert(0 <= q <= n) by (nonlinear_arith)
            requires
                q == n / b,
                n >= 0,
                b > 0,
        ;
        -q
    }
}

/// One, for numbers with sixteen fractional bits.
pub const UNIT: i64 = 65536;

/// The length of the vector `(dx, dy)`, rounded down.
pub open spec fn length(dx: int, dy: int) -> int {
    isqrt_of(dx * dx + dy * dy)
}

/// One component of the vector of length one along `(dx, dy)`, in
/// sixteen fractional bits: `d` over the length of the vector, rounded
/// towards zero; 0 for a vector without length.
pub open spec fn unit_component(d: int, dx: int, dy: int) -> int {
    if length(dx, dy) == 0 {
        0
    } else {
        div_trunc(d * UNIT, length(dx, dy))
    }
}

/// The length of the vector `(dx, dy)`, rounded down.
pub fn length_exec(dx: i64, dy: i64) -> (l: i64)
    requires
        -0x8000_0000 <= dx <= 0x8000_0000,
        -0x8000_0000 <= dy <= 0x8000_0000,
    ensures
        l == length(dx as int, dy as int),
        0 <= l <= 0xffff_ffff,
        abs(dx as int) <= l,
        abs(dy as int) <= l,
        (dx != 0 || dy != 0) ==> l >= 1,
{
    assert(0 <= dx * dx <= 0x8000_0000 * 0x8000_0000 && 0 <= dy * dy <= 0x8000_0000 * 0x8000_0000)
        by (nonlinear_arith)
        requires
            -0x8000_0000 <= dx <= 0x8000_0000,
            -0x8000_0000 <= dy <= 0x8000_0000,
    ;
    let sum: u64 = (dx * dx) as u64 + (dy * dy) as u64;
    let l = isqrt(sum);
    proof {
        let li = l as int;
        let ax = abs(dx as int);
        let ay = abs(dy as int);
        assert(ax * ax == dx * dx && ay * ay == dy * dy) by (nonlinear_arith)
            requires
                ax == abs(dx as int),
                ay == abs(dy as int),
        ;
        if ax > li {
            assert(ax * ax >= (li + 1) * (li + 1)) by (nonlinear_arith)
                requires
                    ax >= li + 1,
                    li >= 0,
            ;
        }
        if ay > li {
            assert(ay * ay >= (li + 1) * (li + 1)) by (nonlinear_arith)
                requires
                    ay >= li + 1,
                    li >= 0,
            ;
        }
    }
    l as i64
}

/// The vector of length one along `(dx, dy)`, in sixteen fractional bits.
pub fn unit_vector(dx: i64, dy: i64) -> (u: (i64, i64))
    requires
        -0x8000_0000 <= dx <= 0x8000_0000,
        -0x8000_0000 <= dy <= 0x8000_0000,
    ensures
        u.0 == unit_component(dx as int, dx as int, dy as int),
        u.1 == unit_component(dy as int, dx as int, dy as int),
        -UNIT <= u.0 <= UNIT,
        -UNIT <= u.1 <= UNIT,
{
    let l = length_exec(dx, dy);
    if l == 0 {
        (0, 0)
    } else {
        let ux = div_trunc_exec(dx * UNIT, l);
        let uy = div_trunc_exec(dy * UNIT, l);
        proof {
            lemma_ratio_bounded(dx as int, l as int);
            lemma_ratio_bounded(dy as int, l as int);
        }
        (ux, uy)
    }
}

/// A value no larger in magnitude than `l`, scaled by one and divided by
/// `l`, is no larger in magnitude than one.
pub proof fn lemma_ratio_bounded(d: int, l: int)
    requires
        l >= 1,
        abs(d) <= l,
    ensures
        -UNIT <= div_trunc(d * UNIT, l) <= UNIT,
{
    let a = abs(d);
    assert(0 <= a * UNIT <= l * UNIT) by (nonlinear_arith)
        requires
            0 <= a <= l,
    ;
    vstd::arithmetic::div_mod::lemma_div_is_ordered(a * UNIT, l * UNIT, l);
    vstd::arithmetic::div_mod::lemma_div_is_ordered(0, a * UNIT, l);
    assert((l * UNIT) / l == UNIT) by {
        vstd::arithmetic::div_mod::lemma_fundamental_div_mod_converse(
            l * UNIT,
            l,
            UNIT as int,
            0,
        );
        assert(l * UNIT == UNIT * l) by (nonlinear_arith);
    }
    assert(0int / l == 0);
    if d >= 0 {
        assert(d * UNIT == a * UNIT);
    } else {
        assert(-(d * UNIT) == a * UNIT) by (nonlinear_arith)
            requires
                a == -d,
        ;
    }
}

} // verus!

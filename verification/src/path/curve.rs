//! Points on quadratic and cubic curves at the parameter `i / n`, computed
//! exactly and rounded to the nearest coordinate unit.

use super::Point;
use super::COORD_MAX;
use crate::math::div_round;
use vstd::prelude::*;

verus! {

/// The coordinate at `i / n` of the quadratic curve through `c0`, `c1`, `c2`.
pub open spec fn quadratic_coord(c0: int, c1: int, c2: int, i: int, n: int) -> int {
    let u = n - i;
    div_round(u * u * c0 + 2 * (u * i) * c1 + i * i * c2, n * n)
}

/// The coordinate at `i / n` of the cubic curve through `c0`, `c1`, `c2`,
/// `c3`.
pub open spec fn cubic_coord(c0: int, c1: int, c2: int, c3: int, i: int, n: int) -> int {
    let u = n - i;
    div_round(
        u * u * u * c0 + 3 * (u * u * i) * c1 + 3 * (u * i * i) * c2 + i * i * i * c3,
        n * n * n,
    )
}

/// The point at `i / n` of the quadratic curve from `from` to `to` with the
/// control point `ctrl`.
pub open spec fn quadratic_point(from: Point, ctrl: Point, to: Point, i: int, n: int) -> Point {
    Point {
        x: quadratic_coord(from.x as int, ctrl.x as int, to.x as int, i, n) as i32,
        y: quadratic_coord(from.y as int, ctrl.y as int, to.y as int, i, n) as i32,
    }
}

/// The point at `i / n` of the cubic curve from `from` to `to` with the
/// control points `ctrl1` and `ctrl2`.
pub open spec fn cubic_point(
    from: Point,
    ctrl1: Point,
    ctrl2: Point,
    to: Point,
    i: int,
    n: int,
) -> Point {
    Point {
        x: cubic_coord(from.x as int, ctrl1.x as int, ctrl2.x as int, to.x as int, i, n) as i32,
        y: cubic_coord(from.y as int, ctrl1.y as int, ctrl2.y as int, to.y as int, i, n) as i32,
    }
}

/// A product of a weight and a coordinate lies between the weight times the
/// coordinate bounds.
proof fn lemma_term(w: int, p: int, m: int)
    requires
        w >= 0,
        -m <= p <= m,
    ensures
        -(m * w) <= w * p <= m * w,
{
    assert(-(m * w) <= w * p <= m * w) by (nonlinear_arith)
        requires
            w >= 0,
            -m <= p <= m,
    ;
}

/// A weighted mean of values within `-m..=m`, rounded, stays within `-m..=m`.
proof fn lemma_mean_bounded(num: int, d: int, m: int)
    requires
        d > 0,
        m >= 0,
        -(m * d) <= num <= m * d,
    ensures
        -m <= div_round(num, d) <= m,
{
    let top = 2 * (m * d) + d;
    let bottom = -2 * (m * d) + d;
    assert(top == m * (2 * d) + d && bottom == (-m) * (2 * d) + d) by (nonlinear_arith)
        requires
            top == 2 * (m * d) + d,
            bottom == -2 * (m * d) + d,
    ;
    vstd::arithmetic::div_mod::lemma_fundamental_div_mod_converse(top, 2 * d, m, d);
    vstd::arithmetic::div_mod::lemma_fundamental_div_mod_converse(bottom, 2 * d, -m, d);
    vstd::arithmetic::div_mod::lemma_div_is_ordered(2 * num + d, top, 2 * d);
    vstd::arithmetic::div_mod::lemma_div_is_ordered(bottom, 2 * num + d, 2 * d);
}

/// A weighted mean of finite coordinates is a finite coordinate.
pub proof fn lemma_mean_finite(
    w0: int,
    w1: int,
    w2: int,
    w3: int,
    c0: int,
    c1: int,
    c2: int,
    c3: int,
    d: int,
)
    requires
        w0 >= 0,
        w1 >= 0,
        w2 >= 0,
        w3 >= 0,
        w0 + w1 + w2 + w3 == d,
        d > 0,
        -COORD_MAX <= c0 <= COORD_MAX,
        -COORD_MAX <= c1 <= COORD_MAX,
        -COORD_MAX <= c2 <= COORD_MAX,
        -COORD_MAX <= c3 <= COORD_MAX,
    ensures
        -COORD_MAX <= div_round(w0 * c0 + w1 * c1 + w2 * c2 + w3 * c3, d) <= COORD_MAX,
        -(COORD_MAX * d) <= w0 * c0 + w1 * c1 + w2 * c2 + w3 * c3 <= COORD_MAX * d,
{
    let m = COORD_MAX as int;
    lemma_term(w0, c0, m);
    lemma_term(w1, c1, m);
    lemma_term(w2, c2, m);
    lemma_term(w3, c3, m);
    assert(m * w0 + m * w1 + m * w2 + m * w3 == m * d) by (nonlinear_arith)
        requires
            w0 + w1 + w2 + w3 == d,
    ;
    lemma_mean_bounded(w0 * c0 + w1 * c1 + w2 * c2 + w3 * c3, d, m);
}

/// A point of a quadratic curve between finite points is finite.
pub proof fn lemma_quadratic_finite(from: Point, ctrl: Point, to: Point, i: int, n: int)
    requires
        0 <= i <= n,
        n >= 1,
        from.finite(),
        ctrl.finite(),
        to.finite(),
    ensures
        quadratic_point(from, ctrl, to, i, n).finite(),
{
    let u = n - i;
    assert(0 <= u * u && 0 <= u * i && 0 <= i * i && u * u + 2 * (u * i) + i * i == n * n && n * n
        >= 1) by (nonlinear_arith)
        requires
            u >= 0,
            i >= 0,
            u + i == n,
            n >= 1,
    ;
    lemma_mean_finite(
        u * u,
        2 * (u * i),
        i * i,
        0,
        from.x as int,
        ctrl.x as int,
        to.x as int,
        0,
        n * n,
    );
    lemma_mean_finite(
        u * u,
        2 * (u * i),
        i * i,
        0,
        from.y as int,
        ctrl.y as int,
        to.y as int,
        0,
        n * n,
    );
}

/// A point of a cubic curve between finite points is finite.
pub proof fn lemma_cubic_finite(from: Point, ctrl1: Point, ctrl2: Point, to: Point, i: int, n: int)
    requires
        0 <= i <= n,
        n >= 1,
        from.finite(),
        ctrl1.finite(),
        ctrl2.finite(),
        to.finite(),
    ensures
        cubic_point(from, ctrl1, ctrl2, to, i, n).finite(),
{
    let u = n - i;
    assert(0 <= u * u * u && 0 <= u * u * i && 0 <= u * i * i && 0 <= i * i * i && u * u * u + 3
        * (u * u * i) + 3 * (u * i * i) + i * i * i == n * n * n && n * n * n >= 1)
        by (nonlinear_arith)
        requires
            u >= 0,
            i >= 0,
            u + i == n,
            n >= 1,
    ;
    lemma_mean_finite(
        u * u * u,
        3 * (u * u * i),
        3 * (u * i * i),
        i * i * i,
        from.x as int,
        ctrl1.x as int,
        ctrl2.x as int,
        to.x as int,
        n * n * n,
    );
    lemma_mean_finite(
        u * u * u,
        3 * (u * u * i),
        3 * (u * i * i),
        i * i * i,
        from.y as int,
        ctrl1.y as int,
        ctrl2.y as int,
        to.y as int,
        n * n * n,
    );
}

/// The rounded quotient of `w0 * c0 + w1 * c1 + w2 * c2 + w3 * c3` by the
/// sum `d` of the weights.
fn weighted_mean(w: [i128; 4], p: [i32; 4], d: i128) -> (r: i32)
    requires
        w[0] >= 0,
        w[1] >= 0,
        w[2] >= 0,
        w[3] >= 0,
        w[0] + w[1] + w[2] + w[3] == d,
        0 < d <= 0x1_0000_0000_0000_0000_0000_0000,
        forall|j: int| 0 <= j < 4 ==> -COORD_MAX <= #[trigger] p[j] <= COORD_MAX,
    ensures
        r == div_round(w[0] * p[0] + w[1] * p[1] + w[2] * p[2] + w[3] * p[3], d as int),
        -COORD_MAX <= r <= COORD_MAX,
{
    let ghost m = COORD_MAX as int;
    proof {
        lemma_term(w[0] as int, p[0] as int, m);
        lemma_term(w[1] as int, p[1] as int, m);
        lemma_term(w[2] as int, p[2] as int, m);
        lemma_term(w[3] as int, p[3] as int, m);
        assert(m * w[0] + m * w[1] + m * w[2] + m * w[3] == m * d) by (nonlinear_arith)
            requires
                w[0] + w[1] + w[2] + w[3] == d,
        ;
        assert(m * d <= 0x2000_0000 * 0x1_0000_0000_0000_0000_0000_0000) by (nonlinear_arith)
            requires
                m == 0x2000_0000,
                0 < d <= 0x1_0000_0000_0000_0000_0000_0000,
        ;
        assert(m * w[0] >= 0 && m * w[1] >= 0 && m * w[2] >= 0 && m * w[3] >= 0)
            by (nonlinear_arith)
            requires
                m >= 0,
                w[0] >= 0,
                w[1] >= 0,
                w[2] >= 0,
                w[3] >= 0,
        ;
    }
    let t0: i128 = w[0] * (p[0] as i128);
    let t1: i128 = w[1] * (p[1] as i128);
    let t2: i128 = w[2] * (p[2] as i128);
    let t3: i128 = w[3] * (p[3] as i128);
    let s1: i128 = t0 + t1;
    let s2: i128 = s1 + t2;
    let num: i128 = s2 + t3;
    proof {
        lemma_mean_bounded(num as int, d as int, m);
    }
    let q = crate::math::div_round_i128(num, d);
    q as i32
}

/// The coordinate at `i / n` of the quadratic curve through `c0`, `c1`, `c2`.
pub fn quadratic_coord_exec(c0: i32, c1: i32, c2: i32, i: u32, n: u32) -> (r: i32)
    requires
        0 <= i <= n,
        n >= 1,
        -COORD_MAX <= c0 <= COORD_MAX,
        -COORD_MAX <= c1 <= COORD_MAX,
        -COORD_MAX <= c2 <= COORD_MAX,
    ensures
        r == quadratic_coord(c0 as int, c1 as int, c2 as int, i as int, n as int),
        -COORD_MAX <= r <= COORD_MAX,
{
    let u: i128 = (n - i) as i128;
    let v: i128 = i as i128;
    let nn: i128 = n as i128;
    proof {
        assert(0 <= u * u && 0 <= u * v && 0 <= v * v && u * u + 2 * (u * v) + v * v == nn * nn
            && nn * nn <= 0xffff_ffff * 0xffff_ffff && u * u <= nn * nn && u * v <= nn * nn && v
            * v <= nn * nn && nn * nn >= 1) by (nonlinear_arith)
            requires
                u >= 0,
                v >= 0,
                u + v == nn,
                1 <= nn <= 0xffff_ffff,
        ;
    }
    let w0: i128 = u * u;
    let w1: i128 = 2 * (u * v);
    let w2: i128 = v * v;
    let d: i128 = nn * nn;
    weighted_mean([w0, w1, w2, 0], [c0, c1, c2, 0], d)
}

/// The coordinate at `i / n` of the cubic curve through `c0`, `c1`, `c2`,
/// `c3`.
pub fn cubic_coord_exec(c0: i32, c1: i32, c2: i32, c3: i32, i: u32, n: u32) -> (r: i32)
    requires
        0 <= i <= n,
        n >= 1,
        -COORD_MAX <= c0 <= COORD_MAX,
        -COORD_MAX <= c1 <= COORD_MAX,
        -COORD_MAX <= c2 <= COORD_MAX,
        -COORD_MAX <= c3 <= COORD_MAX,
    ensures
        r == cubic_coord(c0 as int, c1 as int, c2 as int, c3 as int, i as int, n as int),
        -COORD_MAX <= r <= COORD_MAX,
{
    let u: i128 = (n - i) as i128;
    let v: i128 = i as i128;
    let nn: i128 = n as i128;
    proof {
        assert(0 <= u * u <= nn * nn && 0 <= v * v <= nn * nn && 0 <= u * v <= nn * nn && nn * nn
            <= 0xffff_ffff * 0xffff_ffff && nn * nn >= 1) by (nonlinear_arith)
            requires
                u >= 0,
                v >= 0,
                u + v == nn,
                1 <= nn <= 0xffff_ffff,
        ;
        let uu = u * u;
        let vv = v * v;
        let n2 = nn * nn;
        assert(0 <= uu * u <= n2 * nn && 0 <= uu * v <= n2 * nn && 0 <= u * vv <= n2 * nn && 0
            <= vv * v <= n2 * nn && n2 * nn <= 0xffff_ffff * 0xffff_ffff * 0xffff_ffff && n2 * nn
            >= 1) by (nonlinear_arith)
            requires
                0 <= uu <= n2,
                0 <= vv <= n2,
                0 <= u <= nn,
                0 <= v <= nn,
                1 <= n2 <= 0xffff_ffff * 0xffff_ffff,
                1 <= nn <= 0xffff_ffff,
        ;
        assert(u * u * u + 3 * (u * u * v) + 3 * (u * (v * v)) + v * v * v == nn * nn * nn)
            by (nonlinear_arith)
            requires
                u + v == nn,
        ;
        assert(u * v * v == u * (v * v)) by (nonlinear_arith);
    }
    let w0: i128 = u * u * u;
    let w1: i128 = 3 * (u * u * v);
    let w2: i128 = 3 * (u * (v * v));
    let w3: i128 = v * v * v;
    let d: i128 = nn * nn * nn;
    weighted_mean([w0, w1, w2, w3], [c0, c1, c2, c3], d)
}

/// The point at `i / n` of a quadratic curve.
pub fn quadratic_sample(from: Point, ctrl: Point, to: Point, i: u32, n: u32) -> (p: Point)
    requires
        0 <= i <= n,
        n >= 1,
        from.finite(),
        ctrl.finite(),
        to.finite(),
    ensures
        p == quadratic_point(from, ctrl, to, i as int, n as int),
        p.finite(),
{
    Point {
        x: quadratic_coord_exec(from.x, ctrl.x, to.x, i, n),
        y: quadratic_coord_exec(from.y, ctrl.y, to.y, i, n),
    }
}

/// The point at `i / n` of a cubic curve.
pub fn cubic_sample(from: Point, ctrl1: Point, ctrl2: Point, to: Point, i: u32, n: u32) -> (p:
    Point)
    requires
        0 <= i <= n,
        n >= 1,
        from.finite(),
        ctrl1.finite(),
        ctrl2.finite(),
        to.finite(),
    ensures
        p == cubic_point(from, ctrl1, ctrl2, to, i as int, n as int),
        p.finite(),
{
    Point {
        x: cubic_coord_exec(from.x, ctrl1.x, ctrl2.x, to.x, i, n),
        y: cubic_coord_exec(from.y, ctrl1.y, ctrl2.y, to.y, i, n),
    }
}

} // verus!

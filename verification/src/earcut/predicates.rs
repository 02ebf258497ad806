//! Exact orientation and containment tests on integer coordinates.

use super::Node;
use vstd::prelude::*;

verus! {

/// Twice the signed area of the triangle `p`, `q`, `r`. It is negative
/// where the three points turn the way an ear of the ring turns, zero where
/// they lie on one line.
pub open spec fn area_of(p: Node, q: Node, r: Node) -> int {
    (q.y - p.y) * (r.x - q.x) - (q.x - p.x) * (r.y - q.y)
}

/// Whether `p` lies in the triangle `a`, `b`, `c`, its border included, for
/// a triangle that turns the way an ear turns.
pub open spec fn in_triangle(a: Node, b: Node, c: Node, p: Node) -> bool {
    &&& (c.x - p.x) * (a.y - p.y) >= (a.x - p.x) * (c.y - p.y)
    &&& (a.x - p.x) * (b.y - p.y) >= (b.x - p.x) * (a.y - p.y)
    &&& (b.x - p.x) * (c.y - p.y) >= (c.x - p.x) * (b.y - p.y)
}

/// Whether two nodes lie on the same point.
pub open spec fn same_point(p: Node, q: Node) -> bool {
    p.x == q.x && p.y == q.y
}

/// The sign of `v`: -1, 0 or 1.
pub open spec fn sign_of(v: int) -> int {
    if v > 0 {
        1
    } else if v < 0 {
        -1
    } else {
        0
    }
}

/// For `q` on the line through `p` and `r`: whether `q` lies between them.
pub open spec fn on_segment_of(p: Node, q: Node, r: Node) -> bool {
    &&& q.x <= if p.x >= r.x { p.x } else { r.x }
    &&& q.y <= if p.y >= r.y { p.y } else { r.y }
    &&& q.x >= if p.x <= r.x { p.x } else { r.x }
    &&& q.y >= if p.y <= r.y { p.y } else { r.y }
}

/// Whether the segments `pa qa` and `pb qb` meet.
pub open spec fn intersects_of(pa: Node, qa: Node, pb: Node, qb: Node) -> bool {
    let o1 = sign_of(area_of(pa, qa, pb));
    let o2 = sign_of(area_of(pa, qa, qb));
    let o3 = sign_of(area_of(pb, qb, pa));
    let o4 = sign_of(area_of(pb, qb, qa));
    ||| (o1 != o2 && o3 != o4)
    ||| (o3 == 0 && on_segment_of(pb, pa, qb))
    ||| (o4 == 0 && on_segment_of(pb, qa, qb))
    ||| (o2 == 0 && on_segment_of(pa, qb, qa))
    ||| (o1 == 0 && on_segment_of(pa, pb, qa))
}

/// `(a - b) * (c - d)`, which fits 66 bits.
pub fn mul_diff(a: i32, b: i32, c: i32, d: i32) -> (r: i128)
    ensures
        r == (a - b) * (c - d),
        -0x1_0000_0000_0000_0000 <= r <= 0x1_0000_0000_0000_0000,
{
    let u: i128 = a as i128 - b as i128;
    let v: i128 = c as i128 - d as i128;
    assert(-0x1_0000_0000_0000_0000 <= u * v <= 0x1_0000_0000_0000_0000) by (nonlinear_arith)
        requires
            -0x1_0000_0000 <= u <= 0x1_0000_0000,
            -0x1_0000_0000 <= v <= 0x1_0000_0000,
    ;
    u * v
}

/// Twice the signed area of the triangle `p`, `q`, `r`.
pub fn area(p: &Node, q: &Node, r: &Node) -> (a: i128)
    ensures
        a == area_of(*p, *q, *r),
{
    mul_diff(q.y, p.y, r.x, q.x) - mul_diff(q.x, p.x, r.y, q.y)
}

/// Whether `p` lies in the triangle `a`, `b`, `c`, its border included.
pub fn point_in_triangle(a: &Node, b: &Node, c: &Node, p: &Node) -> (r: bool)
    ensures
        r == in_triangle(*a, *b, *c, *p),
{
    mul_diff(c.x, p.x, a.y, p.y) >= mul_diff(a.x, p.x, c.y, p.y) && mul_diff(
        a.x,
        p.x,
        b.y,
        p.y,
    ) >= mul_diff(b.x, p.x, a.y, p.y) && mul_diff(c.x, p.x, b.y, p.y) <= mul_diff(
        b.x,
        p.x,
        c.y,
        p.y,
    )
}

/// Whether two nodes lie on the same point.
pub fn equals(p: &Node, q: &Node) -> (r: bool)
    ensures
        r == same_point(*p, *q),
{
    p.x == q.x && p.y == q.y
}

/// The sign of `v`: -1, 0 or 1.
pub fn sign(v: i128) -> (s: i8)
    ensures
        s == sign_of(v as int),
{
    if v > 0 {
        1
    } else if v < 0 {
        -1
    } else {
        0
    }
}

/// For `q` on the line through `p` and `r`: whether `q` lies between them.
pub fn on_segment(p: &Node, q: &Node, r: &Node) -> (b: bool)
    ensures
        b == on_segment_of(*p, *q, *r),
{
    let max_x = if p.x >= r.x {
        p.x
    } else {
        r.x
    };
    let max_y = if p.y >= r.y {
        p.y
    } else {
        r.y
    };
    let min_x = if p.x <= r.x {
        p.x
    } else {
        r.x
    };
    let min_y = if p.y <= r.y {
        p.y
    } else {
        r.y
    };
    q.x <= max_x && q.y <= max_y && q.x >= min_x && q.y >= min_y
}

/// Whether the segments `pa qa` and `pb qb` meet.
pub fn intersects(pa: &Node, qa: &Node, pb: &Node, qb: &Node) -> (b: bool)
    ensures
        b == intersects_of(*pa, *qa, *pb, *qb),
{
    let o1 = sign(area(pa, qa, pb));
    let o2 = sign(area(pa, qa, qb));
    let o3 = sign(area(pb, qb, pa));
    let o4 = sign(area(pb, qb, qa));
    (o1 != o2 && o3 != o4) || (o3 == 0 && on_segment(pb, pa, qb)) || (o4 == 0 && on_segment(
        pb,
        qa,
        qb,
    )) || (o2 == 0 && on_segment(pa, qb, qa)) || (o1 == 0 && on_segment(pa, pb, qa))
}

} // verus!

//! Holes: each hole is joined to the outer ring by a bridge, from its
//! leftmost vertex to a vertex of the outer ring that sees it, so that one
//! ring is left to clip.

use super::arena_ok;
use super::predicates::area;
use super::predicates::area_of;
use super::predicates::equals;
use super::predicates::intersects;
use super::predicates::mul_diff;
use super::ring::filter_points;
use super::ring::filter_points_of;
use super::ring::linked_list;
use super::ring::linked_list_of;
use super::ring::split;
use super::ring::split_polygon;
use super::Node;
use crate::path::Point;
use vstd::prelude::*;

verus! {

/// Whether the diagonal from `a` to `b` starts out inside the polygon, as
/// the ring turns at `a`.
pub open spec fn locally_inside_of(nodes: Seq<Node>, a: int, b: int) -> bool {
    let an = nodes[a];
    let bn = nodes[b];
    let a_prev = nodes[an.prev as int];
    let a_next = nodes[an.next as int];
    if area_of(a_prev, an, a_next) < 0 {
        area_of(an, bn, a_next) >= 0 && area_of(an, a_prev, bn) >= 0
    } else {
        area_of(an, bn, a_prev) < 0 || area_of(an, a_next, bn) < 0
    }
}

/// Whether the diagonal from `a` to `b` starts out inside the polygon.
pub fn locally_inside(nodes: &Vec<Node>, vertices: usize, a: usize, b: usize) -> (r: bool)
    requires
        arena_ok(nodes@, vertices as nat),
        1 <= a < nodes@.len(),
        1 <= b < nodes@.len(),
    ensures
        r == locally_inside_of(nodes@, a as int, b as int),
{
    let an = nodes[a];
    let bn = nodes[b];
    let a_prev = nodes[an.prev];
    let a_next = nodes[an.next];
    if area(&a_prev, &an, &a_next) < 0 {
        area(&an, &bn, &a_next) >= 0 && area(&an, &a_prev, &bn) >= 0
    } else {
        area(&an, &bn, &a_prev) < 0 || area(&an, &a_next, &bn) < 0
    }
}

/// Whether the sector of the ring at `m` holds the sector at `p`, for two
/// nodes on one point.
pub fn sector_contains_sector(nodes: &Vec<Node>, vertices: usize, m: usize, p: usize) -> (r: bool)
    requires
        arena_ok(nodes@, vertices as nat),
        1 <= m < nodes@.len(),
        1 <= p < nodes@.len(),
    ensures
        r == (area_of(
            nodes@[nodes@[m as int].prev as int],
            nodes@[m as int],
            nodes@[nodes@[p as int].prev as int],
        ) < 0 && area_of(
            nodes@[nodes@[p as int].next as int],
            nodes@[m as int],
            nodes@[nodes@[m as int].next as int],
        ) < 0),
{
    let mn = nodes[m];
    let pn = nodes[p];
    area(&nodes[mn.prev], &mn, &nodes[pn.prev]) < 0 && area(&nodes[pn.next], &mn, &nodes[mn.next])
        < 0
}

/// The better of the nodes `p` and `best` as the leftmost: `p` where it lies
/// further left, or as far left and higher up.
pub open spec fn better_left(nodes: Seq<Node>, p: int, best: int) -> int {
    if nodes[p].x < nodes[best].x || (nodes[p].x == nodes[best].x && nodes[p].y < nodes[best].y) {
        p
    } else {
        best
    }
}

/// The leftmost node on the walk along the ring of `start` from `p` on, of
/// at most `fuel` steps, where `best` was the leftmost before.
pub open spec fn leftmost_of(nodes: Seq<Node>, start: int, p: int, best: int, fuel: nat) -> int
    decreases fuel,
{
    if fuel == 0 {
        best
    } else {
        let b = better_left(nodes, p, best);
        let next = nodes[p].next as int;
        if next == start {
            b
        } else {
            leftmost_of(nodes, start, next, b, (fuel - 1) as nat)
        }
    }
}

/// The leftmost node of the ring of `start`; of several, the topmost.
pub fn get_leftmost(nodes: &Vec<Node>, vertices: usize, start: usize) -> (leftmost: usize)
    requires
        arena_ok(nodes@, vertices as nat),
        1 <= start < nodes@.len(),
    ensures
        leftmost == leftmost_of(nodes@, start as int, start as int, start as int, nodes@.len()),
        1 <= leftmost < nodes@.len(),
{
    let mut p: usize = start;
    let mut leftmost: usize = start;
    let mut fuel: usize = nodes.len();
    let ghost target = leftmost_of(nodes@, start as int, start as int, start as int, nodes@.len());
    while fuel > 0
        invariant_except_break
            target == leftmost_of(nodes@, start as int, p as int, leftmost as int, fuel as nat),
        invariant
            arena_ok(nodes@, vertices as nat),
            1 <= p < nodes@.len(),
            1 <= leftmost < nodes@.len(),
            1 <= start < nodes@.len(),
        ensures
            target == leftmost,
            1 <= leftmost < nodes@.len(),
        decreases fuel,
    {
        let pn = nodes[p];
        let ln = nodes[leftmost];
        if pn.x < ln.x || (pn.x == ln.x && pn.y < ln.y) {
            leftmost = p;
        }
        p = pn.next;
        if p == start {
            break ;
        }
        fuel -= 1;
    }
    leftmost
}

/// Whether the edge that leaves the node `p` crosses the diagonal from `a`
/// to `b` and touches neither of the two.
pub open spec fn crosses_edge(nodes: Seq<Node>, a: int, b: int, p: int) -> bool {
    let pn = nodes[p];
    let nx = nodes[pn.next as int];
    &&& pn.i != nodes[a].i
    &&& pn.i != nodes[b].i
    &&& nx.i != nodes[a].i
    &&& nx.i != nodes[b].i
    &&& super::predicates::intersects_of(pn, nx, nodes[a], nodes[b])
}

/// Whether an edge on the walk along the ring of `a` from `p` on, of at most
/// `fuel` steps, crosses the diagonal from `a` to `b`.
pub open spec fn crosses_ring(nodes: Seq<Node>, a: int, b: int, p: int, fuel: nat) -> bool
    decreases fuel,
{
    if fuel == 0 {
        false
    } else {
        crosses_edge(nodes, a, b, p) || (nodes[p].next != a && crosses_ring(
            nodes,
            a,
            b,
            nodes[p].next as int,
            (fuel - 1) as nat,
        ))
    }
}

/// Whether the diagonal from `a` to `b` crosses an edge of the ring of `a`
/// that touches neither of the two.
pub fn intersects_polygon(nodes: &Vec<Node>, vertices: usize, a: usize, b: usize) -> (r: bool)
    requires
        arena_ok(nodes@, vertices as nat),
        1 <= a < nodes@.len(),
        1 <= b < nodes@.len(),
    ensures
        r == crosses_ring(nodes@, a as int, b as int, a as int, nodes@.len()),
{
    let an = nodes[a];
    let bn = nodes[b];
    let mut p: usize = a;
    let mut fuel: usize = nodes.len();
    let ghost target = crosses_ring(nodes@, a as int, b as int, a as int, nodes@.len());
    while fuel > 0
        invariant
            arena_ok(nodes@, vertices as nat),
            1 <= p < nodes@.len(),
            1 <= a < nodes@.len(),
            1 <= b < nodes@.len(),
            an == nodes@[a as int],
            bn == nodes@[b as int],
            target == crosses_ring(nodes@, a as int, b as int, a as int, nodes@.len()),
            target == crosses_ring(nodes@, a as int, b as int, p as int, fuel as nat),
        decreases fuel,
    {
        let pn = nodes[p];
        let nx = nodes[pn.next];
        if pn.i != an.i && pn.i != bn.i && nx.i != an.i && nx.i != bn.i && intersects(
            &pn,
            &nx,
            &an,
            &bn,
        ) {
            return true;
        }
        p = pn.next;
        if p == a {
            return false;
        }
        fuel -= 1;
    }
    false
}

/// Whether a ray from the middle of the diagonal from `a` to `b` to the
/// right crosses the edge that leaves the node `p`: the ends of the edge lie
/// on different sides of the height of the middle, and the middle lies left
/// of the edge at that height. The middle is kept as the sum of the two ends,
/// so that every comparison is made on whole numbers.
pub open spec fn ray_crosses(nodes: Seq<Node>, a: int, b: int, p: int) -> bool {
    let pn = nodes[p];
    let nx = nodes[pn.next as int];
    let mx2 = nodes[a].x + nodes[b].x;
    let my2 = nodes[a].y + nodes[b].y;
    let dy = nx.y - pn.y;
    let lhs = (mx2 - 2 * pn.x) * dy;
    let rhs = (nx.x - pn.x) * (my2 - 2 * pn.y);
    &&& (2 * pn.y > my2) != (2 * nx.y > my2)
    &&& nx.y != pn.y
    &&& if dy > 0 {
        lhs < rhs
    } else {
        lhs > rhs
    }
}

/// Whether the middle of the diagonal lies inside, after the walk along the
/// ring of `a` from `p` on, of at most `fuel` steps, where `inside` was the
/// answer before.
pub open spec fn middle_in(nodes: Seq<Node>, a: int, b: int, p: int, inside: bool, fuel: nat) -> bool
    decreases fuel,
{
    if fuel == 0 {
        inside
    } else {
        let now = inside != ray_crosses(nodes, a, b, p);
        if nodes[p].next == a {
            now
        } else {
            middle_in(nodes, a, b, nodes[p].next as int, now, (fuel - 1) as nat)
        }
    }
}

/// Whether the middle of the diagonal from `a` to `b` lies inside the ring
/// of `a`: a ray from the middle to the right crosses the ring an odd number
/// of times.
pub fn middle_inside(nodes: &Vec<Node>, vertices: usize, a: usize, b: usize) -> (inside: bool)
    requires
        arena_ok(nodes@, vertices as nat),
        1 <= a < nodes@.len(),
        1 <= b < nodes@.len(),
    ensures
        inside == middle_in(nodes@, a as int, b as int, a as int, false, nodes@.len()),
{
    let an = nodes[a];
    let bn = nodes[b];
    // Twice the middle.
    let mx2: i64 = an.x as i64 + bn.x as i64;
    let my2: i64 = an.y as i64 + bn.y as i64;
    let mut inside = false;
    let mut p: usize = a;
    let mut fuel: usize = nodes.len();
    let ghost target = middle_in(nodes@, a as int, b as int, a as int, false, nodes@.len());
    while fuel > 0
        invariant_except_break
            target == middle_in(nodes@, a as int, b as int, p as int, inside, fuel as nat),
        invariant
            arena_ok(nodes@, vertices as nat),
            1 <= p < nodes@.len(),
            1 <= a < nodes@.len(),
            1 <= b < nodes@.len(),
            mx2 == nodes@[a as int].x + nodes@[b as int].x,
            my2 == nodes@[a as int].y + nodes@[b as int].y,
        ensures
            target == inside,
        decreases fuel,
    {
        let pn = nodes[p];
        let nx = nodes[pn.next];
        let above = 2 * (pn.y as i64) > my2;
        let next_above = 2 * (nx.y as i64) > my2;
        let ghost before = inside;
        if above != next_above && nx.y != pn.y {
            // The edge passes the height of the middle at
            // x = p.x + (nx.x - p.x) * (my - p.y) / (nx.y - p.y);
            // the middle lies left of it where mx < x.
            let dy: i128 = nx.y as i128 - pn.y as i128;
            let dx: i128 = nx.x as i128 - pn.x as i128;
            let lhs: i128 = mx2 as i128 - 2 * (pn.x as i128);
            let rise: i128 = my2 as i128 - 2 * (pn.y as i128);
            assert(-0x4_0000_0000_0000_0000 <= lhs * dy <= 0x4_0000_0000_0000_0000
                && -0x4_0000_0000_0000_0000 <= dx * rise <= 0x4_0000_0000_0000_0000)
                by (nonlinear_arith)
                requires
                    -0x2_0000_0000 <= lhs <= 0x2_0000_0000,
                    -0x2_0000_0000 <= rise <= 0x2_0000_0000,
                    -0x1_0000_0000 <= dx <= 0x1_0000_0000,
                    -0x1_0000_0000 <= dy <= 0x1_0000_0000,
            ;
            let left = if dy > 0 {
                lhs * dy < dx * rise
            } else {
                lhs * dy > dx * rise
            };
            if left {
                inside = !inside;
            }
        }
        assert(inside == (before != ray_crosses(nodes@, a as int, b as int, p as int)));
        p = pn.next;
        if p == a {
            break ;
        }
        fuel -= 1;
    }
    inside
}

/// Whether the diagonal from `a` to `b` lies inside the polygon: it meets
/// no edge, starts out inside at both ends, has its middle inside, and does
/// not make two sectors that face each other; or it has no length, and the
/// ring turns against the way of an ear at both ends.
pub open spec fn valid_diagonal(nodes: Seq<Node>, a: int, b: int) -> bool {
    let an = nodes[a];
    let bn = nodes[b];
    let a_next = nodes[an.next as int];
    let a_prev = nodes[an.prev as int];
    let b_next = nodes[bn.next as int];
    let b_prev = nodes[bn.prev as int];
    &&& a_next.i != bn.i
    &&& a_prev.i != bn.i
    &&& !crosses_ring(nodes, a, b, a, nodes.len())
    &&& ((locally_inside_of(nodes, a, b) && locally_inside_of(nodes, b, a) && middle_in(
        nodes,
        a,
        b,
        a,
        false,
        nodes.len(),
    ) && (area_of(a_prev, an, b_prev) != 0 || area_of(an, b_prev, bn) != 0))
        || (super::predicates::same_point(an, bn) && area_of(a_prev, an, a_next) > 0 && area_of(
        b_prev,
        bn,
        b_next,
    ) > 0))
}

/// Whether the diagonal from `a` to `b` lies inside the polygon.
pub fn is_valid_diagonal(nodes: &Vec<Node>, vertices: usize, a: usize, b: usize) -> (r: bool)
    requires
        arena_ok(nodes@, vertices as nat),
        1 <= a < nodes@.len(),
        1 <= b < nodes@.len(),
    ensures
        r == valid_diagonal(nodes@, a as int, b as int),
{
    let an = nodes[a];
    let bn = nodes[b];
    let a_next = nodes[an.next];
    let a_prev = nodes[an.prev];
    let b_next = nodes[bn.next];
    let b_prev = nodes[bn.prev];
    a_next.i != bn.i && a_prev.i != bn.i && !intersects_polygon(nodes, vertices, a, b) && ((
    locally_inside(nodes, vertices, a, b) && locally_inside(nodes, vertices, b, a)
        && middle_inside(nodes, vertices, a, b) && (area(&a_prev, &an, &b_prev) != 0 || area(
        &an,
        &b_prev,
        &bn,
    ) != 0)) || (equals(&an, &bn) && area(&a_prev, &an, &a_next) > 0 && area(
        &b_prev,
        &bn,
        &b_next,
    ) > 0))
}

/// A position on a horizontal line as a fraction: `num / den`, `den >= 1`.
#[derive(Clone, Copy)]
pub struct Crossing {
    pub num: i128,
    pub den: i128,
}

/// Where the edge from `p` to `n`, which is not level, passes the height
/// `y`: the fraction `x = p.x + (y - p.y) * (n.x - p.x) / (n.y - p.y)`, as
/// a numerator and a denominator that is positive.
pub open spec fn crossing_of(p: Node, n: Node, y: int) -> (int, int) {
    let dy = n.y - p.y;
    let num = p.x * dy + (y - p.y) * (n.x - p.x);
    if dy > 0 {
        (num, dy)
    } else {
        (-num, -dy)
    }
}

/// Where the edge from `p` to `n` passes the height `y`.
fn crossing(p: &Node, n: &Node, y: i32) -> (c: Crossing)
    requires
        p.y != n.y,
    ensures
        (c.num as int, c.den as int) == crossing_of(*p, *n, y as int),
        1 <= c.den <= 0x1_0000_0000,
        -0x2_0000_0000_0000_0000 <= c.num <= 0x2_0000_0000_0000_0000,
{
    let dy: i128 = n.y as i128 - p.y as i128;
    let rise = mul_diff(y, p.y, n.x, p.x);
    assert(-0x1_0000_0000_0000_0000 <= (p.x as i128) * dy <= 0x1_0000_0000_0000_0000)
        by (nonlinear_arith)
        requires
            -0x1_0000_0000 <= dy <= 0x1_0000_0000,
            -0x8000_0000 <= p.x <= 0x8000_0000,
    ;
    let num: i128 = (p.x as i128) * dy + rise;
    if dy > 0 {
        Crossing { num, den: dy }
    } else {
        Crossing { num: -num, den: -dy }
    }
}

/// Whether the point `(px, py)` lies in the triangle with the corners
/// `(ax, ay)`, `(bx, by)`, `(cx, cy)`, its border included, where every x
/// is given in the same units.
pub open spec fn wide_in_triangle(
    ax: int,
    ay: int,
    bx: int,
    by: int,
    cx: int,
    cy: int,
    px: int,
    py: int,
) -> bool {
    &&& (cx - px) * (ay - py) >= (ax - px) * (cy - py)
    &&& (ax - px) * (by - py) >= (bx - px) * (ay - py)
    &&& (bx - px) * (cy - py) >= (cx - px) * (by - py)
}

fn wide_point_in_triangle(
    ax: i128,
    ay: i32,
    bx: i128,
    by: i32,
    cx: i128,
    cy: i32,
    px: i128,
    py: i32,
) -> (r: bool)
    requires
        -0x2_0000_0000_0000_0000 <= ax <= 0x2_0000_0000_0000_0000,
        -0x2_0000_0000_0000_0000 <= bx <= 0x2_0000_0000_0000_0000,
        -0x2_0000_0000_0000_0000 <= cx <= 0x2_0000_0000_0000_0000,
        -0x2_0000_0000_0000_0000 <= px <= 0x2_0000_0000_0000_0000,
    ensures
        r == wide_in_triangle(
            ax as int,
            ay as int,
            bx as int,
            by as int,
            cx as int,
            cy as int,
            px as int,
            py as int,
        ),
{
    wide_mul(cx - px, ay, py) >= wide_mul(ax - px, cy, py) && wide_mul(ax - px, by, py)
        >= wide_mul(bx - px, ay, py) && wide_mul(bx - px, cy, py) >= wide_mul(cx - px, by, py)
}

/// `dx * (y1 - y0)`.
fn wide_mul(dx: i128, y1: i32, y0: i32) -> (r: i128)
    requires
        -0x4_0000_0000_0000_0000 <= dx <= 0x4_0000_0000_0000_0000,
    ensures
        r == dx * (y1 - y0),
{
    let dy: i128 = y1 as i128 - y0 as i128;
    assert(-0x4_0000_0000_0000_0000_0000_0000 <= dx * dy <= 0x4_0000_0000_0000_0000_0000_0000)
        by (nonlinear_arith)
        requires
            -0x4_0000_0000_0000_0000 <= dx <= 0x4_0000_0000_0000_0000,
            -0x1_0000_0000 <= dy <= 0x1_0000_0000,
    ;
    dx * dy
}

/// `x * den` for a coordinate and a denominator.
fn widen(x: i32, den: i128) -> (r: i128)
    requires
        1 <= den <= 0x1_0000_0000,
    ensures
        r == x * den,
        -0x8000_0000_0000_0000 <= r <= 0x8000_0000_0000_0000,
{
    assert(-0x8000_0000_0000_0000 <= (x as i128) * den <= 0x8000_0000_0000_0000)
        by (nonlinear_arith)
        requires
            1 <= den <= 0x1_0000_0000,
            -0x8000_0000 <= x <= 0x8000_0000,
    ;
    (x as i128) * den
}

/// `a * b` for two values of at most 67 and 33 bits.
fn cross_mul(a: i128, b: i128) -> (r: i128)
    requires
        -0x4_0000_0000_0000_0000 <= a <= 0x4_0000_0000_0000_0000,
        -0x1_0000_0000 <= b <= 0x1_0000_0000,
    ensures
        r == a * b,
{
    assert(-0x4_0000_0000_0000_0000_0000_0000 <= a * b <= 0x4_0000_0000_0000_0000_0000_0000)
        by (nonlinear_arith)
        requires
            -0x4_0000_0000_0000_0000 <= a <= 0x4_0000_0000_0000_0000,
            -0x1_0000_0000 <= b <= 0x1_0000_0000,
    ;
    a * b
}

/// What the search for the edge that the ray meets first has found: the
/// meeting point nearest to the hole so far, as a fraction, and the end of
/// its edge with the lesser x; nothing while `node` is 0.
pub struct RayHit {
    pub num: int,
    pub den: int,
    pub node: int,
}

/// Whether the edge that leaves the node `p` meets the ray from the node
/// `hole` to the left, at a point that is nearer than what `hit` holds.
pub open spec fn meets_ray(nodes: Seq<Node>, hole: int, p: int, hit: RayHit) -> bool {
    let h = nodes[hole];
    let pn = nodes[p];
    let nx = nodes[pn.next as int];
    let x = crossing_of(pn, nx, h.y as int);
    &&& h.y <= pn.y
    &&& h.y >= nx.y
    &&& nx.y != pn.y
    &&& x.0 <= h.x * x.1
    &&& (hit.node == 0 || x.0 * hit.den > hit.num * x.1)
}

/// What is found after the edge that leaves the node `p` was looked at.
pub open spec fn ray_hit(nodes: Seq<Node>, hole: int, p: int, hit: RayHit) -> RayHit {
    let pn = nodes[p];
    let nx = nodes[pn.next as int];
    let x = crossing_of(pn, nx, nodes[hole].y as int);
    if meets_ray(nodes, hole, p, hit) {
        RayHit {
            num: x.0,
            den: x.1,
            node: if pn.x < nx.x {
                p
            } else {
                pn.next as int
            },
        }
    } else {
        hit
    }
}

/// Whether the edge that leaves the node `p` passes through the hole
/// vertex itself, so that the search ends there.
pub open spec fn touches_ray(nodes: Seq<Node>, hole: int, p: int, hit: RayHit) -> bool {
    let pn = nodes[p];
    let nx = nodes[pn.next as int];
    let x = crossing_of(pn, nx, nodes[hole].y as int);
    meets_ray(nodes, hole, p, hit) && x.0 == nodes[hole].x * x.1
}

/// What the search along the ring of `outer` from `p` on, of at most `fuel`
/// steps, finds, and whether it ended at an edge through the hole vertex.
pub open spec fn first_hit(
    nodes: Seq<Node>,
    hole: int,
    outer: int,
    p: int,
    hit: RayHit,
    fuel: nat,
) -> (RayHit, bool)
    decreases fuel,
{
    if fuel == 0 {
        (hit, false)
    } else {
        let now = ray_hit(nodes, hole, p, hit);
        if touches_ray(nodes, hole, p, hit) {
            (now, true)
        } else if nodes[p].next == outer {
            (now, false)
        } else {
            first_hit(nodes, hole, outer, nodes[p].next as int, now, (fuel - 1) as nat)
        }
    }
}

/// The connection point that the second search holds: the node, and the
/// tangent of its angle to the ray as a fraction; no angle yet while `den`
/// is 0.
pub struct Connection {
    pub node: int,
    pub num: int,
    pub den: int,
}

/// Whether the node `p` takes the place of the connection point: it lies
/// between the first connection point and the hole vertex, in the triangle
/// of hole vertex, meeting point and first connection point, the diagonal to
/// the hole starts out inside at it, and its angle to the ray is less than
/// that of the connection point so far; or the same, and it lies further
/// right, or on the same point with a sector that the other sector holds.
pub open spec fn connects_better(
    nodes: Seq<Node>,
    hole: int,
    hit: RayHit,
    first: int,
    p: int,
    best: Connection,
) -> bool {
    let h = nodes[hole];
    let f = nodes[first];
    let pn = nodes[p];
    let m = nodes[best.node];
    let hxq = h.x * hit.den;
    let num = crate::math::abs(h.y - pn.y);
    let den = h.x - pn.x;
    &&& h.x >= pn.x
    &&& pn.x >= f.x
    &&& h.x != pn.x
    &&& wide_in_triangle(
        if h.y < f.y {
            hxq
        } else {
            hit.num
        },
        h.y as int,
        f.x * hit.den,
        f.y as int,
        if h.y < f.y {
            hit.num
        } else {
            hxq
        },
        h.y as int,
        pn.x * hit.den,
        pn.y as int,
    )
    &&& locally_inside_of(nodes, p, hole)
    &&& (best.den == 0 || num * best.den < best.num * den || (num * best.den == best.num * den
        && (pn.x > m.x || (pn.x == m.x && area_of(nodes[m.prev as int], m, nodes[pn.prev as int])
        < 0 && area_of(nodes[pn.next as int], m, nodes[m.next as int]) < 0))))
}

/// The connection point after the node `p` was looked at.
pub open spec fn connection(
    nodes: Seq<Node>,
    hole: int,
    hit: RayHit,
    first: int,
    p: int,
    best: Connection,
) -> Connection {
    if connects_better(nodes, hole, hit, first, p, best) {
        Connection {
            node: p,
            num: crate::math::abs(nodes[hole].y - nodes[p].y),
            den: nodes[hole].x - nodes[p].x,
        }
    } else {
        best
    }
}

/// The connection point after the walk along the ring from `p` on, of at
/// most `fuel` steps, back to the first connection point.
pub open spec fn best_connection(
    nodes: Seq<Node>,
    hole: int,
    hit: RayHit,
    first: int,
    p: int,
    best: Connection,
    fuel: nat,
) -> int
    decreases fuel,
{
    if fuel == 0 {
        best.node
    } else {
        let now = connection(nodes, hole, hit, first, p, best);
        if nodes[p].next == first {
            now.node
        } else {
            best_connection(nodes, hole, hit, first, nodes[p].next as int, now, (fuel - 1) as nat)
        }
    }
}

/// The vertex of the ring of `outer` to which the hole vertex `hole` is
/// joined; 0 for none.
pub open spec fn hole_bridge(nodes: Seq<Node>, hole: int, outer: int) -> int {
    let found = first_hit(
        nodes,
        hole,
        outer,
        outer,
        RayHit { num: 0, den: 1, node: 0 },
        nodes.len(),
    );
    if found.1 || found.0.node == 0 {
        found.0.node
    } else {
        best_connection(
            nodes,
            hole,
            found.0,
            found.0.node,
            found.0.node,
            Connection { node: found.0.node, num: 0, den: 0 },
            nodes.len(),
        )
    }
}

/// Finds the vertex of the outer ring to which the hole can be joined: a
/// ray goes from `hole`, the leftmost vertex of the hole, to the left; of
/// the edge that it meets first, the end with the lesser x is taken, unless
/// a vertex of the ring lies in the triangle between the hole vertex, the
/// meeting point and that end; then, of those vertices, the one at the least
/// angle to the ray is taken. Returns 0 where the ray meets no edge. All
/// comparisons are exact.
pub fn find_hole_bridge(nodes: &Vec<Node>, vertices: usize, hole: usize, outer: usize) -> (m:
    usize)
    requires
        arena_ok(nodes@, vertices as nat),
        1 <= hole < nodes@.len(),
        1 <= outer < nodes@.len(),
    ensures
        m == hole_bridge(nodes@, hole as int, outer as int),
        m < nodes@.len(),
{
    let h = nodes[hole];
    let mut p: usize = outer;
    let mut q = Crossing { num: 0, den: 1 };
    let mut m: usize = 0;
    let ghost start = RayHit { num: 0, den: 1, node: 0 };
    let ghost found = first_hit(nodes@, hole as int, outer as int, outer as int, start, nodes@.len());

    // Find the edge that the ray to the left meets first.
    let mut fuel: usize = nodes.len();
    while fuel > 0
        invariant_except_break
            found == first_hit(
                nodes@,
                hole as int,
                outer as int,
                p as int,
                RayHit { num: q.num as int, den: q.den as int, node: m as int },
                fuel as nat,
            ),
        invariant
            arena_ok(nodes@, vertices as nat),
            1 <= p < nodes@.len(),
            1 <= hole < nodes@.len(),
            1 <= outer < nodes@.len(),
            h == nodes@[hole as int],
            m < nodes@.len(),
            1 <= q.den <= 0x1_0000_0000,
            -0x2_0000_0000_0000_0000 <= q.num <= 0x2_0000_0000_0000_0000,
            start == (RayHit { num: 0, den: 1, node: 0 }),
            found == first_hit(nodes@, hole as int, outer as int, outer as int, start, nodes@.len()),
        ensures
            found == (RayHit { num: q.num as int, den: q.den as int, node: m as int }, false),
            m < nodes@.len(),
            1 <= q.den <= 0x1_0000_0000,
            -0x2_0000_0000_0000_0000 <= q.num <= 0x2_0000_0000_0000_0000,
        decreases fuel,
    {
        let pn = nodes[p];
        let nx = nodes[pn.next];
        if h.y <= pn.y && h.y >= nx.y && nx.y != pn.y {
            let x = crossing(&pn, &nx, h.y);
            let hx = widen(h.x, x.den);
            if x.num <= hx && (m == 0 || cross_mul(x.num, q.den) > cross_mul(q.num, x.den)) {
                q = x;
                m = if pn.x < nx.x {
                    p
                } else {
                    pn.next
                };
                if x.num == hx {
                    // hole touches outer segment; pick leftmost endpoint
                    return m;
                }
            }
        }
        p = pn.next;
        if p == outer {
            break ;
        }
        fuel -= 1;
    }

    if m == 0 {
        return 0;
    }
    // Look for points inside the triangle of hole point, meeting point and
    // end point: with none there, the end point is the connection; else
    // the point at the least angle to the ray is.

    let stop = m;
    let first = nodes[m];
    let hxq = widen(h.x, q.den);
    let mxq = widen(first.x, q.den);
    let mut tan_num: i128 = 0;
    let mut tan_den: i128 = 0;
    let ghost hit = RayHit { num: q.num as int, den: q.den as int, node: stop as int };
    let ghost target = best_connection(
        nodes@,
        hole as int,
        hit,
        stop as int,
        stop as int,
        Connection { node: stop as int, num: 0, den: 0 },
        nodes@.len(),
    );
    p = m;
    fuel = nodes.len();
    while fuel > 0
        invariant
            arena_ok(nodes@, vertices as nat),
            1 <= p < nodes@.len(),
            1 <= m < nodes@.len(),
            1 <= stop < nodes@.len(),
            1 <= hole < nodes@.len(),
            h == nodes@[hole as int],
            first == nodes@[stop as int],
            hit == (RayHit { num: q.num as int, den: q.den as int, node: stop as int }),
            1 <= q.den <= 0x1_0000_0000,
            -0x2_0000_0000_0000_0000 <= q.num <= 0x2_0000_0000_0000_0000,
            hxq == h.x * q.den,
            mxq == first.x * q.den,
            -0x8000_0000_0000_0000 <= hxq <= 0x8000_0000_0000_0000,
            -0x8000_0000_0000_0000 <= mxq <= 0x8000_0000_0000_0000,
            0 <= tan_num <= 0x1_0000_0000,
            0 <= tan_den <= 0x1_0000_0000,
            target == hole_bridge(nodes@, hole as int, outer as int),
            target == best_connection(
                nodes@,
                hole as int,
                hit,
                stop as int,
                p as int,
                Connection { node: m as int, num: tan_num as int, den: tan_den as int },
                fuel as nat,
            ),
        decreases fuel,
    {
        let pn = nodes[p];
        if h.x >= pn.x && pn.x >= first.x && h.x != pn.x {
            let pxq = widen(pn.x, q.den);
            let (ax, cx) = if h.y < first.y {
                (hxq, q.num)
            } else {
                (q.num, hxq)
            };
            if wide_point_in_triangle(ax, h.y, mxq, first.y, cx, h.y, pxq, pn.y) {
                // tan = |h.y - p.y| / (h.x - p.x)
                let dy: i128 = h.y as i128 - pn.y as i128;
                let num: i128 = if dy < 0 {
                    -dy
                } else {
                    dy
                };
                let den: i128 = h.x as i128 - pn.x as i128;
                let mn = nodes[m];
                let less = tan_den == 0 || cross_mul(num, tan_den) < cross_mul(tan_num, den);
                let same = tan_den != 0 && cross_mul(num, tan_den) == cross_mul(tan_num, den);
                if locally_inside(nodes, vertices, p, hole) && (less || (same && (pn.x > mn.x || (
                pn.x == mn.x && sector_contains_sector(nodes, vertices, m, p))))) {
                    m = p;
                    tan_num = num;
                    tan_den = den;
                }
            }
        }
        p = pn.next;
        if p == stop {
            return m;
        }
        fuel -= 1;
    }
    m
}

/// The arena and the node returned after the hole of `hole` was joined to
/// the ring of `outer`: the ring is split open along the bridge, and the
/// points round the two cuts are filtered, first at the far end of the
/// bridge, then at the near end. Nothing changes without a bridge, or where
/// the arena has no room for two more nodes.
pub open spec fn eliminate_hole_of(nodes: Seq<Node>, hole: int, outer: int) -> (Seq<Node>, int) {
    let bridge = hole_bridge(nodes, hole, outer);
    if bridge == 0 || nodes.len() >= usize::MAX - 2 {
        (nodes, outer)
    } else {
        let s = split(nodes, bridge, hole);
        let reverse = nodes.len() as int + 1;
        let far = filter_points_of(s, reverse, s[reverse].next as int);
        filter_points_of(far.0, bridge, far.0[bridge].next as int)
    }
}

/// Joins the hole whose leftmost vertex is `hole` to the outer ring by a
/// bridge and filters the points round the two cuts. Without a bridge the
/// outer ring stays as it is. Returns a node of the ring that results.
pub fn eliminate_hole(nodes: &mut Vec<Node>, vertices: usize, hole: usize, outer: usize) -> (at:
    usize)
    requires
        arena_ok(old(nodes)@, vertices as nat),
        1 <= hole < old(nodes)@.len(),
        1 <= outer < old(nodes)@.len(),
    ensures
        (final(nodes)@, at as int) == eliminate_hole_of(old(nodes)@, hole as int, outer as int),
        arena_ok(final(nodes)@, vertices as nat),
        old(nodes)@.len() <= final(nodes)@.len() <= old(nodes)@.len() + 2,
        1 <= at < final(nodes)@.len(),
{
    let bridge = find_hole_bridge(nodes, vertices, hole, outer);
    if bridge == 0 || nodes.len() >= usize::MAX - 2 {
        return outer;
    }
    let bridge_reverse = split_polygon(nodes, vertices, bridge, hole);

    // filter collinear points around the cuts
    let end = nodes[bridge_reverse].next;
    let _ = filter_points(nodes, vertices, bridge_reverse, end);
    let end = nodes[bridge].next;
    filter_points(nodes, vertices, bridge, end)
}

/// One hole waiting to be joined: its leftmost node and that node's x.
#[derive(Clone, Copy)]
pub struct QueuedHole {
    pub node: usize,
    pub x: i32,
}

/// Whether the holes of `queue` stand in the order of their x.
pub open spec fn queue_sorted(queue: Seq<QueuedHole>) -> bool {
    forall|i: int, j: int| 0 <= i <= j < queue.len() ==> queue[i].x <= queue[j].x
}

/// Whether `item` is one of `queue`.
pub open spec fn queued(item: QueuedHole, queue: Seq<QueuedHole>) -> bool {
    exists|j: int| 0 <= j < queue.len() && queue[j] == item
}

/// The queue `sorted` with `item` in its place: behind every hole whose x
/// is no greater, in front of the others.
pub open spec fn sunk(sorted: Seq<QueuedHole>, item: QueuedHole) -> Seq<QueuedHole>
    decreases sorted.len(),
{
    if sorted.len() == 0 || sorted.last().x <= item.x {
        sorted.push(item)
    } else {
        sunk(sorted.drop_last(), item).push(sorted.last())
    }
}

/// The first `n` holes of `queue` in the order of their x, those with the
/// same x in the order in which they stood.
pub open spec fn sorted_queue(queue: Seq<QueuedHole>, n: nat) -> Seq<QueuedHole>
    decreases n,
{
    if n == 0 {
        Seq::empty()
    } else {
        sunk(sorted_queue(queue, (n - 1) as nat), queue[n - 1])
    }
}

/// Sorts the waiting holes by the x of their leftmost node, ascending. Holes
/// with the same x keep their order.
pub fn sort_queue(queue: &mut Vec<QueuedHole>)
    ensures
        final(queue)@ == sorted_queue(old(queue)@, old(queue)@.len()),
        final(queue)@.len() == old(queue)@.len(),
        queue_sorted(final(queue)@),
        forall|i: int|
            0 <= i < final(queue)@.len() ==> queued(#[trigger] final(queue)@[i], old(queue)@),
{
    let n = queue.len();
    assert forall|k: int| 0 <= k < queue@.len() implies queued(
        #[trigger] queue@[k],
        old(queue)@,
    ) by {
        assert(old(queue)@[k] == queue@[k]);
    }
    let mut i: usize = 0;
    assert(queue@.take(0) =~= sorted_queue(old(queue)@, 0));
    while i < n
        invariant
            queue@.len() == n,
            n == old(queue)@.len(),
            i <= n,
            queue@.take(i as int) == sorted_queue(old(queue)@, i as nat),
            forall|k: int| i <= k < n ==> queue@[k] == old(queue)@[k],
            forall|a: int, b: int| 0 <= a <= b < i ==> queue@[a].x <= queue@[b].x,
            forall|k: int| 0 <= k < queue@.len() ==> queued(#[trigger] queue@[k], old(queue)@),
        decreases n - i,
    {
        // Sink the hole at `i` into the sorted run in front of it.
        let mut j: usize = i;
        let ghost run = queue@.take(i as int);
        let ghost item = queue@[i as int];
        proof {
            assert(run.take(i as int) =~= run);
            assert(run.skip(i as int) =~= Seq::<QueuedHole>::empty());
            assert(sunk(run, item) =~= sunk(run.take(i as int), item) + run.skip(i as int));
        }
        while j > 0 && queue[j - 1].x > queue[j].x
            invariant
                queue@.len() == n,
                n == old(queue)@.len(),
                j <= i < n,
                run.len() == i,
                queue@[j as int] == item,
                forall|k: int| 0 <= k < j ==> queue@[k] == run[k],
                forall|k: int| j < k <= i ==> queue@[k] == run[k - 1],
                forall|k: int| i < k < n ==> queue@[k] == old(queue)@[k],
                sunk(run, item) == sunk(run.take(j as int), item) + run.skip(j as int),
                forall|a: int, b: int|
                    0 <= a <= b <= i && a != j && b != j ==> queue@[a].x <= queue@[b].x,
                forall|b: int| j < b <= i ==> queue@[j as int].x < queue@[b].x,
                forall|k: int| 0 <= k < queue@.len() ==> queued(#[trigger] queue@[k], old(queue)@),
            decreases j,
        {
            let ghost before = queue@;
            let lower = queue[j - 1];
            let upper = queue[j];
            queue.set(j - 1, upper);
            queue.set(j, lower);
            proof {
                assert forall|k: int| 0 <= k < queue@.len() implies queued(
                    #[trigger] queue@[k],
                    old(queue)@,
                ) by {
                    if k == j - 1 {
                        assert(queue@[k] == before[j as int]);
                    } else if k == j {
                        assert(queue@[k] == before[j - 1]);
                    } else {
                        assert(queue@[k] == before[k]);
                    }
                }
                let head = run.take(j as int);
                assert(head.last() == run[j - 1]);
                assert(head.drop_last() =~= run.take(j - 1));
                assert(sunk(head, item) == sunk(run.take(j - 1), item).push(run[j - 1]));
                assert(sunk(run.take(j - 1), item).push(run[j - 1]) + run.skip(j as int) =~= sunk(
                    run.take(j - 1),
                    item,
                ) + run.skip(j - 1));
            }
            j -= 1;
        }
        proof {
            let head = run.take(j as int);
            if j > 0 {
                assert(head.last() == run[j - 1]);
            }
            assert(sunk(head, item) == head.push(item));
            assert(queue@.take(i + 1) =~= head.push(item) + run.skip(j as int));
        }
        i += 1;
    }
    assert(queue@.take(n as int) =~= queue@);
}

/// The arena and the queue after a ring was made of each hole from the
/// `i`th on, linked counter-clockwise, and its leftmost node was queued. A
/// hole of one point is marked as a Steiner point. A hole for which the
/// arena has no room is passed over.
pub open spec fn holes_queued(
    nodes: Seq<Node>,
    queue: Seq<QueuedHole>,
    data: Seq<Point>,
    holes: Seq<usize>,
    i: nat,
) -> (Seq<Node>, Seq<QueuedHole>)
    decreases holes.len() - i,
{
    if i >= holes.len() {
        (nodes, queue)
    } else {
        let start = holes[i as int] as int;
        let end = if i < holes.len() - 1 {
            holes[i as int + 1] as int
        } else {
            data.len() as int
        };
        if end - start < usize::MAX - nodes.len() {
            let ring = linked_list_of(nodes, data, start, end, false);
            if ring.1 != 0 {
                let marked = if ring.1 == ring.0[ring.1].next {
                    ring.0.update(ring.1, Node { steiner: true, ..ring.0[ring.1] })
                } else {
                    ring.0
                };
                let leftmost = leftmost_of(marked, ring.1, ring.1, ring.1, marked.len());
                holes_queued(
                    marked,
                    queue.push(QueuedHole { node: leftmost as usize, x: marked[leftmost].x }),
                    data,
                    holes,
                    i + 1,
                )
            } else {
                holes_queued(ring.0, queue, data, holes, i + 1)
            }
        } else {
            holes_queued(nodes, queue, data, holes, i + 1)
        }
    }
}

/// The arena and the node of the outer ring after the holes of `queue`
/// from the `k`th on were joined to it, one after the other.
pub open spec fn holes_joined(nodes: Seq<Node>, queue: Seq<QueuedHole>, outer: int, k: nat) -> (
    Seq<Node>,
    int,
)
    decreases queue.len() - k,
{
    if k >= queue.len() {
        (nodes, outer)
    } else {
        let joined = eliminate_hole_of(nodes, queue[k as int].node as int, outer);
        holes_joined(joined.0, queue, joined.1, k + 1)
    }
}

/// The arena and the node of the outer ring after every hole was joined to
/// it, from the leftmost hole to the rightmost.
pub open spec fn eliminate_holes_of(
    nodes: Seq<Node>,
    data: Seq<Point>,
    holes: Seq<usize>,
    outer: int,
) -> (Seq<Node>, int) {
    let made = holes_queued(nodes, Seq::empty(), data, holes, 0);
    holes_joined(made.0, sorted_queue(made.1, made.1.len()), outer, 0)
}

/// Joins every hole to the outer ring, from the leftmost hole to the
/// rightmost. `holes` gives, for each hole, the index of its first point; a
/// hole ends where the next begins, the last one with the points. Returns a
/// node of the ring that results. `queue` is the room for the waiting
/// holes: what it held is lost.
pub fn eliminate_holes(
    nodes: &mut Vec<Node>,
    queue: &mut Vec<QueuedHole>,
    data: &Vec<Point>,
    holes: &Vec<usize>,
    outer: usize,
) -> (at: usize)
    requires
        arena_ok(old(nodes)@, data@.len()),
        1 <= outer < old(nodes)@.len(),
        holes_ok(holes@, data@.len()),
        data@.len() <= 0x1000_0000_0000,
    ensures
        (final(nodes)@, at as int) == eliminate_holes_of(
            old(nodes)@,
            data@,
            holes@,
            outer as int,
        ),
        arena_ok(final(nodes)@, data@.len()),
        final(nodes)@.len() >= old(nodes)@.len(),
        1 <= at < final(nodes)@.len(),
{
    queue.clear();
    let ghost made = holes_queued(nodes@, Seq::empty(), data@, holes@, 0);
    let mut i: usize = 0;
    while i < holes.len()
        invariant
            arena_ok(nodes@, data@.len()),
            nodes@.len() >= old(nodes)@.len(),
            holes_ok(holes@, data@.len()),
            data@.len() <= 0x1000_0000_0000,
            i <= holes@.len(),
            1 <= outer < nodes@.len(),
            made == holes_queued(nodes@, queue@, data@, holes@, i as nat),
            forall|k: int| 0 <= k < queue@.len() ==> 1 <= (#[trigger] queue@[k]).node < nodes@.len(),
        decreases holes@.len() - i,
    {
        let start = holes[i];
        let end = if i < holes.len() - 1 {
            holes[i + 1]
        } else {
            data.len()
        };
        if end - start < usize::MAX - nodes.len() {
            let list = linked_list(nodes, data, start, end, false);
            if list != 0 {
                let mut l = nodes[list];
                if list == l.next {
                    l.steiner = true;
                    nodes.set(list, l);
                }
                let leftmost = get_leftmost(nodes, data.len(), list);
                queue.push(QueuedHole { node: leftmost, x: nodes[leftmost].x });
            }
        }
        i += 1;
    }

    sort_queue(queue);

    // process holes from left to right
    let mut at = outer;
    let mut k: usize = 0;
    let ghost target = holes_joined(nodes@, queue@, outer as int, 0);
    while k < queue.len()
        invariant
            arena_ok(nodes@, data@.len()),
            nodes@.len() >= old(nodes)@.len(),
            1 <= at < nodes@.len(),
            k <= queue@.len(),
            target == holes_joined(nodes@, queue@, at as int, k as nat),
            forall|j: int| 0 <= j < queue@.len() ==> 1 <= (#[trigger] queue@[j]).node < nodes@.len(),
        decreases queue@.len() - k,
    {
        at = eliminate_hole(nodes, data.len(), queue[k].node, at);
        k += 1;
    }
    at
}

/// Whether `holes` gives the first points of holes among `count` points:
/// the indices ascend, none is 0 and none lies behind the points.
pub open spec fn holes_ok(holes: Seq<usize>, count: nat) -> bool {
    &&& forall|i: int, j: int| 0 <= i <= j < holes.len() ==> holes[i] <= holes[j]
    &&& forall|i: int| 0 <= i < holes.len() ==> 1 <= #[trigger] holes[i] <= count
}

} // verus!

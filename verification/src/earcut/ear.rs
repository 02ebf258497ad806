//! The ear test: whether a vertex and its two neighbours form a triangle
//! that can be cut off the ring.

use super::arena_ok;
use super::predicates::area;
use super::predicates::area_of;
use super::predicates::in_triangle;
use super::predicates::point_in_triangle;
use super::zorder::z_of;
use super::zorder::z_order;
use super::Node;
use vstd::prelude::*;

verus! {

/// Whether `p` lies in the bounding box of `a`, `b` and `c`.
pub open spec fn in_box(a: Node, b: Node, c: Node, p: Node) -> bool {
    &&& p.x >= min3(a.x, b.x, c.x)
    &&& p.x <= max3(a.x, b.x, c.x)
    &&& p.y >= min3(a.y, b.y, c.y)
    &&& p.y <= max3(a.y, b.y, c.y)
}

/// The smallest of three values.
pub open spec fn min3(a: i32, b: i32, c: i32) -> i32 {
    if a <= b && a <= c {
        a
    } else if b <= c {
        b
    } else {
        c
    }
}

/// The largest of three values.
pub open spec fn max3(a: i32, b: i32, c: i32) -> i32 {
    if a >= b && a >= c {
        a
    } else if b >= c {
        b
    } else {
        c
    }
}

/// Whether the node `p`, which follows `before` on the walk, keeps the
/// triangle `a`, `b`, `c` from being an ear: it lies in the triangle and the
/// ring does not turn the way of an ear at it.
pub open spec fn blocks(nodes: Seq<Node>, a: Node, b: Node, c: Node, before: int, p: int) -> bool {
    &&& in_box(a, b, c, nodes[p])
    &&& in_triangle(a, b, c, nodes[p])
    &&& area_of(nodes[before], nodes[p], nodes[nodes[p].next as int]) >= 0
}

/// Whether a node blocks the triangle on the walk along the ring from `p`
/// to the node `stop`, of at most `fuel` steps.
pub open spec fn blocked(
    nodes: Seq<Node>,
    a: Node,
    b: Node,
    c: Node,
    stop: int,
    before: int,
    p: int,
    fuel: nat,
) -> bool
    decreases fuel,
{
    if p == stop || fuel == 0 {
        false
    } else {
        blocks(nodes, a, b, c, before, p) || blocked(
            nodes,
            a,
            b,
            c,
            stop,
            p,
            nodes[p].next as int,
            (fuel - 1) as nat,
        )
    }
}

/// Whether the node `ear` is an ear: the ring turns the way of an ear at it,
/// and no node on the rest of the ring blocks the triangle that it forms with
/// its neighbours.
pub open spec fn is_ear_of(nodes: Seq<Node>, ear: int) -> bool {
    let b = nodes[ear];
    let a = nodes[b.prev as int];
    let c = nodes[b.next as int];
    area_of(a, b, c) < 0 && !blocked(
        nodes,
        a,
        b,
        c,
        b.prev as int,
        nodes[c.next as int].prev as int,
        c.next as int,
        nodes.len(),
    )
}

fn min3_exec(a: i32, b: i32, c: i32) -> (m: i32)
    ensures
        m == min3(a, b, c),
{
    if a <= b && a <= c {
        a
    } else if b <= c {
        b
    } else {
        c
    }
}

fn max3_exec(a: i32, b: i32, c: i32) -> (m: i32)
    ensures
        m == max3(a, b, c),
{
    if a >= b && a >= c {
        a
    } else if b >= c {
        b
    } else {
        c
    }
}

/// Whether `p` lies in the box and in the triangle.
fn inside(a: &Node, b: &Node, c: &Node, p: &Node) -> (r: bool)
    ensures
        r == (in_box(*a, *b, *c, *p) && in_triangle(*a, *b, *c, *p)),
{
    let x0 = min3_exec(a.x, b.x, c.x);
    let y0 = min3_exec(a.y, b.y, c.y);
    let x1 = max3_exec(a.x, b.x, c.x);
    let y1 = max3_exec(a.y, b.y, c.y);
    p.x >= x0 && p.x <= x1 && p.y >= y0 && p.y <= y1 && point_in_triangle(a, b, c, p)
}

/// Whether the node `ear` forms an ear with its neighbours, and the
/// neighbours: the node before and the node after.
pub fn is_ear(nodes: &Vec<Node>, vertices: usize, ear: usize) -> (r: (bool, usize, usize))
    requires
        arena_ok(nodes@, vertices as nat),
        1 <= ear < nodes@.len(),
    ensures
        r.0 == is_ear_of(nodes@, ear as int),
        r.1 == nodes@[ear as int].prev,
        r.2 == nodes@[ear as int].next,
{
    let b = nodes[ear];
    let a_i = b.prev;
    let c_i = b.next;
    let a = nodes[a_i];
    let c = nodes[c_i];
    if area(&a, &b, &c) >= 0 {
        // reflex, can't be an ear
        return (false, a_i, c_i);
    }
    // Now make sure that no other point lies inside the potential ear.
    let mut p: usize = c.next;
    let mut before: usize = nodes[p].prev;
    let mut fuel: usize = nodes.len();
    let ghost target = blocked(
        nodes@,
        a,
        b,
        c,
        a_i as int,
        before as int,
        p as int,
        nodes@.len(),
    );
    assert(is_ear_of(nodes@, ear as int) == !target);
    while p != a_i && fuel > 0
        invariant
            arena_ok(nodes@, vertices as nat),
            1 <= ear < nodes@.len(),
            a_i == nodes@[ear as int].prev,
            c_i == nodes@[ear as int].next,
            is_ear_of(nodes@, ear as int) == !target,
            1 <= p < nodes@.len(),
            1 <= before < nodes@.len(),
            target == blocked(nodes@, a, b, c, a_i as int, before as int, p as int, fuel as nat),
        decreases fuel,
    {
        let pn = nodes[p];
        let after = nodes[pn.next];
        if inside(&a, &b, &c, &pn) && area(&nodes[before], &pn, &after) >= 0 {
            return (false, a_i, c_i);
        }
        before = p;
        p = pn.next;
        fuel -= 1;
    }
    (true, a_i, c_i)
}

/// Whether the node `n` keeps the triangle at `ear` from being an ear, in
/// the test that goes by z-order: it is neither neighbour of `ear`, lies
/// in the triangle, and the ring does not turn the way of an ear at it.
pub open spec fn blocks_z(nodes: Seq<Node>, ear: int, n: int) -> bool {
    let b = nodes[ear];
    let a = nodes[b.prev as int];
    let c = nodes[b.next as int];
    let nn = nodes[n];
    &&& n != b.prev
    &&& n != b.next
    &&& in_box(a, b, c, nn)
    &&& in_triangle(a, b, c, nn)
    &&& area_of(nodes[nn.prev as int], nn, nodes[nn.next as int]) >= 0
}

/// The search outwards from the ear in both directions of the z-order
/// list, one node down and one node up at a time, while both lie in the
/// range `lo..=hi` of z values, for at most `fuel` steps: whether a node
/// blocks the triangle, and the two nodes at which the search ended.
pub open spec fn blocked_both(
    nodes: Seq<Node>,
    ear: int,
    lo: int,
    hi: int,
    p: int,
    n: int,
    fuel: nat,
) -> (bool, int, int)
    decreases fuel,
{
    if p == 0 || n == 0 || fuel == 0 || nodes[p].z < lo || nodes[n].z > hi {
        (false, p, n)
    } else if blocks_z(nodes, ear, p) {
        (true, p, n)
    } else if blocks_z(nodes, ear, n) {
        (true, nodes[p].prev_z as int, n)
    } else {
        blocked_both(
            nodes,
            ear,
            lo,
            hi,
            nodes[p].prev_z as int,
            nodes[n].next_z as int,
            (fuel - 1) as nat,
        )
    }
}

/// Whether a node blocks the triangle on the walk down the z-order list from
/// `p`, as far as the z values are at least `lo`, for at most `fuel` steps.
pub open spec fn blocked_down(nodes: Seq<Node>, ear: int, lo: int, p: int, fuel: nat) -> bool
    decreases fuel,
{
    if p == 0 || fuel == 0 || nodes[p].z < lo {
        false
    } else {
        blocks_z(nodes, ear, p) || blocked_down(
            nodes,
            ear,
            lo,
            nodes[p].prev_z as int,
            (fuel - 1) as nat,
        )
    }
}

/// Whether a node blocks the triangle on the walk up the z-order list from
/// `n`, as far as the z values are at most `hi`, for at most `fuel` steps.
pub open spec fn blocked_up(nodes: Seq<Node>, ear: int, hi: int, n: int, fuel: nat) -> bool
    decreases fuel,
{
    if n == 0 || fuel == 0 || nodes[n].z > hi {
        false
    } else {
        blocks_z(nodes, ear, n) || blocked_up(
            nodes,
            ear,
            hi,
            nodes[n].next_z as int,
            (fuel - 1) as nat,
        )
    }
}

/// Whether the node `ear` is an ear by the test that goes by z-order: the
/// ring turns the way of an ear at it, and no node whose z value lies in the
/// range of the bounding box of its triangle blocks the triangle.
pub open spec fn is_ear_hashed_of(
    nodes: Seq<Node>,
    ear: int,
    min_x: int,
    min_y: int,
    size: int,
) -> bool {
    let b = nodes[ear];
    let a = nodes[b.prev as int];
    let c = nodes[b.next as int];
    let lo = z_of(min3(a.x, b.x, c.x) as int, min3(a.y, b.y, c.y) as int, min_x, min_y, size);
    let hi = z_of(max3(a.x, b.x, c.x) as int, max3(a.y, b.y, c.y) as int, min_x, min_y, size);
    let both = blocked_both(nodes, ear, lo, hi, b.prev_z as int, b.next_z as int, nodes.len());
    &&& area_of(a, b, c) < 0
    &&& !both.0
    &&& !blocked_down(nodes, ear, lo, both.1, nodes.len())
    &&& !blocked_up(nodes, ear, hi, both.2, nodes.len())
}

/// Whether the node `n` keeps the triangle at `ear` from being an ear.
fn blocks_hashed(nodes: &Vec<Node>, vertices: usize, ear: usize, n_i: usize) -> (r: bool)
    requires
        arena_ok(nodes@, vertices as nat),
        1 <= ear < nodes@.len(),
        1 <= n_i < nodes@.len(),
    ensures
        r == blocks_z(nodes@, ear as int, n_i as int),
{
    let b = nodes[ear];
    let a = nodes[b.prev];
    let c = nodes[b.next];
    let n = nodes[n_i];
    n_i != b.prev && n_i != b.next && inside(&a, &b, &c, &n) && area(
        &nodes[n.prev],
        &n,
        &nodes[n.next],
    ) >= 0
}

/// The ear test for a ring that is indexed by z-order: only the nodes whose
/// z value lies in the range of the triangle's bounding box are looked at,
/// outwards from the ear in both directions of the z-order list.
pub fn is_ear_hashed(
    nodes: &Vec<Node>,
    vertices: usize,
    ear: usize,
    min_x: i32,
    min_y: i32,
    size: i64,
) -> (r: (bool, usize, usize))
    requires
        arena_ok(nodes@, vertices as nat),
        1 <= ear < nodes@.len(),
        1 <= size <= 0xffff_ffff,
    ensures
        r.0 == is_ear_hashed_of(nodes@, ear as int, min_x as int, min_y as int, size as int),
        r.1 == nodes@[ear as int].prev,
        r.2 == nodes@[ear as int].next,
{
    let b = nodes[ear];
    let a_i = b.prev;
    let c_i = b.next;
    let a = nodes[a_i];
    let c = nodes[c_i];
    if area(&a, &b, &c) >= 0 {
        // reflex, can't be an ear
        return (false, a_i, c_i);
    }
    // z-order range of the triangle's bounding box
    let min_z = z_order(
        min3_exec(a.x, b.x, c.x),
        min3_exec(a.y, b.y, c.y),
        min_x,
        min_y,
        size,
    );
    let max_z = z_order(
        max3_exec(a.x, b.x, c.x),
        max3_exec(a.y, b.y, c.y),
        min_x,
        min_y,
        size,
    );
    let ghost lo = min_z as int;
    let ghost hi = max_z as int;
    let ghost both = blocked_both(
        nodes@,
        ear as int,
        lo,
        hi,
        b.prev_z as int,
        b.next_z as int,
        nodes@.len(),
    );
    let ghost goal = is_ear_hashed_of(
        nodes@,
        ear as int,
        min_x as int,
        min_y as int,
        size as int,
    );
    assert(goal == (!both.0 && !blocked_down(nodes@, ear as int, lo, both.1, nodes@.len())
        && !blocked_up(nodes@, ear as int, hi, both.2, nodes@.len())));

    let mut p: usize = b.prev_z;
    let mut n: usize = b.next_z;
    let mut fuel: usize = nodes.len();

    // look for points inside the triangle in both directions
    while p != 0 && n != 0 && fuel > 0
        invariant_except_break
            both == blocked_both(nodes@, ear as int, lo, hi, p as int, n as int, fuel as nat),
        invariant
            arena_ok(nodes@, vertices as nat),
            1 <= ear < nodes@.len(),
            a_i == nodes@[ear as int].prev,
            c_i == nodes@[ear as int].next,
            lo == min_z,
            hi == max_z,
            p < nodes@.len(),
            n < nodes@.len(),
            goal == is_ear_hashed_of(nodes@, ear as int, min_x as int, min_y as int, size as int),
            goal == (!both.0 && !blocked_down(nodes@, ear as int, lo, both.1, nodes@.len())
                && !blocked_up(nodes@, ear as int, hi, both.2, nodes@.len())),
        ensures
            both == (false, p as int, n as int),
            p < nodes@.len(),
            n < nodes@.len(),
        decreases fuel,
    {
        if nodes[p].z < min_z || nodes[n].z > max_z {
            break ;
        }
        if blocks_hashed(nodes, vertices, ear, p) {
            return (false, a_i, c_i);
        }
        let next_p = nodes[p].prev_z;
        if blocks_hashed(nodes, vertices, ear, n) {
            return (false, a_i, c_i);
        }
        p = next_p;
        n = nodes[n].next_z;
        fuel -= 1;
    }

    // look for remaining points in decreasing z-order
    let ghost down = blocked_down(nodes@, ear as int, lo, p as int, nodes@.len());
    let ghost up = blocked_up(nodes@, ear as int, hi, n as int, nodes@.len());
    fuel = nodes.len();
    while p != 0 && fuel > 0
        invariant_except_break
            down == blocked_down(nodes@, ear as int, lo, p as int, fuel as nat),
        invariant
            arena_ok(nodes@, vertices as nat),
            1 <= ear < nodes@.len(),
            a_i == nodes@[ear as int].prev,
            c_i == nodes@[ear as int].next,
            lo == min_z,
            p < nodes@.len(),
            goal == is_ear_hashed_of(nodes@, ear as int, min_x as int, min_y as int, size as int),
            goal == (!down && !up),
        ensures
            !down,
        decreases fuel,
    {
        if nodes[p].z < min_z {
            break ;
        }
        if blocks_hashed(nodes, vertices, ear, p) {
            return (false, a_i, c_i);
        }
        p = nodes[p].prev_z;
        fuel -= 1;
    }

    // look for remaining points in increasing z-order
    fuel = nodes.len();
    while n != 0 && fuel > 0
        invariant_except_break
            up == blocked_up(nodes@, ear as int, hi, n as int, fuel as nat),
        invariant
            arena_ok(nodes@, vertices as nat),
            1 <= ear < nodes@.len(),
            a_i == nodes@[ear as int].prev,
            c_i == nodes@[ear as int].next,
            hi == max_z,
            n < nodes@.len(),
            goal == is_ear_hashed_of(nodes@, ear as int, min_x as int, min_y as int, size as int),
            goal == !up,
        ensures
            !up,
        decreases fuel,
    {
        if nodes[n].z > max_z {
            break ;
        }
        if blocks_hashed(nodes, vertices, ear, n) {
            return (false, a_i, c_i);
        }
        n = nodes[n].next_z;
        fuel -= 1;
    }
    (true, a_i, c_i)
}

} // verus!

//! The rings in the arena: building, unlinking, splitting and filtering.

use super::arena_ok;
use super::predicates::area;
use super::predicates::area_of;
use super::predicates::equals;
use super::predicates::same_point;
use super::Node;
use crate::path::Point;
use vstd::prelude::*;

verus! {

/// A node for vertex `i` at `(x, y)` that is not linked to anything yet.
pub open spec fn fresh(i: usize, x: i32, y: i32, prev: usize, next: usize) -> Node {
    Node { i, z: 0, x, y, prev, next, prev_z: 0, next_z: 0, steiner: false }
}

/// The arena after a node for vertex `i` at `(x, y)` was appended and
/// linked behind `last`; with `last == 0` the new node is a ring of its own.
pub open spec fn inserted(nodes: Seq<Node>, i: usize, x: i32, y: i32, last: usize) -> Seq<Node> {
    let at = nodes.len() as usize;
    if last == 0 {
        nodes.push(fresh(i, x, y, at, at))
    } else {
        let after = nodes[last as int].next;
        let linked = nodes.update(last as int, Node { next: at, ..nodes[last as int] });
        linked.update(after as int, Node { prev: at, ..linked[after as int] }).push(
            fresh(i, x, y, last, after),
        )
    }
}

/// The arena after node `at` was unlinked from its ring and from the
/// z-order list. The node itself keeps its links.
pub open spec fn removed(nodes: Seq<Node>, at: usize) -> Seq<Node> {
    let p = nodes[at as int];
    let s1 = nodes.update(p.prev as int, Node { next: p.next, ..nodes[p.prev as int] });
    let s2 = if p.prev_z != 0 {
        s1.update(p.prev_z as int, Node { next_z: p.next_z, ..s1[p.prev_z as int] })
    } else {
        s1
    };
    let s3 = s2.update(p.next as int, Node { prev: p.prev, ..s2[p.next as int] });
    if p.next_z != 0 {
        s3.update(p.next_z as int, Node { prev_z: p.prev_z, ..s3[p.next_z as int] })
    } else {
        s3
    }
}

/// Appends a node for vertex `i` at `(x, y)` and links it behind `last`, or
/// makes it a ring of its own where `last` is 0. Returns its index.
pub fn insert_node(
    nodes: &mut Vec<Node>,
    vertices: usize,
    i: usize,
    x: i32,
    y: i32,
    last: usize,
) -> (at: usize)
    requires
        arena_ok(old(nodes)@, vertices as nat),
        i < vertices,
        last < old(nodes)@.len(),
        old(nodes)@.len() < usize::MAX,
    ensures
        arena_ok(final(nodes)@, vertices as nat),
        at == old(nodes)@.len(),
        final(nodes)@ == inserted(old(nodes)@, i, x, y, last),
        final(nodes)@.len() == old(nodes)@.len() + 1,
{
    let at = nodes.len();
    if last == 0 {
        nodes.push(Node { i, z: 0, x, y, prev: at, next: at, prev_z: 0, next_z: 0, steiner: false });
    } else {
        let after = nodes[last].next;
        let mut l = nodes[last];
        l.next = at;
        nodes.set(last, l);
        let mut a = nodes[after];
        a.prev = at;
        nodes.set(after, a);
        nodes.push(
            Node { i, z: 0, x, y, prev: last, next: after, prev_z: 0, next_z: 0, steiner: false },
        );
    }
    at
}

/// Unlinks node `at` from its ring and from the z-order list, and returns
/// the nodes that were before and after it in the ring.
pub fn remove_node(nodes: &mut Vec<Node>, vertices: usize, at: usize) -> (around: (usize, usize))
    requires
        arena_ok(old(nodes)@, vertices as nat),
        1 <= at < old(nodes)@.len(),
    ensures
        arena_ok(final(nodes)@, vertices as nat),
        final(nodes)@ == removed(old(nodes)@, at),
        final(nodes)@.len() == old(nodes)@.len(),
        around.0 == old(nodes)@[at as int].prev,
        around.1 == old(nodes)@[at as int].next,
        1 <= around.0 < final(nodes)@.len(),
        1 <= around.1 < final(nodes)@.len(),
{
    let p = nodes[at];
    let mut before = nodes[p.prev];
    before.next = p.next;
    nodes.set(p.prev, before);
    if p.prev_z != 0 {
        let mut bz = nodes[p.prev_z];
        bz.next_z = p.next_z;
        nodes.set(p.prev_z, bz);
    }
    let mut after = nodes[p.next];
    after.prev = p.prev;
    nodes.set(p.next, after);
    if p.next_z != 0 {
        let mut az = nodes[p.next_z];
        az.prev_z = p.prev_z;
        nodes.set(p.next_z, az);
    }
    (p.prev, p.next)
}

/// The arena after the nodes `a` and `b` were linked with a bridge: `a` is
/// followed by `b`; a copy of `a`, appended first, takes the place of `a`
/// in front of what followed `a`; and a copy of `b`, appended second, takes
/// the place of `b` behind what came before `b`. The copy of `b` is followed
/// by the copy of `a`.
pub open spec fn split(nodes: Seq<Node>, a: int, b: int) -> Seq<Node> {
    let a2 = nodes.len() as usize;
    let b2 = (nodes.len() + 1) as usize;
    let an = nodes[a];
    let s1 = nodes.update(a, Node { next: b as usize, ..an });
    let bn = s1[b];
    let s2 = s1.update(b, Node { prev: a as usize, ..bn });
    let s3 = s2.update(an.next as int, Node { prev: a2, ..s2[an.next as int] });
    let s4 = s3.update(bn.prev as int, Node { next: b2, ..s3[bn.prev as int] });
    s4.push(fresh(an.i, an.x, an.y, b2, an.next)).push(fresh(bn.i, bn.x, bn.y, bn.prev, a2))
}

/// Links the nodes `a` and `b` with a bridge. Where they belong to one ring
/// the ring is split in two; where one belongs to the outer ring and the
/// other to a hole, the two rings become one. Two nodes are appended: copies
/// of `a` and `b` that carry the other side of the bridge. Returns the copy
/// of `b`.
pub fn split_polygon(nodes: &mut Vec<Node>, vertices: usize, a: usize, b: usize) -> (b2: usize)
    requires
        arena_ok(old(nodes)@, vertices as nat),
        1 <= a < old(nodes)@.len(),
        1 <= b < old(nodes)@.len(),
        old(nodes)@.len() + 2 <= usize::MAX,
    ensures
        final(nodes)@ == split(old(nodes)@, a as int, b as int),
        arena_ok(final(nodes)@, vertices as nat),
        final(nodes)@.len() == old(nodes)@.len() + 2,
        b2 == old(nodes)@.len() + 1,
{
    let a2_i = nodes.len();
    let b2_i = nodes.len() + 1;

    let mut an = nodes[a];
    let a_next = an.next;
    an.next = b;
    nodes.set(a, an);
    let a2 = Node {
        i: an.i,
        z: 0,
        x: an.x,
        y: an.y,
        prev: b2_i,
        next: a_next,
        prev_z: 0,
        next_z: 0,
        steiner: false,
    };

    let mut bn = nodes[b];
    let b_prev = bn.prev;
    bn.prev = a;
    nodes.set(b, bn);
    let b2 = Node {
        i: bn.i,
        z: 0,
        x: bn.x,
        y: bn.y,
        prev: b_prev,
        next: a2_i,
        prev_z: 0,
        next_z: 0,
        steiner: false,
    };

    let mut n1 = nodes[a_next];
    n1.prev = a2_i;
    nodes.set(a_next, n1);
    let mut n2 = nodes[b_prev];
    n2.next = b2_i;
    nodes.set(b_prev, n2);

    nodes.push(a2);
    nodes.push(b2);
    b2_i
}

/// Whether the node `p` is filtered out: it is no steiner point, and it
/// repeats its successor or lies on the line through its neighbours.
pub open spec fn filtered_out(nodes: Seq<Node>, p: int) -> bool {
    let pn = nodes[p];
    !pn.steiner && (same_point(pn, nodes[pn.next as int]) || area_of(
        nodes[pn.prev as int],
        pn,
        nodes[pn.next as int],
    ) == 0)
}

/// The arena, and the node at which the walk ends, after the ring was
/// filtered from the node `p` on, where `removals` nodes were removed
/// before and `steps` nodes were passed since the last removal. Neither
/// number goes beyond `limit`, the number of nodes in the arena.
pub open spec fn filtered(
    nodes: Seq<Node>,
    p: int,
    end: int,
    removals: nat,
    steps: nat,
    limit: nat,
) -> (Seq<Node>, int)
    decreases limit - removals, limit - steps,
{
    if removals >= limit || steps >= limit {
        (nodes, end)
    } else if filtered_out(nodes, p) {
        let before = nodes[p].prev as int;
        if before == nodes[p].next {
            (removed(nodes, p as usize), before)
        } else {
            filtered(removed(nodes, p as usize), before, before, removals + 1, 0, limit)
        }
    } else if nodes[p].next == end {
        (nodes, end)
    } else {
        filtered(nodes, nodes[p].next as int, end, removals, steps + 1, limit)
    }
}

/// The arena, and the node at which the walk ends, after the ring of
/// `start` was filtered up to `end`, or all round where `end` is 0.
pub open spec fn filter_points_of(nodes: Seq<Node>, start: int, end: int) -> (Seq<Node>, int) {
    filtered(nodes, start, filter_end(start, end), 0, 0, nodes.len())
}

/// The end of the walk that filters the ring of `start`: `end`, or `start`
/// where `end` is 0.
pub open spec fn filter_end(start: int, end: int) -> int {
    if end == 0 {
        start
    } else {
        end
    }
}

/// Removes from the ring of `start` the nodes that repeat their successor
/// or lie on the line through their neighbours, steiner points excepted.
/// The walk goes on from the node before each one removed, and ends where
/// it reaches `end` (or `start`, where `end` is 0) without removing.
/// Returns the node at which it ended.
pub fn filter_points(nodes: &mut Vec<Node>, vertices: usize, start: usize, end: usize) -> (at:
    usize)
    requires
        arena_ok(old(nodes)@, vertices as nat),
        1 <= start < old(nodes)@.len(),
        end < old(nodes)@.len(),
    ensures
        (final(nodes)@, at as int) == filter_points_of(old(nodes)@, start as int, end as int),
        arena_ok(final(nodes)@, vertices as nat),
        final(nodes)@.len() == old(nodes)@.len(),
        1 <= at < final(nodes)@.len(),
{
    let ghost target = filter_points_of(nodes@, start as int, end as int);
    let mut stop = if end == 0 {
        start
    } else {
        end
    };
    let mut p = start;
    // No ring holds more nodes than the arena: at most that many are
    // removed, and between two removals at most that many are passed.
    let limit = nodes.len();
    let mut removals: usize = 0;
    let mut steps: usize = 0;
    while removals < limit && steps < limit
        invariant
            arena_ok(nodes@, vertices as nat),
            nodes@.len() == old(nodes)@.len(),
            limit == nodes@.len(),
            1 <= p < nodes@.len(),
            1 <= stop < nodes@.len(),
            removals <= limit,
            steps <= limit,
            target == filter_points_of(old(nodes)@, start as int, end as int),
            target == filtered(
                nodes@,
                p as int,
                stop as int,
                removals as nat,
                steps as nat,
                limit as nat,
            ),
        decreases limit - removals, limit - steps,
    {
        let pn = nodes[p];
        let p_next = nodes[pn.next];
        let p_prev = nodes[pn.prev];
        if !pn.steiner && (equals(&pn, &p_next) || area(&p_prev, &pn, &p_next) == 0) {
            let (before, after) = remove_node(nodes, vertices, p);
            p = before;
            stop = before;
            if p == after {
                return stop;
            }
            removals += 1;
            steps = 0;
        } else {
            p = pn.next;
            if p == stop {
                return stop;
            }
            steps += 1;
        }
    }
    stop
}

/// The sum of `(b.x - a.x) * (a.y + b.y)` over the edges `b -> a` of the
/// closed polyline `points[start..end]`, where the points before `upto` have
/// been taken as `a`: twice the signed area, once the whole polyline is
/// taken.
pub open spec fn area_sum(points: Seq<Point>, start: int, end: int, upto: int) -> int
    decreases upto - start,
{
    if upto <= start {
        0
    } else {
        let a = points[upto - 1];
        let b = if upto - 1 == start {
            points[end - 1]
        } else {
            points[upto - 2]
        };
        area_sum(points, start, end, upto - 1) + (b.x - a.x) * (a.y + b.y)
    }
}

/// Twice the signed area of the closed polyline `points[start..end]`: positive
/// where it runs the way the outer ring is linked.
pub open spec fn signed_area_of(points: Seq<Point>, start: int, end: int) -> int {
    area_sum(points, start, end, end)
}

/// Twice the signed area of the closed polyline `data[start..end]`.
pub fn signed_area(data: &[Point], start: usize, end: usize) -> (sum: i128)
    requires
        start <= end <= data@.len(),
        end >= 1,
        data@.len() <= 0x1000_0000_0000,
    ensures
        sum == signed_area_of(data@, start as int, end as int),
        -0x2_0000_0000_0000_0000 * (end - start) <= sum <= 0x2_0000_0000_0000_0000 * (end - start),
{
    let mut b = data[end - 1];
    let mut sum: i128 = 0;
    let mut k: usize = start;
    while k < end
        invariant
            start <= k <= end <= data@.len(),
            end >= 1,
            data@.len() <= 0x1000_0000_0000,
            sum == area_sum(data@, start as int, end as int, k as int),
            -0x2_0000_0000_0000_0000 * (k - start) <= sum <= 0x2_0000_0000_0000_0000 * (k - start),
            b == if k == start {
                data@[end - 1]
            } else {
                data@[k - 1]
            },
        decreases end - k,
    {
        let a = data[k];
        let dx: i128 = b.x as i128 - a.x as i128;
        let sy: i128 = a.y as i128 + b.y as i128;
        assert(-0x2_0000_0000_0000_0000 <= dx * sy <= 0x2_0000_0000_0000_0000)
            by (nonlinear_arith)
            requires
                -0x1_0000_0000 <= dx <= 0x1_0000_0000,
                -0x1_0000_0000 <= sy <= 0x1_0000_0000,
        ;
        sum = sum + dx * sy;
        b = a;
        k += 1;
    }
    sum
}

/// Whether the `count` nodes from `base` on are a ring of the points
/// `data[start..end]`, linked one after the other in the order of the points
/// where `forward` is set, and in the opposite order where it is not.
pub open spec fn ring_built(
    nodes: Seq<Node>,
    base: int,
    count: int,
    data: Seq<Point>,
    start: int,
    end: int,
    forward: bool,
) -> bool {
    forall|k: int|
        base <= k < base + count ==> #[trigger] nodes[k] == built_node(
            k,
            base,
            count,
            data,
            start,
            end,
            forward,
        )
}

/// Node `k` of a ring of `count` nodes that was built from `base` on.
pub open spec fn built_node(
    k: int,
    base: int,
    count: int,
    data: Seq<Point>,
    start: int,
    end: int,
    forward: bool,
) -> Node {
    let idx = if forward {
        start + (k - base)
    } else {
        end - 1 - (k - base)
    };
    fresh(
        idx as usize,
        data[idx].x,
        data[idx].y,
        (if k == base {
            base + count - 1
        } else {
            k - 1
        }) as usize,
        (if k == base + count - 1 {
            base
        } else {
            k + 1
        }) as usize,
    )
}

/// Whether the ring of `data[start..end]` is linked in the order of the
/// points, for the winding asked for.
pub open spec fn links_forward(data: Seq<Point>, start: int, end: int, clockwise: bool) -> bool {
    clockwise == (signed_area_of(data, start, end) > 0)
}

/// The first and the last point of the ring in the order of linking.
pub open spec fn ring_ends(data: Seq<Point>, start: int, end: int, forward: bool) -> (
    Point,
    Point,
) {
    if forward {
        (data[start], data[end - 1])
    } else {
        (data[end - 1], data[start])
    }
}

/// The arena with a ring of the points `data[start..end]` appended, linked
/// in the order of the points where `forward` is set.
pub open spec fn ring_added(
    nodes: Seq<Node>,
    data: Seq<Point>,
    start: int,
    end: int,
    forward: bool,
) -> Seq<Node> {
    nodes + Seq::new(
        (end - start) as nat,
        |j: int| built_node(nodes.len() + j, nodes.len() as int, end - start, data, start, end, forward),
    )
}

/// The arena, and the last node of the new ring, after a ring of the points
/// `data[start..end]` was made: the ring is appended, and its last node is
/// unlinked again where it repeats the first. Without points nothing is
/// appended and there is no last node.
pub open spec fn linked_list_of(
    nodes: Seq<Node>,
    data: Seq<Point>,
    start: int,
    end: int,
    clockwise: bool,
) -> (Seq<Node>, int) {
    let built = ring_added(nodes, data, start, end, links_forward(data, start, end, clockwise));
    let last = built.len() - 1;
    if end <= start {
        (nodes, 0)
    } else if same_point(built[last], built[built[last].next as int]) {
        (removed(built, last as usize), built[last].next as int)
    } else {
        (built, last)
    }
}

/// Makes a ring of the points `data[start..end]`, linked in the order that
/// runs clockwise where `clockwise` is set and counter-clockwise where it
/// is not, and drops the last node where it repeats the first. Returns the
/// last node of the ring, or 0 where there is no point.
pub fn linked_list(
    nodes: &mut Vec<Node>,
    data: &Vec<Point>,
    start: usize,
    end: usize,
    clockwise: bool,
) -> (last: usize)
    requires
        arena_ok(old(nodes)@, data@.len()),
        start <= end <= data@.len(),
        end >= 1,
        data@.len() <= 0x1000_0000_0000,
        old(nodes)@.len() + (end - start) < usize::MAX,
    ensures
        (final(nodes)@, last as int) == linked_list_of(
            old(nodes)@,
            data@,
            start as int,
            end as int,
            clockwise,
        ),
        arena_ok(final(nodes)@, data@.len()),
        final(nodes)@.len() == old(nodes)@.len() + (end - start),
        last < final(nodes)@.len(),
        start < end ==> last >= 1,
        start == end ==> last == 0,
        forall|k: int| 0 <= k < old(nodes)@.len() ==> final(nodes)@[k] == old(nodes)@[k],
        start < end && ring_ends(
            data@,
            start as int,
            end as int,
            links_forward(data@, start as int, end as int, clockwise),
        ).0 != ring_ends(
            data@,
            start as int,
            end as int,
            links_forward(data@, start as int, end as int, clockwise),
        ).1 ==> last == final(nodes)@.len() - 1 && ring_built(
            final(nodes)@,
            old(nodes)@.len() as int,
            end - start,
            data@,
            start as int,
            end as int,
            links_forward(data@, start as int, end as int, clockwise),
        ),
{
    let mut last: usize = 0;
    let count = end - start;
    let base = nodes.len();
    let forward = clockwise == (signed_area(data.as_slice(), start, end) > 0);
    let mut k: usize = 0;
    while k < count
        invariant
            arena_ok(nodes@, data@.len()),
            k <= count,
            count == end - start,
            start <= end <= data@.len(),
            base == old(nodes)@.len(),
            base >= 1,
            nodes@.len() == base + k,
            base + count < usize::MAX,
            k > 0 ==> last == base + k - 1,
            k == 0 ==> last == 0,
            forall|j: int| 0 <= j < base ==> nodes@[j] == old(nodes)@[j],
            ring_built(nodes@, base as int, k as int, data@, start as int, end as int, forward),
        decreases count - k,
    {
        let idx = if forward {
            start + k
        } else {
            end - 1 - k
        };
        let p = data[idx];
        let ghost before = nodes@;
        last = insert_node(nodes, data.len(), idx, p.x, p.y, last);
        proof {
            assert forall|j: int| base <= j < base + k + 1 implies #[trigger] nodes@[j]
                == built_node(j, base as int, k + 1, data@, start as int, end as int, forward) by {
                if j < base + k {
                    assert(before[j] == built_node(
                        j,
                        base as int,
                        k as int,
                        data@,
                        start as int,
                        end as int,
                        forward,
                    ));
                }
            }
        }
        k += 1;
    }
    proof {
        assert(nodes@ =~= ring_added(old(nodes)@, data@, start as int, end as int, forward));
    }
    if last != 0 {
        let l = nodes[last];
        let first = nodes[l.next];
        if equals(&l, &first) {
            let (_, after) = remove_node(nodes, data.len(), last);
            last = after;
        }
    }
    last
}

} // verus!

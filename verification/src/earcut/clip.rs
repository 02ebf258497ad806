//! The ear-slicing loop and its fallbacks: filtering, curing local
//! self-intersections, and splitting the ring in two.

use super::arena_ok;
use super::ear::is_ear;
use super::ear::is_ear_hashed;
use super::ear::is_ear_hashed_of;
use super::ear::is_ear_of;
use super::holes::is_valid_diagonal;
use super::holes::valid_diagonal;
use super::holes::locally_inside;
use super::holes::locally_inside_of;
use super::predicates::area_of;
use super::predicates::equals;
use super::predicates::intersects;
use super::predicates::intersects_of;
use super::predicates::same_point;
use super::ring::filter_points;
use super::ring::filter_points_of;
use super::ring::remove_node;
use super::ring::removed;
use super::ring::split;
use super::ring::split_polygon;
use super::zorder::index_curve;
use super::zorder::index_curve_of;
use super::Node;
use vstd::prelude::*;

verus! {

/// How far down the ladder of fallbacks the slicing of a ring has come.
#[derive(Debug, Clone, Copy, PartialEq, Eq, Structural)]
pub enum Pass {
    /// Plain ear slicing.
    Plain,
    /// Ear slicing after the points were filtered.
    Filtered,
    /// Ear slicing after local self-intersections were cured.
    Cured,
}

/// How many more steps are left on the ladder from `pass`.
pub open spec fn rungs(pass: Pass) -> nat {
    match pass {
        Pass::Plain => 3,
        Pass::Filtered => 2,
        Pass::Cured => 1,
    }
}

/// Whether `now` is `before` with whole triangles appended whose corners are
/// among `vertices` input points.
pub open spec fn triangles_added(before: Seq<usize>, now: Seq<usize>, vertices: nat) -> bool {
    &&& before.len() <= now.len()
    &&& (now.len() - before.len()) % 3 == 0
    &&& now.take(before.len() as int) == before
    &&& forall|k: int| before.len() <= k < now.len() ==> #[trigger] now[k] < vertices
}

/// Adding triangles twice is adding triangles.
pub proof fn lemma_triangles_chain(a: Seq<usize>, b: Seq<usize>, c: Seq<usize>, vertices: nat)
    requires
        triangles_added(a, b, vertices),
        triangles_added(b, c, vertices),
    ensures
        triangles_added(a, c, vertices),
{
    assert(c.take(a.len() as int) =~= c.take(b.len() as int).take(a.len() as int));
    assert forall|k: int| a.len() <= k < c.len() implies #[trigger] c[k] < vertices by {
        if k < b.len() {
            assert(c.take(b.len() as int)[k] == c[k]);
        }
    }
}

/// Whether the ring of `ear` has three nodes and no z-order links.
pub open spec fn triangle_ring(nodes: Seq<Node>, ear: int) -> bool {
    let e = nodes[ear];
    let p = e.prev as int;
    let n = e.next as int;
    &&& p != n
    &&& p != ear
    &&& n != ear
    &&& nodes[n].next == p
    &&& nodes[n].prev == ear
    &&& nodes[p].next == ear
    &&& nodes[p].prev == n
    &&& e.prev_z == 0
    &&& e.next_z == 0
}

/// Whether the ring of `ear` has three nodes and turns the way of an ear at
/// `ear`.
pub open spec fn ear_triangle(nodes: Seq<Node>, ear: int) -> bool {
    triangle_ring(nodes, ear) && area_of(
        nodes[nodes[ear].prev as int],
        nodes[ear],
        nodes[nodes[ear].next as int],
    ) < 0
}

/// The triangle that is cut off at `ear`: the vertices of the node before
/// it, of the node itself and of the node after it.
pub open spec fn cut_at(nodes: Seq<Node>, ear: int) -> Seq<usize> {
    seq![nodes[nodes[ear].prev as int].i, nodes[ear].i, nodes[nodes[ear].next as int].i]
}

/// Whether the ring of `ear` has four nodes, without z-order links at `ear`
/// and at the node across, and turns the way of an ear at both.
pub open spec fn convex_quad(nodes: Seq<Node>, ear: int) -> bool {
    let e = nodes[ear];
    let p = e.prev as int;
    let n = e.next as int;
    let o = nodes[n].next as int;
    &&& p != n
    &&& p != ear
    &&& n != ear
    &&& o != p
    &&& o != n
    &&& o != ear
    &&& nodes[n].prev == ear
    &&& nodes[o].prev == n
    &&& nodes[o].next == p
    &&& nodes[p].prev == o
    &&& nodes[p].next == ear
    &&& e.prev_z == 0
    &&& e.next_z == 0
    &&& nodes[o].prev_z == 0
    &&& nodes[o].next_z == 0
    &&& area_of(nodes[p], e, nodes[n]) < 0
    &&& area_of(nodes[n], nodes[o], nodes[p]) < 0
}

/// The two triangles that a convex ring of four nodes is cut into from
/// `ear`: the one at `ear`, then the one at the node across.
pub open spec fn cut_quad(nodes: Seq<Node>, ear: int) -> Seq<usize> {
    let e = nodes[ear];
    let p = nodes[e.prev as int];
    let n = nodes[e.next as int];
    let o = nodes[n.next as int];
    seq![p.i, e.i, n.i, n.i, o.i, p.i]
}

/// Appends the triangle `a`, `b`, `c`.
fn push_triangle(triangles: &mut Vec<usize>, vertices: usize, a: usize, b: usize, c: usize)
    requires
        a < vertices,
        b < vertices,
        c < vertices,
    ensures
        final(triangles)@ == old(triangles)@.push(a).push(b).push(c),
        triangles_added(old(triangles)@, final(triangles)@, vertices as nat),
{
    triangles.push(a);
    triangles.push(b);
    triangles.push(c);
    assert(triangles@.take(old(triangles)@.len() as int) =~= old(triangles)@);
}

/// Whether node `at` is an ear: by the z-order index where the ring has
/// one (`size` is not 0), by a walk round the ring otherwise.
pub open spec fn ear_found(nodes: Seq<Node>, at: int, min_x: int, min_y: int, size: int) -> bool {
    if size != 0 {
        is_ear_hashed_of(nodes, at, min_x, min_y, size)
    } else {
        is_ear_of(nodes, at)
    }
}

/// The first node from `b` on, short of the node before `a`, to which a
/// valid diagonal leads from `a`, looked for in at most `limit - inner`
/// steps.
pub open spec fn diagonal_to(nodes: Seq<Node>, a: int, b: int, inner: nat, limit: nat) -> Option<
    int,
>
    decreases limit - inner,
{
    if b == nodes[a].prev || inner >= limit {
        None
    } else if nodes[a].i != nodes[b].i && valid_diagonal(nodes, a, b) {
        Some(b)
    } else {
        diagonal_to(nodes, a, nodes[b].next as int, inner + 1, limit)
    }
}

/// The first valid diagonal of the ring of `start` from node `a` on: from
/// the first node that has one, to the first node it leads to, which is
/// looked for from the second node behind it.
pub open spec fn diagonal_from(nodes: Seq<Node>, a: int, start: int, outer: nat, limit: nat) -> Option<
    (int, int),
>
    decreases limit - outer,
{
    if outer >= limit {
        None
    } else {
        match diagonal_to(nodes, a, nodes[nodes[a].next as int].next as int, 0, limit) {
            Some(b) => Some((a, b)),
            None => {
                let next = nodes[a].next as int;
                if next == start {
                    None
                } else {
                    diagonal_from(nodes, next, start, outer + 1, limit)
                }
            },
        }
    }
}

/// The arena and the triangles after the ring was sliced from node `at` on,
/// where `stop` is the node at which a round without an ear ends, `cuts`
/// ears were cut, and `steps` nodes passed since the last cut. An ear is cut
/// off as the triangle of the node before it, the ear and the node after
/// it, and the slicing goes on at the second node behind it. After a round
/// without an ear the ring goes one step down the ladder.
pub open spec fn sliced(
    nodes: Seq<Node>,
    triangles: Seq<usize>,
    at: int,
    stop: int,
    cuts: nat,
    steps: nat,
    limit: nat,
    min_x: int,
    min_y: int,
    size: int,
    pass: Pass,
    depth: nat,
) -> (Seq<Node>, Seq<usize>)
    decreases depth, rungs(pass), 1nat, limit - cuts, limit - steps,
{
    let e = nodes[at];
    if cuts >= limit || steps >= limit || e.prev == e.next {
        (nodes, triangles)
    } else if ear_found(nodes, at, min_x, min_y, size) {
        let before = nodes[e.prev as int];
        let after = nodes[e.next as int];
        sliced(
            removed(nodes, at as usize),
            triangles.push(before.i).push(e.i).push(after.i),
            after.next as int,
            after.next as int,
            cuts + 1,
            0,
            limit,
            min_x,
            min_y,
            size,
            pass,
            depth,
        )
    } else if e.next != stop {
        sliced(
            nodes,
            triangles,
            e.next as int,
            stop,
            cuts,
            steps + 1,
            limit,
            min_x,
            min_y,
            size,
            pass,
            depth,
        )
    } else {
        match pass {
            Pass::Plain => {
                let f = filter_points_of(nodes, e.next as int, 0);
                earcut_linked_of(f.0, triangles, f.1, min_x, min_y, size, Pass::Filtered, depth)
            },
            Pass::Filtered => {
                let f = filter_points_of(nodes, e.next as int, 0);
                let c = cure_local_intersections_of(f.0, triangles, f.1);
                earcut_linked_of(c.0, c.1, c.2, min_x, min_y, size, Pass::Cured, depth)
            },
            Pass::Cured => split_earcut_of(
                nodes,
                triangles,
                e.next as int,
                min_x,
                min_y,
                size,
                depth,
            ),
        }
    }
}

/// The arena and the triangles after the ring of `ear` was sliced: it is
/// indexed by z-order first, on the first step of the ladder and where
/// `size` is not 0.
pub open spec fn earcut_linked_of(
    nodes: Seq<Node>,
    triangles: Seq<usize>,
    ear: int,
    min_x: int,
    min_y: int,
    size: int,
    pass: Pass,
    depth: nat,
) -> (Seq<Node>, Seq<usize>)
    decreases depth, rungs(pass), 2nat, 0nat, 0nat,
{
    let indexed = if pass == Pass::Plain && size != 0 {
        index_curve_of(nodes, ear, min_x, min_y, size)
    } else {
        nodes
    };
    sliced(indexed, triangles, ear, ear, 0, 0, indexed.len(), min_x, min_y, size, pass, depth)
}

/// The arena and the triangles after the ring of `start` was split along
/// its first valid diagonal, the points around the cut were filtered, and
/// the two halves were sliced, the half of `start` first. Nothing changes
/// without such a diagonal, with `depth` used up, or where the arena has no
/// room for two more nodes.
pub open spec fn split_earcut_of(
    nodes: Seq<Node>,
    triangles: Seq<usize>,
    start: int,
    min_x: int,
    min_y: int,
    size: int,
    depth: nat,
) -> (Seq<Node>, Seq<usize>)
    decreases depth, 0nat, 0nat, 0nat, 0nat,
{
    if depth == 0 || nodes.len() >= usize::MAX - 2 {
        (nodes, triangles)
    } else {
        match diagonal_from(nodes, start, start, 0, nodes.len()) {
            None => (nodes, triangles),
            Some(d) => {
                let s = split(nodes, d.0, d.1);
                let fa = filter_points_of(s, d.0, s[d.0].next as int);
                let copy = nodes.len() as int + 1;
                let fc = filter_points_of(fa.0, copy, fa.0[copy].next as int);
                let half = earcut_linked_of(
                    fc.0,
                    triangles,
                    fa.1,
                    min_x,
                    min_y,
                    size,
                    Pass::Plain,
                    (depth - 1) as nat,
                );
                earcut_linked_of(
                    half.0,
                    half.1,
                    fc.1,
                    min_x,
                    min_y,
                    size,
                    Pass::Plain,
                    (depth - 1) as nat,
                )
            },
        }
    }
}

/// Slicing an ear triangle cuts the one triangle and leaves a ring of two
/// nodes behind.
pub proof fn lemma_triangle_sliced(
    nodes: Seq<Node>,
    vertices: nat,
    triangles: Seq<usize>,
    at: int,
    stop: int,
    cuts: nat,
    limit: nat,
    min_x: int,
    min_y: int,
    pass: Pass,
    depth: nat,
)
    requires
        arena_ok(nodes, vertices),
        1 <= at < nodes.len(),
        ear_triangle(nodes, at),
        cuts < limit,
    ensures
        sliced(nodes, triangles, at, stop, cuts, 0, limit, min_x, min_y, 0, pass, depth) == (
            removed(nodes, at as usize),
            triangles + cut_at(nodes, at),
        ),
{
    let e = nodes[at];
    let a = nodes[e.prev as int];
    let c = nodes[e.next as int];
    reveal_with_fuel(sliced, 2);
    // Round a ring of three the walk ends before it starts.
    assert(!super::ear::blocked(
        nodes,
        a,
        e,
        c,
        e.prev as int,
        nodes[c.next as int].prev as int,
        c.next as int,
        nodes.len(),
    ));
    assert(ear_found(nodes, at, min_x, min_y, 0));
    let cut = removed(nodes, at as usize);
    let written = triangles.push(a.i).push(e.i).push(c.i);
    assert(written =~= triangles + cut_at(nodes, at));
    let left = cut[c.next as int];
    assert(left.prev == left.next);
}

/// Slicing a convex quad from one of its nodes cuts two triangles: the one
/// at that node, then the one at the node across.
pub proof fn lemma_quad_sliced(
    nodes: Seq<Node>,
    vertices: nat,
    triangles: Seq<usize>,
    at: int,
    stop: int,
    limit: nat,
    min_x: int,
    min_y: int,
    pass: Pass,
    depth: nat,
)
    requires
        arena_ok(nodes, vertices),
        1 <= at < nodes.len(),
        convex_quad(nodes, at),
        2 <= limit,
    ensures
        sliced(nodes, triangles, at, stop, 0, 0, limit, min_x, min_y, 0, pass, depth).1
            == triangles + cut_quad(nodes, at),
{
    let e = nodes[at];
    let a = nodes[e.prev as int];
    let c = nodes[e.next as int];
    let o = c.next as int;
    reveal_with_fuel(sliced, 2);
    // Round a ring of four the walk meets the node across, at which the
    // ring turns the way of an ear too.
    assert(nodes[o].next == e.prev);
    assert(!super::ear::blocks(nodes, a, e, c, nodes[o].prev as int, o));
    assert(!super::ear::blocked(
        nodes,
        a,
        e,
        c,
        e.prev as int,
        o,
        nodes[o].next as int,
        (nodes.len() - 1) as nat,
    ));
    assert(!super::ear::blocked(
        nodes,
        a,
        e,
        c,
        e.prev as int,
        nodes[o].prev as int,
        o,
        nodes.len(),
    ));
    assert(ear_found(nodes, at, min_x, min_y, 0));
    let cut = removed(nodes, at as usize);
    let written = triangles.push(a.i).push(e.i).push(c.i);
    assert(cut[o] == nodes[o]);
    assert(cut.len() == nodes.len());
    assert(arena_ok(cut, vertices)) by {
        assert forall|k: int| 1 <= k < cut.len() implies super::node_ok(
            #[trigger] cut[k],
            cut.len(),
            vertices,
        ) by {
            assert(super::node_ok(nodes[k], nodes.len(), vertices));
        }
    }
    assert(ear_triangle(cut, o));
    lemma_triangle_sliced(cut, vertices, written, o, o, 1, limit, min_x, min_y, pass, depth);
    assert(written + cut_at(cut, o) =~= triangles + cut_quad(nodes, at));
}

/// Slices ears off the ring of `ear`, one triangle for each, until fewer
/// than three nodes are left. Where a whole round finds no ear, the ring
/// goes down the ladder: its points are filtered, then its local
/// self-intersections are cured, then it is split in two and each half is
/// sliced on its own. `depth` bounds how often a ring is split within a
/// split.
pub fn earcut_linked(
    nodes: &mut Vec<Node>,
    vertices: usize,
    ear: usize,
    triangles: &mut Vec<usize>,
    min_x: i32,
    min_y: i32,
    size: i64,
    pass: Pass,
    depth: usize,
)
    requires
        arena_ok(old(nodes)@, vertices as nat),
        1 <= ear < old(nodes)@.len(),
        0 <= size <= 0xffff_ffff,
    ensures
        (final(nodes)@, final(triangles)@) == earcut_linked_of(
            old(nodes)@,
            old(triangles)@,
            ear as int,
            min_x as int,
            min_y as int,
            size as int,
            pass,
            depth as nat,
        ),
        arena_ok(final(nodes)@, vertices as nat),
        final(nodes)@.len() >= old(nodes)@.len(),
        triangles_added(old(triangles)@, final(triangles)@, vertices as nat),
    decreases depth, rungs(pass),
{
    let ghost target = earcut_linked_of(
        nodes@,
        triangles@,
        ear as int,
        min_x as int,
        min_y as int,
        size as int,
        pass,
        depth as nat,
    );
    let mut at = ear;

    // interlink polygon nodes in z-order
    if pass == Pass::Plain && size != 0 {
        index_curve(nodes, vertices, at, min_x, min_y, size);
    }
    let mut stop = at;
    assert(triangles@.take(triangles@.len() as int) =~= triangles@);

    // No ring holds more nodes than the arena: at most that many ears are
    // cut, and between two cuts at most that many nodes are passed.
    let limit = nodes.len();
    let mut cuts: usize = 0;
    let mut steps: usize = 0;
    while cuts < limit && steps < limit
        invariant_except_break
            target == sliced(
                nodes@,
                triangles@,
                at as int,
                stop as int,
                cuts as nat,
                steps as nat,
                limit as nat,
                min_x as int,
                min_y as int,
                size as int,
                pass,
                depth as nat,
            ),
        invariant
            target == earcut_linked_of(
                old(nodes)@,
                old(triangles)@,
                ear as int,
                min_x as int,
                min_y as int,
                size as int,
                pass,
                depth as nat,
            ),
            arena_ok(nodes@, vertices as nat),
            nodes@.len() >= old(nodes)@.len(),
            limit >= 2,
            1 <= at < nodes@.len(),
            1 <= stop < nodes@.len(),
            0 <= size <= 0xffff_ffff,
            triangles_added(old(triangles)@, triangles@, vertices as nat),
            cuts <= limit,
            steps <= limit,
            limit == nodes@.len(),
        ensures
            target == (nodes@, triangles@),
            arena_ok(nodes@, vertices as nat),
            nodes@.len() >= old(nodes)@.len(),
            triangles_added(old(triangles)@, triangles@, vertices as nat),
        decreases limit - cuts, limit - steps,
    {
        let e = nodes[at];
        if e.prev == e.next {
            break ;
        }
        let found = if size != 0 {
            is_ear_hashed(nodes, vertices, at, min_x, min_y, size)
        } else {
            is_ear(nodes, vertices, at)
        };
        if found.0 {
            let prev = nodes[found.1];
            let next = nodes[found.2];
            let ghost before = triangles@;

            // cut off the triangle
            push_triangle(triangles, vertices, prev.i, e.i, next.i);
            proof {
                lemma_triangles_chain(old(triangles)@, before, triangles@, vertices as nat);
            }
            let _ = remove_node(nodes, vertices, at);

            // skipping the next vertex leads to less sliver triangles
            at = next.next;
            stop = next.next;
            cuts += 1;
            steps = 0;
            continue ;
        }
        at = e.next;
        steps += 1;

        // if we looped through the whole remaining polygon and can't find any more ears
        if at == stop {
            let ghost before = triangles@;
            match pass {
                Pass::Plain => {
                    // try filtering points and slicing again
                    at = filter_points(nodes, vertices, at, 0);
                    earcut_linked(
                        nodes,
                        vertices,
                        at,
                        triangles,
                        min_x,
                        min_y,
                        size,
                        Pass::Filtered,
                        depth,
                    );
                },
                Pass::Filtered => {
                    // if this didn't work, try curing all small self-intersections locally
                    let filtered = filter_points(nodes, vertices, at, 0);
                    at = cure_local_intersections(nodes, vertices, filtered, triangles);
                    let ghost cured = triangles@;
                    earcut_linked(
                        nodes,
                        vertices,
                        at,
                        triangles,
                        min_x,
                        min_y,
                        size,
                        Pass::Cured,
                        depth,
                    );
                    proof {
                        lemma_triangles_chain(before, cured, triangles@, vertices as nat);
                    }
                },
                Pass::Cured => {
                    // as a last resort, try splitting the remaining polygon into two
                    split_earcut(nodes, vertices, at, triangles, min_x, min_y, size, depth);
                },
            }
            proof {
                lemma_triangles_chain(old(triangles)@, before, triangles@, vertices as nat);
            }
            return ;
        }
    }
}

/// Whether the edge into node `p` crosses the edge out of the node after
/// it, between two nodes that do not share a point and that see each other
/// inside the polygon.
pub open spec fn crossing_corner(nodes: Seq<Node>, p: int) -> bool {
    let pn = nodes[p];
    let after = nodes[pn.next as int];
    let a = nodes[pn.prev as int];
    let b = nodes[after.next as int];
    &&& !same_point(a, b)
    &&& intersects_of(a, pn, after, b)
    &&& locally_inside_of(nodes, pn.prev as int, after.next as int)
    &&& locally_inside_of(nodes, after.next as int, pn.prev as int)
}

/// The arena, the triangles and the node reached after the walk round the
/// ring of `start` from `p` on: at a crossing corner the node and the one
/// after it leave the ring, the triangle of the node and its two new
/// neighbours is written, and the walk starts anew behind them. It ends
/// where it comes round, or after `limit` cuts, or `limit` steps without a
/// cut.
pub open spec fn cured(
    nodes: Seq<Node>,
    triangles: Seq<usize>,
    p: int,
    start: int,
    cuts: nat,
    steps: nat,
    limit: nat,
) -> (Seq<Node>, Seq<usize>, int)
    decreases limit - cuts, limit - steps,
{
    if cuts >= limit || steps >= limit {
        (nodes, triangles, p)
    } else if crossing_corner(nodes, p) {
        let pn = nodes[p];
        let after = nodes[pn.next as int];
        let a = nodes[pn.prev as int];
        let b = nodes[after.next as int];
        let cut = removed(removed(nodes, p as usize), pn.next);
        let written = triangles.push(a.i).push(pn.i).push(b.i);
        if b.next == after.next {
            (cut, written, b.next as int)
        } else {
            cured(cut, written, b.next as int, after.next as int, cuts + 1, 0, limit)
        }
    } else {
        let next = nodes[p].next as int;
        if next == start {
            (nodes, triangles, next)
        } else {
            cured(nodes, triangles, next, start, cuts, steps + 1, limit)
        }
    }
}

/// The arena, the triangles and the node returned after the local
/// self-intersections of the ring of `start` were cured and its points
/// filtered.
pub open spec fn cure_local_intersections_of(
    nodes: Seq<Node>,
    triangles: Seq<usize>,
    start: int,
) -> (Seq<Node>, Seq<usize>, int) {
    let c = cured(nodes, triangles, start, start, 0, 0, nodes.len());
    let f = filter_points_of(c.0, c.2, 0);
    (f.0, c.1, f.1)
}

/// Goes round the ring of `start` and cures small local self-intersections:
/// where the edge into a node crosses the edge out of the node after it, the
/// two nodes are cut off as a triangle. Returns a node of the ring, after
/// its points were filtered.
pub fn cure_local_intersections(
    nodes: &mut Vec<Node>,
    vertices: usize,
    start: usize,
    triangles: &mut Vec<usize>,
) -> (at: usize)
    requires
        arena_ok(old(nodes)@, vertices as nat),
        1 <= start < old(nodes)@.len(),
    ensures
        (final(nodes)@, final(triangles)@, at as int) == cure_local_intersections_of(
            old(nodes)@,
            old(triangles)@,
            start as int,
        ),
        arena_ok(final(nodes)@, vertices as nat),
        final(nodes)@.len() == old(nodes)@.len(),
        1 <= at < final(nodes)@.len(),
        triangles_added(old(triangles)@, final(triangles)@, vertices as nat),
{
    let mut from = start;
    let mut p: usize = start;
    assert(triangles@.take(triangles@.len() as int) =~= triangles@);
    let limit = nodes.len();
    let mut cuts: usize = 0;
    let mut steps: usize = 0;
    let ghost target = cured(nodes@, triangles@, start as int, start as int, 0, 0, nodes@.len());
    while cuts < limit && steps < limit
        invariant_except_break
            target == cured(
                nodes@,
                triangles@,
                p as int,
                from as int,
                cuts as nat,
                steps as nat,
                limit as nat,
            ),
        invariant
            arena_ok(nodes@, vertices as nat),
            nodes@.len() == old(nodes)@.len(),
            limit == nodes@.len(),
            1 <= p < nodes@.len(),
            1 <= from < nodes@.len(),
            cuts <= limit,
            steps <= limit,
            triangles_added(old(triangles)@, triangles@, vertices as nat),
        ensures
            target == (nodes@, triangles@, p as int),
        decreases limit - cuts, limit - steps,
    {
        let pn = nodes[p];
        let p_next_i = pn.next;
        let p_next = nodes[p_next_i];
        let b_i = p_next.next;
        let a_i = pn.prev;
        let a = nodes[a_i];
        let b = nodes[b_i];

        if !equals(&a, &b) && intersects(&a, &pn, &p_next, &b) && locally_inside(
            nodes,
            vertices,
            a_i,
            b_i,
        ) && locally_inside(nodes, vertices, b_i, a_i) {
            let ghost before = triangles@;
            push_triangle(triangles, vertices, a.i, pn.i, b.i);
            proof {
                lemma_triangles_chain(old(triangles)@, before, triangles@, vertices as nat);
            }
            let b_next = b.next;
            let _ = remove_node(nodes, vertices, p);
            let _ = remove_node(nodes, vertices, p_next_i);
            p = b_next;
            from = b_i;
            cuts += 1;
            steps = 0;
        } else {
            p = pn.next;
            steps += 1;
        }
        if p == from {
            break ;
        }
    }
    filter_points(nodes, vertices, p, 0)
}

/// Looks for a diagonal that lies inside the polygon, splits the ring of
/// `start` along the first one found and slices each half on its own.
/// Without such a diagonal, or with `depth` used up, the ring is left as it
/// is.
pub fn split_earcut(
    nodes: &mut Vec<Node>,
    vertices: usize,
    start: usize,
    triangles: &mut Vec<usize>,
    min_x: i32,
    min_y: i32,
    size: i64,
    depth: usize,
)
    requires
        arena_ok(old(nodes)@, vertices as nat),
        1 <= start < old(nodes)@.len(),
        0 <= size <= 0xffff_ffff,
    ensures
        (final(nodes)@, final(triangles)@) == split_earcut_of(
            old(nodes)@,
            old(triangles)@,
            start as int,
            min_x as int,
            min_y as int,
            size as int,
            depth as nat,
        ),
        arena_ok(final(nodes)@, vertices as nat),
        final(nodes)@.len() >= old(nodes)@.len(),
        triangles_added(old(triangles)@, final(triangles)@, vertices as nat),
    decreases depth, 0nat,
{
    assert(triangles@.take(triangles@.len() as int) =~= triangles@);
    if depth == 0 || nodes.len() >= usize::MAX - 2 {
        return ;
    }
    // look for a valid diagonal that divides the polygon into two
    let limit = nodes.len();
    let mut a: usize = start;
    let mut outer: usize = 0;
    let ghost found = diagonal_from(nodes@, start as int, start as int, 0, limit as nat);
    while outer < limit
        invariant
            arena_ok(nodes@, vertices as nat),
            nodes@ == old(nodes)@,
            triangles@ == old(triangles)@,
            triangles_added(old(triangles)@, triangles@, vertices as nat),
            limit == nodes@.len(),
            limit < usize::MAX - 2,
            depth > 0,
            1 <= a < nodes@.len(),
            0 <= size <= 0xffff_ffff,
            found == diagonal_from(old(nodes)@, start as int, start as int, 0, limit as nat),
            found == diagonal_from(nodes@, a as int, start as int, outer as nat, limit as nat),
        decreases limit - outer,
    {
        let an = nodes[a];
        let mut b: usize = nodes[an.next].next;
        let mut inner: usize = 0;
        let ghost to = diagonal_to(nodes@, a as int, b as int, 0, limit as nat);
        while b != an.prev && inner < limit
            invariant
                arena_ok(nodes@, vertices as nat),
                nodes@ == old(nodes)@,
                triangles@ == old(triangles)@,
                triangles_added(old(triangles)@, triangles@, vertices as nat),
                limit == nodes@.len(),
                limit < usize::MAX - 2,
                depth > 0,
                outer < limit,
                1 <= a < nodes@.len(),
                1 <= b < nodes@.len(),
                an == nodes@[a as int],
                0 <= size <= 0xffff_ffff,
                found == diagonal_from(old(nodes)@, start as int, start as int, 0, limit as nat),
                found == diagonal_from(nodes@, a as int, start as int, outer as nat, limit as nat),
                to == diagonal_to(
                    nodes@,
                    a as int,
                    nodes@[an.next as int].next as int,
                    0,
                    limit as nat,
                ),
                to == diagonal_to(nodes@, a as int, b as int, inner as nat, limit as nat),
            decreases limit - inner,
        {
            let bn = nodes[b];
            if an.i != bn.i && is_valid_diagonal(nodes, vertices, a, b) {
                assert(found == Some((a as int, b as int)));
                // split the polygon in two by the diagonal
                let c0 = split_polygon(nodes, vertices, a, b);

                // filter colinear points around the cuts
                let end = nodes[a].next;
                let a2 = filter_points(nodes, vertices, a, end);
                let end = nodes[c0].next;
                let c = filter_points(nodes, vertices, c0, end);

                // run earcut on each half
                earcut_linked(
                    nodes,
                    vertices,
                    a2,
                    triangles,
                    min_x,
                    min_y,
                    size,
                    Pass::Plain,
                    (depth - 1) as usize,
                );
                let ghost half = triangles@;
                earcut_linked(
                    nodes,
                    vertices,
                    c,
                    triangles,
                    min_x,
                    min_y,
                    size,
                    Pass::Plain,
                    (depth - 1) as usize,
                );
                proof {
                    lemma_triangles_chain(old(triangles)@, half, triangles@, vertices as nat);
                }
                return ;
            }
            b = bn.next;
            inner += 1;
        }
        assert(to.is_none());
        a = an.next;
        if a == start {
            assert(found.is_none());
            return ;
        }
        outer += 1;
    }
    assert(found.is_none());
}

} // verus!

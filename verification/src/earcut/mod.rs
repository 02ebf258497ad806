//! Polygon triangulation by ear clipping, on integer coordinates.
//!
//! The ring of a polygon is a circular doubly-linked list held in an arena
//! of nodes. Nodes refer to each other by arena index; index 0 is a
//! sentinel that no ring passes through, so 0 also stands for "no node" in
//! the z-order links.

pub mod clip;
pub mod ear;
pub mod holes;
pub mod predicates;
pub mod ring;
pub mod zorder;

use crate::path::geo::greatest_x;
use crate::path::geo::greatest_y;
use crate::path::geo::least_x;
use crate::path::geo::least_y;
use crate::path::Point;
use self::clip::earcut_linked;
use self::clip::earcut_linked_of;
use self::clip::triangles_added;
use self::clip::Pass;
use self::holes::eliminate_holes;
use self::holes::eliminate_holes_of;
use self::holes::holes_ok;
use self::holes::QueuedHole;
use self::ring::linked_list;
use self::ring::linked_list_of;
use self::ring::signed_area;
use self::ring::signed_area_of;
use vstd::prelude::*;

verus! {

/// A vertex of a ring.
#[derive(Debug, Clone, Copy, PartialEq, Eq, Structural)]
pub struct Node {
    /// Index of the vertex among the input points.
    pub i: usize,
    /// Z-order curve value.
    pub z: i32,
    /// Vertex coordinates.
    pub x: i32,
    pub y: i32,
    /// Previous and next node of the ring.
    pub prev: usize,
    pub next: usize,
    /// Previous and next node in z-order; 0 for none.
    pub prev_z: usize,
    pub next_z: usize,
    /// Whether this is a steiner point.
    pub steiner: bool,
}

/// Whether the links of `n` stay inside an arena of `len` nodes and its
/// vertex is one of `vertices` input points.
pub open spec fn node_ok(n: Node, len: nat, vertices: nat) -> bool {
    &&& 1 <= n.prev < len
    &&& 1 <= n.next < len
    &&& n.prev_z < len
    &&& n.next_z < len
    &&& n.i < vertices
}

/// Whether `nodes` is an arena over `vertices` input points: it has its
/// sentinel, and every other node is in order.
pub open spec fn arena_ok(nodes: Seq<Node>, vertices: nat) -> bool {
    &&& nodes.len() >= 1
    &&& forall|k: int| 1 <= k < nodes.len() ==> node_ok(#[trigger] nodes[k], nodes.len(), vertices)
}

/// Most points that one triangulation takes.
pub const MAX_POINTS: usize = 0x1000_0000;

/// Polygons with more points than this are indexed by z-order.
pub const HASH_THRESHOLD: usize = 80;

/// The index of a vertex, in the integer type that the caller uses for it.
pub trait Index: Copy {
    /// The index as a number.
    spec fn index_of(self) -> nat;

    /// Whether the type can hold the index `v`.
    spec fn holds(v: usize) -> bool;

    /// The value of the type that stands for `v`.
    spec fn from_spec(v: usize) -> Self;

    /// A value that can be held is read back as it was written.
    proof fn lemma_round_trip(v: usize)
        requires
            Self::holds(v),
        ensures
            Self::from_spec(v).index_of() == v,
    ;

    fn into_usize(self) -> (r: usize)
        ensures
            r == self.index_of(),
    ;

    fn from_usize(v: usize) -> (r: Self)
        ensures
            r == Self::from_spec(v),
    ;
}

impl Index for u32 {
    open spec fn index_of(self) -> nat {
        self as nat
    }

    open spec fn holds(v: usize) -> bool {
        v <= u32::MAX
    }

    open spec fn from_spec(v: usize) -> u32 {
        ((v as u64) % 0x1_0000_0000) as u32
    }

    proof fn lemma_round_trip(v: usize) {
    }

    fn into_usize(self) -> (r: usize) {
        self as usize
    }

    fn from_usize(v: usize) -> (r: u32) {
        ((v as u64) % 0x1_0000_0000) as u32
    }
}

impl Index for u16 {
    open spec fn index_of(self) -> nat {
        self as nat
    }

    open spec fn holds(v: usize) -> bool {
        v <= u16::MAX
    }

    open spec fn from_spec(v: usize) -> u16 {
        (v % 0x1_0000) as u16
    }

    proof fn lemma_round_trip(v: usize) {
    }

    fn into_usize(self) -> (r: usize) {
        self as usize
    }

    fn from_usize(v: usize) -> (r: u16) {
        (v % 0x1_0000) as u16
    }
}

impl Index for usize {
    open spec fn index_of(self) -> nat {
        self as nat
    }

    open spec fn holds(v: usize) -> bool {
        true
    }

    open spec fn from_spec(v: usize) -> usize {
        v
    }

    proof fn lemma_round_trip(v: usize) {
    }

    fn into_usize(self) -> (r: usize) {
        self
    }

    fn from_usize(v: usize) -> (r: usize) {
        v
    }
}

/// The indices of `holes` as numbers.
pub open spec fn hole_starts<N: Index>(holes: Seq<N>) -> Seq<usize> {
    Seq::new(holes.len(), |i: int| holes[i].index_of() as usize)
}

/// The vertex indices `t` in the caller's type.
pub open spec fn in_type<N: Index>(t: Seq<usize>) -> Seq<N> {
    Seq::new(t.len(), |i: int| N::from_spec(t[i]))
}

/// The one triangle of a ring of three points: its corners in the order in
/// which the ear is cut.
pub open spec fn single_triangle(data: Seq<Point>) -> Seq<usize> {
    if signed_area_of(data, 0, 3) > 0 {
        seq![1usize, 2usize, 0usize]
    } else {
        seq![1usize, 0usize, 2usize]
    }
}

/// Whether `data` is an axis-aligned rectangle with sides of some length:
/// four points, each of which shares one coordinate with the next, the two
/// coordinates in turn.
pub open spec fn is_axis_rect(data: Seq<Point>) -> bool {
    &&& data.len() == 4
    &&& data[0] != data[1]
    &&& data[1] != data[2]
    &&& ((data[0].y == data[1].y && data[1].x == data[2].x && data[2].y == data[3].y && data[3].x
        == data[0].x) || (data[0].x == data[1].x && data[1].y == data[2].y && data[2].x
        == data[3].x && data[3].y == data[0].y))
}

/// The two triangles of an axis-aligned rectangle: the ears at its last
/// and at its second point, in the order in which they are cut.
pub open spec fn rect_triangles(data: Seq<Point>) -> Seq<usize> {
    if signed_area_of(data, 0, 4) > 0 {
        seq![2usize, 3usize, 0usize, 0usize, 1usize, 2usize]
    } else {
        seq![1usize, 0usize, 3usize, 3usize, 2usize, 1usize]
    }
}

/// Twice the signed area of the turn from `p` over `q` to `r`.
pub open spec fn turn(p: Point, q: Point, r: Point) -> int {
    (q.y - p.y) * (r.x - q.x) - (q.x - p.x) * (r.y - q.y)
}

/// An axis-aligned rectangle encloses an area, no point of it repeats its
/// neighbour, and it turns the same way at every corner: against the sign of
/// its shoelace sum.
pub proof fn lemma_rect_turns(data: Seq<Point>)
    requires
        is_axis_rect(data),
    ensures
        data[0] != data[3],
        signed_area_of(data, 0, 4) != 0,
        signed_area_of(data, 0, 4) == -2 * turn(data[2], data[3], data[0]),
        turn(data[0], data[1], data[2]) == turn(data[2], data[3], data[0]),
        turn(data[1], data[0], data[3]) == -turn(data[2], data[3], data[0]),
        turn(data[3], data[2], data[1]) == -turn(data[2], data[3], data[0]),
        crate::math::abs(signed_area_of(data, 0, 4)) == 2 * crate::math::abs(
            (data[2].x - data[0].x) * (data[2].y - data[0].y),
        ),
{
    reveal_with_fuel(ring::area_sum, 5);
    let x0 = data[0].x as int;
    let y0 = data[0].y as int;
    let x2 = data[2].x as int;
    let y2 = data[2].y as int;
    let a = x2 - x0;
    let b = y2 - y0;
    let s = signed_area_of(data, 0, 4);
    if data[0].y == data[1].y {
        // The corners are (x0, y0), (x2, y0), (x2, y2), (x0, y2).
        assert(s == (x0 - x0) * (y0 + y2) + (x0 - x2) * (y0 + y0) + (x2 - x2) * (y2 + y0) + (x2
            - x0) * (y2 + y2));
        lemma_rect_algebra(x0, y0, a, b);
    } else {
        // The corners are (x0, y0), (x0, y2), (x2, y2), (x2, y0).
        assert(s == (x2 - x0) * (y0 + y0) + (x0 - x0) * (y2 + y0) + (x0 - x2) * (y2 + y2) + (x2
            - x2) * (y0 + y2));
        lemma_rect_algebra(x0, y0, a, b);
    }
}

/// The products that the corners of a rectangle with the sides `a` and `b`
/// give.
proof fn lemma_rect_algebra(x0: int, y0: int, a: int, b: int)
    requires
        a != 0,
        b != 0,
    ensures
        a * b != 0,
        b * a == a * b,
        (x0 - x0) * (y0 + (y0 + b)) + (x0 - (x0 + a)) * (y0 + y0) + ((x0 + a) - (x0 + a)) * ((y0
            + b) + y0) + ((x0 + a) - x0) * ((y0 + b) + (y0 + b)) == 2 * (a * b),
        ((x0 + a) - x0) * (y0 + y0) + (x0 - x0) * ((y0 + b) + y0) + (x0 - (x0 + a)) * ((y0 + b) + (
        y0 + b)) + ((x0 + a) - (x0 + a)) * (y0 + (y0 + b)) == -2 * (a * b),
        ((y0 + b) - (y0 + b)) * (x0 - x0) - (x0 - (x0 + a)) * (y0 - (y0 + b)) == -(a * b),
        (y0 - y0) * ((x0 + a) - (x0 + a)) - ((x0 + a) - x0) * ((y0 + b) - y0) == -(a * b),
        (y0 - (y0 + b)) * ((x0 + a) - x0) - (x0 - x0) * (y0 - y0) == -(a * b),
        ((y0 + b) - y0) * ((x0 + a) - x0) - (x0 - x0) * ((y0 + b) - (y0 + b)) == a * b,
        (y0 - y0) * (x0 - x0) - (x0 - (x0 + a)) * ((y0 + b) - y0) == a * b,
        ((y0 + b) - (y0 + b)) * ((x0 + a) - (x0 + a)) - ((x0 + a) - x0) * (y0 - (y0 + b)) == a * b,
        (y0 - (y0 + b)) * (x0 - (x0 + a)) - ((x0 + a) - (x0 + a)) * (y0 - y0) == a * b,
        ((y0 + b) - y0) * (x0 - (x0 + a)) - ((x0 + a) - (x0 + a)) * ((y0 + b) - y0) == -(a * b),
        (y0 - y0) * (x0 - x0) - ((x0 + a) - x0) * ((y0 + b) - y0) == -(a * b),
        ((y0 + b) - (y0 + b)) * ((x0 + a) - (x0 + a)) - (x0 - (x0 + a)) * (y0 - (y0 + b)) == -(a
            * b),
{
    assert(a * b != 0) by (nonlinear_arith)
        requires
            a != 0,
            b != 0,
    ;
    assert(b * a == a * b) by (nonlinear_arith);
    assert((x0 - (x0 + a)) * (y0 + y0) + ((x0 + a) - x0) * ((y0 + b) + (y0 + b)) == 2 * (a * b))
        by (nonlinear_arith);
    assert(((x0 + a) - x0) * (y0 + y0) + (x0 - (x0 + a)) * ((y0 + b) + (y0 + b)) == -2 * (a * b))
        by (nonlinear_arith);
    assert((x0 - (x0 + a)) * (y0 - (y0 + b)) == a * b) by (nonlinear_arith);
    assert(((x0 + a) - x0) * ((y0 + b) - y0) == a * b) by (nonlinear_arith);
    assert((y0 - (y0 + b)) * ((x0 + a) - x0) == -(a * b)) by (nonlinear_arith);
    assert(((y0 + b) - y0) * ((x0 + a) - x0) == a * b) by (nonlinear_arith);
    assert((x0 - (x0 + a)) * ((y0 + b) - y0) == -(a * b)) by (nonlinear_arith);
    assert(((x0 + a) - x0) * (y0 - (y0 + b)) == -(a * b)) by (nonlinear_arith);
    assert((y0 - (y0 + b)) * (x0 - (x0 + a)) == a * b) by (nonlinear_arith);
    assert(((y0 + b) - y0) * (x0 - (x0 + a)) == -(a * b)) by (nonlinear_arith);
}

/// The triangulator. Its arena and its queue of holes are kept from call to
/// call and cleared at the start of each.
pub struct Earcut {
    data: Vec<Point>,
    nodes: Vec<Node>,
    queue: Vec<QueuedHole>,
}

impl Earcut {
    /// The points of the polygon that was given last.
    pub closed spec fn points(&self) -> Seq<Point> {
        self.data@
    }

    /// A triangulator with an empty arena.
    pub fn new() -> (e: Self)
        ensures
            e.points() == Seq::<Point>::empty(),
    {
        Earcut { data: Vec::new(), nodes: Vec::new(), queue: Vec::new() }
    }

    /// Clears the arena down to its sentinel.
    fn reset(&mut self, capacity: usize)
        ensures
            final(self).data@ == old(self).data@,
            final(self).nodes@ == empty_arena(),
            arena_ok(final(self).nodes@, final(self).data@.len()),
    {
        self.nodes.clear();
        self.nodes.reserve(capacity);
        // the sentinel
        self.nodes.push(
            Node { i: 0, z: 0, x: 0, y: 0, prev: 0, next: 0, prev_z: 0, next_z: 0, steiner: false },
        );
        assert(self.nodes@ =~= empty_arena());
    }

    /// Triangulates the polygon whose points are `data`: the outer ring
    /// first, then the holes, where `hole_indices` gives the index of the
    /// first point of each hole. The triangles are appended to
    /// `triangles_out`, three vertex indices each, after it was cleared where
    /// `clear_out` is set. Returns whether there was a polygon to
    /// triangulate: at least 3 and at most `MAX_POINTS` points.
    ///
    /// Three points that do not lie on one line give exactly one triangle,
    /// whose corners are the three points. The four corners of an
    /// axis-aligned rectangle give exactly two triangles, which cover the
    /// rectangle.
    pub fn earcut<N: Index>(
        &mut self,
        data: &[Point],
        hole_indices: &[N],
        triangles_out: &mut Vec<N>,
        clear_out: bool,
    ) -> (done: bool)
        requires
            3 <= data@.len() <= MAX_POINTS ==> holes_ok(hole_starts(hole_indices@), data@.len()),
        ensures
            done == (3 <= data@.len() <= MAX_POINTS),
            final(self).points() == data@,
            !done ==> final(triangles_out)@ == kept_output(old(triangles_out)@, clear_out),
            done ==> final(triangles_out)@ == kept_output(old(triangles_out)@, clear_out)
                + in_type::<N>(triangulated(data@, hole_starts(hole_indices@))),
            done ==> triangles_added(
                Seq::<usize>::empty(),
                triangulated(data@, hole_starts(hole_indices@)),
                data@.len(),
            ),
            data@.len() == 3 && hole_indices@.len() == 0 && signed_area_of(data@, 0, 3) != 0
                ==> final(triangles_out)@ == kept_output(old(triangles_out)@, clear_out)
                + in_type::<N>(single_triangle(data@)),
            is_axis_rect(data@) && hole_indices@.len() == 0 ==> final(triangles_out)@
                == kept_output(old(triangles_out)@, clear_out) + in_type::<N>(rect_triangles(data@)),
    {
        self.data.clear();
        let mut i: usize = 0;
        while i < data.len()
            invariant
                i <= data@.len(),
                self.data@ == data@.take(i as int),
            decreases data@.len() - i,
        {
            self.data.push(data[i]);
            assert(data@.take(i as int + 1) =~= data@.take(i as int).push(data@[i as int]));
            i += 1;
        }
        assert(data@.take(data@.len() as int) =~= data@);
        if clear_out {
            triangles_out.clear();
        }
        if self.data.len() < 3 || self.data.len() > MAX_POINTS {
            return false;
        }
        self.earcut_impl(hole_indices, triangles_out);
        proof {
            if hole_indices@.len() == 0 {
                assert(hole_starts(hole_indices@) =~= Seq::<usize>::empty());
                if data@.len() == 3 && signed_area_of(data@, 0, 3) != 0 {
                    lemma_triangle_triangulated(data@);
                }
                if is_axis_rect(data@) {
                    lemma_rect_triangulated(data@);
                }
            }
        }
        true
    }

    /// Triangulates the polygon whose points the triangulator holds and
    /// appends the triangles to `triangles_out`.
    pub fn earcut_impl<N: Index>(&mut self, hole_indices: &[N], triangles_out: &mut Vec<N>)
        requires
            holes_ok(hole_starts(hole_indices@), old(self).points().len()),
            old(self).points().len() <= MAX_POINTS,
        ensures
            final(self).points() == old(self).points(),
            final(triangles_out)@ == old(triangles_out)@ + in_type::<N>(
                triangulated(old(self).points(), hole_starts(hole_indices@)),
            ),
            triangles_added(
                Seq::<usize>::empty(),
                triangulated(old(self).points(), hole_starts(hole_indices@)),
                old(self).points().len(),
            ),
    {
        let mut tris: Vec<usize> = Vec::new();
        self.triangulate(hole_indices, &mut tris);
        triangles_out.reserve(tris.len());
        let mut k: usize = 0;
        while k < tris.len()
            invariant
                k <= tris@.len(),
                triangles_out@.len() == old(triangles_out)@.len() + k,
                triangles_out@.take(old(triangles_out)@.len() as int) == old(triangles_out)@,
                triangles_out@.skip(old(triangles_out)@.len() as int) == in_type::<N>(
                    tris@.take(k as int),
                ),
            decreases tris@.len() - k,
        {
            let ghost before = triangles_out@;
            triangles_out.push(N::from_usize(tris[k]));
            proof {
                let base = old(triangles_out)@.len() as int;
                assert(triangles_out@.take(base) =~= before.take(base));
                assert(triangles_out@.skip(base) =~= before.skip(base).push(
                    N::from_spec(tris@[k as int]),
                ));
                assert(in_type::<N>(tris@.take(k as int + 1)) =~= in_type::<N>(
                    tris@.take(k as int),
                ).push(N::from_spec(tris@[k as int])));
            }
            k += 1;
        }
        proof {
            assert(tris@.take(tris@.len() as int) =~= tris@);
            assert(triangles_out@ =~= old(triangles_out)@ + in_type::<N>(tris@));
        }
    }

    /// Triangulates the polygon whose points the triangulator holds into
    /// `triangles`, as vertex indices.
    fn triangulate<N: Index>(&mut self, hole_indices: &[N], triangles: &mut Vec<usize>)
        requires
            holes_ok(hole_starts(hole_indices@), old(self).data@.len()),
            old(self).data@.len() <= MAX_POINTS,
            old(triangles)@.len() == 0,
        ensures
            final(self).data@ == old(self).data@,
            final(triangles)@ == triangulated(old(self).data@, hole_starts(hole_indices@)),
            triangles_added(Seq::<usize>::empty(), final(triangles)@, old(self).data@.len()),
    {
        proof {
            reveal(triangulated);
        }
        assert(triangles@.take(0) =~= Seq::<usize>::empty());
        assert(triangles@ =~= Seq::<usize>::empty());
        let count = self.data.len();
        self.reset((count / 2) * 3);

        let has_holes = hole_indices.len() > 0;
        let holes = starts_of(hole_indices);
        let outer_len: usize = if has_holes {
            holes[0]
        } else {
            count
        };
        if outer_len == 0 {
            return ;
        }
        // create nodes
        let mut outer = linked_list(&mut self.nodes, &self.data, 0, outer_len, true);
        if outer == 0 {
            return ;
        }
        let o = self.nodes[outer];
        if o.next == o.prev {
            return ;
        }
        if has_holes {
            outer = eliminate_holes(&mut self.nodes, &mut self.queue, &self.data, &holes, outer);
        }
        let (min_x, min_y, size) = square_of(&self.data, outer_len);
        earcut_linked(
            &mut self.nodes,
            count,
            outer,
            triangles,
            min_x,
            min_y,
            size,
            Pass::Plain,
            count,
        );
    }
}

/// The arena with nothing in it but the sentinel.
pub open spec fn empty_arena() -> Seq<Node> {
    seq![
        Node { i: 0, z: 0, x: 0, y: 0, prev: 0, next: 0, prev_z: 0, next_z: 0, steiner: false },
    ]
}

/// The corner and the side of the square by which the z-order index scales
/// the points: the corner of the bounding box of the outer ring with the
/// least coordinates and the longer side of the box, where there are more
/// than `HASH_THRESHOLD` points; all 0 otherwise, for no index.
pub open spec fn index_square(data: Seq<Point>, outer_len: int) -> (int, int, int) {
    if data.len() > HASH_THRESHOLD {
        let w = greatest_x(data, outer_len) - least_x(data, outer_len);
        let h = greatest_y(data, outer_len) - least_y(data, outer_len);
        (least_x(data, outer_len), least_y(data, outer_len), if w >= h {
            w
        } else {
            h
        })
    } else {
        (0, 0, 0)
    }
}

/// The triangles of the polygon whose points are `data`, with holes that
/// start at `holes`: the outer ring is linked clockwise, the holes are
/// joined to it, and the ring that results is sliced. There are none where
/// the outer ring has fewer than three different points.
#[verifier::opaque]
pub open spec fn triangulated(data: Seq<Point>, holes: Seq<usize>) -> Seq<usize> {
    let outer_len = if holes.len() > 0 {
        holes[0] as int
    } else {
        data.len() as int
    };
    let ring = linked_list_of(empty_arena(), data, 0, outer_len, true);
    if outer_len == 0 || ring.1 == 0 || ring.0[ring.1].next == ring.0[ring.1].prev {
        Seq::empty()
    } else {
        let joined = if holes.len() > 0 {
            eliminate_holes_of(ring.0, data, holes, ring.1)
        } else {
            ring
        };
        let square = index_square(data, outer_len);
        earcut_linked_of(
            joined.0,
            Seq::empty(),
            joined.1,
            square.0,
            square.1,
            square.2,
            Pass::Plain,
            data.len(),
        ).1
    }
}

/// The corner and the side of the square by which the z-order index scales
/// the points, for an outer ring of the first `outer_len` points.
fn square_of(data: &Vec<Point>, outer_len: usize) -> (square: (i32, i32, i64))
    requires
        1 <= outer_len <= data@.len(),
    ensures
        (square.0 as int, square.1 as int, square.2 as int) == index_square(
            data@,
            outer_len as int,
        ),
        0 <= square.2 <= 0xffff_ffff,
{
    let mut min_x: i32 = 0;
    let mut min_y: i32 = 0;
    let mut size: i64 = 0;

    // if the shape is not too simple, we'll use z-order curve hash later; calculate polygon bbox
    if data.len() > HASH_THRESHOLD {
        let first = data[0];
        let mut max_x: i32 = first.x;
        let mut max_y: i32 = first.y;
        min_x = first.x;
        min_y = first.y;
        let mut k: usize = 1;
        while k < outer_len
            invariant
                1 <= k <= outer_len <= data@.len(),
                min_x <= max_x,
                min_y <= max_y,
                min_x == least_x(data@, k as int),
                max_x == greatest_x(data@, k as int),
                min_y == least_y(data@, k as int),
                max_y == greatest_y(data@, k as int),
            decreases outer_len - k,
        {
            let p = data[k];
            if p.x > max_x {
                max_x = p.x;
            }
            if p.y > max_y {
                max_y = p.y;
            }
            if p.x < min_x {
                min_x = p.x;
            }
            if p.y < min_y {
                min_y = p.y;
            }
            k += 1;
        }
        // the longer side of the box scales coordinates for the z-order curve
        let w: i64 = max_x as i64 - min_x as i64;
        let hh: i64 = max_y as i64 - min_y as i64;
        size = if w >= hh {
            w
        } else {
            hh
        };
    }
    (min_x, min_y, size)
}

/// The indices at which the holes start, as plain numbers.
fn starts_of<N: Index>(hole_indices: &[N]) -> (holes: Vec<usize>)
    ensures
        holes@ == hole_starts(hole_indices@),
{
    let mut holes: Vec<usize> = Vec::new();
    let mut h: usize = 0;
    while h < hole_indices.len()
        invariant
            h <= hole_indices@.len(),
            holes@ == hole_starts(hole_indices@).take(h as int),
        decreases hole_indices@.len() - h,
    {
        holes.push(hole_indices[h].into_usize());
        assert(hole_starts(hole_indices@).take(h as int + 1) =~= hole_starts(hole_indices@).take(
            h as int,
        ).push(hole_starts(hole_indices@)[h as int]));
        h += 1;
    }
    assert(hole_starts(hole_indices@).take(hole_indices@.len() as int) =~= hole_starts(
        hole_indices@,
    ));
    holes
}

/// Three points that do not lie on one line are triangulated into exactly
/// one triangle, whose corners are the three points and whose area is the
/// area that the points enclose.
pub proof fn lemma_triangle_triangulated(data: Seq<Point>)
    requires
        data.len() == 3,
        signed_area_of(data, 0, 3) != 0,
    ensures
        triangulated(data, Seq::empty()) == single_triangle(data),
        triangulated(data, Seq::empty()).len() == 3,
        forall|v: usize| v < 3 ==> #[trigger] triangulated(data, Seq::empty()).contains(v),
        triangles_area(data, triangulated(data, Seq::empty()), 1) == polygon_area(
            data,
            Seq::<usize>::empty(),
        ),
{
    reveal(triangulated);
    lemma_three_points(data);
    let forward = signed_area_of(data, 0, 3) > 0;
    let built = ring::ring_added(empty_arena(), data, 0, 3, forward);
    assert(built[1] == ring::built_node(1, 1, 3, data, 0, 3, forward));
    assert(built[2] == ring::built_node(2, 1, 3, data, 0, 3, forward));
    assert(built[3] == ring::built_node(3, 1, 3, data, 0, 3, forward));
    assert(linked_list_of(empty_arena(), data, 0, 3, true) == (built, 3int));
    assert(arena_ok(built, 3));
    assert(clip::triangle_ring(built, 3));
    assert(clip::ear_triangle(built, 3));
    clip::lemma_triangle_sliced(built, 3, Seq::empty(), 3, 3, 0, 4, 0, 0, Pass::Plain, 3);
    assert(Seq::<usize>::empty() + clip::cut_at(built, 3) =~= single_triangle(data));
    let t = single_triangle(data);
    reveal_with_fuel(triangles_area, 2);
    lemma_area_of_turn(data[1], data[2], data[0]);
    lemma_area_of_turn(data[1], data[0], data[2]);
    assert(holes_area(data, Seq::<usize>::empty(), 0) == 0);
    assert(triangles_area(data, single_triangle(data), 1) == polygon_area(
        data,
        Seq::<usize>::empty(),
    ));
    assert forall|v: usize| v < 3 implies #[trigger] t.contains(v) by {
        if forward {
            assert(t[2] == 0 && t[0] == 1 && t[1] == 2);
        } else {
            assert(t[1] == 0 && t[0] == 1 && t[2] == 2);
        }
    }
}

/// The four corners of an axis-aligned rectangle are triangulated into
/// exactly two triangles, whose areas add up to the area of the rectangle.
/// (All areas are doubled.)
pub proof fn lemma_rect_triangulated(data: Seq<Point>)
    requires
        is_axis_rect(data),
    ensures
        triangulated(data, Seq::empty()) == rect_triangles(data),
        triangulated(data, Seq::empty()).len() == 6,
        triangles_area(data, triangulated(data, Seq::empty()), 2) == polygon_area(
            data,
            Seq::<usize>::empty(),
        ),
{
    reveal(triangulated);
    lemma_rect_turns(data);
    lemma_rect_triangles_cover(data);
    let forward = signed_area_of(data, 0, 4) > 0;
    let built = ring::ring_added(empty_arena(), data, 0, 4, forward);
    assert(built[1] == ring::built_node(1, 1, 4, data, 0, 4, forward));
    assert(built[2] == ring::built_node(2, 1, 4, data, 0, 4, forward));
    assert(built[3] == ring::built_node(3, 1, 4, data, 0, 4, forward));
    assert(built[4] == ring::built_node(4, 1, 4, data, 0, 4, forward));
    assert(linked_list_of(empty_arena(), data, 0, 4, true) == (built, 4int));
    assert(arena_ok(built, 4));
    let d = data;
    if forward {
        assert(predicates::area_of(built[3], built[4], built[1]) == turn(d[2], d[3], d[0]));
        assert(predicates::area_of(built[1], built[2], built[3]) == turn(d[0], d[1], d[2]));
    } else {
        assert(predicates::area_of(built[3], built[4], built[1]) == turn(d[1], d[0], d[3]));
        assert(predicates::area_of(built[1], built[2], built[3]) == turn(d[3], d[2], d[1]));
    }
    assert(clip::convex_quad(built, 4));
    clip::lemma_quad_sliced(built, 4, Seq::empty(), 4, 4, 5, 0, 0, Pass::Plain, 4);
    assert(Seq::<usize>::empty() + clip::cut_quad(built, 4) =~= rect_triangles(d));
}

/// Whether `hole_indices` gives the first points of holes among `count`
/// points: what a triangulation of at least three points asks of them.
pub fn check_holes<N: Index>(hole_indices: &[N], count: usize) -> (ok: bool)
    ensures
        ok == holes_ok(hole_starts(hole_indices@), count as nat),
{
    let ghost holes = hole_starts(hole_indices@);
    let mut k: usize = 0;
    let mut last: usize = 0;
    while k < hole_indices.len()
        invariant
            k <= hole_indices@.len(),
            holes == hole_starts(hole_indices@),
            k > 0 ==> last == holes[k - 1],
            forall|i: int, j: int| 0 <= i <= j < k ==> holes[i] <= holes[j],
            forall|i: int| 0 <= i < k ==> 1 <= #[trigger] holes[i] <= count,
        decreases hole_indices@.len() - k,
    {
        let h = hole_indices[k].into_usize();
        assert(holes[k as int] == h);
        if h < 1 || h > count || (k > 0 && h < last) {
            proof {
                if k > 0 && h < last {
                    assert(holes[k - 1] > holes[k as int]);
                }
            }
            return false;
        }
        last = h;
        k += 1;
    }
    true
}

/// What is left of the output before triangles are appended.
pub open spec fn kept_output<N>(before: Seq<N>, clear_out: bool) -> Seq<N> {
    if clear_out {
        Seq::empty()
    } else {
        before
    }
}

/// Three points that enclose an area are three different points, and the
/// turn at each of them has the sign of the area.
pub proof fn lemma_three_points(data: Seq<Point>)
    requires
        data.len() == 3,
        signed_area_of(data, 0, 3) != 0,
    ensures
        data[0] != data[2],
        signed_area_of(data, 0, 3) == -((data[2].y - data[1].y) * (data[0].x - data[2].x) - (data[2].x
            - data[1].x) * (data[0].y - data[2].y)),
        signed_area_of(data, 0, 3) == (data[0].y - data[1].y) * (data[2].x - data[0].x) - (data[0].x
            - data[1].x) * (data[2].y - data[0].y),
{
    reveal_with_fuel(ring::area_sum, 4);
    let ax = data[0].x as int;
    let ay = data[0].y as int;
    let bx = data[1].x as int;
    let by = data[1].y as int;
    let cx = data[2].x as int;
    let cy = data[2].y as int;
    let s = (cx - ax) * (ay + cy) + (ax - bx) * (by + ay) + (bx - cx) * (cy + by);
    assert(signed_area_of(data, 0, 3) == s);
    lemma_shoelace(ax, ay, bx, by, cx, cy);
}

/// The shoelace sum of three points, written as the turn at one of them.
proof fn lemma_shoelace(ax: int, ay: int, bx: int, by: int, cx: int, cy: int)
    ensures
        (cx - ax) * (ay + cy) + (ax - bx) * (by + ay) + (bx - cx) * (cy + by) == -((cy - by) * (ax
            - cx) - (cx - bx) * (ay - cy)),
        (cx - ax) * (ay + cy) + (ax - bx) * (by + ay) + (bx - cx) * (cy + by) == (ay - by) * (cx
            - ax) - (ax - bx) * (cy - ay),
        ax == cx && ay == cy ==> (cx - ax) * (ay + cy) + (ax - bx) * (by + ay) + (bx - cx) * (cy
            + by) == 0,
{
    assert((cx - ax) * (ay + cy) + (ax - bx) * (by + ay) + (bx - cx) * (cy + by) == -((cy - by) * (
    ax - cx) - (cx - bx) * (ay - cy))) by (nonlinear_arith);
    assert((cx - ax) * (ay + cy) + (ax - bx) * (by + ay) + (bx - cx) * (cy + by) == (ay - by) * (cx
        - ax) - (ax - bx) * (cy - ay)) by (nonlinear_arith);
    assert(ax == cx && ay == cy ==> (cx - ax) * (ay + cy) + (ax - bx) * (by + ay) + (bx - cx) * (cy
        + by) == 0) by (nonlinear_arith);
}

/// Twice the area that the holes before `upto` take away: the magnitude of
/// the signed area of every hole of at least three points.
pub open spec fn holes_area(data: Seq<Point>, holes: Seq<usize>, upto: int) -> int
    decreases upto,
{
    if upto <= 0 {
        0
    } else {
        let start = holes[upto - 1] as int;
        let end = if upto < holes.len() {
            holes[upto] as int
        } else {
            data.len() as int
        };
        holes_area(data, holes, upto - 1) + if end - start >= 3 {
            crate::math::abs(signed_area_of(data, start, end))
        } else {
            0
        }
    }
}

/// Twice the area of the polygon: that of its outer ring less that of its
/// holes; nothing for fewer than three points.
pub open spec fn polygon_area(data: Seq<Point>, holes: Seq<usize>) -> int {
    if data.len() < 3 {
        0
    } else {
        let outer_len = if holes.len() > 0 {
            holes[0] as int
        } else {
            data.len() as int
        };
        crate::math::abs(signed_area_of(data, 0, outer_len)) - holes_area(
            data,
            holes,
            holes.len() as int,
        )
    }
}

/// Twice the area of the triangle with the corners `a`, `b`, `c`.
pub open spec fn triangle_area(a: Point, b: Point, c: Point) -> int {
    crate::math::abs((a.x - c.x) * (b.y - a.y) - (a.x - b.x) * (c.y - a.y))
}

/// Twice the area of the first `upto` triangles of `triangles`.
pub open spec fn triangles_area(data: Seq<Point>, triangles: Seq<usize>, upto: int) -> int
    decreases upto,
{
    if upto <= 0 {
        0
    } else {
        triangles_area(data, triangles, upto - 1) + triangle_area(
            data[triangles[3 * (upto - 1)] as int],
            data[triangles[3 * (upto - 1) + 1] as int],
            data[triangles[3 * (upto - 1) + 2] as int],
        )
    }
}

/// Twice the area of the outer ring of the polygon; nothing for fewer than
/// three points.
pub open spec fn outer_area(data: Seq<Point>, holes: Seq<usize>) -> int {
    if data.len() < 3 {
        0
    } else {
        let outer_len = if holes.len() > 0 {
            holes[0] as int
        } else {
            data.len() as int
        };
        crate::math::abs(signed_area_of(data, 0, outer_len))
    }
}

/// How far the area of a triangulation is off the area of its polygon, as
/// the pair of a difference and the area of the outer ring, both doubled:
/// the deviation is the first over the second. The difference is that
/// between the area of the polygon, which is the outer ring less the holes,
/// and the area of the triangles. A triangulation that covers its polygon
/// exactly gives a difference of 0. Vertex indices behind the last whole
/// triangle are ignored.
pub fn deviation<N: Index>(data: &[Point], hole_indices: &[N], triangles: &[N]) -> (r: (
    i128,
    i128,
))
    requires
        data@.len() >= 3 ==> holes_ok(hole_starts(hole_indices@), data@.len()),
        data@.len() <= MAX_POINTS,
        hole_indices@.len() <= MAX_POINTS,
        triangles@.len() <= MAX_POINTS,
        forall|k: int| 0 <= k < triangles@.len() ==> (#[trigger] triangles@[k]).index_of() < data@.len(),
    ensures
        r.1 == outer_area(data@, hole_starts(hole_indices@)),
        r.0 == crate::math::abs(
            polygon_area(data@, hole_starts(hole_indices@)) - triangles_area(
                data@,
                hole_starts(triangles@),
                (triangles@.len() / 3) as int,
            ),
        ),
{
    let ghost holes = hole_starts(hole_indices@);
    let ghost tris = hole_starts(triangles@);
    let has_holes = hole_indices.len() > 0;
    let outer_len: usize = if has_holes {
        hole_indices[0].into_usize()
    } else {
        data.len()
    };
    proof {
        if has_holes {
            assert(holes[0] == outer_len);
        }
    }
    let mut polygon: i128 = 0;
    let mut outer: i128 = 0;
    if data.len() >= 3 {
        outer = abs_i128(signed_area(data, 0, outer_len));
        polygon = outer;
        let mut i: usize = 0;
        let mut taken: i128 = 0;
        while i < hole_indices.len()
            invariant
                i <= hole_indices@.len(),
                holes == hole_starts(hole_indices@),
                holes_ok(holes, data@.len()),
                data@.len() <= MAX_POINTS,
                taken == holes_area(data@, holes, i as int),
                0 <= taken <= 0x2000_0000_0000_0000_0000_0000 * i,
                hole_indices@.len() <= MAX_POINTS,
            decreases hole_indices@.len() - i,
        {
            let start = hole_indices[i].into_usize();
            let end = if i < hole_indices.len() - 1 {
                hole_indices[i + 1].into_usize()
            } else {
                data.len()
            };
            proof {
                assert(holes[i as int] == start);
                if i < hole_indices@.len() - 1 {
                    assert(holes[i + 1] == end);
                }
            }
            if end - start >= 3 {
                taken = taken + abs_i128(signed_area(data, start, end));
            }
            i += 1;
        }
        polygon = polygon - taken;
    }
    let mut area: i128 = 0;
    let count = triangles.len() / 3;
    let mut t: usize = 0;
    while t < count
        invariant
            t <= count,
            count == triangles@.len() / 3,
            triangles@.len() <= MAX_POINTS,
            data@.len() <= MAX_POINTS,
            tris == hole_starts(triangles@),
            forall|k: int|
                0 <= k < triangles@.len() ==> (#[trigger] triangles@[k]).index_of() < data@.len(),
            area == triangles_area(data@, tris, t as int),
            0 <= area <= 0x2_0000_0000_0000_0000 * t,
        decreases count - t,
    {
        proof {
            assert(3 * t + 2 < triangles@.len());
            assert(triangles@[3 * t].index_of() < data@.len());
            assert(triangles@[3 * t + 1].index_of() < data@.len());
            assert(triangles@[3 * t + 2].index_of() < data@.len());
            assert(tris[3 * t] == triangles@[3 * t].index_of());
            assert(tris[3 * t + 1] == triangles@[3 * t + 1].index_of());
            assert(tris[3 * t + 2] == triangles@[3 * t + 2].index_of());
        }
        let a = data[triangles[3 * t].into_usize()];
        let b = data[triangles[3 * t + 1].into_usize()];
        let c = data[triangles[3 * t + 2].into_usize()];
        let cross = predicates::mul_diff(a.x, c.x, b.y, a.y) - predicates::mul_diff(
            a.x,
            b.x,
            c.y,
            a.y,
        );
        area = area + abs_i128(cross);
        t += 1;
    }
    (abs_i128(polygon - area), outer)
}

/// The magnitude of `v`.
fn abs_i128(v: i128) -> (r: i128)
    requires
        v > i128::MIN,
    ensures
        r == crate::math::abs(v as int),
{
    if v < 0 {
        -v
    } else {
        v
    }
}

/// The area of a triangle is the magnitude of the turn at its second
/// corner.
pub proof fn lemma_area_of_turn(a: Point, b: Point, c: Point)
    ensures
        triangle_area(a, b, c) == crate::math::abs(turn(a, b, c)),
{
    let ax = a.x as int;
    let ay = a.y as int;
    let bx = b.x as int;
    let by = b.y as int;
    let cx = c.x as int;
    let cy = c.y as int;
    assert((ax - cx) * (by - ay) - (ax - bx) * (cy - ay) == -((by - ay) * (cx - bx) - (bx - ax) * (
    cy - by))) by (nonlinear_arith);
}

/// The two triangles that an axis-aligned rectangle is cut into cover it:
/// their areas add up to the area of the rectangle, which is the product of
/// its sides. (All areas are doubled.)
pub proof fn lemma_rect_triangles_cover(data: Seq<Point>)
    requires
        is_axis_rect(data),
    ensures
        triangles_area(data, rect_triangles(data), 2) == polygon_area(data, Seq::<usize>::empty()),
        polygon_area(data, Seq::<usize>::empty()) == 2 * crate::math::abs(
            (data[2].x - data[0].x) * (data[2].y - data[0].y),
        ),
{
    lemma_rect_turns(data);
    reveal_with_fuel(triangles_area, 3);
    let t = rect_triangles(data);
    let ab = (data[2].x - data[0].x) * (data[2].y - data[0].y);
    let x0 = data[0].x as int;
    let y0 = data[0].y as int;
    lemma_rect_algebra(x0, y0, data[2].x - data[0].x, data[2].y - data[0].y);
    assert(holes_area(data, Seq::<usize>::empty(), 0) == 0);
    lemma_area_of_turn(data[2], data[3], data[0]);
    lemma_area_of_turn(data[0], data[1], data[2]);
    lemma_area_of_turn(data[1], data[0], data[3]);
    lemma_area_of_turn(data[3], data[2], data[1]);
    assert(triangle_area(data[2], data[3], data[0]) == crate::math::abs(ab));
    assert(triangle_area(data[0], data[1], data[2]) == crate::math::abs(ab));
    assert(triangle_area(data[1], data[0], data[3]) == crate::math::abs(ab));
    assert(triangle_area(data[3], data[2], data[1]) == crate::math::abs(ab));
    assert(triangles_area(data, t, 2) == triangle_area(
        data[t[0] as int],
        data[t[1] as int],
        data[t[2] as int],
    ) + triangle_area(data[t[3] as int], data[t[4] as int], data[t[5] as int]));
}

} // verus!

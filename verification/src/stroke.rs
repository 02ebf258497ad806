//! Strokes: a polyline becomes the outline of a line of some width.
//!
//! Every edge gives a quad. Every corner between two edges gives a join on
//! its outer side, and each end of an open polyline gives a cap. The
//! geometry is laid out in that order: quads, joins, caps.

use crate::brush::LineCap;
use crate::brush::LineJoin;
use crate::brush::StrokeStyle;
use crate::color::Color;
use crate::fill::edge_normal;
use crate::fill::edge_normal_exec;
use crate::fill::is_path_closed;
use crate::fill::path_closed;
use crate::fill::MAX_VERTICES;
use crate::math::div_trunc;
use crate::math::div_trunc_exec;
use crate::math::unit_component;
use crate::math::unit_vector;
use crate::math::UNIT;
use crate::mesh::appended;
use crate::mesh::indices_within;
use crate::mesh::lemma_appended_nothing;
use crate::mesh::lemma_appended_twice;
use crate::mesh::white_uv;
use crate::mesh::white_uv_exec;
use crate::mesh::Mesh;
use crate::mesh::Vertex;
use crate::path::Point;
use crate::path::ONE;
use vstd::prelude::*;

verus! {

/// Widest line that is stroked, in pixels; wider settings count as this.
pub const MAX_LINE_WIDTH: u32 = 4096;

/// Number of triangles in the fan of a round join or a round cap.
pub const ROUND_SEGMENTS: u32 = 8;

/// Most points of a polyline that is stroked.
pub const MAX_STROKE_POINTS: usize = 0x100_0000;

/// Half the width of a line of `line_width` pixels, in coordinate units.
pub open spec fn half_width(line_width: u32) -> int {
    (if line_width > MAX_LINE_WIDTH {
        MAX_LINE_WIDTH
    } else {
        line_width
    }) * (ONE / 2)
}

/// Number of indices that the join at one corner adds.
pub open spec fn join_indices(join: LineJoin) -> int {
    match join {
        LineJoin::Bevel => 3,
        LineJoin::Miter => 6,
        LineJoin::Round => 3 * ROUND_SEGMENTS,
    }
}

/// Number of vertices that the join at one corner adds.
pub open spec fn join_vertices(join: LineJoin) -> int {
    match join {
        LineJoin::Bevel => 3,
        LineJoin::Miter => 4,
        LineJoin::Round => ROUND_SEGMENTS + 2,
    }
}

/// Number of indices that the cap at one end adds.
pub open spec fn cap_indices(cap: LineCap) -> int {
    match cap {
        LineCap::Butt => 0,
        LineCap::Square => 6,
        LineCap::Round => 3 * ROUND_SEGMENTS,
    }
}

/// Number of vertices that the cap at one end adds.
pub open spec fn cap_vertices(cap: LineCap) -> int {
    match cap {
        LineCap::Butt => 0,
        LineCap::Square => 4,
        LineCap::Round => ROUND_SEGMENTS + 2,
    }
}

/// Whether the polyline is stroked as a closed ring: it returns to its
/// first point and has at least two corners.
pub open spec fn stroke_closed(path: Seq<Point>) -> bool {
    path_closed(path) && path.len() >= 3
}

/// Number of edges of the stroke.
pub open spec fn stroke_edges(path: Seq<Point>) -> int {
    path.len() - 1
}

/// Number of corners of the stroke that get a join: every corner of a
/// closed ring, every point but the two ends of an open polyline.
pub open spec fn stroke_corners(path: Seq<Point>) -> int {
    if stroke_closed(path) {
        path.len() - 1
    } else {
        path.len() - 2
    }
}

/// Number of ends of the stroke that get a cap.
pub open spec fn stroke_ends(path: Seq<Point>) -> int {
    if stroke_closed(path) {
        0
    } else {
        2
    }
}

/// Whether a stroke of `path` in `style` draws anything: the line has a
/// width, its colour shows, and the polyline has an edge.
pub open spec fn stroke_draws(path: Seq<Point>, style: StrokeStyle) -> bool {
    !style.draws_nothing() && path.len() >= 2
}

/// Number of indices that the stroke of `path` adds: six for each edge, and
/// what the join style gives for each corner and the cap style for each end.
/// It depends on the number of points, on whether the polyline is closed,
/// and on the two styles; on nothing else.
pub open spec fn stroke_index_count(path: Seq<Point>, style: StrokeStyle) -> int {
    6 * stroke_edges(path) + join_indices(style.line_join) * stroke_corners(path) + cap_indices(
        style.line_cap,
    ) * stroke_ends(path)
}

/// Number of vertices that the stroke of `path` adds.
pub open spec fn stroke_vertex_count(path: Seq<Point>, style: StrokeStyle) -> int {
    4 * stroke_edges(path) + join_vertices(style.line_join) * stroke_corners(path) + cap_vertices(
        style.line_cap,
    ) * stroke_ends(path)
}

/// `v`, kept within the range of a coordinate.
pub open spec fn clamp_coord(v: int) -> int {
    if v < i32::MIN {
        i32::MIN as int
    } else if v > i32::MAX {
        i32::MAX as int
    } else {
        v
    }
}

/// The point `p` moved by `(dx, dy)`.
pub open spec fn moved(p: Point, dx: int, dy: int) -> Point {
    Point { x: clamp_coord(p.x + dx) as i32, y: clamp_coord(p.y + dy) as i32 }
}

/// The normal `n`, of length one in sixteen fractional bits, scaled to the
/// length `hw`.
pub open spec fn scaled_normal(n: (int, int), hw: int) -> (int, int) {
    (div_trunc(n.0 * hw, UNIT as int), div_trunc(n.1 * hw, UNIT as int))
}

/// Vertex `j` of the four that the edge from `p` to `q` gives: `p` moved out
/// and in along the normal of the edge by half the width, then `q`.
pub open spec fn quad_vertex(p: Point, q: Point, hw: int, color: Color, j: int) -> Vertex {
    let o = scaled_normal(edge_normal(p, q), hw);
    let pos = if j == 0 {
        moved(p, o.0, o.1)
    } else if j == 1 {
        moved(p, -o.0, -o.1)
    } else if j == 2 {
        moved(q, o.0, o.1)
    } else {
        moved(q, -o.0, -o.1)
    };
    Vertex { pos, color, uv: white_uv() }
}

/// A vertex of a stroke: at `pos`, in `color`, untextured.
pub open spec fn stroke_vertex(pos: Point, color: Color) -> Vertex {
    Vertex { pos, color, uv: white_uv() }
}

/// The four vertices that the edge from `p` to `q` gives.
pub open spec fn quad_vertices(p: Point, q: Point, hw: int, color: Color) -> Seq<Vertex> {
    seq![
        quad_vertex(p, q, hw, color, 0),
        quad_vertex(p, q, hw, color, 1),
        quad_vertex(p, q, hw, color, 2),
        quad_vertex(p, q, hw, color, 3),
    ]
}

/// The triangle between the vertices `at + a`, `at + b` and `at + c`.
pub open spec fn triangle(at: int, a: int, b: int, c: int) -> Seq<u32> {
    seq![(at + a) as u32, (at + b) as u32, (at + c) as u32]
}

/// The two triangles of a quad whose vertices start at `at`.
pub open spec fn quad_indices(at: int) -> Seq<u32> {
    triangle(at, 0, 1, 2) + triangle(at, 2, 1, 3)
}

/// The vertices of the quads of the first `e` edges of `path`.
pub open spec fn quads_vertices(path: Seq<Point>, hw: int, color: Color, e: int) -> Seq<Vertex>
    decreases e,
{
    if e <= 0 {
        Seq::empty()
    } else {
        quads_vertices(path, hw, color, e - 1) + quad_vertices(path[e - 1], path[e], hw, color)
    }
}

/// The indices of `e` quads whose vertices start at `base`.
pub open spec fn quads_indices(base: int, e: int) -> Seq<u32>
    decreases e,
{
    if e <= 0 {
        Seq::empty()
    } else {
        quads_indices(base, e - 1) + quad_indices(base + 4 * (e - 1))
    }
}

/// The side of the corner `a`, `b`, `c` on which the join lies: 1 where the
/// polyline turns one way, -1 where it turns the other way or goes straight
/// on.
pub open spec fn outer_side_of(a: Point, b: Point, c: Point) -> int {
    if (b.x - a.x) * (c.y - b.y) - (b.y - a.y) * (c.x - b.x) < 0 {
        1
    } else {
        -1
    }
}

/// The normal `n` on the side `side`.
pub open spec fn sided(n: (int, int), side: int) -> (int, int) {
    if side == 1 {
        n
    } else {
        (-n.0, -n.1)
    }
}

/// The vector of length one along `(x, y)`, in sixteen fractional bits.
pub open spec fn unit_of(x: int, y: int) -> (int, int) {
    (unit_component(x, x, y), unit_component(y, x, y))
}

/// How far point `k` of the arc from the direction `n0` to the direction
/// `n1` lies from its centre: along the mean of the two directions,
/// weighted `ROUND_SEGMENTS - k` to `k`, by `hw`.
pub open spec fn arc_offset(n0: (int, int), n1: (int, int), k: int, hw: int) -> (int, int) {
    scaled_normal(
        unit_of(n0.0 * (ROUND_SEGMENTS - k) + n1.0 * k, n0.1 * (ROUND_SEGMENTS - k) + n1.1 * k),
        hw,
    )
}

/// How far point `k` of a fan lies from its centre. Without a middle
/// direction the fan is one arc; with one it is a half turn, made of two
/// arcs that meet at the middle.
pub open spec fn fan_offset(
    n0: (int, int),
    mid: Option<(int, int)>,
    n1: (int, int),
    k: int,
    hw: int,
) -> (int, int) {
    match mid {
        None => arc_offset(n0, n1, k, hw),
        Some(m) => if k <= ROUND_SEGMENTS / 2 {
            arc_offset(n0, m, 2 * k, hw)
        } else {
            arc_offset(m, n1, 2 * k - ROUND_SEGMENTS, hw)
        },
    }
}

/// Vertex `j` of a fan about `at`: the centre, then the points of the arc.
pub open spec fn fan_vertex(
    at: Point,
    n0: (int, int),
    mid: Option<(int, int)>,
    n1: (int, int),
    hw: int,
    color: Color,
    j: int,
) -> Vertex {
    if j == 0 {
        stroke_vertex(at, color)
    } else {
        let o = fan_offset(n0, mid, n1, j - 1, hw);
        stroke_vertex(moved(at, o.0, o.1), color)
    }
}

/// The vertices of a fan about `at`.
pub open spec fn fan_vertices(
    at: Point,
    n0: (int, int),
    mid: Option<(int, int)>,
    n1: (int, int),
    hw: int,
    color: Color,
) -> Seq<Vertex> {
    Seq::new((ROUND_SEGMENTS + 2) as nat, |j: int| fan_vertex(at, n0, mid, n1, hw, color, j))
}

/// The indices of the first `t` triangles of a fan whose vertices start at
/// `at`: the centre and two neighbours on the arc each.
pub open spec fn fan_indices(at: int, t: int) -> Seq<u32>
    decreases t,
{
    if t <= 0 {
        Seq::empty()
    } else {
        fan_indices(at, t - 1) + triangle(at, 0, t, t + 1)
    }
}

/// How far the tip of a miter lies from its corner: along the sum of the two
/// normals, as far as the outer edges of the two quads need to meet; or the
/// middle of the bevel, where the corner is so sharp that the tip would lie
/// further than four times the width away.
pub open spec fn miter_tip_of(n0: (int, int), n1: (int, int), hw: int) -> (int, int) {
    let sx = n0.0 + n1.0;
    let sy = n0.1 + n1.1;
    let len2 = sx * sx + sy * sy;
    if len2 < UNIT * UNIT / 4 {
        let o = scaled_normal((sx, sy), hw);
        (div_trunc(o.0, 2), div_trunc(o.1, 2))
    } else {
        (
            clamp_offset_of(div_trunc(sx * (2 * hw), len2 / (UNIT as int))),
            clamp_offset_of(div_trunc(sy * (2 * hw), len2 / (UNIT as int))),
        )
    }
}

/// `v`, kept within 44 bits.
pub open spec fn clamp_offset_of(v: int) -> int {
    if v < -0x1000_0000_0000 {
        -0x1000_0000_0000
    } else if v > 0x1000_0000_0000 {
        0x1000_0000_0000
    } else {
        v
    }
}

/// The vertices of the join at the corner `b` between the edges from `a`
/// and to `c`, on the outer side of the turn.
///
/// A bevel is the triangle between the corner and the ends of the two quads.
/// A miter is two triangles that reach to the tip of the miter. A round join
/// is a fan along the arc between the ends of the two quads.
pub open spec fn join_vertices_of(
    a: Point,
    b: Point,
    c: Point,
    hw: int,
    color: Color,
    style: LineJoin,
) -> Seq<Vertex> {
    let side = outer_side_of(a, b, c);
    let n0 = sided(edge_normal(a, b), side);
    let n1 = sided(edge_normal(b, c), side);
    let o0 = scaled_normal(n0, hw);
    let o1 = scaled_normal(n1, hw);
    match style {
        LineJoin::Round => fan_vertices(b, n0, None, n1, hw, color),
        LineJoin::Bevel => seq![
            stroke_vertex(b, color),
            stroke_vertex(moved(b, o0.0, o0.1), color),
            stroke_vertex(moved(b, o1.0, o1.1), color),
        ],
        LineJoin::Miter => {
            let tip = miter_tip_of(n0, n1, hw);
            seq![
                stroke_vertex(b, color),
                stroke_vertex(moved(b, o0.0, o0.1), color),
                stroke_vertex(moved(b, tip.0, tip.1), color),
                stroke_vertex(moved(b, o1.0, o1.1), color),
            ]
        },
    }
}

/// The indices of a join whose vertices start at `at`.
pub open spec fn join_indices_of(at: int, style: LineJoin) -> Seq<u32> {
    match style {
        LineJoin::Round => fan_indices(at, ROUND_SEGMENTS as int),
        LineJoin::Bevel => triangle(at, 0, 1, 2),
        LineJoin::Miter => triangle(at, 0, 1, 2) + triangle(at, 0, 2, 3),
    }
}

/// The vertices of the cap at the end `end` of a line that comes from
/// `from_point`.
///
/// A butt cap has none. A square cap is a quad that carries the line on by
/// half its width. A round cap is a fan along the half circle about the end.
pub open spec fn cap_vertices_of(
    from_point: Point,
    end: Point,
    hw: int,
    color: Color,
    style: LineCap,
) -> Seq<Vertex> {
    let n = edge_normal(from_point, end);
    let d = (-n.1, n.0);
    let o = scaled_normal(n, hw);
    let f = scaled_normal(d, hw);
    match style {
        LineCap::Butt => Seq::empty(),
        LineCap::Square => seq![
            stroke_vertex(moved(end, o.0, o.1), color),
            stroke_vertex(moved(end, -o.0, -o.1), color),
            stroke_vertex(moved(end, o.0 + f.0, o.1 + f.1), color),
            stroke_vertex(moved(end, -o.0 + f.0, -o.1 + f.1), color),
        ],
        LineCap::Round => fan_vertices(end, n, Some(d), (-n.0, -n.1), hw, color),
    }
}

/// The indices of a cap whose vertices start at `at`.
pub open spec fn cap_indices_of(at: int, style: LineCap) -> Seq<u32> {
    match style {
        LineCap::Butt => Seq::empty(),
        LineCap::Square => quad_indices(at),
        LineCap::Round => fan_indices(at, ROUND_SEGMENTS as int),
    }
}

/// The point at which corner `c` of the stroke lies: point `c` of a closed
/// ring, point `c + 1` of an open polyline.
pub open spec fn corner_at(path: Seq<Point>, c: int) -> int {
    if stroke_closed(path) {
        c
    } else {
        c + 1
    }
}

/// The point before the point `at` on the stroke: on a closed ring the
/// point before the closing point comes before the first.
pub open spec fn corner_before(path: Seq<Point>, at: int) -> int {
    if at == 0 {
        path.len() - 2
    } else {
        at - 1
    }
}

/// The vertices of the joins at the first `c` corners of the stroke.
pub open spec fn joins_vertices(
    path: Seq<Point>,
    hw: int,
    color: Color,
    style: LineJoin,
    c: int,
) -> Seq<Vertex>
    decreases c,
{
    if c <= 0 {
        Seq::empty()
    } else {
        let at = corner_at(path, c - 1);
        joins_vertices(path, hw, color, style, c - 1) + join_vertices_of(
            path[corner_before(path, at)],
            path[at],
            path[at + 1],
            hw,
            color,
            style,
        )
    }
}

/// The indices of `c` joins whose vertices start at `base`.
pub open spec fn joins_indices(base: int, style: LineJoin, c: int) -> Seq<u32>
    decreases c,
{
    if c <= 0 {
        Seq::empty()
    } else {
        joins_indices(base, style, c - 1) + join_indices_of(
            base + join_vertices(style) * (c - 1),
            style,
        )
    }
}

/// The vertices of the caps of the stroke: none for a closed ring; for an
/// open polyline the cap at its start, then the cap at its end.
pub open spec fn caps_vertices(path: Seq<Point>, hw: int, color: Color, style: LineCap) -> Seq<
    Vertex,
> {
    if stroke_closed(path) {
        Seq::empty()
    } else {
        cap_vertices_of(path[1], path[0], hw, color, style) + cap_vertices_of(
            path[path.len() - 2],
            path[path.len() - 1],
            hw,
            color,
            style,
        )
    }
}

/// The indices of the caps of the stroke, for cap vertices that start at
/// `base`.
pub open spec fn caps_indices(path: Seq<Point>, base: int, style: LineCap) -> Seq<u32> {
    if stroke_closed(path) {
        Seq::empty()
    } else {
        cap_indices_of(base, style) + cap_indices_of(base + cap_vertices(style), style)
    }
}

/// The vertices that the stroke of `path` in `style` adds: those of the
/// quads, then those of the joins, then those of the caps.
pub open spec fn stroke_vertices(path: Seq<Point>, style: StrokeStyle) -> Seq<Vertex> {
    let hw = half_width(style.line_width);
    quads_vertices(path, hw, style.color, stroke_edges(path)) + joins_vertices(
        path,
        hw,
        style.color,
        style.line_join,
        stroke_corners(path),
    ) + caps_vertices(path, hw, style.color, style.line_cap)
}

/// The indices that the stroke of `path` in `style` adds to a mesh that
/// held `base` vertices before.
pub open spec fn stroke_indices(path: Seq<Point>, style: StrokeStyle, base: int) -> Seq<u32> {
    let joins = base + 4 * stroke_edges(path);
    let caps = joins + join_vertices(style.line_join) * stroke_corners(path);
    quads_indices(base, stroke_edges(path)) + joins_indices(
        joins,
        style.line_join,
        stroke_corners(path),
    ) + caps_indices(path, caps, style.line_cap)
}

fn clamp_coord_exec(v: i64) -> (r: i32)
    ensures
        r == clamp_coord(v as int),
{
    if v < i32::MIN as i64 {
        i32::MIN
    } else if v > i32::MAX as i64 {
        i32::MAX
    } else {
        v as i32
    }
}

fn moved_exec(p: Point, dx: i64, dy: i64) -> (r: Point)
    requires
        -0x1000_0000_0000 <= dx <= 0x1000_0000_0000,
        -0x1000_0000_0000 <= dy <= 0x1000_0000_0000,
    ensures
        r == moved(p, dx as int, dy as int),
{
    Point { x: clamp_coord_exec(p.x as i64 + dx), y: clamp_coord_exec(p.y as i64 + dy) }
}

fn half_width_exec(line_width: u32) -> (hw: i64)
    ensures
        hw == half_width(line_width),
        0 <= hw <= 0x8_0000,
{
    let w: i64 = if line_width > MAX_LINE_WIDTH {
        MAX_LINE_WIDTH as i64
    } else {
        line_width as i64
    };
    w * ((ONE / 2) as i64)
}

fn scaled_normal_exec(n: (i64, i64), hw: i64) -> (o: (i64, i64))
    requires
        -2 * UNIT <= n.0 <= 2 * UNIT,
        -2 * UNIT <= n.1 <= 2 * UNIT,
        0 <= hw <= 0x8_0000,
    ensures
        (o.0 as int, o.1 as int) == scaled_normal((n.0 as int, n.1 as int), hw as int),
        -0x10_0000_0000 <= o.0 <= 0x10_0000_0000,
        -0x10_0000_0000 <= o.1 <= 0x10_0000_0000,
{
    assert(-0x10_0000_0000 <= n.0 * hw <= 0x10_0000_0000 && -0x10_0000_0000 <= n.1 * hw
        <= 0x10_0000_0000) by (nonlinear_arith)
        requires
            -0x2_0000 <= n.0 <= 0x2_0000,
            -0x2_0000 <= n.1 <= 0x2_0000,
            0 <= hw <= 0x8_0000,
    ;
    (div_trunc_exec(n.0 * hw, UNIT), div_trunc_exec(n.1 * hw, UNIT))
}

/// Appends a vertex of the stroke.
fn put(mesh: &mut Mesh, pos: Point, color: Color)
    requires
        old(mesh).indices@.len() % 3 == 0,
        indices_within(old(mesh).indices@, old(mesh).vertices@.len()),
    ensures
        appended(*old(mesh), *final(mesh), seq![stroke_vertex(pos, color)], Seq::empty()),
{
    mesh.add_vertex(pos, color, white_uv_exec());
    assert(mesh.vertices@ =~= old(mesh).vertices@ + seq![stroke_vertex(pos, color)]);
    assert(mesh.indices@ =~= old(mesh).indices@ + Seq::<u32>::empty());
}

/// Appends the triangle between the vertices `at + a`, `at + b`, `at + c`.
fn tri(mesh: &mut Mesh, at: usize, a: usize, b: usize, c: usize)
    requires
        old(mesh).indices@.len() % 3 == 0,
        indices_within(old(mesh).indices@, old(mesh).vertices@.len()),
        at + a < old(mesh).vertices@.len() <= u32::MAX,
        at + b < old(mesh).vertices@.len(),
        at + c < old(mesh).vertices@.len(),
    ensures
        appended(
            *old(mesh),
            *final(mesh),
            Seq::empty(),
            triangle(at as int, a as int, b as int, c as int),
        ),
{
    mesh.add_triangle((at + a) as u32, (at + b) as u32, (at + c) as u32);
    assert(mesh.vertices@ =~= old(mesh).vertices@ + Seq::<Vertex>::empty());
    assert(mesh.indices@ =~= old(mesh).indices@ + triangle(
        at as int,
        a as int,
        b as int,
        c as int,
    ));
}

/// Appends the four vertices `v` and the two triangles of a quad.
fn put_quad(mesh: &mut Mesh, v: [Point; 4], color: Color)
    requires
        old(mesh).indices@.len() % 3 == 0,
        indices_within(old(mesh).indices@, old(mesh).vertices@.len()),
        old(mesh).vertices@.len() <= 0x7000_0000,
    ensures
        appended(
            *old(mesh),
            *final(mesh),
            seq![
                stroke_vertex(v[0], color),
                stroke_vertex(v[1], color),
                stroke_vertex(v[2], color),
                stroke_vertex(v[3], color),
            ],
            quad_indices(old(mesh).vertices@.len() as int),
        ),
{
    let at = mesh.vertices.len();
    let ghost m0 = *mesh;
    put(mesh, v[0], color);
    let ghost m1 = *mesh;
    put(mesh, v[1], color);
    let ghost m2 = *mesh;
    put(mesh, v[2], color);
    let ghost m3 = *mesh;
    put(mesh, v[3], color);
    let ghost m4 = *mesh;
    tri(mesh, at, 0, 1, 2);
    let ghost m5 = *mesh;
    tri(mesh, at, 2, 1, 3);
    proof {
        let e = Seq::<u32>::empty();
        let ev = Seq::<Vertex>::empty();
        lemma_appended_twice(m0, m1, m2, seq![stroke_vertex(v[0], color)], e, seq![stroke_vertex(v[1], color)], e);
        lemma_appended_twice(
            m0,
            m2,
            m3,
            seq![stroke_vertex(v[0], color)] + seq![stroke_vertex(v[1], color)],
            e + e,
            seq![stroke_vertex(v[2], color)],
            e,
        );
        lemma_appended_twice(
            m0,
            m3,
            m4,
            seq![stroke_vertex(v[0], color)] + seq![stroke_vertex(v[1], color)] + seq![
                stroke_vertex(v[2], color),
            ],
            e + e + e,
            seq![stroke_vertex(v[3], color)],
            e,
        );
        let four = seq![stroke_vertex(v[0], color)] + seq![stroke_vertex(v[1], color)] + seq![
            stroke_vertex(v[2], color),
        ] + seq![stroke_vertex(v[3], color)];
        lemma_appended_twice(m0, m4, m5, four, e + e + e + e, ev, triangle(at as int, 0, 1, 2));
        lemma_appended_twice(
            m0,
            m5,
            *mesh,
            four + ev,
            e + e + e + e + triangle(at as int, 0, 1, 2),
            ev,
            triangle(at as int, 2, 1, 3),
        );
        assert(four + ev + ev =~= seq![
            stroke_vertex(v[0], color),
            stroke_vertex(v[1], color),
            stroke_vertex(v[2], color),
            stroke_vertex(v[3], color),
        ]);
        assert(e + e + e + e + triangle(at as int, 0, 1, 2) + triangle(at as int, 2, 1, 3)
            =~= quad_indices(at as int));
    }
}

/// `c` joins have the indices of their style each.
pub proof fn lemma_joins_len(base: int, style: LineJoin, c: int)
    requires
        c >= 0,
    ensures
        joins_indices(base, style, c).len() == join_indices(style) * c,
    decreases c,
{
    if c > 0 {
        lemma_joins_len(base, style, c - 1);
        lemma_fan_len(base + join_vertices(style) * (c - 1), ROUND_SEGMENTS as int);
        assert(join_indices(style) * (c - 1) + join_indices(style) == join_indices(style) * c)
            by (nonlinear_arith);
    } else {
        assert(join_indices(style) * c == 0) by (nonlinear_arith)
            requires
                c == 0,
        ;
    }
}

/// The number of indices of a stroke is a function of the number of points,
/// of whether the polyline is closed, and of the join and cap styles; the
/// coordinates have no part in it.
pub proof fn lemma_stroke_index_count(path: Seq<Point>, style: StrokeStyle, base: int)
    requires
        path.len() >= 2,
    ensures
        stroke_indices(path, style, base).len() == stroke_index_count(path, style),
{
    let joins = base + 4 * stroke_edges(path);
    let caps = joins + join_vertices(style.line_join) * stroke_corners(path);
    lemma_quads_len(path, 0, style.color, base, stroke_edges(path));
    lemma_joins_len(joins, style.line_join, stroke_corners(path));
    lemma_fan_len(caps, ROUND_SEGMENTS as int);
    lemma_fan_len(caps + cap_vertices(style.line_cap), ROUND_SEGMENTS as int);
    assert(cap_indices(style.line_cap) * stroke_ends(path) == if stroke_closed(path) {
        0
    } else {
        2 * cap_indices(style.line_cap)
    }) by (nonlinear_arith)
        requires
            stroke_ends(path) == if stroke_closed(path) {
                0int
            } else {
                2int
            },
    ;
}

/// Two polylines with as many points, both closed or both open, get
/// strokes with as many indices in one style, wherever their points lie.
pub proof fn lemma_stroke_count_of_shape_only(
    a: Seq<Point>,
    b: Seq<Point>,
    style: StrokeStyle,
    base_a: int,
    base_b: int,
)
    requires
        a.len() == b.len(),
        a.len() >= 2,
        stroke_closed(a) == stroke_closed(b),
    ensures
        stroke_indices(a, style, base_a).len() == stroke_indices(b, style, base_b).len(),
{
    lemma_stroke_index_count(a, style, base_a);
    lemma_stroke_index_count(b, style, base_b);
}

/// Whether `now` is `before` with the stroke of `path` in `style` appended:
/// its vertices and indices where the stroke draws anything, nothing where
/// it does not.
pub open spec fn stroked(before: Mesh, now: Mesh, path: Seq<Point>, style: StrokeStyle) -> bool {
    if stroke_draws(path, style) {
        appended(
            before,
            now,
            stroke_vertices(path, style),
            stroke_indices(path, style, before.vertices@.len() as int),
        )
    } else {
        appended(before, now, Seq::empty(), Seq::empty())
    }
}

/// How a stroke lays out its geometry in a mesh.
pub struct StrokeTessellator {}

impl StrokeTessellator {
    /// Appends the stroke of `path` in `style` to `mesh`. Nothing is added
    /// where the line has no width, its colour does not show, or the
    /// polyline has no edge.
    ///
    /// A polyline that returns to its first point is stroked as a closed
    /// ring: it gets a join at every corner and no cap. An open polyline
    /// gets a join at every point between its ends and a cap at each end.
    ///
    /// The number of indices added depends only on the number of points, on
    /// whether the polyline is closed, and on the join and cap styles:
    ///
    /// | | indices |
    /// |---|---|
    /// | each edge | 6 |
    /// | each bevel join | 3 |
    /// | each miter join | 6 |
    /// | each round join | 24 |
    /// | each butt cap | 0 |
    /// | each square cap | 6 |
    /// | each round cap | 24 |
    pub fn add_to_mesh(mesh: &mut Mesh, path: &[Point], style: &StrokeStyle)
        requires
            old(mesh).wf(),
            old(mesh).vertices@.len() <= MAX_VERTICES,
            path@.len() <= MAX_STROKE_POINTS,
            forall|i: int| 0 <= i < path@.len() ==> (#[trigger] path@[i]).finite(),
        ensures
            final(mesh).wf(),
            stroked(*old(mesh), *final(mesh), path@, *style),
            stroke_draws(path@, *style) ==> stroke_indices(
                path@,
                *style,
                old(mesh).vertices@.len() as int,
            ).len() == stroke_index_count(path@, *style),
            stroke_draws(path@, *style) ==> stroke_vertices(path@, *style).len()
                == stroke_vertex_count(path@, *style),
    {
        proof {
            lemma_appended_nothing(*mesh);
        }
        if style.is_noop() || path.len() < 2 {
            return ;
        }
        let hw = half_width_exec(style.line_width);
        let color = style.color;
        let closed = is_path_closed(path) && path.len() >= 3;
        let ghost base = mesh.vertices@.len() as int;
        let ghost m0 = *mesh;
        let ghost edges = stroke_edges(path@);
        let ghost count = stroke_corners(path@);

        quads(mesh, path, hw, color);
        let ghost m1 = *mesh;
        let ghost qv = quads_vertices(path@, hw as int, color, edges);
        let ghost qi = quads_indices(base, edges);
        proof {
            lemma_quads_len(path@, hw as int, color, base, edges);
        }

        // Joins: at every corner of a ring, at the inner points of a line.
        let corners: usize = if closed {
            path.len() - 1
        } else {
            path.len() - 2
        };
        let ghost jbase = base + 4 * edges;
        proof {
            lemma_appended_nothing(m1);
        }
        let mut c: usize = 0;
        while c < corners
            invariant
                c <= corners,
                corners == stroke_corners(path@),
                count == corners,
                closed == stroke_closed(path@),
                2 <= path@.len() <= MAX_STROKE_POINTS,
                0 <= hw <= 0x8_0000,
                0 <= base <= MAX_VERTICES,
                edges == path@.len() - 1,
                jbase == base + 4 * edges,
                m1.vertices@.len() == jbase,
                forall|i: int| 0 <= i < path@.len() ==> (#[trigger] path@[i]).finite(),
                appended(
                    m1,
                    *mesh,
                    joins_vertices(path@, hw as int, color, style.line_join, c as int),
                    joins_indices(jbase, style.line_join, c as int),
                ),
                joins_vertices(path@, hw as int, color, style.line_join, c as int).len()
                    == join_vertices(style.line_join) * c,
                joins_indices(jbase, style.line_join, c as int).len() == join_indices(
                    style.line_join,
                ) * c,
            decreases corners - c,
        {
            // Corner `c` of a ring lies at point `c`, with the edge from the
            // point before it; corner `c` of a line lies at point `c + 1`.
            let at: usize = if closed {
                c
            } else {
                c + 1
            };
            let before: usize = if at == 0 {
                path.len() - 2
            } else {
                at - 1
            };
            let after: usize = at + 1;
            let ghost mc = *mesh;
            let ghost jv = joins_vertices(path@, hw as int, color, style.line_join, c as int);
            let ghost ji = joins_indices(jbase, style.line_join, c as int);
            proof {
                assert(join_vertices(style.line_join) * (c + 1) == join_vertices(style.line_join)
                    * c + join_vertices(style.line_join)) by (nonlinear_arith);
                assert(join_indices(style.line_join) * (c + 1) == join_indices(style.line_join) * c
                    + join_indices(style.line_join)) by (nonlinear_arith);
                assert(0 <= join_vertices(style.line_join) * c <= 10 * c) by (nonlinear_arith)
                    requires
                        0 <= join_vertices(style.line_join) <= 10,
                        c >= 0,
                ;
            }
            join(mesh, path[before], path[at], path[after], hw, color, style.line_join);
            proof {
                lemma_appended_twice(
                    m1,
                    mc,
                    *mesh,
                    jv,
                    ji,
                    join_vertices_of(
                        path@[before as int],
                        path@[at as int],
                        path@[after as int],
                        hw as int,
                        color,
                        style.line_join,
                    ),
                    join_indices_of(mc.vertices@.len() as int, style.line_join),
                );
                assert(mc.vertices@.len() == jbase + join_vertices(style.line_join) * c);
            }
            c += 1;
        }
        let ghost m2 = *mesh;
        let ghost jv = joins_vertices(path@, hw as int, color, style.line_join, count);
        let ghost ji = joins_indices(jbase, style.line_join, count);
        let ghost cbase = jbase + join_vertices(style.line_join) * count;
        proof {
            assert(0 <= join_vertices(style.line_join) * count <= 10 * count) by (nonlinear_arith)
                requires
                    0 <= join_vertices(style.line_join) <= 10,
                    count >= 0,
            ;
            lemma_appended_nothing(m2);
        }

        // Caps: at the two ends of a line.
        if !closed {
            let last = path.len() - 1;
            cap(mesh, path[1], path[0], hw, color, style.line_cap);
            let ghost m3 = *mesh;
            cap(mesh, path[last - 1], path[last], hw, color, style.line_cap);
            proof {
                lemma_appended_twice(
                    m2,
                    m3,
                    *mesh,
                    cap_vertices_of(path@[1], path@[0], hw as int, color, style.line_cap),
                    cap_indices_of(cbase, style.line_cap),
                    cap_vertices_of(
                        path@[last - 1],
                        path@[last as int],
                        hw as int,
                        color,
                        style.line_cap,
                    ),
                    cap_indices_of(cbase + cap_vertices(style.line_cap), style.line_cap),
                );
            }
        }
        proof {
            let cv = caps_vertices(path@, hw as int, color, style.line_cap);
            let ci = caps_indices(path@, cbase, style.line_cap);
            assert(appended(m2, *mesh, cv, ci));
            lemma_appended_twice(m0, m1, m2, qv, qi, jv, ji);
            lemma_appended_twice(m0, m2, *mesh, qv + jv, qi + ji, cv, ci);
            assert(cv.len() == cap_vertices(style.line_cap) * stroke_ends(path@));
            assert(ci.len() == cap_indices(style.line_cap) * stroke_ends(path@));
        }
    }
}

/// The quads of `e` edges have four vertices and six indices each.
proof fn lemma_quads_len(path: Seq<Point>, hw: int, color: Color, base: int, e: int)
    requires
        e >= 0,
    ensures
        quads_vertices(path, hw, color, e).len() == 4 * e,
        quads_indices(base, e).len() == 6 * e,
    decreases e,
{
    if e > 0 {
        lemma_quads_len(path, hw, color, base, e - 1);
    }
}

/// A fan of `t` triangles has three indices for each.
proof fn lemma_fan_len(at: int, t: int)
    requires
        t >= 0,
    ensures
        fan_indices(at, t).len() == 3 * t,
    decreases t,
{
    if t > 0 {
        lemma_fan_len(at, t - 1);
    }
}

/// Appends the quads of the edges of `path`: four vertices and two triangles
/// for each.
fn quads(mesh: &mut Mesh, path: &[Point], hw: i64, color: Color)
    requires
        old(mesh).wf(),
        old(mesh).vertices@.len() <= MAX_VERTICES,
        2 <= path@.len() <= MAX_STROKE_POINTS,
        0 <= hw <= 0x8_0000,
        forall|i: int| 0 <= i < path@.len() ==> (#[trigger] path@[i]).finite(),
    ensures
        appended(
            *old(mesh),
            *final(mesh),
            quads_vertices(path@, hw as int, color, path@.len() - 1),
            quads_indices(old(mesh).vertices@.len() as int, path@.len() - 1),
        ),
{
    let ghost base = mesh.vertices@.len() as int;
    let ghost m0 = *mesh;
    proof {
        lemma_appended_nothing(m0);
    }
    let edges = path.len() - 1;
    let mut e: usize = 0;
    while e < edges
        invariant
            e <= edges,
            edges == path@.len() - 1,
            2 <= path@.len() <= MAX_STROKE_POINTS,
            0 <= hw <= 0x8_0000,
            0 <= base <= MAX_VERTICES,
            base == m0.vertices@.len(),
            forall|i: int| 0 <= i < path@.len() ==> (#[trigger] path@[i]).finite(),
            appended(
                m0,
                *mesh,
                quads_vertices(path@, hw as int, color, e as int),
                quads_indices(base, e as int),
            ),
        decreases edges - e,
    {
        let p = path[e];
        let q = path[e + 1];
        let o = scaled_normal_exec(edge_normal_exec(p, q), hw);
        let ghost me = *mesh;
        proof {
            lemma_quads_len(path@, hw as int, color, base, e as int);
        }
        put_quad(
            mesh,
            [
                moved_exec(p, o.0, o.1),
                moved_exec(p, -o.0, -o.1),
                moved_exec(q, o.0, o.1),
                moved_exec(q, -o.0, -o.1),
            ],
            color,
        );
        proof {
            let qv = quad_vertices(p, q, hw as int, color);
            assert(qv =~= seq![
                stroke_vertex(moved(p, o.0 as int, o.1 as int), color),
                stroke_vertex(moved(p, -o.0, -o.1), color),
                stroke_vertex(moved(q, o.0 as int, o.1 as int), color),
                stroke_vertex(moved(q, -o.0, -o.1), color),
            ]);
            lemma_appended_twice(
                m0,
                me,
                *mesh,
                quads_vertices(path@, hw as int, color, e as int),
                quads_indices(base, e as int),
                qv,
                quad_indices(base + 4 * e),
            );
        }
        e += 1;
    }
}

/// The side of the corner `a`, `b`, `c` on which the join lies.
fn outer_side(a: Point, b: Point, c: Point) -> (s: i64)
    ensures
        s == outer_side_of(a, b, c),
        s == 1 || s == -1,
{
    let turn = crate::earcut::predicates::mul_diff(b.x, a.x, c.y, b.y)
        - crate::earcut::predicates::mul_diff(b.y, a.y, c.x, b.x);
    if turn < 0 {
        1
    } else {
        -1
    }
}

/// Point `k` of the arc about `at` from the direction `n0` to the direction
/// `n1`.
fn arc_point(at: Point, n0: (i64, i64), n1: (i64, i64), k: u32, hw: i64) -> (p: Point)
    requires
        k <= ROUND_SEGMENTS,
        -UNIT <= n0.0 <= UNIT,
        -UNIT <= n0.1 <= UNIT,
        -UNIT <= n1.0 <= UNIT,
        -UNIT <= n1.1 <= UNIT,
        0 <= hw <= 0x8_0000,
    ensures
        p == moved(
            at,
            arc_offset((n0.0 as int, n0.1 as int), (n1.0 as int, n1.1 as int), k as int, hw as int).0,
            arc_offset((n0.0 as int, n0.1 as int), (n1.0 as int, n1.1 as int), k as int, hw as int).1,
        ),
{
    let w1: i64 = k as i64;
    let w0: i64 = (ROUND_SEGMENTS - k) as i64;
    assert(-8 * UNIT <= n0.0 * w0 <= 8 * UNIT && -8 * UNIT <= n1.0 * w1 <= 8 * UNIT && -8 * UNIT
        <= n0.1 * w0 <= 8 * UNIT && -8 * UNIT <= n1.1 * w1 <= 8 * UNIT) by (nonlinear_arith)
        requires
            -UNIT <= n0.0 <= UNIT,
            -UNIT <= n0.1 <= UNIT,
            -UNIT <= n1.0 <= UNIT,
            -UNIT <= n1.1 <= UNIT,
            0 <= w0 <= 8,
            0 <= w1 <= 8,
    ;
    let u = unit_vector(n0.0 * w0 + n1.0 * w1, n0.1 * w0 + n1.1 * w1);
    let o = scaled_normal_exec(u, hw);
    moved_exec(at, o.0, o.1)
}

/// Point `k` of the fan about `at`.
fn fan_point(
    at: Point,
    n0: (i64, i64),
    mid: Option<(i64, i64)>,
    n1: (i64, i64),
    k: u32,
    hw: i64,
) -> (p: Point)
    requires
        k <= ROUND_SEGMENTS,
        -UNIT <= n0.0 <= UNIT,
        -UNIT <= n0.1 <= UNIT,
        -UNIT <= n1.0 <= UNIT,
        -UNIT <= n1.1 <= UNIT,
        mid matches Some(m) ==> -UNIT <= m.0 <= UNIT && -UNIT <= m.1 <= UNIT,
        0 <= hw <= 0x8_0000,
    ensures
        p == moved(
            at,
            fan_offset(pair(n0), pair_opt(mid), pair(n1), k as int, hw as int).0,
            fan_offset(pair(n0), pair_opt(mid), pair(n1), k as int, hw as int).1,
        ),
{
    match mid {
        None => arc_point(at, n0, n1, k, hw),
        Some(m) => {
            if k <= ROUND_SEGMENTS / 2 {
                arc_point(at, n0, m, 2 * k, hw)
            } else {
                arc_point(at, m, n1, 2 * k - ROUND_SEGMENTS, hw)
            }
        },
    }
}

/// A pair of machine integers as a pair of integers.
pub open spec fn pair(n: (i64, i64)) -> (int, int) {
    (n.0 as int, n.1 as int)
}

/// A pair of machine integers, if there is one, as a pair of integers.
pub open spec fn pair_opt(n: Option<(i64, i64)>) -> Option<(int, int)> {
    match n {
        Some(m) => Some((m.0 as int, m.1 as int)),
        None => None,
    }
}

/// Appends the fan of a round join or cap about `at`, from the direction
/// `n0` to the direction `n1`: the centre, the points of the arc, and one
/// triangle between the centre and every two neighbours on the arc.
fn round_fan(
    mesh: &mut Mesh,
    at: Point,
    n0: (i64, i64),
    mid: Option<(i64, i64)>,
    n1: (i64, i64),
    hw: i64,
    color: Color,
)
    requires
        old(mesh).indices@.len() % 3 == 0,
        indices_within(old(mesh).indices@, old(mesh).vertices@.len()),
        old(mesh).vertices@.len() <= 0x7000_0000,
        -UNIT <= n0.0 <= UNIT,
        -UNIT <= n0.1 <= UNIT,
        -UNIT <= n1.0 <= UNIT,
        -UNIT <= n1.1 <= UNIT,
        mid matches Some(m) ==> -UNIT <= m.0 <= UNIT && -UNIT <= m.1 <= UNIT,
        0 <= hw <= 0x8_0000,
    ensures
        appended(
            *old(mesh),
            *final(mesh),
            fan_vertices(at, pair(n0), pair_opt(mid), pair(n1), hw as int, color),
            fan_indices(old(mesh).vertices@.len() as int, ROUND_SEGMENTS as int),
        ),
{
    let first = mesh.vertices.len();
    let ghost m0 = *mesh;
    let ghost want = fan_vertices(at, pair(n0), pair_opt(mid), pair(n1), hw as int, color);
    put(mesh, at, color);
    assert(mesh.vertices@ =~= m0.vertices@ + want.take(1));
    let mut k: u32 = 0;
    while k <= ROUND_SEGMENTS
        invariant
            k <= ROUND_SEGMENTS + 1,
            first == m0.vertices@.len(),
            first <= 0x7000_0000,
            -UNIT <= n0.0 <= UNIT,
            -UNIT <= n0.1 <= UNIT,
            -UNIT <= n1.0 <= UNIT,
            -UNIT <= n1.1 <= UNIT,
            mid matches Some(m) ==> -UNIT <= m.0 <= UNIT && -UNIT <= m.1 <= UNIT,
            0 <= hw <= 0x8_0000,
            want == fan_vertices(at, pair(n0), pair_opt(mid), pair(n1), hw as int, color),
            mesh.texture == m0.texture,
            mesh.indices@ == m0.indices@,
            mesh.indices@.len() % 3 == 0,
            indices_within(mesh.indices@, mesh.vertices@.len()),
            mesh.vertices@ == m0.vertices@ + want.take(k + 1),
        decreases ROUND_SEGMENTS + 1 - k,
    {
        let p = fan_point(at, n0, mid, n1, k, hw);
        let ghost before = mesh.vertices@;
        put(mesh, p, color);
        proof {
            assert(want[k + 1] == stroke_vertex(p, color));
            assert(want.take(k + 2) =~= want.take(k + 1).push(want[k + 1]));
            assert(mesh.vertices@ =~= m0.vertices@ + want.take(k + 2));
            assert(mesh.indices@ =~= m0.indices@);
        }
        k += 1;
    }
    assert(want.take(ROUND_SEGMENTS + 2) =~= want);
    let ghost m1 = *mesh;
    assert(m1.indices@ =~= m0.indices@ + Seq::<u32>::empty());
    assert(appended(m0, m1, want, Seq::empty()));
    proof {
        lemma_appended_nothing(m1);
    }
    let mut t: usize = 0;
    while t < ROUND_SEGMENTS as usize
        invariant
            t <= ROUND_SEGMENTS,
            first == m0.vertices@.len(),
            first <= 0x7000_0000,
            m1.vertices@.len() == first + ROUND_SEGMENTS + 2,
            appended(m1, *mesh, Seq::empty(), fan_indices(first as int, t as int)),
        decreases ROUND_SEGMENTS - t,
    {
        let ghost mt = *mesh;
        tri(mesh, first, 0, t + 1, t + 2);
        proof {
            lemma_appended_twice(
                m1,
                mt,
                *mesh,
                Seq::empty(),
                fan_indices(first as int, t as int),
                Seq::empty(),
                triangle(first as int, 0, t + 1, t + 2),
            );
            assert(Seq::<Vertex>::empty() + Seq::<Vertex>::empty() =~= Seq::<Vertex>::empty());
        }
        t += 1;
    }
    proof {
        lemma_appended_twice(
            m0,
            m1,
            *mesh,
            want,
            Seq::empty(),
            Seq::empty(),
            fan_indices(first as int, ROUND_SEGMENTS as int),
        );
        assert(want + Seq::<Vertex>::empty() =~= want);
        assert(Seq::<u32>::empty() + fan_indices(first as int, ROUND_SEGMENTS as int)
            =~= fan_indices(first as int, ROUND_SEGMENTS as int));
    }
}

/// Appends the join at the corner `b` between the edges from `a` and to
/// `c`, on the outer side of the turn.
fn join(mesh: &mut Mesh, a: Point, b: Point, c: Point, hw: i64, color: Color, style: LineJoin)
    requires
        old(mesh).indices@.len() % 3 == 0,
        indices_within(old(mesh).indices@, old(mesh).vertices@.len()),
        old(mesh).vertices@.len() <= 0x7000_0000,
        a.finite(),
        b.finite(),
        c.finite(),
        0 <= hw <= 0x8_0000,
    ensures
        appended(
            *old(mesh),
            *final(mesh),
            join_vertices_of(a, b, c, hw as int, color, style),
            join_indices_of(old(mesh).vertices@.len() as int, style),
        ),
        join_vertices_of(a, b, c, hw as int, color, style).len() == join_vertices(style),
        join_indices_of(old(mesh).vertices@.len() as int, style).len() == join_indices(style),
{
    let side = outer_side(a, b, c);
    let n_in = edge_normal_exec(a, b);
    let n_out = edge_normal_exec(b, c);
    let n0 = if side == 1 {
        n_in
    } else {
        (-n_in.0, -n_in.1)
    };
    let n1 = if side == 1 {
        n_out
    } else {
        (-n_out.0, -n_out.1)
    };
    let first = mesh.vertices.len();
    let ghost m0 = *mesh;
    let ghost e = Seq::<u32>::empty();
    let ghost ev = Seq::<Vertex>::empty();
    proof {
        lemma_fan_len(first as int, ROUND_SEGMENTS as int);
    }
    match style {
        LineJoin::Round => {
            round_fan(mesh, b, n0, None, n1, hw, color);
        },
        LineJoin::Bevel => {
            let o0 = scaled_normal_exec(n0, hw);
            let o1 = scaled_normal_exec(n1, hw);
            let v1 = moved_exec(b, o0.0, o0.1);
            let v2 = moved_exec(b, o1.0, o1.1);
            put(mesh, b, color);
            let ghost m1 = *mesh;
            put(mesh, v1, color);
            let ghost m2 = *mesh;
            put(mesh, v2, color);
            let ghost m3 = *mesh;
            tri(mesh, first, 0, 1, 2);
            proof {
                let s0 = seq![stroke_vertex(b, color)];
                let s1 = seq![stroke_vertex(v1, color)];
                let s2 = seq![stroke_vertex(v2, color)];
                lemma_appended_twice(m0, m1, m2, s0, e, s1, e);
                lemma_appended_twice(m0, m2, m3, s0 + s1, e + e, s2, e);
                lemma_appended_twice(
                    m0,
                    m3,
                    *mesh,
                    s0 + s1 + s2,
                    e + e + e,
                    ev,
                    triangle(first as int, 0, 1, 2),
                );
                assert(s0 + s1 + s2 + ev =~= join_vertices_of(a, b, c, hw as int, color, style));
                assert(e + e + e + triangle(first as int, 0, 1, 2) =~= join_indices_of(
                    first as int,
                    style,
                ));
            }
        },
        LineJoin::Miter => {
            let o0 = scaled_normal_exec(n0, hw);
            let o1 = scaled_normal_exec(n1, hw);
            let tip = miter_tip(n0, n1, hw);
            let v1 = moved_exec(b, o0.0, o0.1);
            let v2 = moved_exec(b, tip.0, tip.1);
            let v3 = moved_exec(b, o1.0, o1.1);
            put(mesh, b, color);
            let ghost m1 = *mesh;
            put(mesh, v1, color);
            let ghost m2 = *mesh;
            put(mesh, v2, color);
            let ghost m3 = *mesh;
            put(mesh, v3, color);
            let ghost m4 = *mesh;
            tri(mesh, first, 0, 1, 2);
            let ghost m5 = *mesh;
            tri(mesh, first, 0, 2, 3);
            proof {
                let s0 = seq![stroke_vertex(b, color)];
                let s1 = seq![stroke_vertex(v1, color)];
                let s2 = seq![stroke_vertex(v2, color)];
                let s3 = seq![stroke_vertex(v3, color)];
                lemma_appended_twice(m0, m1, m2, s0, e, s1, e);
                lemma_appended_twice(m0, m2, m3, s0 + s1, e + e, s2, e);
                lemma_appended_twice(m0, m3, m4, s0 + s1 + s2, e + e + e, s3, e);
                lemma_appended_twice(
                    m0,
                    m4,
                    m5,
                    s0 + s1 + s2 + s3,
                    e + e + e + e,
                    ev,
                    triangle(first as int, 0, 1, 2),
                );
                lemma_appended_twice(
                    m0,
                    m5,
                    *mesh,
                    s0 + s1 + s2 + s3 + ev,
                    e + e + e + e + triangle(first as int, 0, 1, 2),
                    ev,
                    triangle(first as int, 0, 2, 3),
                );
                assert(s0 + s1 + s2 + s3 + ev + ev =~= join_vertices_of(
                    a,
                    b,
                    c,
                    hw as int,
                    color,
                    style,
                ));
                assert(e + e + e + e + triangle(first as int, 0, 1, 2) + triangle(
                    first as int,
                    0,
                    2,
                    3,
                ) =~= join_indices_of(first as int, style));
            }
        },
    }
}

/// How far the tip of a miter lies from its corner.
fn miter_tip(n0: (i64, i64), n1: (i64, i64), hw: i64) -> (tip: (i64, i64))
    requires
        -UNIT <= n0.0 <= UNIT,
        -UNIT <= n0.1 <= UNIT,
        -UNIT <= n1.0 <= UNIT,
        -UNIT <= n1.1 <= UNIT,
        0 <= hw <= 0x8_0000,
    ensures
        pair(tip) == miter_tip_of(pair(n0), pair(n1), hw as int),
        -0x1000_0000_0000 <= tip.0 <= 0x1000_0000_0000,
        -0x1000_0000_0000 <= tip.1 <= 0x1000_0000_0000,
{
    let sx: i64 = n0.0 + n1.0;
    let sy: i64 = n0.1 + n1.1;
    assert(0 <= sx * sx <= 4 * UNIT * UNIT && 0 <= sy * sy <= 4 * UNIT * UNIT) by (nonlinear_arith)
        requires
            -2 * UNIT <= sx <= 2 * UNIT,
            -2 * UNIT <= sy <= 2 * UNIT,
    ;
    let len2: i64 = sx * sx + sy * sy;
    if len2 < UNIT * UNIT / 4 {
        // Too sharp a corner: the tip is the middle of the bevel.
        let o = scaled_normal_exec((sx, sy), hw);
        (div_trunc_exec(o.0, 2), div_trunc_exec(o.1, 2))
    } else {
        // tip = s * 2 * hw / |s|^2, with s in sixteen fractional bits
        assert(-0x10_0000_0000_0000 <= sx * (2 * hw) <= 0x10_0000_0000_0000 && -0x10_0000_0000_0000
            <= sy * (2 * hw) <= 0x10_0000_0000_0000) by (nonlinear_arith)
            requires
                -0x2_0000 <= sx <= 0x2_0000,
                -0x2_0000 <= sy <= 0x2_0000,
                0 <= hw <= 0x8_0000,
        ;
        let scale: i64 = len2 / UNIT;
        let tx = div_trunc_exec(sx * (2 * hw), scale);
        let ty = div_trunc_exec(sy * (2 * hw), scale);
        (clamp_offset(tx), clamp_offset(ty))
    }
}

fn clamp_offset(v: i64) -> (r: i64)
    ensures
        r == clamp_offset_of(v as int),
        -0x1000_0000_0000 <= r <= 0x1000_0000_0000,
{
    if v < -0x1000_0000_0000 {
        -0x1000_0000_0000
    } else if v > 0x1000_0000_0000 {
        0x1000_0000_0000
    } else {
        v
    }
}

/// Appends the cap at the end `end` of a line that comes from `from_point`.
fn cap(mesh: &mut Mesh, from_point: Point, end: Point, hw: i64, color: Color, style: LineCap)
    requires
        old(mesh).indices@.len() % 3 == 0,
        indices_within(old(mesh).indices@, old(mesh).vertices@.len()),
        old(mesh).vertices@.len() <= 0x7000_0000,
        from_point.finite(),
        end.finite(),
        0 <= hw <= 0x8_0000,
    ensures
        appended(
            *old(mesh),
            *final(mesh),
            cap_vertices_of(from_point, end, hw as int, color, style),
            cap_indices_of(old(mesh).vertices@.len() as int, style),
        ),
        cap_vertices_of(from_point, end, hw as int, color, style).len() == cap_vertices(style),
        cap_indices_of(old(mesh).vertices@.len() as int, style).len() == cap_indices(style),
{
    let n = edge_normal_exec(from_point, end);
    // The direction of the line at its end: the normal turned back.
    let d = (-n.1, n.0);
    proof {
        lemma_appended_nothing(*mesh);
        lemma_fan_len(mesh.vertices@.len() as int, ROUND_SEGMENTS as int);
    }
    match style {
        LineCap::Butt => {},
        LineCap::Square => {
            let o = scaled_normal_exec(n, hw);
            let f = scaled_normal_exec(d, hw);
            put_quad(
                mesh,
                [
                    moved_exec(end, o.0, o.1),
                    moved_exec(end, -o.0, -o.1),
                    moved_exec(end, o.0 + f.0, o.1 + f.1),
                    moved_exec(end, -o.0 + f.0, -o.1 + f.1),
                ],
                color,
            );
            assert(cap_vertices_of(from_point, end, hw as int, color, style) =~= seq![
                stroke_vertex(moved(end, o.0 as int, o.1 as int), color),
                stroke_vertex(moved(end, -o.0, -o.1), color),
                stroke_vertex(moved(end, o.0 + f.0, o.1 + f.1), color),
                stroke_vertex(moved(end, -o.0 + f.0, -o.1 + f.1), color),
            ]);
        },
        LineCap::Round => {
            round_fan(mesh, end, n, Some(d), (-n.0, -n.1), hw, color);
        },
    }
}

} // verus!

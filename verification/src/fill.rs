//! Fills: a flattened ring becomes triangles, with a band of fading
//! triangles round it where antialiasing is asked for.

use crate::color::Color;
use crate::brush::FillStyle;
use crate::earcut::clip::triangles_added;
use crate::earcut::hole_starts;
use crate::earcut::in_type;
use crate::earcut::triangulated;
use crate::earcut::Earcut;
use crate::earcut::MAX_POINTS;
use crate::math::div_trunc;
use crate::math::div_trunc_exec;
use crate::math::unit_component;
use crate::math::unit_vector;
use crate::math::Rect;
use crate::math::UNIT;
use crate::mesh::appended;
use crate::mesh::Mesh;
use crate::mesh::Uv;
use crate::mesh::Vertex;
use crate::mesh::UV_ONE;
use crate::path::geo::bounds_of;
use crate::path::geo::get_path_bounds;
use crate::path::Point;
use vstd::prelude::*;

verus! {

/// Widest feather that the fills take, in coordinate units.
pub const MAX_FEATHER: i32 = 0x10_0000;

/// Most vertices that a mesh may hold for a fill to be added.
pub const MAX_VERTICES: usize = 0x4000_0000;

/// The width of the feather that `feathering` asks for: none for zero and
/// less, and no more than `MAX_FEATHER`.
pub open spec fn feather_width(feathering: int) -> int {
    if feathering < 0 {
        0
    } else if feathering > MAX_FEATHER {
        MAX_FEATHER as int
    } else {
        feathering
    }
}

/// The width of the feather that `feathering` asks for.
pub fn clamp_feather(feathering: i32) -> (width: i32)
    ensures
        width == feather_width(feathering as int),
        0 <= width <= MAX_FEATHER,
{
    if feathering < 0 {
        0
    } else if feathering > MAX_FEATHER {
        MAX_FEATHER
    } else {
        feathering
    }
}

/// Whether the polyline returns to its first point.
pub open spec fn path_closed(path: Seq<Point>) -> bool {
    path.len() > 0 && path.first() == path.last()
}

/// Number of corners of the ring that the polyline describes: its points,
/// less the last where that repeats the first.
pub open spec fn ring_len(path: Seq<Point>) -> int {
    if path_closed(path) {
        path.len() - 1
    } else {
        path.len() as int
    }
}

/// The index before `i` on a ring of `n` corners.
pub open spec fn before(i: int, n: int) -> int {
    if i == 0 {
        n - 1
    } else {
        i - 1
    }
}

/// A texture coordinate: where `v` lies between `min` and `min + extent`.
pub open spec fn uv_coord(v: int, min: int, extent: int) -> int {
    if extent != 0 {
        div_trunc((v - min) * UV_ONE, extent)
    } else {
        0
    }
}

/// The texture coordinate of `p` in a shape whose bounding box is `bounds`.
pub open spec fn uv_of(bounds: Rect, p: Point) -> Uv {
    Uv {
        u: uv_coord(p.x as int, bounds.x as int, bounds.width as int) as i64,
        v: uv_coord(p.y as int, bounds.y as int, bounds.height as int) as i64,
    }
}

/// The bounding box that texture coordinates are taken in: that of the
/// ring for a textured fill, the empty box otherwise, which gives every
/// point the white coordinate.
pub open spec fn fill_bounds(ring: Seq<Point>, textured: bool) -> Rect {
    if textured {
        bounds_of(ring)
    } else {
        Rect { x: 0, y: 0, width: 0, height: 0 }
    }
}

/// The outward normal of the edge from `from` to `to` of a clockwise ring,
/// of length one in sixteen fractional bits: the direction of the edge,
/// turned a quarter.
pub open spec fn edge_normal(from: Point, to: Point) -> (int, int) {
    let dx = to.x - from.x;
    let dy = to.y - from.y;
    (unit_component(dy, dx, dy), -unit_component(dx, dx, dy))
}

/// How far a corner is moved out and in for the feather: along the mean of
/// the normals `n0` and `n1` of its two edges, by half the feather width.
pub open spec fn feather_offset(n0: (int, int), n1: (int, int), feathering: int) -> (int, int) {
    let sx = n0.0 + n1.0;
    let sy = n0.1 + n1.1;
    (
        div_trunc(unit_component(sx, sx, sy) * feathering, 2 * UNIT),
        div_trunc(unit_component(sy, sx, sy) * feathering, 2 * UNIT),
    )
}

/// The offset for the feather at corner `i` of the ring.
pub open spec fn corner_offset(ring: Seq<Point>, i: int, feathering: int) -> (int, int) {
    let n = ring.len() as int;
    feather_offset(
        edge_normal(ring[before(i, n)], ring[i]),
        edge_normal(ring[i], ring[if i == n - 1 {
            0
        } else {
            i + 1
        }]),
        feathering,
    )
}

/// Vertex `j` of a feathered fill. The vertices come in pairs, an inner one
/// in the fill colour and an outer one in the colour that the feather fades
/// to; pair `k` belongs to the corner before corner `k`.
pub open spec fn feather_vertex(
    ring: Seq<Point>,
    j: int,
    feathering: int,
    fill: Color,
    out_color: Color,
    bounds: Rect,
) -> Vertex {
    let corner = before(j / 2, ring.len() as int);
    let p = ring[corner];
    let dm = corner_offset(ring, corner, feathering);
    if j % 2 == 0 {
        let pos = Point { x: (p.x - dm.0) as i32, y: (p.y - dm.1) as i32 };
        Vertex { pos, color: fill, uv: uv_of(bounds, pos) }
    } else {
        let pos = Point { x: (p.x + dm.0) as i32, y: (p.y + dm.1) as i32 };
        Vertex { pos, color: out_color, uv: uv_of(bounds, pos) }
    }
}

/// Index `k` of the fan that fills a convex ring whose corners are the
/// vertices `base`, `base + step`, `base + 2 * step`, ..: triangle `t` joins
/// the corners `t + 1`, `0`, `t + 2` where `pivot_second` is set, and
/// `0`, `t + 1`, `t + 2` where it is not.
pub open spec fn fan_index(k: int, base: int, step: int, pivot_second: bool) -> int {
    let t = k / 3;
    let first = base + step * (t + 1);
    let third = base + step * (t + 2);
    if k % 3 == 2 {
        third
    } else if (k % 3 == 1) == pivot_second {
        base
    } else {
        first
    }
}

/// Index `k` of the band of a feathered ring of `n` corners whose inner
/// vertices are `base`, `base + 2`, .. and whose outer vertices follow each
/// inner one: six indices, two triangles, for every edge.
pub open spec fn band_index(k: int, base: int, n: int) -> int {
    let i1 = k / 6;
    let i0 = before(i1, n);
    let inner0 = base + 2 * i0;
    let inner1 = base + 2 * i1;
    let r = k % 6;
    if r == 0 {
        inner1
    } else if r == 1 {
        inner0
    } else if r == 2 {
        inner0 + 1
    } else if r == 3 {
        inner0 + 1
    } else if r == 4 {
        inner1 + 1
    } else {
        inner1
    }
}

/// The colour that a feather fades to: `fade_to`, or the fill colour with
/// no alpha.
pub open spec fn fade_color(fill: Color, fade_to: Option<Color>) -> Color {
    match fade_to {
        Some(c) => c,
        None => Color { a: 0, ..fill },
    }
}

/// Whether a fill of `path` in the colour `fill` draws anything: the ring has
/// at least three corners and the colour shows.
pub open spec fn fill_draws(path: Seq<Point>, fill: Color) -> bool {
    ring_len(path) >= 3 && !fill.shows_nothing()
}

/// The sum, over the first `upto` points of the closed polyline `path`, of
/// the cross product of the point before with the point: twice the area of
/// the polyline once all points are taken, positive where it runs
/// clockwise with the y axis pointing down.
pub open spec fn cw_area_sum(path: Seq<Point>, upto: int) -> int
    decreases upto,
{
    if upto <= 0 {
        0
    } else {
        let p = path[upto - 1];
        let previous = if upto == 1 {
            path.last()
        } else {
            path[upto - 2]
        };
        cw_area_sum(path, upto - 1) + (previous.x * p.y - p.x * previous.y)
    }
}

/// Twice the signed area of the closed polyline `path`: positive where it
/// runs clockwise with the y axis pointing down, which is the way a convex
/// fill expects its ring.
pub fn cw_signed_area(path: &[Point]) -> (area: i128)
    requires
        path@.len() <= MAX_POINTS,
    ensures
        area == cw_area_sum(path@, path@.len() as int),
{
    let n = path.len();
    if n == 0 {
        return 0;
    }
    let mut previous = path[n - 1];
    let mut area: i128 = 0;
    let mut i: usize = 0;
    while i < n
        invariant
            i <= n,
            n == path@.len(),
            n <= MAX_POINTS,
            previous == if i == 0 {
                path@.last()
            } else {
                path@[i - 1]
            },
            area == cw_area_sum(path@, i as int),
            -0x8000_0000_0000_0000 * i <= area <= 0x8000_0000_0000_0000 * i,
        decreases n - i,
    {
        let p = path[i];
        let a: i64 = previous.x as i64;
        let b: i64 = p.y as i64;
        let c: i64 = p.x as i64;
        let d: i64 = previous.y as i64;
        assert(-0x4000_0000_0000_0000 <= a * b <= 0x4000_0000_0000_0000 && -0x4000_0000_0000_0000
            <= c * d <= 0x4000_0000_0000_0000) by (nonlinear_arith)
            requires
                -0x8000_0000 <= a <= 0x8000_0000,
                -0x8000_0000 <= b <= 0x8000_0000,
                -0x8000_0000 <= c <= 0x8000_0000,
                -0x8000_0000 <= d <= 0x8000_0000,
        ;
        area = area + (a as i128 * b as i128 - c as i128 * d as i128);
        previous = p;
        i += 1;
    }
    area
}

/// Whether the polyline returns to its first point.
pub fn is_path_closed(path: &[Point]) -> (closed: bool)
    ensures
        closed == path_closed(path@),
{
    let n = path.len();
    if n == 0 {
        false
    } else {
        path[0].x == path[n - 1].x && path[0].y == path[n - 1].y
    }
}

/// The texture coordinate of `p` in a shape whose bounding box is `bounds`.
pub fn get_uv(bounds: &Rect, p: Point) -> (uv: Uv)
    requires
        bounds.width >= 0,
        bounds.height >= 0,
    ensures
        uv == uv_of(*bounds, p),
{
    let u: i64 = if bounds.width != 0 {
        div_trunc_exec((p.x as i64 - bounds.x as i64) * UV_ONE, bounds.width as i64)
    } else {
        0
    };
    let v: i64 = if bounds.height != 0 {
        div_trunc_exec((p.y as i64 - bounds.y as i64) * UV_ONE, bounds.height as i64)
    } else {
        0
    };
    Uv { u, v }
}

/// The outward normal of the edge from `from` to `to`.
pub fn edge_normal_exec(from: Point, to: Point) -> (n: (i64, i64))
    requires
        from.finite(),
        to.finite(),
    ensures
        (n.0 as int, n.1 as int) == edge_normal(from, to),
        -UNIT <= n.0 <= UNIT,
        -UNIT <= n.1 <= UNIT,
{
    let dx: i64 = to.x as i64 - from.x as i64;
    let dy: i64 = to.y as i64 - from.y as i64;
    let u = unit_vector(dx, dy);
    (u.1, -u.0)
}

/// How far a corner is moved out and in for the feather.
pub fn feather_offset_exec(n0: (i64, i64), n1: (i64, i64), feathering: i32) -> (dm: (i64, i64))
    requires
        -UNIT <= n0.0 <= UNIT,
        -UNIT <= n0.1 <= UNIT,
        -UNIT <= n1.0 <= UNIT,
        -UNIT <= n1.1 <= UNIT,
        0 <= feathering <= MAX_FEATHER,
    ensures
        (dm.0 as int, dm.1 as int) == feather_offset(
            (n0.0 as int, n0.1 as int),
            (n1.0 as int, n1.1 as int),
            feathering as int,
        ),
        -MAX_FEATHER <= dm.0 <= MAX_FEATHER,
        -MAX_FEATHER <= dm.1 <= MAX_FEATHER,
{
    let sx: i64 = n0.0 + n1.0;
    let sy: i64 = n0.1 + n1.1;
    let u = unit_vector(sx, sy);
    let f: i64 = feathering as i64;
    assert(-UNIT * 0x10_0000 <= u.0 * f <= UNIT * 0x10_0000 && -UNIT * 0x10_0000 <= u.1 * f <= UNIT
        * 0x10_0000) by (nonlinear_arith)
        requires
            -UNIT <= u.0 <= UNIT,
            -UNIT <= u.1 <= UNIT,
            0 <= f <= 0x10_0000,
    ;
    let dx = div_trunc_exec(u.0 * f, 2 * UNIT);
    let dy = div_trunc_exec(u.1 * f, 2 * UNIT);
    proof {
        lemma_half(u.0 * f);
        lemma_half(u.1 * f);
    }
    (dx, dy)
}

/// A value of magnitude up to one times the widest feather, divided by two,
/// has magnitude up to the widest feather.
proof fn lemma_half(v: int)
    requires
        -UNIT * 0x10_0000 <= v <= UNIT * 0x10_0000,
    ensures
        -MAX_FEATHER <= div_trunc(v, 2 * UNIT) <= MAX_FEATHER,
{
}

/// The corners of the ring that `path` describes.
pub open spec fn ring_of(path: Seq<Point>) -> Seq<Point> {
    path.take(ring_len(path))
}

/// The vertices that a fill without feather adds: one for each corner.
pub open spec fn flat_vertices(ring: Seq<Point>, fill: Color, bounds: Rect) -> Seq<Vertex> {
    Seq::new(ring.len(), |i: int| Vertex { pos: ring[i], color: fill, uv: uv_of(bounds, ring[i]) })
}

/// The indices that a convex fill without feather adds: a fan from the
/// first corner.
pub open spec fn flat_fan(n: int, base: int) -> Seq<u32> {
    Seq::new((3 * (n - 2)) as nat, |k: int| fan_index(k, base, 1, false) as u32)
}

/// The vertices that a feathered fill adds: an inner and an outer one for
/// each corner.
pub open spec fn feather_vertices(
    ring: Seq<Point>,
    feathering: int,
    fill: Color,
    out_color: Color,
    bounds: Rect,
) -> Seq<Vertex> {
    Seq::new(
        (2 * ring.len()) as nat,
        |j: int| feather_vertex(ring, j, feathering, fill, out_color, bounds),
    )
}

/// The indices of the band of a feathered fill.
pub open spec fn feather_band(n: int, base: int) -> Seq<u32> {
    Seq::new((6 * n) as nat, |k: int| band_index(k, base, n) as u32)
}

/// The indices of the fan of a feathered convex fill: over the inner
/// vertices.
pub open spec fn feather_fan(n: int, base: int) -> Seq<u32> {
    Seq::new((3 * (n - 2)) as nat, |k: int| fan_index(k, base, 2, true) as u32)
}

/// The vertices that a convex fill of `path` adds.
pub open spec fn convex_vertices(
    path: Seq<Point>,
    fill: Color,
    textured: bool,
    feathering: int,
    fade_to: Option<Color>,
) -> Seq<Vertex> {
    let ring = ring_of(path);
    if !fill_draws(path, fill) {
        Seq::empty()
    } else if feathering > 0 {
        feather_vertices(
            ring,
            feathering,
            fill,
            fade_color(fill, fade_to),
            fill_bounds(ring, textured),
        )
    } else {
        flat_vertices(ring, fill, fill_bounds(ring, textured))
    }
}

/// The indices that a convex fill of `path` adds to a mesh that held `base`
/// vertices before: the fan, and behind it the band of the feather.
pub open spec fn convex_indices(path: Seq<Point>, fill: Color, feathering: int, base: int) -> Seq<
    u32,
> {
    let n = ring_len(path);
    if !fill_draws(path, fill) {
        Seq::empty()
    } else if feathering > 0 {
        feather_fan(n, base) + feather_band(n, base)
    } else {
        flat_fan(n, base)
    }
}

/// Fills the convex ring that `path` describes with a fan of triangles from
/// its first corner. The feather lies outside a ring that runs clockwise.
///
/// Nothing is added where the ring has fewer than three corners or `fill`
/// does not show, whatever the feather. `on_add` is told the place of every
/// vertex of a feathered fill, in the order of the vertices. A `feathering` of zero or less asks
/// for no feather, one above `MAX_FEATHER` for that width. Without a
/// feather the mesh gets one vertex for each corner. With one every corner
/// gets an inner
/// vertex, moved in by half the feather along the mean of the normals of its
/// two edges, and an outer vertex, moved out by as much, in the colour that
/// the feather fades to; the fan joins the inner vertices, and a band of two
/// triangles for each edge joins inner and outer ones.
///
/// A textured fill takes the texture coordinate of each vertex from its place
/// in the bounding box of the ring; an untextured one gives every vertex the
/// white coordinate.
pub fn fill_path_convex<F: FnMut(Point)>(
    mesh: &mut Mesh,
    scratch: &mut Vec<(i64, i64)>,
    path: &[Point],
    fill: Color,
    textured: bool,
    feathering: i32,
    fade_to: Option<Color>,
    on_add: F,
)
    requires
        forall|p: Point| call_requires(on_add, (p,)),
        old(mesh).wf(),
        fill_draws(path@, fill) ==> old(mesh).vertices@.len() <= MAX_VERTICES,
        fill_draws(path@, fill) ==> path@.len() <= MAX_POINTS,
        fill_draws(path@, fill) ==> forall|i: int|
            0 <= i < path@.len() ==> (#[trigger] path@[i]).finite(),
    ensures
        final(mesh).wf(),
        appended(
            *old(mesh),
            *final(mesh),
            convex_vertices(path@, fill, textured, feather_width(feathering as int), fade_to),
            convex_indices(
                path@,
                fill,
                feather_width(feathering as int),
                old(mesh).vertices@.len() as int,
            ),
        ),
        feather_width(feathering as int) > 0 ==> forall|j: int|
            0 <= j < convex_vertices(
                path@,
                fill,
                textured,
                feather_width(feathering as int),
                fade_to,
            ).len() ==> call_ensures(
                on_add,
                ((#[trigger] convex_vertices(
                    path@,
                    fill,
                    textured,
                    feather_width(feathering as int),
                    fade_to,
                )[j]).pos,),
                (),
            ),
{
    let closed = is_path_closed(path);
    let n: usize = if closed {
        path.len() - 1
    } else {
        path.len()
    };
    if n < 3 || fill.is_transparent() {
        proof {
            crate::mesh::lemma_appended_nothing(*mesh);
        }
        return ;
    }
    assert(fill_draws(path@, fill));
    let feathering = clamp_feather(feathering);
    let ghost ring = ring_of(path@);
    assert(path@.subrange(0, n as int) =~= ring);
    let no_bounds = Rect { x: 0, y: 0, width: 0, height: 0 };
    let bounds: Rect = if textured {
        match get_path_bounds(slice_subrange(path, 0, n)) {
            Some(b) => b,
            None => no_bounds,
        }
    } else {
        no_bounds
    };
    assert(bounds == fill_bounds(ring, textured));
    assert(fill_draws(path@, fill));
    assert(ring_len(path@) == n);
    let base = mesh.vertices.len();
    let base32: u32 = base as u32;
    let n32: u32 = n as u32;

    if feathering > 0 {
        // AA fill
        let out_color = match fade_to {
            Some(c) => c,
            None => fill.with_alpha(0),
        };
        assert(out_color == fade_color(fill, fade_to));
        mesh.reserve_prim(2 * n, 3 * n);
        fan(mesh, base32, n32, 2, true);
        let ghost fanned = mesh.indices@;
        assert(fanned == old(mesh).indices@ + feather_fan(n as int, base as int));
        feather(mesh, scratch, path, n, feathering, fill, out_color, &bounds, on_add);
        proof {
            lemma_fan_within(n as int, base as int, 2, true, 2 * n as int);
            lemma_band_within(n as int, base as int);
            assert(mesh.indices@ =~= old(mesh).indices@ + (feather_fan(n as int, base as int)
                + feather_band(n as int, base as int)));
            assert(mesh.wf());
        }
    } else {
        mesh.reserve_prim(n, (n - 2) * 3);
        let mut i: usize = 0;
        while i < n
            invariant
                i <= n,
                3 <= n <= path@.len(),
                ring == path@.take(n as int),
                bounds.width >= 0,
                bounds.height >= 0,
                mesh.indices@ == old(mesh).indices@,
                mesh.texture == old(mesh).texture,
                mesh.vertices@ == old(mesh).vertices@ + flat_vertices(ring, fill, bounds).take(
                    i as int,
                ),
            decreases n - i,
        {
            let uv = get_uv(&bounds, path[i]);
            mesh.add_vertex(path[i], fill, uv);
            assert(flat_vertices(ring, fill, bounds).take(i as int + 1) =~= flat_vertices(
                ring,
                fill,
                bounds,
            ).take(i as int).push(flat_vertices(ring, fill, bounds)[i as int]));
            i += 1;
        }
        proof {
            assert(flat_vertices(ring, fill, bounds).take(n as int) =~= flat_vertices(
                ring,
                fill,
                bounds,
            ));
        }
        fan(mesh, base32, n32, 1, false);
        proof {
            lemma_fan_within(n as int, base as int, 1, false, n as int);
            assert(mesh.indices@ == old(mesh).indices@ + flat_fan(n as int, base as int));
            assert(mesh.wf());
        }
    }
}

/// The part `from..to` of a slice.
fn slice_subrange(path: &[Point], from: usize, to: usize) -> (part: &[Point])
    requires
        from <= to <= path@.len(),
    ensures
        part@ == path@.subrange(from as int, to as int),
{
    vstd::slice::slice_subrange(path, from, to)
}

/// Appends the fan over the `n` corners `base`, `base + step`, ...
fn fan(mesh: &mut Mesh, base: u32, n: u32, step: u32, pivot_second: bool)
    requires
        3 <= n <= MAX_POINTS,
        base <= MAX_VERTICES,
        1 <= step <= 2,
    ensures
        final(mesh).vertices@ == old(mesh).vertices@,
        final(mesh).texture == old(mesh).texture,
        final(mesh).indices@ == old(mesh).indices@ + Seq::new(
            (3 * (n - 2)) as nat,
            |k: int| fan_index(k, base as int, step as int, pivot_second) as u32,
        ),
{
    let ghost want = Seq::new(
        (3 * (n - 2)) as nat,
        |k: int| fan_index(k, base as int, step as int, pivot_second) as u32,
    );
    assert(mesh.indices@ =~= old(mesh).indices@ + want.take(0));
    let mut i: u32 = 2;
    while i < n
        invariant
            2 <= i <= n,
            3 <= n <= MAX_POINTS,
            base <= MAX_VERTICES,
            1 <= step <= 2,
            mesh.vertices@ == old(mesh).vertices@,
            mesh.texture == old(mesh).texture,
            want == Seq::new(
                (3 * (n - 2)) as nat,
                |k: int| fan_index(k, base as int, step as int, pivot_second) as u32,
            ),
            mesh.indices@ == old(mesh).indices@ + want.take(3 * (i - 2)),
        decreases n - i,
    {
        let first = base + step * (i - 1);
        let third = base + step * i;
        let ghost k = 3 * (i - 2);
        if pivot_second {
            mesh.add_triangle(first, base, third);
        } else {
            mesh.add_triangle(base, first, third);
        }
        proof {
            assert(want[k] == fan_index(k, base as int, step as int, pivot_second) as u32);
            assert(want[k + 1] == fan_index(k + 1, base as int, step as int, pivot_second) as u32);
            assert(want[k + 2] == fan_index(k + 2, base as int, step as int, pivot_second) as u32);
            assert(want.take(k + 3) =~= want.take(k).push(want[k]).push(want[k + 1]).push(
                want[k + 2],
            ));
        }
        i += 1;
    }
    assert(want.take(3 * (n - 2)) =~= want);
}

/// The indices of a fan name vertices below `base + count`.
proof fn lemma_fan_within(n: int, base: int, step: int, pivot_second: bool, count: int)
    requires
        3 <= n,
        0 <= base,
        1 <= step,
        step * (n - 1) < count,
        base + count <= u32::MAX,
    ensures
        forall|k: int|
            0 <= k < 3 * (n - 2) ==> base <= #[trigger] fan_index(k, base, step, pivot_second) < base
                + count,
{
    assert forall|k: int| 0 <= k < 3 * (n - 2) implies base <= #[trigger] fan_index(
        k,
        base,
        step,
        pivot_second,
    ) < base + count by {
        let t = k / 3;
        assert(0 <= t <= n - 3);
        assert(step * (t + 1) <= step * (n - 1) && step * (t + 2) <= step * (n - 1) && step * (t
            + 1) >= 0) by (nonlinear_arith)
            requires
                0 <= t <= n - 3,
                step >= 1,
        ;
    }
}

/// The indices of a band name vertices below `base + 2 * n`.
proof fn lemma_band_within(n: int, base: int)
    requires
        1 <= n,
        0 <= base,
    ensures
        forall|k: int|
            0 <= k < 6 * n ==> base <= #[trigger] band_index(k, base, n) < base + 2 * n,
{
}

/// Appends the feather of the ring of `n` corners of `path`: the pairs of
/// vertices, and after each pair the two triangles of the band along the
/// edge that ends at the pair.
fn feather<F: FnMut(Point)>(
    mesh: &mut Mesh,
    normals: &mut Vec<(i64, i64)>,
    path: &[Point],
    n: usize,
    feathering: i32,
    fill: Color,
    out_color: Color,
    bounds: &Rect,
    on_add: F,
)
    requires
        forall|p: Point| call_requires(on_add, (p,)),
        3 <= n <= path@.len(),
        n <= MAX_POINTS,
        old(mesh).vertices@.len() <= MAX_VERTICES,
        0 < feathering <= MAX_FEATHER,
        bounds.width >= 0,
        bounds.height >= 0,
        forall|i: int| 0 <= i < path@.len() ==> (#[trigger] path@[i]).finite(),
    ensures
        final(mesh).texture == old(mesh).texture,
        final(mesh).vertices@ == old(mesh).vertices@ + feather_vertices(
            path@.take(n as int),
            feathering as int,
            fill,
            out_color,
            *bounds,
        ),
        final(mesh).indices@ == old(mesh).indices@ + feather_band(
            n as int,
            old(mesh).vertices@.len() as int,
        ),
        forall|j: int|
            0 <= j < 2 * n ==> call_ensures(
                on_add,
                ((#[trigger] feather_vertices(
                    path@.take(n as int),
                    feathering as int,
                    fill,
                    out_color,
                    *bounds,
                )[j]).pos,),
                (),
            ),
{
    let mut told = on_add;
    let ghost ring = path@.take(n as int);
    let base: u32 = mesh.vertices.len() as u32;

    // The outward normal of the edge that ends at each corner.
    normals.clear();
    normals.reserve(n);
    let mut i0: usize = n - 1;
    let mut i1: usize = 0;
    while i1 < n
        invariant
            i1 <= n,
            3 <= n <= path@.len(),
            ring == path@.take(n as int),
            i0 == before(i1 as int, n as int),
            normals@.len() == i1,
            forall|i: int| 0 <= i < path@.len() ==> (#[trigger] path@[i]).finite(),
            forall|k: int|
                0 <= k < i1 ==> (((#[trigger] normals@[k]).0 as int, normals@[k].1 as int)
                    == edge_normal(ring[before(k, n as int)], ring[k]) && -UNIT <= normals@[k].0
                    <= UNIT && -UNIT <= normals@[k].1 <= UNIT),
        decreases n - i1,
    {
        let normal = edge_normal_exec(path[i0], path[i1]);
        normals.push(normal);
        i0 = i1;
        i1 += 1;
    }

    // The feathering:
    let ghost want_v = feather_vertices(ring, feathering as int, fill, out_color, *bounds);
    let ghost want_i = feather_band(n as int, base as int);
    assert(mesh.vertices@ =~= old(mesh).vertices@ + want_v.take(0));
    assert(mesh.indices@ =~= old(mesh).indices@ + want_i.take(0));
    let mut i0: usize = n - 1;
    let mut i1: usize = 0;
    while i1 < n
        invariant
            i1 <= n,
            3 <= n <= path@.len(),
            n <= MAX_POINTS,
            base <= MAX_VERTICES,
            base == old(mesh).vertices@.len(),
            ring == path@.take(n as int),
            i0 == before(i1 as int, n as int),
            normals@.len() == n,
            0 < feathering <= MAX_FEATHER,
            bounds.width >= 0,
            bounds.height >= 0,
            forall|i: int| 0 <= i < path@.len() ==> (#[trigger] path@[i]).finite(),
            forall|k: int|
                0 <= k < n ==> (((#[trigger] normals@[k]).0 as int, normals@[k].1 as int)
                    == edge_normal(ring[before(k, n as int)], ring[k]) && -UNIT <= normals@[k].0
                    <= UNIT && -UNIT <= normals@[k].1 <= UNIT),
            want_v == feather_vertices(ring, feathering as int, fill, out_color, *bounds),
            want_i == feather_band(n as int, base as int),
            mesh.texture == old(mesh).texture,
            mesh.vertices@ == old(mesh).vertices@ + want_v.take(2 * i1),
            mesh.indices@ == old(mesh).indices@ + want_i.take(6 * i1),
            told == on_add,
            forall|p: Point| call_requires(told, (p,)),
            forall|j: int| 0 <= j < 2 * i1 ==> call_ensures(told, ((#[trigger] want_v[j]).pos,), ()),
        decreases n - i1,
    {
        let n0 = normals[i0];
        let n1 = normals[i1];
        let dm = feather_offset_exec(n0, n1, feathering);
        let p = path[i0];
        let pos_inner = Point { x: (p.x as i64 - dm.0) as i32, y: (p.y as i64 - dm.1) as i32 };
        let pos_outer = Point { x: (p.x as i64 + dm.0) as i32, y: (p.y as i64 + dm.1) as i32 };
        let uv_inner = get_uv(bounds, pos_inner);
        let uv_outer = get_uv(bounds, pos_outer);
        let ghost j = 2 * i1 as int;
        let ghost k = 6 * i1 as int;
        proof {
            // The normals of the two edges at the corner `i0`.
            assert(before(j / 2, n as int) == i0);
            assert((if i0 == n - 1 {
                0
            } else {
                i0 as int + 1
            }) == i1);
            assert(want_v[j] == feather_vertex(ring, j, feathering as int, fill, out_color, *bounds));
            assert(want_v[j + 1] == feather_vertex(
                ring,
                j + 1,
                feathering as int,
                fill,
                out_color,
                *bounds,
            ));
            assert(before((j + 1) / 2, n as int) == i0);
        }
        told(pos_inner);
        told(pos_outer);
        proof {
            assert(want_v[j].pos == pos_inner);
            assert(want_v[j + 1].pos == pos_outer);
        }
        mesh.add_vertex(pos_inner, fill, uv_inner);
        mesh.add_vertex(pos_outer, out_color, uv_outer);
        let a: u32 = base + 2 * (i1 as u32);
        let b: u32 = base + 2 * (i0 as u32);
        mesh.add_triangle(a, b, b + 1);
        mesh.add_triangle(b + 1, a + 1, a);
        proof {
            assert(want_v.take(j + 2) =~= want_v.take(j).push(want_v[j]).push(want_v[j + 1]));
            assert(want_i[k] == band_index(k, base as int, n as int) as u32);
            assert(want_i[k + 1] == band_index(k + 1, base as int, n as int) as u32);
            assert(want_i[k + 2] == band_index(k + 2, base as int, n as int) as u32);
            assert(want_i[k + 3] == band_index(k + 3, base as int, n as int) as u32);
            assert(want_i[k + 4] == band_index(k + 4, base as int, n as int) as u32);
            assert(want_i[k + 5] == band_index(k + 5, base as int, n as int) as u32);
            assert(want_i.take(k + 6) =~= want_i.take(k).push(want_i[k]).push(want_i[k + 1]).push(
                want_i[k + 2],
            ).push(want_i[k + 3]).push(want_i[k + 4]).push(want_i[k + 5]));
        }
        i0 = i1;
        i1 += 1;
    }
    assert(want_v.take(2 * n as int) =~= want_v);
    assert(want_i.take(6 * n as int) =~= want_i);
}

/// The mesh vertex that stands for corner `corner` of a ring of `n` corners
/// in a concave fill whose vertices start at `base`: the corner's own vertex
/// without feather; with feather, the inner vertex of the pair `n - 1 -
/// corner`.
pub open spec fn concave_vertex(corner: int, base: int, n: int, feathered: bool) -> int {
    if feathered {
        base + 2 * (n - 1 - corner)
    } else {
        base + corner
    }
}

/// The indices that a concave fill adds for the triangulation `t` of its
/// ring.
pub open spec fn concave_indices(t: Seq<usize>, base: int, n: int, feathered: bool) -> Seq<u32> {
    Seq::new(t.len(), |k: int| concave_vertex(t[k] as int, base, n, feathered) as u32)
}

/// The vertices that a concave fill of `path` adds: those of a convex fill
/// without texture.
pub open spec fn concave_vertices(path: Seq<Point>, fill: Color, feathering: int) -> Seq<Vertex> {
    convex_vertices(path, fill, false, feathering, None)
}

/// Whether `now` is `before` with a concave fill of `path` appended: the
/// vertices of the fill, and the indices that stand for the triangulation
/// of the ring, with the band of the feather behind them.
pub open spec fn concave_filled(
    before: Mesh,
    now: Mesh,
    path: Seq<Point>,
    fill: Color,
    feathering: int,
) -> bool {
    if !fill_draws(path, fill) {
        appended(before, now, Seq::empty(), Seq::empty())
    } else {
        appended(
            before,
            now,
            concave_vertices(path, fill, feathering),
            concave_indices(
                triangulated(ring_of(path), Seq::empty()),
                before.vertices@.len() as int,
                ring_len(path),
                feathering > 0,
            ) + if feathering > 0 {
                feather_band(ring_len(path), before.vertices@.len() as int)
            } else {
                Seq::<u32>::empty()
            },
        )
    }
}

/// Fills the ring that `path` describes, which need not be convex, with the
/// triangles that `earcut` cuts it into.
///
/// Nothing is added where the ring has fewer than three corners or the fill
/// colour does not show. The vertices are those of a convex fill without
/// texture; the triangles join, in place of a fan, the corners that the
/// triangulation names.
pub fn fill_path_concave<F: FnMut(Point)>(
    mesh: &mut Mesh,
    scratch: &mut Vec<(i64, i64)>,
    path: &[Point],
    earcut: &mut Earcut,
    fill_style: &FillStyle,
    feathering: i32,
    on_add: F,
)
    requires
        forall|p: Point| call_requires(on_add, (p,)),
        old(mesh).wf(),
        fill_draws(path@, fill_style.color) ==> old(mesh).vertices@.len() <= MAX_VERTICES,
        fill_draws(path@, fill_style.color) ==> path@.len() <= MAX_POINTS,
        fill_draws(path@, fill_style.color) ==> forall|i: int|
            0 <= i < path@.len() ==> (#[trigger] path@[i]).finite(),
    ensures
        final(mesh).wf(),
        concave_filled(
            *old(mesh),
            *final(mesh),
            path@,
            fill_style.color,
            feather_width(feathering as int),
        ),
        feather_width(feathering as int) > 0 ==> forall|j: int|
            0 <= j < concave_vertices(
                path@,
                fill_style.color,
                feather_width(feathering as int),
            ).len() ==> call_ensures(
                on_add,
                ((#[trigger] concave_vertices(
                    path@,
                    fill_style.color,
                    feather_width(feathering as int),
                )[j]).pos,),
                (),
            ),
{
    let closed = is_path_closed(path);
    let n: usize = if closed {
        path.len() - 1
    } else {
        path.len()
    };
    let fill = fill_style.color;
    if n < 3 || fill.is_transparent() {
        proof {
            crate::mesh::lemma_appended_nothing(*mesh);
        }
        return ;
    }
    assert(fill_draws(path@, fill));
    let feathering = clamp_feather(feathering);
    let ring_points = slice_subrange(path, 0, n);
    let ghost ring = ring_of(path@);
    assert(ring_points@ =~= ring);
    let no_bounds = Rect { x: 0, y: 0, width: 0, height: 0 };
    let base = mesh.vertices.len();
    let feathered = feathering > 0;

    // Triangulate the ring.
    let mut temp_indices: Vec<usize> = Vec::new();
    let no_holes: Vec<usize> = Vec::new();
    let _ = earcut.earcut(ring_points, no_holes.as_slice(), &mut temp_indices, false);
    let ghost t = temp_indices@;
    proof {
        assert(hole_starts(no_holes@) =~= Seq::<usize>::empty());
        assert(in_type::<usize>(t) =~= t) by {
            assert(in_type::<usize>(triangulated(ring, Seq::empty())) =~= triangulated(
                ring,
                Seq::empty(),
            ));
        }
        assert(t =~= triangulated(ring, Seq::empty()));
    }

    if !feathered {
        // No antialiasing: one vertex for each corner.
        mesh.reserve_prim(n, (n - 2) * 3);
        let mut i: usize = 0;
        while i < n
            invariant
                i <= n,
                3 <= n <= path@.len(),
                ring == path@.take(n as int),
                no_bounds == (Rect { x: 0, y: 0, width: 0, height: 0 }),
                mesh.indices@ == old(mesh).indices@,
                mesh.texture == old(mesh).texture,
                mesh.vertices@ == old(mesh).vertices@ + flat_vertices(ring, fill, no_bounds).take(
                    i as int,
                ),
            decreases n - i,
        {
            let uv = get_uv(&no_bounds, path[i]);
            mesh.add_vertex(path[i], fill, uv);
            assert(flat_vertices(ring, fill, no_bounds).take(i as int + 1) =~= flat_vertices(
                ring,
                fill,
                no_bounds,
            ).take(i as int).push(flat_vertices(ring, fill, no_bounds)[i as int]));
            i += 1;
        }
        assert(flat_vertices(ring, fill, no_bounds).take(n as int) =~= flat_vertices(
            ring,
            fill,
            no_bounds,
        ));
    }
    // The triangles, on the vertices that stand for the corners.
    let ghost want = concave_indices(t, base as int, n as int, feathered);
    let ghost vertices_now = mesh.vertices@;
    assert(mesh.indices@ =~= old(mesh).indices@ + want.take(0));
    let mut k: usize = 0;
    while k < temp_indices.len()
        invariant
            k <= temp_indices@.len(),
            temp_indices@ == t,
            3 <= n <= MAX_POINTS,
            base <= MAX_VERTICES,
            forall|j: int| 0 <= j < t.len() ==> #[trigger] t[j] < n,
            want == concave_indices(t, base as int, n as int, feathered),
            mesh.vertices@ == vertices_now,
            mesh.texture == old(mesh).texture,
            mesh.indices@ == old(mesh).indices@ + want.take(k as int),
        decreases temp_indices@.len() - k,
    {
        let corner = temp_indices[k];
        let v: usize = if feathered {
            base + 2 * (n - 1 - corner)
        } else {
            base + corner
        };
        mesh.indices.push(v as u32);
        assert(want.take(k as int + 1) =~= want.take(k as int).push(want[k as int]));
        k += 1;
    }
    assert(want.take(t.len() as int) =~= want);
    let ghost indices_mid = mesh.indices@;
    if feathered {
        let out_color = fill.with_alpha(0);
        feather(mesh, scratch, path, n, feathering, fill, out_color, &no_bounds, on_add);
        proof {
            lemma_band_within(n as int, base as int);
        }
    } else {
        assert(mesh.indices@ =~= old(mesh).indices@ + want + Seq::<u32>::empty());
    }
    proof {
        assert forall|j: int| 0 <= j < want.len() implies base <= #[trigger] want[j] < base + (
        if feathered {
            2 * n
        } else {
            n as int
        }) by {
            assert(t[j] < n);
        }
        assert(mesh.wf());
        assert(triangles_added(Seq::<usize>::empty(), t, ring_len(path@) as nat));
        let tail = if feathering > 0 {
            feather_band(ring_len(path@), old(mesh).vertices@.len() as int)
        } else {
            Seq::<u32>::empty()
        };
        assert(mesh.indices@ =~= old(mesh).indices@ + (concave_indices(
            t,
            old(mesh).vertices@.len() as int,
            ring_len(path@),
            feathering > 0,
        ) + tail));
        assert(no_bounds == fill_bounds(ring, false));
        assert(fill.with_alpha_spec(0) == fade_color(fill, None));
        assert(mesh.vertices@ =~= old(mesh).vertices@ + concave_vertices(
            path@,
            fill,
            feathering as int,
        ));
    }
}

} // verus!

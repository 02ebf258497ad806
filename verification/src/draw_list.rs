//! The draw list: shapes go in, one mesh comes out.
//!
//! For every shape the list builds a path, flattens it, moves the points by
//! the transform of the shape, fills the rings and strokes them. The scratch
//! buffers for this are kept from shape to shape.

use crate::brush::Brush;
use crate::color::Color;
use crate::earcut::Earcut;
use crate::fill::concave_filled;
use crate::fill::convex_indices;
use crate::fill::convex_vertices;
use crate::fill::fill_draws;
use crate::fill::fill_path_concave;
use crate::fill::fill_path_convex;
use crate::fill::MAX_FEATHER;
use crate::fill::MAX_VERTICES;
use crate::mesh::appended;
use crate::mesh::lemma_appended_nothing;
use crate::mesh::Mesh;
use crate::mesh::TextureId;
use crate::mesh::Vertex;
use crate::path::builder::PathBuilder;
use crate::path::geo::contour_ranges;
use crate::path::geo::flatten_run;
use crate::path::geo::PathGeometryBuilder;
use crate::path::shapes::circle_points;
use crate::path::shapes::circle_verbs;
use crate::path::shapes::polygon_verbs;
use crate::path::shapes::rect_points;
use crate::path::shapes::round_rect_points;
use crate::path::shapes::round_rect_verbs;
use crate::path::Contour;
use crate::path::Path;
use crate::path::PathVerb;
use crate::path::Point;
use crate::path::COORD_MAX;
use crate::path_brush::PathBrush;
use crate::primitives::Circle;
use crate::primitives::Primitive;
use crate::primitives::Quad;
use crate::stroke::stroke_draws;
use crate::stroke::stroke_index_count;
use crate::stroke::stroked;
use crate::stroke::StrokeTessellator;
use crate::stroke::MAX_STROKE_POINTS;
use crate::transform::Transform;
use core::ops::Range;
use vstd::prelude::*;

verus! {

/// Whether a shape is known to be convex, so that a fan fills it.
#[derive(Debug, Clone, Copy, PartialEq, Eq, Structural)]
pub enum ShapeType {
    Concave,
    Convex,
}

/// Whether `now` is `before` with vertices and whole triangles appended,
/// and is whole.
pub open spec fn mesh_grown(before: Mesh, now: Mesh) -> bool {
    &&& now.wf()
    &&& now.texture == before.texture
    &&& before.vertices@.len() <= now.vertices@.len()
    &&& before.indices@.len() <= now.indices@.len()
    &&& now.vertices@.take(before.vertices@.len() as int) == before.vertices@
    &&& now.indices@.take(before.indices@.len() as int) == before.indices@
}

/// Whether `now` holds what `before` held.
pub open spec fn mesh_same(before: Mesh, now: Mesh) -> bool {
    &&& now.texture == before.texture
    &&& now.vertices@ == before.vertices@
    &&& now.indices@ == before.indices@
}

/// A mesh that grew twice grew.
pub proof fn lemma_grown_twice(a: Mesh, b: Mesh, c: Mesh)
    requires
        mesh_grown(a, b),
        mesh_grown(b, c),
    ensures
        mesh_grown(a, c),
{
    assert(c.vertices@.take(a.vertices@.len() as int) =~= c.vertices@.take(
        b.vertices@.len() as int,
    ).take(a.vertices@.len() as int));
    assert(c.indices@.take(a.indices@.len() as int) =~= c.indices@.take(
        b.indices@.len() as int,
    ).take(a.indices@.len() as int));
}

/// Moves the points `range` of `points` by `transform`, unless that is the
/// identity.
fn map_points(points: &mut Vec<Point>, start: usize, end: usize, transform: &Option<Transform>)
    requires
        start <= end <= old(points)@.len(),
        forall|i: int| start <= i < end ==> (#[trigger] old(points)@[i]).finite(),
    ensures
        final(points)@.len() == old(points)@.len(),
        forall|i: int|
            0 <= i < old(points)@.len() && !(start <= i < end) ==> final(points)@[i] == old(points)@[i],
        forall|i: int|
            start <= i < end ==> #[trigger] final(points)@[i] == moved_point(
                old(points)@[i],
                *transform,
            ),
        forall|i: int| start <= i < end ==> (#[trigger] final(points)@[i]).finite(),
{
    match transform {
        None => {},
        Some(t) => {
            if !t.is_identity() {
                let mut i: usize = start;
                while i < end
                    invariant
                        start <= i <= end <= points@.len(),
                        points@.len() == old(points)@.len(),
                        !(*t == Transform::identity_map()),
                        *transform == Some(*t),
                        forall|k: int|
                            0 <= k < points@.len() && !(start <= k < i) ==> points@[k] == old(points)@[k],
                        forall|k: int|
                            start <= k < i ==> #[trigger] points@[k] == moved_point(
                                old(points)@[k],
                                *transform,
                            ),
                        forall|k: int| start <= k < end ==> (#[trigger] points@[k]).finite(),
                    decreases end - i,
                {
                    let p = points[i];
                    points.set(i, t.apply(p));
                    i += 1;
                }
            }
        },
    }
}

/// Where `transform` takes `p`: `p` itself without a transform or under the
/// identity.
pub open spec fn moved_point(p: Point, transform: Option<Transform>) -> Point {
    match transform {
        None => p,
        Some(t) => if t == Transform::identity_map() {
            p
        } else {
            t.image(p)
        },
    }
}

/// The width of the feather that a shape painted with `brush` gets: the
/// width set, for a brush that antialiases; none otherwise.
pub open spec fn brush_feather(brush: Brush, feathering: int) -> int {
    if brush.antialias {
        feathering
    } else {
        0
    }
}

/// The colour that the feather of a fill painted with `brush` fades to: the
/// colour of the stroke, where that shows.
pub open spec fn brush_fade(brush: Brush) -> Option<Color> {
    if brush.stroke_style.color.shows_nothing() {
        None
    } else {
        Some(brush.stroke_style.color)
    }
}

/// Whether `now` is `before` with the fill of the ring `path` appended: a
/// fan for a convex shape, the triangles of a triangulation otherwise.
pub open spec fn fill_step(
    before: Mesh,
    now: Mesh,
    path: Seq<Point>,
    brush: Brush,
    feathering: int,
    textured: bool,
    shape_type: ShapeType,
) -> bool {
    let f = brush_feather(brush, feathering);
    let color = brush.fill_style.color;
    match shape_type {
        ShapeType::Convex => appended(
            before,
            now,
            convex_vertices(path, color, textured, f, brush_fade(brush)),
            convex_indices(path, color, f, before.vertices@.len() as int),
        ),
        ShapeType::Concave => concave_filled(before, now, path, color, f),
    }
}

/// Whether `now` is `before` with the stroke of the ring `path` appended.
/// A mesh that is full gets no stroke.
pub open spec fn stroke_step(before: Mesh, now: Mesh, path: Seq<Point>, brush: Brush) -> bool {
    if before.vertices@.len() > MAX_VERTICES {
        appended(before, now, Seq::empty(), Seq::empty())
    } else {
        stroked(before, now, path, brush.stroke_style)
    }
}

/// Whether `now` is `before` with the ring `path` drawn into it: first its
/// fill, then its stroke. A ring of too many points, or a mesh that is full,
/// gets nothing.
pub open spec fn ring_drawn(
    before: Mesh,
    now: Mesh,
    path: Seq<Point>,
    brush: Brush,
    feathering: int,
    textured: bool,
    shape_type: ShapeType,
) -> bool {
    if path.len() > MAX_STROKE_POINTS || before.vertices@.len() > MAX_VERTICES {
        appended(before, now, Seq::empty(), Seq::empty())
    } else {
        exists|mid: Mesh|
            ring_steps(before, mid, now, path, brush, feathering, textured, shape_type)
    }
}

/// Whether `mid` is `before` with the fill of the ring appended, and `now`
/// is `mid` with its stroke appended.
pub open spec fn ring_steps(
    before: Mesh,
    mid: Mesh,
    now: Mesh,
    path: Seq<Point>,
    brush: Brush,
    feathering: int,
    textured: bool,
    shape_type: ShapeType,
) -> bool {
    fill_step(before, mid, path, brush, feathering, textured, shape_type) && stroke_step(
        mid,
        now,
        path,
        brush,
    )
}

/// A ring whose fill does not show gets the indices of its stroke and no
/// others. Their number depends on how many points the ring has, on whether
/// it is closed, and on the join and cap of the stroke; where the points lie
/// has no part in it. They are whole triangles on vertices of the mesh.
pub proof fn lemma_ring_stroke_count(
    before: Mesh,
    now: Mesh,
    path: Seq<Point>,
    brush: Brush,
    feathering: int,
    textured: bool,
    shape_type: ShapeType,
)
    requires
        ring_drawn(before, now, path, brush, feathering, textured, shape_type),
        brush.fill_style.color.shows_nothing(),
        path.len() <= MAX_STROKE_POINTS,
        before.vertices@.len() <= MAX_VERTICES,
    ensures
        now.indices@.len() == before.indices@.len() + if stroke_draws(path, brush.stroke_style) {
            stroke_index_count(path, brush.stroke_style)
        } else {
            0
        },
        now.indices@.len() % 3 == 0,
        crate::mesh::indices_within(now.indices@, now.vertices@.len()),
{
    let mid = choose|mid: Mesh|
        ring_steps(before, mid, now, path, brush, feathering, textured, shape_type);
    assert(mid.vertices@ =~= before.vertices@);
    assert(mid.indices@ =~= before.indices@);
    if stroke_draws(path, brush.stroke_style) {
        crate::stroke::lemma_stroke_index_count(
            path,
            brush.stroke_style,
            mid.vertices@.len() as int,
        );
    }
}

/// A mesh with something appended has grown.
pub proof fn lemma_appended_grown(before: Mesh, now: Mesh, v: Seq<Vertex>, i: Seq<u32>)
    requires
        appended(before, now, v, i),
    ensures
        mesh_grown(before, now),
        v.len() == 0 && i.len() == 0 ==> mesh_same(before, now),
{
    assert(now.vertices@.take(before.vertices@.len() as int) =~= before.vertices@);
    assert(now.indices@.take(before.indices@.len() as int) =~= before.indices@);
    if v.len() == 0 && i.len() == 0 {
        assert(now.vertices@ =~= before.vertices@);
        assert(now.indices@ =~= before.indices@);
    }
}

/// A mesh into which a ring was drawn has grown; drawn with a brush that
/// draws nothing, it holds what it held.
pub proof fn lemma_ring_grown(
    before: Mesh,
    now: Mesh,
    path: Seq<Point>,
    brush: Brush,
    feathering: int,
    textured: bool,
    shape_type: ShapeType,
)
    requires
        ring_drawn(before, now, path, brush, feathering, textured, shape_type),
    ensures
        mesh_grown(before, now),
        brush.draws_nothing() ==> mesh_same(before, now),
{
    if path.len() > MAX_STROKE_POINTS || before.vertices@.len() > MAX_VERTICES {
        lemma_appended_grown(before, now, Seq::empty(), Seq::empty());
    } else {
        let mid = choose|mid: Mesh|
            ring_steps(before, mid, now, path, brush, feathering, textured, shape_type);
        lemma_fill_grown(before, mid, path, brush, feathering, textured, shape_type);
        lemma_stroke_grown(mid, now, path, brush);
        lemma_grown_twice(before, mid, now);
    }
}

/// A mesh with a fill appended has grown.
pub proof fn lemma_fill_grown(
    before: Mesh,
    now: Mesh,
    path: Seq<Point>,
    brush: Brush,
    feathering: int,
    textured: bool,
    shape_type: ShapeType,
)
    requires
        fill_step(before, now, path, brush, feathering, textured, shape_type),
    ensures
        mesh_grown(before, now),
        brush.fill_style.color.shows_nothing() ==> mesh_same(before, now),
{
    let f = brush_feather(brush, feathering);
    let color = brush.fill_style.color;
    match shape_type {
        ShapeType::Convex => {
            lemma_appended_grown(
                before,
                now,
                convex_vertices(path, color, textured, f, brush_fade(brush)),
                convex_indices(path, color, f, before.vertices@.len() as int),
            );
        },
        ShapeType::Concave => {
            if !fill_draws(path, color) {
                lemma_appended_grown(before, now, Seq::empty(), Seq::empty());
            } else {
                let t = crate::earcut::triangulated(crate::fill::ring_of(path), Seq::empty());
                lemma_appended_grown(
                    before,
                    now,
                    crate::fill::concave_vertices(path, color, f),
                    crate::fill::concave_indices(
                        t,
                        before.vertices@.len() as int,
                        crate::fill::ring_len(path),
                        f > 0,
                    ) + if f > 0 {
                        crate::fill::feather_band(
                            crate::fill::ring_len(path),
                            before.vertices@.len() as int,
                        )
                    } else {
                        Seq::<u32>::empty()
                    },
                );
            }
        },
    }
}

/// A mesh with a stroke appended has grown.
pub proof fn lemma_stroke_grown(before: Mesh, now: Mesh, path: Seq<Point>, brush: Brush)
    requires
        stroke_step(before, now, path, brush),
    ensures
        mesh_grown(before, now),
        brush.stroke_style.color.shows_nothing() ==> mesh_same(before, now),
{
    if before.vertices@.len() > MAX_VERTICES || !stroke_draws(path, brush.stroke_style) {
        lemma_appended_grown(before, now, Seq::empty(), Seq::empty());
    } else {
        lemma_appended_grown(
            before,
            now,
            crate::stroke::stroke_vertices(path, brush.stroke_style),
            crate::stroke::stroke_indices(path, brush.stroke_style, before.vertices@.len() as int),
        );
    }
}

/// Fills and strokes one flattened ring.
fn draw_ring(
    mesh: &mut Mesh,
    normals: &mut Vec<(i64, i64)>,
    earcut: &mut Earcut,
    path: &[Point],
    brush: &Brush,
    feathering: i32,
    textured: bool,
    shape_type: ShapeType,
)
    requires
        old(mesh).wf(),
        0 <= feathering <= MAX_FEATHER,
        forall|i: int| 0 <= i < path@.len() ==> (#[trigger] path@[i]).finite(),
    ensures
        final(mesh).wf(),
        ring_drawn(*old(mesh), *final(mesh), path@, *brush, feathering as int, textured, shape_type),
{
    proof {
        lemma_appended_nothing(*mesh);
    }
    let f = if brush.antialias {
        feathering
    } else {
        0
    };
    // A mesh or a ring too large for 32-bit indices is left undrawn.
    if path.len() > MAX_STROKE_POINTS || mesh.vertices.len() > MAX_VERTICES {
        return ;
    }
    let ghost m0 = *mesh;
    if !brush.fill_style.color.is_transparent() {
        let stroke_color = brush.stroke_style.color;
        match shape_type {
            ShapeType::Convex => {
                let fade_to = if stroke_color.is_transparent() {
                    None
                } else {
                    Some(stroke_color)
                };
                fill_path_convex(
                    mesh,
                    normals,
                    path,
                    brush.fill_style.color,
                    textured,
                    f,
                    fade_to,
                    |_p: Point| {},
                );
            },
            ShapeType::Concave => {
                fill_path_concave(mesh, normals, path, earcut, &brush.fill_style, f, |_p: Point| {});
            },
        }
    }
    let ghost m1 = *mesh;
    assert(fill_step(m0, m1, path@, *brush, feathering as int, textured, shape_type));
    if mesh.vertices.len() > MAX_VERTICES {
        proof {
            lemma_appended_nothing(m1);
            assert(ring_steps(
                m0,
                m1,
                *mesh,
                path@,
                *brush,
                feathering as int,
                textured,
                shape_type,
            ));
        }
        return ;
    }
    StrokeTessellator::add_to_mesh(mesh, path, &brush.stroke_style);
    assert(ring_steps(m0, m1, *mesh, path@, *brush, feathering as int, textured, shape_type));
}

/// The points of the ring that fills `range` of the flattened points
/// `flat`, moved by `transform`.
pub open spec fn ring_path(flat: Seq<Point>, range: Range<usize>, transform: Option<Transform>) -> Seq<
    Point,
> {
    Seq::new(
        (range.end - range.start) as nat,
        |i: int| moved_point(flat[range.start + i], transform),
    )
}

/// The brush that the subpath `contour` is drawn with: the brush that
/// `brushes` has for it, or `brush` where there are no brushes. Where only
/// one ring is drawn, its brush is looked up under the handle 0.
pub open spec fn ring_brush(
    brush: Brush,
    brushes: Option<&PathBrush>,
    single: bool,
    contour: Contour,
) -> Brush {
    match brushes {
        Some(b) => b.brush_of(
            if single {
                Contour(0)
            } else {
                contour
            },
        ),
        None => brush,
    }
}

/// How the rings of a shape are drawn: with which brush or brushes, how
/// wide a feather, textured or not, as what kind of shape, all of them or the
/// first only, and moved by what.
pub struct Drawing<'a> {
    pub brush: Brush,
    pub brushes: Option<&'a PathBrush>,
    pub feathering: int,
    pub textured: bool,
    pub shape_type: ShapeType,
    pub single: bool,
    pub transform: Option<Transform>,
}

/// Whether `now` is `before` with the first `k` rings drawn into it, one
/// after the other: ring `j` is what fills the range of item `j` among the
/// flattened points, moved by the transform.
pub open spec fn rings_drawn(
    before: Mesh,
    now: Mesh,
    flat: Seq<Point>,
    items: Seq<(Contour, Range<usize>)>,
    how: Drawing,
    k: int,
) -> bool
    decreases k,
{
    if k <= 0 {
        appended(before, now, Seq::empty(), Seq::empty())
    } else {
        exists|mid: Mesh|
            #![trigger last_ring_drawn(mid, now, flat, items, how, k)]
            rings_drawn(before, mid, flat, items, how, k - 1) && last_ring_drawn(
                mid,
                now,
                flat,
                items,
                how,
                k,
            )
    }
}

/// Whether `now` is `mid` with ring `k - 1` drawn into it.
pub open spec fn last_ring_drawn(
    mid: Mesh,
    now: Mesh,
    flat: Seq<Point>,
    items: Seq<(Contour, Range<usize>)>,
    how: Drawing,
    k: int,
) -> bool {
    ring_drawn(
        mid,
        now,
        ring_path(flat, items[k - 1].1, how.transform),
        ring_brush(how.brush, how.brushes, how.single, items[k - 1].0),
        how.feathering,
        how.textured,
        how.shape_type,
    )
}

/// Number of rings that are drawn of `count`: all of them, or the first
/// only.
pub open spec fn rings_to_draw(count: int, single: bool) -> int {
    if single && count > 0 {
        1
    } else {
        count
    }
}

/// Whether `now` is `before` with the path of the given points and verbs
/// drawn into it: the path is flattened with the automatic choice of
/// segments, and its rings are drawn in the order of its subpaths.
pub open spec fn path_drawn(
    before: Mesh,
    now: Mesh,
    points: Seq<Point>,
    verbs: Seq<PathVerb>,
    how: Drawing,
) -> bool {
    let flat = flatten_run(Seq::empty(), points, verbs, 0, verbs.len() as int, 0);
    let items = contour_ranges(Seq::empty(), points, verbs, 0, verbs.len() as int, 0);
    rings_drawn(before, now, flat, items, how, rings_to_draw(items.len() as int, how.single))
}

/// A mesh into which rings were drawn has grown; drawn with one brush that
/// draws nothing, it holds what it held.
pub proof fn lemma_rings_grown(
    before: Mesh,
    now: Mesh,
    flat: Seq<Point>,
    items: Seq<(Contour, Range<usize>)>,
    how: Drawing,
    k: int,
)
    requires
        rings_drawn(before, now, flat, items, how, k),
    ensures
        mesh_grown(before, now),
        how.brushes is None && how.brush.draws_nothing() ==> mesh_same(before, now),
    decreases k,
{
    if k <= 0 {
        lemma_appended_grown(before, now, Seq::empty(), Seq::empty());
    } else {
        let mid = choose|mid: Mesh|
            #![trigger last_ring_drawn(mid, now, flat, items, how, k)]
            rings_drawn(before, mid, flat, items, how, k - 1) && last_ring_drawn(
                mid,
                now,
                flat,
                items,
                how,
                k,
            );
        lemma_rings_grown(before, mid, flat, items, how, k - 1);
        lemma_ring_grown(
            mid,
            now,
            ring_path(flat, items[k - 1].1, how.transform),
            ring_brush(how.brush, how.brushes, how.single, items[k - 1].0),
            how.feathering,
            how.textured,
            how.shape_type,
        );
        lemma_grown_twice(before, mid, now);
    }
}

/// Flattens what `builder` holds into `temp` and draws the rings into
/// `mesh`: the first ring only where `single` is set, every ring otherwise.
/// Each ring is drawn with the brush that `brushes` has for it, or with
/// `brush` where there are no brushes.
fn draw_built(
    builder: &PathBuilder,
    temp: &mut Vec<Point>,
    mesh: &mut Mesh,
    normals: &mut Vec<(i64, i64)>,
    earcut: &mut Earcut,
    brush: &Brush,
    brushes: Option<&PathBrush>,
    feathering: i32,
    shape_type: ShapeType,
    textured: bool,
    single: bool,
    transform: &Option<Transform>,
)
    requires
        builder.wf(),
        !builder.subpath_open(),
        old(mesh).wf(),
        0 <= feathering <= MAX_FEATHER,
    ensures
        final(mesh).wf(),
        path_drawn(
            *old(mesh),
            *final(mesh),
            builder.points(),
            builder.verbs(),
            Drawing {
                brush: *brush,
                brushes,
                feathering: feathering as int,
                textured,
                shape_type,
                single,
                transform: *transform,
            },
        ),
{
    temp.clear();
    let mut geometry = PathGeometryBuilder::new(builder.path_events()).with_auto_segments();
    assert(builder.verbs().take(0) =~= Seq::<PathVerb>::empty());
    let items = geometry.collect(temp);
    let ghost flat = temp@;
    let ghost how = Drawing {
        brush: *brush,
        brushes,
        feathering: feathering as int,
        textured,
        shape_type,
        single,
        transform: *transform,
    };
    let total: usize = if single && items.len() > 0 {
        1
    } else {
        items.len()
    };
    proof {
        lemma_appended_nothing(*mesh);
    }
    let mut k: usize = 0;
    while k < total
        invariant
            k <= total <= items@.len(),
            total == rings_to_draw(items@.len() as int, single),
            0 <= feathering <= MAX_FEATHER,
            mesh.wf(),
            temp@.len() == flat.len(),
            how == (Drawing {
                brush: *brush,
                brushes,
                feathering: feathering as int,
                textured,
                shape_type,
                single,
                transform: *transform,
            }),
            rings_drawn(*old(mesh), *mesh, flat, items@, how, k as int),
            forall|i: int| 0 <= i < temp@.len() ==> (#[trigger] temp@[i]).finite(),
            forall|i: int|
                0 <= i < items@.len() ==> (#[trigger] items@[i]).1.start <= items@[i].1.end
                    <= temp@.len(),
            forall|i: int|
                0 < i < items@.len() ==> (#[trigger] items@[i]).1.start == items@[i - 1].1.end,
            k < items@.len() ==> forall|i: int|
                items@[k as int].1.start <= i < temp@.len() ==> temp@[i] == flat[i],
        decreases total - k,
    {
        let contour = items[k].0;
        let start = items[k].1.start;
        let end = items[k].1.end;
        let own = match brushes {
            Some(b) => b.get_or_default(
                &(if single {
                    Contour(0)
                } else {
                    contour
                }),
            ),
            None => *brush,
        };
        map_points(temp, start, end, transform);
        let ghost before = *mesh;
        let ring = vstd::slice::slice_subrange(temp.as_slice(), start, end);
        proof {
            assert(ring@ =~= ring_path(flat, items@[k as int].1, *transform));
        }
        draw_ring(mesh, normals, earcut, ring, &own, feathering, textured, shape_type);
        proof {
            assert(last_ring_drawn(before, *mesh, flat, items@, how, k as int + 1));
            if k + 1 < items@.len() {
                assert(items@[k as int + 1].1.start == items@[k as int].1.end);
            }
        }
        k += 1;
    }
}

/// A mesh into which a path was drawn has grown; drawn with one brush that
/// draws nothing, it holds what it held.
pub proof fn lemma_path_grown(
    before: Mesh,
    now: Mesh,
    points: Seq<Point>,
    verbs: Seq<PathVerb>,
    how: Drawing,
)
    requires
        path_drawn(before, now, points, verbs, how),
    ensures
        mesh_grown(before, now),
        how.brushes is None && how.brush.draws_nothing() ==> mesh_same(before, now),
{
    let flat = flatten_run(Seq::empty(), points, verbs, 0, verbs.len() as int, 0);
    let items = contour_ranges(Seq::empty(), points, verbs, 0, verbs.len() as int, 0);
    lemma_rings_grown(
        before,
        now,
        flat,
        items,
        how,
        rings_to_draw(items.len() as int, how.single),
    );
}

/// The points of the path that a quad is built as.
pub open spec fn quad_points(quad: Quad) -> Seq<Point> {
    if quad.corners.top_left == 0 && quad.corners.top_right == 0 && quad.corners.bottom_right
        == 0 && quad.corners.bottom_left == 0 {
        rect_points(quad.bounds)
    } else {
        round_rect_points(quad.bounds, quad.corners)
    }
}

/// The verbs of the path that a quad is built as.
pub open spec fn quad_verbs(quad: Quad) -> Seq<PathVerb> {
    if quad.corners.top_left == 0 && quad.corners.top_right == 0 && quad.corners.bottom_right
        == 0 && quad.corners.bottom_left == 0 {
        polygon_verbs(4, true)
    } else {
        round_rect_verbs(quad.bounds, quad.corners)
    }
}

/// Whether `now` is `before` with the shape `primitive` drawn into it: a
/// circle or a quad as one convex ring painted with `brush`; a path ring by
/// ring, each with the brush that the path has for it, untextured.
pub open spec fn primitive_drawn(
    before: Mesh,
    now: Mesh,
    primitive: Primitive,
    brush: Brush,
    feathering: int,
    textured: bool,
    transform: Option<Transform>,
) -> bool {
    match primitive {
        Primitive::Circle(circle) => path_drawn(
            before,
            now,
            circle_points(circle.center, crate::math::abs(circle.radius as int)),
            circle_verbs(),
            Drawing {
                brush,
                brushes: None,
                feathering,
                textured,
                shape_type: ShapeType::Convex,
                single: true,
                transform,
            },
        ),
        Primitive::Quad(quad) => path_drawn(
            before,
            now,
            quad_points(quad),
            quad_verbs(quad),
            Drawing {
                brush,
                brushes: None,
                feathering,
                textured,
                shape_type: ShapeType::Convex,
                single: true,
                transform,
            },
        ),
        Primitive::Path { path, brush: brushes } => path_drawn(
            before,
            now,
            path.points(),
            path.verbs(),
            Drawing {
                brush: brushes.default_brush(),
                brushes: Some(&brushes),
                feathering,
                textured: false,
                shape_type: ShapeType::Concave,
                single: false,
                transform,
            },
        ),
    }
}

/// Shapes in, a mesh out.
pub struct DrawList {
    feathering_px: i32,
    mesh: Mesh,
    builder: PathBuilder,
    temp_path_data: Vec<Point>,
    earcut: Earcut,
    normals: Vec<(i64, i64)>,
}

impl DrawList {
    /// The mesh built so far.
    pub closed spec fn mesh(&self) -> Mesh {
        self.mesh
    }

    /// The width of the feather that antialiased shapes get, in coordinate
    /// units.
    pub closed spec fn feather(&self) -> int {
        self.feathering_px as int
    }

    /// Whether the list is in order: its mesh is whole and its feather is
    /// within bounds.
    pub closed spec fn wf(&self) -> bool {
        &&& self.mesh.wf()
        &&& 0 <= self.feathering_px <= MAX_FEATHER
    }

    /// What a list in order holds.
    pub proof fn lemma_wf(&self)
        requires
            self.wf(),
        ensures
            self.mesh().wf(),
            0 <= self.feather() <= MAX_FEATHER,
    {
    }

    /// An empty list without feather.
    pub fn new() -> (list: DrawList)
        ensures
            list.wf(),
            list.feather() == 0,
            list.mesh().vertices@.len() == 0,
            list.mesh().indices@.len() == 0,
            list.mesh().texture == TextureId::white(),
    {
        DrawList {
            feathering_px: 0,
            mesh: Mesh::new(),
            builder: PathBuilder::new(),
            temp_path_data: Vec::new(),
            earcut: Earcut::new(),
            normals: Vec::new(),
        }
    }

    /// Sets the width of the feather: `value`, kept within
    /// `0..=MAX_FEATHER`.
    pub fn feathering(&mut self, value: i32)
        requires
            old(self).wf(),
        ensures
            final(self).wf(),
            final(self).mesh() == old(self).mesh(),
            final(self).feather() == if value < 0 {
                0
            } else if value > MAX_FEATHER {
                MAX_FEATHER as int
            } else {
                value as int
            },
    {
        self.feathering_px = if value < 0 {
            0
        } else if value > MAX_FEATHER {
            MAX_FEATHER
        } else {
            value
        };
    }

    /// Empties the mesh and the scratch buffers.
    pub fn clear(&mut self)
        requires
            old(self).wf(),
        ensures
            final(self).wf(),
            final(self).feather() == old(self).feather(),
            final(self).mesh().vertices@.len() == 0,
            final(self).mesh().indices@.len() == 0,
            final(self).mesh().texture == old(self).mesh().texture,
    {
        self.mesh.clear();
        self.builder.clear();
        self.temp_path_data.clear();
    }

    /// Number of vertices in the mesh.
    pub fn vertex_count(&self) -> (n: usize)
        ensures
            n == self.mesh().vertices@.len(),
    {
        self.mesh.vertices.len()
    }

    /// Replaces every vertex of `range` by what `f` makes of it. Positions
    /// and triangles outside the range stay.
    pub fn map_range<F: Fn(Vertex) -> Vertex>(&mut self, range: Range<usize>, f: F)
        requires
            old(self).wf(),
            range.start <= range.end <= old(self).mesh().vertices@.len(),
            forall|v: Vertex| call_requires(f, (v,)),
        ensures
            final(self).wf(),
            final(self).feather() == old(self).feather(),
            final(self).mesh().texture == old(self).mesh().texture,
            final(self).mesh().indices@ == old(self).mesh().indices@,
            final(self).mesh().vertices@.len() == old(self).mesh().vertices@.len(),
            forall|i: int|
                0 <= i < old(self).mesh().vertices@.len() && !(range.start <= i < range.end)
                    ==> final(self).mesh().vertices@[i] == old(self).mesh().vertices@[i],
            forall|i: int|
                range.start <= i < range.end ==> call_ensures(
                    f,
                    (old(self).mesh().vertices@[i],),
                    #[trigger] final(self).mesh().vertices@[i],
                ),
    {
        let mut i: usize = range.start;
        while i < range.end
            invariant
                range.start <= i <= range.end <= self.mesh.vertices@.len(),
                self.mesh.vertices@.len() == old(self).mesh.vertices@.len(),
                self.mesh.indices@ == old(self).mesh.indices@,
                self.mesh.texture == old(self).mesh.texture,
                self.feathering_px == old(self).feathering_px,
                forall|v: Vertex| call_requires(f, (v,)),
                forall|k: int|
                    0 <= k < self.mesh.vertices@.len() && !(range.start <= k < i)
                        ==> self.mesh.vertices@[k] == old(self).mesh.vertices@[k],
                forall|k: int|
                    range.start <= k < i ==> call_ensures(
                        f,
                        (old(self).mesh.vertices@[k],),
                        #[trigger] self.mesh.vertices@[k],
                    ),
            decreases range.end - i,
        {
            let v = self.mesh.vertices[i];
            let w = f(v);
            self.mesh.vertices.set(i, w);
            i += 1;
        }
    }

    /// Places the texture coordinates of the vertices `start..end` in the
    /// space of the texture that holds the tile `info`; or gives them all
    /// the coordinate `white`, where there is one.
    pub fn remap_uv(
        &mut self,
        start: usize,
        end: usize,
        info: &crate::atlas::AtlasTextureInfo,
        white: Option<crate::mesh::Uv>,
    )
        requires
            old(self).wf(),
            start <= end <= old(self).mesh().vertices@.len(),
        ensures
            final(self).wf(),
            final(self).feather() == old(self).feather(),
            final(self).mesh().texture == old(self).mesh().texture,
            final(self).mesh().indices@ == old(self).mesh().indices@,
            final(self).mesh().vertices@.len() == old(self).mesh().vertices@.len(),
            forall|i: int|
                0 <= i < old(self).mesh().vertices@.len() && !(start <= i < end) ==> final(self).mesh().vertices@[i] == old(self).mesh().vertices@[i],
            forall|i: int|
                start <= i < end ==> #[trigger] final(self).mesh().vertices@[i] == (Vertex {
                    uv: match white {
                        Some(uv) => uv,
                        None => info.in_atlas(old(self).mesh().vertices@[i].uv),
                    },
                    ..old(self).mesh().vertices@[i]
                }),
    {
        let mut i: usize = start;
        while i < end
            invariant
                start <= i <= end <= self.mesh.vertices@.len(),
                self.mesh.vertices@.len() == old(self).mesh.vertices@.len(),
                self.mesh.indices@ == old(self).mesh.indices@,
                self.mesh.texture == old(self).mesh.texture,
                self.feathering_px == old(self).feathering_px,
                forall|k: int|
                    0 <= k < self.mesh.vertices@.len() && !(start <= k < i)
                        ==> self.mesh.vertices@[k] == old(self).mesh.vertices@[k],
                forall|k: int|
                    start <= k < i ==> #[trigger] self.mesh.vertices@[k] == (Vertex {
                        uv: match white {
                            Some(uv) => uv,
                            None => info.in_atlas(old(self).mesh.vertices@[k].uv),
                        },
                        ..old(self).mesh.vertices@[k]
                    }),
            decreases end - i,
        {
            let v = self.mesh.vertices[i];
            let uv = match white {
                Some(uv) => uv,
                None => info.uv_to_atlas_space(v.uv),
            };
            self.mesh.vertices.set(i, Vertex { pos: v.pos, color: v.color, uv });
            i += 1;
        }
    }

    /// Adds a quad: a rectangle, or a rounded rectangle where the quad has
    /// corner radii. Its ring is filled as a convex shape and stroked.
    /// Nothing is added with a brush that draws nothing.
    pub fn add_quad(
        &mut self,
        quad: &Quad,
        brush: &Brush,
        textured: bool,
        transform: Option<Transform>,
    )
        requires
            old(self).wf(),
            quad.bounds.wf(),
            quad.corners.top_left > i32::MIN,
            quad.corners.top_right > i32::MIN,
            quad.corners.bottom_right > i32::MIN,
            quad.corners.bottom_left > i32::MIN,
        ensures
            final(self).wf(),
            final(self).feather() == old(self).feather(),
            path_drawn(
                old(self).mesh(),
                final(self).mesh(),
                quad_points(*quad),
                quad_verbs(*quad),
                Drawing {
                    brush: *brush,
                    brushes: None,
                    feathering: old(self).feather(),
                    textured,
                    shape_type: ShapeType::Convex,
                    single: true,
                    transform,
                },
            ),
            mesh_grown(old(self).mesh(), final(self).mesh()),
            brush.draws_nothing() ==> mesh_same(old(self).mesh(), final(self).mesh()),
    {
        self.builder.clear();
        if quad.corners.is_zero() {
            let _ = self.builder.rect(&quad.bounds);
        } else {
            let _ = self.builder.round_rect(&quad.bounds, &quad.corners);
        }
        proof {
            assert(self.builder.points() =~= quad_points(*quad));
            assert(self.builder.verbs() =~= quad_verbs(*quad));
        }
        draw_built(
            &self.builder,
            &mut self.temp_path_data,
            &mut self.mesh,
            &mut self.normals,
            &mut self.earcut,
            brush,
            None,
            self.feathering_px,
            ShapeType::Convex,
            textured,
            true,
            &transform,
        );
        proof {
            lemma_path_grown(
                old(self).mesh,
                self.mesh,
                quad_points(*quad),
                quad_verbs(*quad),
                Drawing {
                    brush: *brush,
                    brushes: None,
                    feathering: old(self).feather(),
                    textured,
                    shape_type: ShapeType::Convex,
                    single: true,
                    transform,
                },
            );
        }
    }

    /// Adds a circle. Its ring is filled as a convex shape and stroked.
    /// Nothing is added with a brush that draws nothing.
    pub fn add_circle(
        &mut self,
        circle: &Circle,
        brush: &Brush,
        textured: bool,
        transform: Option<Transform>,
    )
        requires
            old(self).wf(),
            -COORD_MAX <= circle.radius <= COORD_MAX,
            -COORD_MAX <= circle.center.x - crate::math::abs(circle.radius as int),
            circle.center.x + crate::math::abs(circle.radius as int) <= COORD_MAX,
            -COORD_MAX <= circle.center.y - crate::math::abs(circle.radius as int),
            circle.center.y + crate::math::abs(circle.radius as int) <= COORD_MAX,
        ensures
            final(self).wf(),
            final(self).feather() == old(self).feather(),
            path_drawn(
                old(self).mesh(),
                final(self).mesh(),
                circle_points(circle.center, crate::math::abs(circle.radius as int)),
                circle_verbs(),
                Drawing {
                    brush: *brush,
                    brushes: None,
                    feathering: old(self).feather(),
                    textured,
                    shape_type: ShapeType::Convex,
                    single: true,
                    transform,
                },
            ),
            mesh_grown(old(self).mesh(), final(self).mesh()),
            brush.draws_nothing() ==> mesh_same(old(self).mesh(), final(self).mesh()),
    {
        self.builder.clear();
        let _ = self.builder.circle(circle.center, circle.radius);
        proof {
            assert(self.builder.points() =~= circle_points(
                circle.center,
                crate::math::abs(circle.radius as int),
            ));
            assert(self.builder.verbs() =~= circle_verbs());
        }
        draw_built(
            &self.builder,
            &mut self.temp_path_data,
            &mut self.mesh,
            &mut self.normals,
            &mut self.earcut,
            brush,
            None,
            self.feathering_px,
            ShapeType::Convex,
            textured,
            true,
            &transform,
        );
        proof {
            lemma_path_grown(
                old(self).mesh,
                self.mesh,
                circle_points(circle.center, crate::math::abs(circle.radius as int)),
                circle_verbs(),
                Drawing {
                    brush: *brush,
                    brushes: None,
                    feathering: old(self).feather(),
                    textured,
                    shape_type: ShapeType::Convex,
                    single: true,
                    transform,
                },
            );
        }
    }

    /// Adds a path: every subpath is filled, as a ring that need not be
    /// convex, and stroked with the brush that `brush` has for it.
    pub fn add_path(&mut self, path: &Path, brush: &PathBrush, transform: Option<Transform>)
        requires
            old(self).wf(),
            path.wf(),
        ensures
            final(self).wf(),
            final(self).feather() == old(self).feather(),
            path_drawn(
                old(self).mesh(),
                final(self).mesh(),
                path.points(),
                path.verbs(),
                Drawing {
                    brush: brush.default_brush(),
                    brushes: Some(brush),
                    feathering: old(self).feather(),
                    textured: false,
                    shape_type: ShapeType::Concave,
                    single: false,
                    transform,
                },
            ),
            mesh_grown(old(self).mesh(), final(self).mesh()),
    {
        self.builder.clear();
        let mut events = path.events();
        proof {
            assert(path.verbs().take(0) =~= Seq::<PathVerb>::empty());
        }
        self.builder.extend(&mut events);
        proof {
            assert(path.verbs().skip(0) =~= path.verbs());
            assert(path.points().skip(0) =~= path.points());
            assert(self.builder.verbs() =~= path.verbs());
            assert(self.builder.points() =~= path.points());
        }
        let fallback = brush.get_default();
        draw_built(
            &self.builder,
            &mut self.temp_path_data,
            &mut self.mesh,
            &mut self.normals,
            &mut self.earcut,
            &fallback,
            Some(brush),
            self.feathering_px,
            ShapeType::Concave,
            false,
            false,
            &transform,
        );
        proof {
            lemma_path_grown(
                old(self).mesh,
                self.mesh,
                path.points(),
                path.verbs(),
                Drawing {
                    brush: brush.default_brush(),
                    brushes: Some(brush),
                    feathering: old(self).feather(),
                    textured: false,
                    shape_type: ShapeType::Concave,
                    single: false,
                    transform,
                },
            );
        }
    }

    /// Adds a shape of any kind: a circle as `add_circle` does, a quad as
    /// `add_quad` does, and a path as `add_path` does, with its own brushes.
    pub fn add_primitive(
        &mut self,
        primitive: &Primitive,
        brush: &Brush,
        textured: bool,
        transform: Option<Transform>,
    )
        requires
            old(self).wf(),
            primitive_ok(*primitive),
        ensures
            final(self).wf(),
            final(self).feather() == old(self).feather(),
            primitive_drawn(
                old(self).mesh(),
                final(self).mesh(),
                *primitive,
                *brush,
                old(self).feather(),
                textured,
                transform,
            ),
            mesh_grown(old(self).mesh(), final(self).mesh()),
            !(primitive is Path) && brush.draws_nothing() ==> mesh_same(
                old(self).mesh(),
                final(self).mesh(),
            ),
    {
        match primitive {
            Primitive::Circle(circle) => self.add_circle(circle, brush, textured, transform),
            Primitive::Quad(quad) => self.add_quad(quad, brush, textured, transform),
            Primitive::Path { path, brush } => self.add_path(path, brush, transform),
        }
    }

    /// Hands out the mesh and leaves an empty one with the white texture.
    pub fn build(&mut self) -> (mesh: Mesh)
        requires
            old(self).wf(),
        ensures
            mesh == old(self).mesh(),
            mesh.wf(),
            final(self).wf(),
            final(self).feather() == old(self).feather(),
            final(self).mesh().vertices@.len() == 0,
            final(self).mesh().indices@.len() == 0,
            final(self).mesh().texture == TextureId::white(),
    {
        let mut out = Mesh::new();
        core::mem::swap(&mut self.mesh, &mut out);
        out
    }
}

/// Whether the shape can be built as a path: the corners of a quad and
/// the extremes of a circle are finite points, and a path is whole.
pub open spec fn primitive_ok(primitive: Primitive) -> bool {
    match primitive {
        Primitive::Circle(circle) => {
            &&& -COORD_MAX <= circle.radius <= COORD_MAX
            &&& -COORD_MAX <= circle.center.x - crate::math::abs(circle.radius as int)
            &&& circle.center.x + crate::math::abs(circle.radius as int) <= COORD_MAX
            &&& -COORD_MAX <= circle.center.y - crate::math::abs(circle.radius as int)
            &&& circle.center.y + crate::math::abs(circle.radius as int) <= COORD_MAX
        },
        Primitive::Quad(quad) => {
            &&& quad.bounds.wf()
            &&& quad.corners.top_left > i32::MIN
            &&& quad.corners.top_right > i32::MIN
            &&& quad.corners.bottom_right > i32::MIN
            &&& quad.corners.bottom_left > i32::MIN
        },
        Primitive::Path { path, brush } => path.wf(),
    }
}

impl Default for DrawList {
    fn default() -> (list: DrawList)
        ensures
            list.wf(),
            list.feather() == 0,
            list.mesh().vertices@.len() == 0,
            list.mesh().indices@.len() == 0,
    {
        DrawList::new()
    }
}

} // verus!

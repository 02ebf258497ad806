//! Shapes for the path builder: polygons, rectangles, rounded rectangles
//! and circles, each written in terms of `begin`, `line_to`, `cubic_to` and
//! `end`; and the replay of one path into another.

use super::begin_offset;
use super::builder::PathBuilder;
use super::in_subpath;
use super::lemma_begin_consumed;
use super::lemma_closes_prefix;
use super::lemma_prefix;
use super::lemma_push_verb;
use super::path_data_ok;
use super::points_used;
use super::Contour;
use super::PathEvent;
use super::PathEventsIter;
use super::PathVerb;
use super::Point;
use super::Polygon;
use super::COORD_MAX;
use crate::math::abs;
use crate::math::div_round;
use crate::math::min;
use crate::math::Corners;
use crate::math::Rect;
use vstd::prelude::*;

verus! {

/// Numerator of the circle constant 0.5519150244935106 over 2^32: the
/// distance of a control point from its end point, per unit of radius, in the
/// cubic curve that stands for a quarter circle.
pub const ARC_FACTOR: i64 = 2370456980;

/// Denominator of the circle constant.
pub const ARC_SCALE: i64 = 0x1_0000_0000;

/// `radius` times the circle constant, rounded to the nearest unit.
pub open spec fn arc_handle(radius: int) -> int {
    div_round(radius * ARC_FACTOR as int, ARC_SCALE as int)
}

/// The radii of a rounded rectangle of size `w` by `h` after clamping, as
/// `(top_left, top_right, bottom_right, bottom_left)`: each magnitude is cut
/// to the shorter side, then each pair that shares a side and together
/// exceeds that side gives up half the excess each, rounded up; the pairs
/// are taken in the order top, bottom, right, left.
pub open spec fn clamped_radii(w: int, h: int, corners: Corners) -> (int, int, int, int) {
    let m = min(w, h);
    let tl0 = min(abs(corners.top_left as int), m);
    let tr0 = min(abs(corners.top_right as int), m);
    let bl0 = min(abs(corners.bottom_left as int), m);
    let br0 = min(abs(corners.bottom_right as int), m);
    let (tl1, tr1) = shrink_pair(tl0, tr0, w);
    let (bl1, br1) = shrink_pair(bl0, br0, w);
    let (tr2, br2) = shrink_pair(tr1, br1, h);
    let (tl2, bl2) = shrink_pair(tl1, bl1, h);
    (tl2, tr2, br2, bl2)
}

/// Two radii along a side of length `side`: unchanged where they fit, else
/// each less half the excess, rounded up.
pub open spec fn shrink_pair(a: int, b: int, side: int) -> (int, int) {
    if a + b > side {
        let cut = (a + b - side + 1) / 2;
        (a - cut, b - cut)
    } else {
        (a, b)
    }
}

/// Clamped radii are not negative, none exceeds the shorter side, and no two
/// that share a side exceed it together: the straight edges between the
/// corner arcs never overlap and never run backwards.
pub proof fn lemma_clamped_radii_fit(w: int, h: int, corners: Corners)
    requires
        w >= 0,
        h >= 0,
    ensures
        ({
            let (tl, tr, br, bl) = clamped_radii(w, h, corners);
            &&& 0 <= tl <= min(w, h)
            &&& 0 <= tr <= min(w, h)
            &&& 0 <= br <= min(w, h)
            &&& 0 <= bl <= min(w, h)
            &&& tl + tr <= w
            &&& bl + br <= w
            &&& tr + br <= h
            &&& tl + bl <= h
        }),
{
}

fn shrink_pair_exec(a: i32, b: i32, side: i32) -> (r: (i32, i32))
    requires
        0 <= a <= side,
        0 <= b <= side,
    ensures
        (r.0 as int, r.1 as int) == shrink_pair(a as int, b as int, side as int),
        0 <= r.0 <= a,
        0 <= r.1 <= b,
        r.0 + r.1 <= side,
{
    let sum: i64 = a as i64 + b as i64;
    if sum > side as i64 {
        let cut: i64 = (sum - side as i64 + 1) / 2;
        ((a as i64 - cut) as i32, (b as i64 - cut) as i32)
    } else {
        (a, b)
    }
}

/// The clamped radii of a rounded rectangle of size `w` by `h`.
fn clamp_radii(w: i32, h: i32, corners: &Corners) -> (r: (i32, i32, i32, i32))
    requires
        w >= 0,
        h >= 0,
        corners.top_left > i32::MIN,
        corners.top_right > i32::MIN,
        corners.bottom_right > i32::MIN,
        corners.bottom_left > i32::MIN,
    ensures
        (r.0 as int, r.1 as int, r.2 as int, r.3 as int) == clamped_radii(
            w as int,
            h as int,
            *corners,
        ),
        0 <= r.0 <= min(w as int, h as int),
        0 <= r.1 <= min(w as int, h as int),
        0 <= r.2 <= min(w as int, h as int),
        0 <= r.3 <= min(w as int, h as int),
        r.0 + r.1 <= w,
        r.3 + r.2 <= w,
        r.1 + r.2 <= h,
        r.0 + r.3 <= h,
{
    let min_wh = min_i32(w, h);
    let tl = min_i32(abs_i32(corners.top_left), min_wh);
    let tr = min_i32(abs_i32(corners.top_right), min_wh);
    let bl = min_i32(abs_i32(corners.bottom_left), min_wh);
    let br = min_i32(abs_i32(corners.bottom_right), min_wh);
    let (tl, tr) = shrink_pair_exec(tl, tr, w);
    let (bl, br) = shrink_pair_exec(bl, br, w);
    let (tr, br) = shrink_pair_exec(tr, br, h);
    let (tl, bl) = shrink_pair_exec(tl, bl, h);
    (tl, tr, br, bl)
}

fn abs_i32(v: i32) -> (r: i32)
    requires
        v > i32::MIN,
    ensures
        r == abs(v as int),
{
    if v < 0 {
        -v
    } else {
        v
    }
}

fn min_i32(a: i32, b: i32) -> (r: i32)
    ensures
        r == min(a as int, b as int),
{
    if a <= b {
        a
    } else {
        b
    }
}

/// `radius` times the circle constant, rounded to the nearest unit.
pub fn arc_handle_exec(radius: i32) -> (d: i32)
    requires
        0 <= radius <= 2 * COORD_MAX,
    ensures
        d == arc_handle(radius as int),
        0 <= d <= radius,
{
    let product: i64 = radius as i64 * ARC_FACTOR;
    let d: i64 = (2 * product + ARC_SCALE) / (2 * ARC_SCALE);
    assert(0 <= d <= radius) by {
        assert(2 * product + ARC_SCALE <= 2 * ARC_SCALE * radius + ARC_SCALE);
    }
    d as i32
}

/// The points that a polygon adds: its own, and a copy of the first where it
/// is closed.
pub open spec fn polygon_points(points: Seq<Point>, closed: bool) -> Seq<Point> {
    if points.len() == 0 {
        Seq::empty()
    } else if closed {
        points.push(points[0])
    } else {
        points
    }
}

/// The verbs that a polygon of `n` points adds.
pub open spec fn polygon_verbs(n: nat, closed: bool) -> Seq<PathVerb> {
    if n == 0 {
        Seq::empty()
    } else {
        seq![PathVerb::Begin] + Seq::new((n - 1) as nat, |i: int| PathVerb::LineTo) + seq![
            if closed {
                PathVerb::Close
            } else {
                PathVerb::End
            },
        ]
    }
}

/// The points that a rectangle adds: its corners clockwise from the top
/// left, and the top left again.
pub open spec fn rect_points(rect: Rect) -> Seq<Point> {
    let x0 = rect.x;
    let y0 = rect.y;
    let x1 = (rect.x + rect.width) as i32;
    let y1 = (rect.y + rect.height) as i32;
    seq![
        Point { x: x0, y: y0 },
        Point { x: x1, y: y0 },
        Point { x: x1, y: y1 },
        Point { x: x0, y: y1 },
        Point { x: x0, y: y0 },
    ]
}

/// The points that a circle of radius `r >= 0` about `c` adds: four cubic
/// curves from the leftmost point through the top, and the leftmost point
/// again.
pub open spec fn circle_points(c: Point, r: int) -> Seq<Point> {
    let d = arc_handle(r);
    let x = c.x as int;
    let y = c.y as int;
    seq![
        pt(x - r, y),
        pt(x - r, y - d),
        pt(x - d, y - r),
        pt(x, y - r),
        pt(x + d, y - r),
        pt(x + r, y - d),
        pt(x + r, y),
        pt(x + r, y + d),
        pt(x + d, y + r),
        pt(x, y + r),
        pt(x - d, y + r),
        pt(x - r, y + d),
        pt(x - r, y),
        pt(x - r, y),
    ]
}

/// The point with the given coordinates.
pub open spec fn pt(x: int, y: int) -> Point {
    Point { x: x as i32, y: y as i32 }
}

/// The verbs that a circle adds.
pub open spec fn circle_verbs() -> Seq<PathVerb> {
    seq![
        PathVerb::Begin,
        PathVerb::CubicTo,
        PathVerb::CubicTo,
        PathVerb::CubicTo,
        PathVerb::CubicTo,
        PathVerb::Close,
    ]
}

/// The three points of a corner arc where `drawn`, nothing otherwise.
pub open spec fn arc_points(drawn: bool, c1: Point, c2: Point, to: Point) -> Seq<Point> {
    if drawn {
        seq![c1, c2, to]
    } else {
        Seq::empty()
    }
}

/// The verb of a corner arc where `drawn`, nothing otherwise.
pub open spec fn arc_verbs(drawn: bool) -> Seq<PathVerb> {
    if drawn {
        seq![PathVerb::CubicTo]
    } else {
        Seq::empty()
    }
}

/// The four clamped radii of a rounded rectangle with the handle of each:
/// top left, top right, bottom right, bottom left.
pub struct CornerArcs {
    pub tl: int,
    pub tr: int,
    pub br: int,
    pub bl: int,
    pub tl_d: int,
    pub tr_d: int,
    pub br_d: int,
    pub bl_d: int,
}

/// The ring of a rounded rectangle with the corners `(x0, y0)` and
/// `(x1, y1)`. It starts below the top-left corner and runs clockwise: an
/// arc round each corner, a straight edge along each side, and the start
/// again. Each arc is drawn where the radius of its corner is positive.
pub open spec fn ring_points(x0: int, y0: int, x1: int, y1: int, c: CornerArcs) -> Seq<Point> {
    seq![pt(x0, y0 + c.tl)] + arc_points(
        c.tl > 0,
        pt(x0, y0 + c.tl - c.tl_d),
        pt(x0 + c.tl - c.tl_d, y0),
        pt(x0 + c.tl, y0),
    ) + seq![pt(x1 - c.tr, y0)] + arc_points(
        c.tr > 0,
        pt(x1 - c.tr + c.tr_d, y0),
        pt(x1, y0 + c.tr - c.tr_d),
        pt(x1, y0 + c.tr),
    ) + seq![pt(x1, y1 - c.br)] + arc_points(
        c.br > 0,
        pt(x1, y1 - c.br + c.br_d),
        pt(x1 - c.br + c.br_d, y1),
        pt(x1 - c.br, y1),
    ) + seq![pt(x0 + c.bl, y1)] + arc_points(
        c.bl > 0,
        pt(x0 + c.bl - c.bl_d, y1),
        pt(x0, y1 - c.bl + c.bl_d),
        pt(x0, y1 - c.bl),
    ) + seq![pt(x0, y0 + c.tl)]
}

/// The verbs of the ring of a rounded rectangle.
pub open spec fn ring_verbs(c: CornerArcs) -> Seq<PathVerb> {
    seq![PathVerb::Begin] + arc_verbs(c.tl > 0) + seq![PathVerb::LineTo] + arc_verbs(c.tr > 0)
        + seq![PathVerb::LineTo] + arc_verbs(c.br > 0) + seq![PathVerb::LineTo] + arc_verbs(
        c.bl > 0,
    ) + seq![PathVerb::Close]
}

/// The clamped radii of a rounded rectangle, each with its handle.
pub open spec fn corner_arcs(rect: Rect, corners: Corners) -> CornerArcs {
    let (tl, tr, br, bl) = clamped_radii(rect.width as int, rect.height as int, corners);
    CornerArcs {
        tl,
        tr,
        br,
        bl,
        tl_d: arc_handle(tl),
        tr_d: arc_handle(tr),
        br_d: arc_handle(br),
        bl_d: arc_handle(bl),
    }
}

/// The points that a rounded rectangle adds.
pub open spec fn round_rect_points(rect: Rect, corners: Corners) -> Seq<Point> {
    ring_points(
        rect.x as int,
        rect.y as int,
        rect.x + rect.width,
        rect.y + rect.height,
        corner_arcs(rect, corners),
    )
}

/// The verbs that a rounded rectangle adds.
pub open spec fn round_rect_verbs(rect: Rect, corners: Corners) -> Seq<PathVerb> {
    ring_verbs(corner_arcs(rect, corners))
}

/// The pieces of a ring, appended one after the other, are the ring behind
/// what was there.
pub proof fn lemma_ring_assembles<T>(
    base: Seq<T>,
    start: T,
    a1: Seq<T>,
    e1: T,
    a2: Seq<T>,
    e2: T,
    a3: Seq<T>,
    e3: T,
    a4: Seq<T>,
    last: T,
)
    ensures
        base.push(start) + a1 + seq![e1] + a2 + seq![e2] + a3 + seq![e3] + a4 + seq![last] == base
            + (seq![start] + a1 + seq![e1] + a2 + seq![e2] + a3 + seq![e3] + a4 + seq![last]),
{
    assert(base.push(start) + a1 + seq![e1] + a2 + seq![e2] + a3 + seq![e3] + a4 + seq![last]
        =~= base + (seq![start] + a1 + seq![e1] + a2 + seq![e2] + a3 + seq![e3] + a4 + seq![
        last,
    ]));
}

/// With every radius set to half the shorter side, clamping changes nothing
/// and the straight edges keep a length that is not negative: the shape is
/// the stadium, or the circle where the sides are equal.
pub proof fn lemma_stadium_radii(w: int, h: int, corners: Corners)
    requires
        w >= 0,
        h >= 0,
        corners.top_left == min(w, h) / 2,
        corners.top_right == min(w, h) / 2,
        corners.bottom_right == min(w, h) / 2,
        corners.bottom_left == min(w, h) / 2,
    ensures
        ({
            let r = min(w, h) / 2;
            &&& clamped_radii(w, h, corners) == (r, r, r, r)
            &&& w - 2 * r >= 0
            &&& h - 2 * r >= 0
        }),
{
}

impl PathBuilder {
    /// Adds the points of `polygon` as one subpath of straight edges and
    /// ends it, closed or open as the polygon says. A polygon without points
    /// adds nothing and gives the invalid handle.
    pub fn polygon(&mut self, polygon: Polygon<'_>) -> (contour: Contour)
        requires
            old(self).wf(),
            !old(self).subpath_open(),
            forall|i: int| 0 <= i < polygon.points@.len() ==> (#[trigger] polygon.points@[i]).finite(),
        ensures
            final(self).wf(),
            !final(self).subpath_open(),
            final(self).points() == old(self).points() + polygon_points(
                polygon.points@,
                polygon.closed,
            ),
            final(self).verbs() == old(self).verbs() + polygon_verbs(
                polygon.points@.len(),
                polygon.closed,
            ),
            polygon.points@.len() == 0 ==> contour == Contour(0),
            polygon.points@.len() > 0 ==> contour.0 == final(self).points().len(),
    {
        let n = polygon.points.len();
        if n == 0 {
            assert(self.points() + Seq::<Point>::empty() =~= self.points());
            assert(self.verbs() + Seq::<PathVerb>::empty() =~= self.verbs());
            return Contour::invalid();
        }
        self.begin(polygon.points[0]);
        self.reserve(n, 0);
        let mut i: usize = 1;
        while i < n
            invariant
                1 <= i <= n,
                n == polygon.points@.len(),
                self.wf(),
                self.subpath_open(),
                self.first_point() == polygon.points@[0],
                self.points() == old(self).points() + polygon.points@.take(i as int),
                self.verbs() == old(self).verbs() + seq![PathVerb::Begin] + Seq::new(
                    (i - 1) as nat,
                    |j: int| PathVerb::LineTo,
                ),
                forall|j: int|
                    0 <= j < polygon.points@.len() ==> (#[trigger] polygon.points@[j]).finite(),
            decreases n - i,
        {
            let ghost before_points = self.points();
            let ghost before_verbs = self.verbs();
            self.line_to(polygon.points[i]);
            proof {
                assert(polygon.points@.take(i as int + 1) =~= polygon.points@.take(i as int).push(
                    polygon.points@[i as int],
                ));
                assert(self.points() =~= old(self).points() + polygon.points@.take(i as int + 1));
                assert(self.verbs() =~= old(self).verbs() + seq![PathVerb::Begin] + Seq::new(
                    i as nat,
                    |j: int| PathVerb::LineTo,
                ));
            }
            i += 1;
        }
        let contour = self.end(polygon.closed);
        proof {
            assert(polygon.points@.take(n as int) =~= polygon.points@);
            assert(self.points() =~= old(self).points() + polygon_points(
                polygon.points@,
                polygon.closed,
            ));
            assert(self.verbs() =~= old(self).verbs() + polygon_verbs(
                polygon.points@.len(),
                polygon.closed,
            ));
        }
        contour
    }

    /// Adds the closed triangle `a`, `b`, `c`.
    pub fn triangle(&mut self, a: Point, b: Point, c: Point) -> (contour: Contour)
        requires
            old(self).wf(),
            !old(self).subpath_open(),
            a.finite(),
            b.finite(),
            c.finite(),
        ensures
            final(self).wf(),
            !final(self).subpath_open(),
            final(self).points() == old(self).points() + seq![a, b, c, a],
            final(self).verbs() == old(self).verbs() + seq![
                PathVerb::Begin,
                PathVerb::LineTo,
                PathVerb::LineTo,
                PathVerb::Close,
            ],
            contour.0 == final(self).points().len(),
    {
        self.reserve(3, 0);
        self.begin(a);
        self.line_to(b);
        self.line_to(c);
        let contour = self.end(true);
        proof {
            assert(self.points() =~= old(self).points() + seq![a, b, c, a]);
            assert(self.verbs() =~= old(self).verbs() + seq![
                PathVerb::Begin,
                PathVerb::LineTo,
                PathVerb::LineTo,
                PathVerb::Close,
            ]);
        }
        contour
    }

    /// Adds `rect` as a closed subpath, clockwise from its top-left corner.
    pub fn rect(&mut self, rect: &Rect) -> (contour: Contour)
        requires
            old(self).wf(),
            !old(self).subpath_open(),
            rect.wf(),
        ensures
            final(self).wf(),
            !final(self).subpath_open(),
            final(self).points() == old(self).points() + rect_points(*rect),
            final(self).verbs() == old(self).verbs() + polygon_verbs(4, true),
            contour.0 == final(self).points().len(),
    {
        self.begin(rect.top_left());
        self.reserve(4, 0);
        self.line_to(rect.top_right());
        self.line_to(rect.bottom_right());
        self.line_to(rect.bottom_left());
        let contour = self.end(true);
        proof {
            assert(self.points() =~= old(self).points() + rect_points(*rect));
            assert(self.verbs() =~= old(self).verbs() + polygon_verbs(4, true));
        }
        contour
    }

    /// Adds a circle about `center` as a closed subpath of four cubic
    /// curves. The sign of `radius` is ignored.
    pub fn circle(&mut self, center: Point, radius: i32) -> (contour: Contour)
        requires
            old(self).wf(),
            !old(self).subpath_open(),
            -COORD_MAX <= radius <= COORD_MAX,
            -COORD_MAX <= center.x - abs(radius as int),
            center.x + abs(radius as int) <= COORD_MAX,
            -COORD_MAX <= center.y - abs(radius as int),
            center.y + abs(radius as int) <= COORD_MAX,
        ensures
            final(self).wf(),
            !final(self).subpath_open(),
            final(self).points() == old(self).points() + circle_points(
                center,
                abs(radius as int),
            ),
            final(self).verbs() == old(self).verbs() + circle_verbs(),
            contour.0 == final(self).points().len(),
    {
        let r = abs_i32(radius);
        let d = arc_handle_exec(r);
        let x = center.x;
        let y = center.y;
        self.begin(Point { x: x - r, y });
        self.cubic_to(Point { x: x - r, y: y - d }, Point { x: x - d, y: y - r }, Point { x, y: y - r });
        self.cubic_to(Point { x: x + d, y: y - r }, Point { x: x + r, y: y - d }, Point { x: x + r, y });
        self.cubic_to(Point { x: x + r, y: y + d }, Point { x: x + d, y: y + r }, Point { x, y: y + r });
        self.cubic_to(Point { x: x - d, y: y + r }, Point { x: x - r, y: y + d }, Point { x: x - r, y });
        let contour = self.close();
        proof {
            assert(self.points() =~= old(self).points() + circle_points(center, abs(radius as int)));
            assert(self.verbs() =~= old(self).verbs() + circle_verbs());
        }
        contour
    }

    /// Adds `rect` with rounded corners as a closed subpath. The radii are
    /// clamped first, so that the arcs fit the rectangle; the sign of a
    /// radius is ignored.
    pub fn round_rect(&mut self, rect: &Rect, corners: &Corners) -> (contour: Contour)
        requires
            old(self).wf(),
            !old(self).subpath_open(),
            rect.wf(),
            corners.top_left > i32::MIN,
            corners.top_right > i32::MIN,
            corners.bottom_right > i32::MIN,
            corners.bottom_left > i32::MIN,
        ensures
            final(self).wf(),
            !final(self).subpath_open(),
            final(self).points() == old(self).points() + round_rect_points(*rect, *corners),
            final(self).verbs() == old(self).verbs() + round_rect_verbs(*rect, *corners),
            contour.0 == final(self).points().len(),
    {
        let x0 = rect.x;
        let y0 = rect.y;
        let x1 = rect.x + rect.width;
        let y1 = rect.y + rect.height;
        let (tl, tr, br, bl) = clamp_radii(rect.width, rect.height, corners);
        let tl_d = arc_handle_exec(tl);
        let tr_d = arc_handle_exec(tr);
        let br_d = arc_handle_exec(br);
        let bl_d = arc_handle_exec(bl);
        self.ring(x0, y0, x1, y1, (tl, tr, br, bl), (tl_d, tr_d, br_d, bl_d))
    }

    /// Adds the ring of a rounded rectangle with the given corners, radii
    /// and handles.
    fn ring(
        &mut self,
        x0: i32,
        y0: i32,
        x1: i32,
        y1: i32,
        radii: (i32, i32, i32, i32),
        handles: (i32, i32, i32, i32),
    ) -> (contour: Contour)
        requires
            old(self).wf(),
            !old(self).subpath_open(),
            -COORD_MAX <= x0 <= x1 <= COORD_MAX,
            -COORD_MAX <= y0 <= y1 <= COORD_MAX,
            0 <= handles.0 <= radii.0 <= x1 - x0,
            0 <= handles.1 <= radii.1 <= x1 - x0,
            0 <= handles.2 <= radii.2 <= x1 - x0,
            0 <= handles.3 <= radii.3 <= x1 - x0,
            radii.0 <= y1 - y0,
            radii.1 <= y1 - y0,
            radii.2 <= y1 - y0,
            radii.3 <= y1 - y0,
        ensures
            final(self).wf(),
            !final(self).subpath_open(),
            final(self).points() == old(self).points() + ring_points(
                x0 as int,
                y0 as int,
                x1 as int,
                y1 as int,
                CornerArcs {
                    tl: radii.0 as int,
                    tr: radii.1 as int,
                    br: radii.2 as int,
                    bl: radii.3 as int,
                    tl_d: handles.0 as int,
                    tr_d: handles.1 as int,
                    br_d: handles.2 as int,
                    bl_d: handles.3 as int,
                },
            ),
            final(self).verbs() == old(self).verbs() + ring_verbs(
                CornerArcs {
                    tl: radii.0 as int,
                    tr: radii.1 as int,
                    br: radii.2 as int,
                    bl: radii.3 as int,
                    tl_d: handles.0 as int,
                    tr_d: handles.1 as int,
                    br_d: handles.2 as int,
                    bl_d: handles.3 as int,
                },
            ),
            contour.0 == final(self).points().len(),
    {
        let (tl, tr, br, bl) = radii;
        let (tl_d, tr_d, br_d, bl_d) = handles;
        let ghost base_points = self.points();
        let ghost base_verbs = self.verbs();
        let ghost arcs = CornerArcs {
            tl: tl as int,
            tr: tr as int,
            br: br as int,
            bl: bl as int,
            tl_d: tl_d as int,
            tr_d: tr_d as int,
            br_d: br_d as int,
            bl_d: bl_d as int,
        };
        let ghost a1 = arc_points(
            tl > 0,
            pt(x0 as int, y0 + tl - tl_d),
            pt(x0 + tl - tl_d, y0 as int),
            pt(x0 + tl, y0 as int),
        );
        let ghost a2 = arc_points(
            tr > 0,
            pt(x1 - tr + tr_d, y0 as int),
            pt(x1 as int, y0 + tr - tr_d),
            pt(x1 as int, y0 + tr),
        );
        let ghost a3 = arc_points(
            br > 0,
            pt(x1 as int, y1 - br + br_d),
            pt(x1 - br + br_d, y1 as int),
            pt(x1 - br, y1 as int),
        );
        let ghost a4 = arc_points(
            bl > 0,
            pt(x0 + bl - bl_d, y1 as int),
            pt(x0 as int, y1 - bl + bl_d),
            pt(x0 as int, y1 - bl),
        );
        let start = Point { x: x0, y: y0 + tl };

        self.begin(start);
        self.arc(
            tl > 0,
            Point { x: x0, y: y0 + tl - tl_d },
            Point { x: x0 + tl - tl_d, y: y0 },
            Point { x: x0 + tl, y: y0 },
        );
        self.edge(Point { x: x1 - tr, y: y0 });
        let ghost held2 = self.points();
        let ghost v2 = self.verbs();
        assert(held2 == base_points.push(start) + a1 + seq![pt(x1 - tr, y0 as int)]);
        assert(v2 == base_verbs.push(PathVerb::Begin) + arc_verbs(tl > 0) + seq![PathVerb::LineTo]);

        self.arc(
            tr > 0,
            Point { x: x1 - tr + tr_d, y: y0 },
            Point { x: x1, y: y0 + tr - tr_d },
            Point { x: x1, y: y0 + tr },
        );
        self.edge(Point { x: x1, y: y1 - br });
        let ghost held3 = self.points();
        let ghost v3 = self.verbs();
        assert(held3 == held2 + a2 + seq![pt(x1 as int, y1 - br)]);
        assert(v3 == v2 + arc_verbs(tr > 0) + seq![PathVerb::LineTo]);

        self.arc(
            br > 0,
            Point { x: x1, y: y1 - br + br_d },
            Point { x: x1 - br + br_d, y: y1 },
            Point { x: x1 - br, y: y1 },
        );
        self.edge(Point { x: x0 + bl, y: y1 });
        let ghost held4 = self.points();
        let ghost v4 = self.verbs();
        assert(held4 == held3 + a3 + seq![pt(x0 + bl, y1 as int)]);
        assert(v4 == v3 + arc_verbs(br > 0) + seq![PathVerb::LineTo]);

        self.arc(
            bl > 0,
            Point { x: x0 + bl - bl_d, y: y1 },
            Point { x: x0, y: y1 - bl + bl_d },
            Point { x: x0, y: y1 - bl },
        );
        let contour = self.end(true);
        let ghost held5 = self.points();
        let ghost v5 = self.verbs();
        assert(held5 =~= held4 + a4 + seq![start]);
        assert(v5 =~= v4 + arc_verbs(bl > 0) + seq![PathVerb::Close]);
        proof {
            lemma_ring_assembles(
                base_points,
                start,
                a1,
                pt(x1 - tr, y0 as int),
                a2,
                pt(x1 as int, y1 - br),
                a3,
                pt(x0 + bl, y1 as int),
                a4,
                start,
            );
            lemma_ring_assembles(
                base_verbs,
                PathVerb::Begin,
                arc_verbs(tl > 0),
                PathVerb::LineTo,
                arc_verbs(tr > 0),
                PathVerb::LineTo,
                arc_verbs(br > 0),
                PathVerb::LineTo,
                arc_verbs(bl > 0),
                PathVerb::Close,
            );
        }
        contour
    }

    /// Adds a corner arc where `drawn`, and nothing otherwise.
    fn arc(&mut self, drawn: bool, ctrl1: Point, ctrl2: Point, to: Point)
        requires
            old(self).wf(),
            old(self).subpath_open(),
            ctrl1.finite(),
            ctrl2.finite(),
            to.finite(),
        ensures
            final(self).wf(),
            final(self).subpath_open(),
            final(self).points() == old(self).points() + arc_points(drawn, ctrl1, ctrl2, to),
            final(self).verbs() == old(self).verbs() + arc_verbs(drawn),
            final(self).first_point() == old(self).first_point(),
    {
        if drawn {
            self.cubic_to(ctrl1, ctrl2, to);
        }
        assert(self.points() =~= old(self).points() + arc_points(drawn, ctrl1, ctrl2, to));
        assert(self.verbs() =~= old(self).verbs() + arc_verbs(drawn));
    }

    /// Adds a straight edge to `to`, stated as an append.
    fn edge(&mut self, to: Point)
        requires
            old(self).wf(),
            old(self).subpath_open(),
            to.finite(),
        ensures
            final(self).wf(),
            final(self).subpath_open(),
            final(self).points() == old(self).points() + seq![to],
            final(self).verbs() == old(self).verbs() + seq![PathVerb::LineTo],
            final(self).first_point() == old(self).first_point(),
    {
        self.line_to(to);
        assert(self.points() =~= old(self).points() + seq![to]);
        assert(self.verbs() =~= old(self).verbs() + seq![PathVerb::LineTo]);
    }

    /// Replays the rest of `events` into the builder: what the replay still
    /// holds of points and verbs is appended as it stands.
    pub fn extend(&mut self, events: &mut PathEventsIter<'_>)
        requires
            old(self).wf(),
            !old(self).subpath_open(),
            old(events).wf(),
            !in_subpath(old(events).verbs().take(old(events).position())),
        ensures
            final(self).wf(),
            !final(self).subpath_open(),
            final(events).wf(),
            final(events).points() == old(events).points(),
            final(events).verbs() == old(events).verbs(),
            final(events).position() == old(events).verbs().len(),
            final(self).points() == old(self).points() + old(events).points().skip(
                points_used(old(events).verbs().take(old(events).position())) as int,
            ),
            final(self).verbs() == old(self).verbs() + old(events).verbs().skip(
                old(events).position(),
            ),
    {
        let ghost src_points = events.points();
        let ghost src_verbs = events.verbs();
        let ghost k0 = events.position();
        let ghost used0 = points_used(src_verbs.take(k0)) as int;
        proof {
            events.lemma_wf();
            lemma_prefix(src_verbs, k0);
            assert(src_points.subrange(used0, used0) =~= Seq::<Point>::empty());
            assert(src_verbs.subrange(k0, k0) =~= Seq::<PathVerb>::empty());
            assert(self.points() + Seq::<Point>::empty() =~= self.points());
            assert(self.verbs() + Seq::<PathVerb>::empty() =~= self.verbs());
        }
        loop
            invariant
                self.wf(),
                events.wf(),
                events.points() == src_points,
                events.verbs() == src_verbs,
                path_data_ok(src_points, src_verbs),
                !in_subpath(src_verbs),
                0 <= k0 <= events.position() <= src_verbs.len(),
                used0 == points_used(src_verbs.take(k0)),
                used0 <= points_used(src_verbs.take(events.position())) <= src_points.len(),
                self.subpath_open() == in_subpath(src_verbs.take(events.position())),
                self.subpath_open() ==> self.first_point() == src_points[begin_offset(
                    src_verbs.take(events.position()),
                ) as int],
                self.points() == old(self).points() + src_points.subrange(
                    used0,
                    points_used(src_verbs.take(events.position())) as int,
                ),
                self.verbs() == old(self).verbs() + src_verbs.subrange(k0, events.position()),
            ensures
                events.position() == src_verbs.len(),
            decreases src_verbs.len() - events.position(),
        {
            let ghost k = events.position();
            let ghost at = points_used(src_verbs.take(k)) as int;
            let ghost before_points = self.points();
            let ghost before_verbs = self.verbs();
            proof {
                if k < src_verbs.len() {
                    lemma_prefix(src_verbs, k);
                    lemma_closes_prefix(src_points, src_verbs, k + 1);
                    assert(src_verbs.take(k + 1).drop_last() =~= src_verbs.take(k));
                    lemma_push_verb(src_verbs.take(k), src_verbs[k]);
                    assert(src_verbs.take(k + 1) =~= src_verbs.take(k).push(src_verbs[k]));
                    lemma_begin_consumed(src_verbs.take(k));
                }
            }
            match events.next() {
                None => {
                    break ;
                },
                Some(PathEvent::Begin { at: p }) => {
                    self.begin(p);
                    assert(self.points() =~= old(self).points() + src_points.subrange(used0, at + 1));
                },
                Some(PathEvent::Line { from: _, to }) => {
                    self.line_to(to);
                    assert(self.points() =~= old(self).points() + src_points.subrange(used0, at + 1));
                },
                Some(PathEvent::Quadratic { from: _, ctrl, to }) => {
                    self.quadratic_to(ctrl, to);
                    assert(self.points() =~= old(self).points() + src_points.subrange(used0, at + 2));
                },
                Some(PathEvent::Cubic { from: _, ctrl1, ctrl2, to }) => {
                    self.cubic_to(ctrl1, ctrl2, to);
                    assert(self.points() =~= old(self).points() + src_points.subrange(used0, at + 3));
                },
                Some(PathEvent::End { contour: _, last: _, first: _, close }) => {
                    let _ = self.end(close);
                    if close {
                        assert(self.points() =~= old(self).points() + src_points.subrange(
                            used0,
                            at + 1,
                        ));
                    }
                },
            }
            assert(self.verbs() =~= old(self).verbs() + src_verbs.subrange(k0, k + 1));
        }
        proof {
            assert(src_verbs.take(src_verbs.len() as int) =~= src_verbs);
            assert(src_points.subrange(used0, src_points.len() as int) =~= src_points.skip(used0));
            assert(src_verbs.subrange(k0, src_verbs.len() as int) =~= src_verbs.skip(k0));
        }
    }
}

} // verus!

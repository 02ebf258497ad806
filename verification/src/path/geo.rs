//! Flattening: curve commands become polylines, one range of points for
//! each subpath.

use super::curve::cubic_point;
use super::curve::cubic_sample;
use super::curve::quadratic_point;
use super::curve::quadratic_sample;
use super::event_at;
use super::in_subpath;
use super::lemma_prefix;
use super::lemma_push_verb;
use super::path_data_ok;
use super::points_used;
use super::Contour;
use super::PathEvent;
use super::PathEventsIter;
use super::PathVerb;
use super::Point;
use crate::math::abs;
use crate::math::isqrt;
use crate::math::isqrt_of;
use crate::math::Rect;
use core::ops::Range;
use vstd::prelude::*;

verus! {

/// Fewest segments that a curve is cut into when the number is chosen
/// automatically.
pub const MIN_SEGMENTS: u32 = 4;

/// Most segments that a curve is cut into when the number is chosen
/// automatically.
pub const MAX_SEGMENTS: u32 = 64;

/// Length of control polygon, in coordinate units, that is allowed per
/// segment: seven pixels. A lower value gives more segments.
pub const TOLERANCE: u64 = 1792;

/// Two points no further apart than this on both axes count as one.
pub const EPSILON: i64 = 0;

/// Whether `a` and `b` count as one point.
pub open spec fn near(a: Point, b: Point) -> bool {
    abs(a.x - b.x) <= EPSILON && abs(a.y - b.y) <= EPSILON
}

/// `out` with `p` appended, unless `p` counts as one with the last point.
pub open spec fn push_filtered(out: Seq<Point>, p: Point) -> Seq<Point> {
    if out.len() > 0 && near(p, out.last()) {
        out
    } else {
        out.push(p)
    }
}

/// Distance from `a` to `b`, rounded down.
pub open spec fn distance(a: Point, b: Point) -> int {
    isqrt_of((b.x - a.x) * (b.x - a.x) + (b.y - a.y) * (b.y - a.y))
}

/// Number of segments chosen for a curve with the given chord and control
/// polygon lengths: the polygon length over the tolerance, rounded up, kept
/// within `MIN_SEGMENTS..=MAX_SEGMENTS`; the minimum where the chord has no
/// length.
pub open spec fn auto_segments(chord: int, control_polygon: int) -> int {
    if chord == 0 {
        MIN_SEGMENTS as int
    } else {
        let wanted = (control_polygon + TOLERANCE - 1) / (TOLERANCE as int);
        if wanted < MIN_SEGMENTS {
            MIN_SEGMENTS as int
        } else if wanted > MAX_SEGMENTS {
            MAX_SEGMENTS as int
        } else {
            wanted
        }
    }
}

/// Number of segments for a quadratic curve under `setting`: the setting
/// itself unless it is zero, which asks for the automatic choice.
pub open spec fn quadratic_segments(setting: u32, from: Point, ctrl: Point, to: Point) -> int {
    if setting == 0 {
        auto_segments(distance(from, to), distance(from, ctrl) + distance(ctrl, to))
    } else {
        setting as int
    }
}

/// Number of segments for a cubic curve under `setting`.
pub open spec fn cubic_segments(
    setting: u32,
    from: Point,
    ctrl1: Point,
    ctrl2: Point,
    to: Point,
) -> int {
    if setting == 0 {
        auto_segments(
            distance(from, to),
            distance(from, ctrl1) + distance(ctrl1, ctrl2) + distance(ctrl2, to),
        )
    } else {
        setting as int
    }
}

/// `out` after the points `1 / n, .., i / n` of a quadratic curve were pushed
/// through the filter.
pub open spec fn push_quadratic(
    out: Seq<Point>,
    from: Point,
    ctrl: Point,
    to: Point,
    i: int,
    n: int,
) -> Seq<Point>
    decreases i,
{
    if i <= 0 {
        out
    } else {
        push_filtered(
            push_quadratic(out, from, ctrl, to, i - 1, n),
            quadratic_point(from, ctrl, to, i, n),
        )
    }
}

/// `out` after the points `1 / n, .., i / n` of a cubic curve were pushed
/// through the filter.
pub open spec fn push_cubic(
    out: Seq<Point>,
    from: Point,
    ctrl1: Point,
    ctrl2: Point,
    to: Point,
    i: int,
    n: int,
) -> Seq<Point>
    decreases i,
{
    if i <= 0 {
        out
    } else {
        push_filtered(
            push_cubic(out, from, ctrl1, ctrl2, to, i - 1, n),
            cubic_point(from, ctrl1, ctrl2, to, i, n),
        )
    }
}

/// `out` after one event was flattened into it under `setting`. The
/// beginning of a subpath gives its first point as it is. A straight edge
/// gives its end point; a curve gives its points at equal steps of the
/// parameter; closing gives the subpath's first point. These pass the filter,
/// so that no edge of zero length arises within a subpath.
pub open spec fn flatten_step(out: Seq<Point>, event: PathEvent, setting: u32) -> Seq<Point> {
    match event {
        PathEvent::Begin { at } => out.push(at),
        PathEvent::Line { from, to } => push_filtered(out, to),
        PathEvent::Quadratic { from, ctrl, to } => {
            let n = quadratic_segments(setting, from, ctrl, to);
            push_quadratic(out, from, ctrl, to, n, n)
        },
        PathEvent::Cubic { from, ctrl1, ctrl2, to } => {
            let n = cubic_segments(setting, from, ctrl1, ctrl2, to);
            push_cubic(out, from, ctrl1, ctrl2, to, n, n)
        },
        PathEvent::End { contour, last, first, close } => if close && out.len() > 0 {
            push_filtered(out, first)
        } else {
            out
        },
    }
}

/// `out` after the events `from..to` of a path were flattened into it.
pub open spec fn flatten_run(
    out: Seq<Point>,
    points: Seq<Point>,
    verbs: Seq<PathVerb>,
    from: int,
    to: int,
    setting: u32,
) -> Seq<Point>
    decreases to - from,
{
    if to <= from {
        out
    } else {
        flatten_step(
            flatten_run(out, points, verbs, from, to - 1, setting),
            event_at(points, verbs, to - 1),
            setting,
        )
    }
}

/// Whether `now` is `before` with finite points appended of which none
/// counts as one with the point before it.
pub open spec fn extends_cleanly(before: Seq<Point>, now: Seq<Point>) -> bool {
    &&& before.len() <= now.len()
    &&& now.take(before.len() as int) == before
    &&& forall|j: int| before.len() <= j < now.len() ==> (#[trigger] now[j]).finite()
    &&& forall|j: int| before.len() <= j < now.len() && j >= 1 ==> !near(#[trigger] now[j], now[j - 1])
}

/// Whether `now` is `before` with one contour appended: its first point,
/// which is finite, and behind it finite points of which none counts as one
/// with the point before it.
pub open spec fn contour_clean(before: Seq<Point>, now: Seq<Point>) -> bool {
    &&& before.len() < now.len()
    &&& now[before.len() as int].finite()
    &&& extends_cleanly(before.push(now[before.len() as int]), now)
}

/// Whether no point of `out` in `start..end` but the first counts as one
/// with the point before it: the polyline of the range has no edge of zero
/// length.
pub open spec fn range_clean(out: Seq<Point>, start: int, end: int) -> bool {
    forall|j: int| start < j < end ==> !near(#[trigger] out[j], out[j - 1])
}

/// Pushing a finite point through the filter extends cleanly.
pub proof fn lemma_push_extends(before: Seq<Point>, now: Seq<Point>, p: Point)
    requires
        extends_cleanly(before, now),
        p.finite(),
    ensures
        extends_cleanly(before, push_filtered(now, p)),
        push_filtered(now, p).len() >= 1,
        now.len() <= push_filtered(now, p).len() <= now.len() + 1,
{
    let next = push_filtered(now, p);
    assert(next.take(before.len() as int) =~= now.take(before.len() as int));
}

/// Whether the points of the event are finite.
pub open spec fn event_finite(event: PathEvent) -> bool {
    match event {
        PathEvent::Begin { at } => at.finite(),
        PathEvent::Line { from, to } => from.finite() && to.finite(),
        PathEvent::Quadratic { from, ctrl, to } => from.finite() && ctrl.finite() && to.finite(),
        PathEvent::Cubic { from, ctrl1, ctrl2, to } => from.finite() && ctrl1.finite()
            && ctrl2.finite() && to.finite(),
        PathEvent::End { contour, last, first, close } => last.finite() && first.finite(),
    }
}

/// The points of a quadratic curve extend cleanly.
pub proof fn lemma_quadratic_extends(
    before: Seq<Point>,
    out: Seq<Point>,
    from: Point,
    ctrl: Point,
    to: Point,
    i: int,
    n: int,
)
    requires
        extends_cleanly(before, out),
        from.finite(),
        ctrl.finite(),
        to.finite(),
        i <= n,
        n >= 1,
    ensures
        extends_cleanly(before, push_quadratic(out, from, ctrl, to, i, n)),
    decreases i,
{
    if i > 0 {
        lemma_quadratic_extends(before, out, from, ctrl, to, i - 1, n);
        crate::path::curve::lemma_quadratic_finite(from, ctrl, to, i, n);
        lemma_push_extends(
            before,
            push_quadratic(out, from, ctrl, to, i - 1, n),
            quadratic_point(from, ctrl, to, i, n),
        );
    }
}

/// The points of a cubic curve extend cleanly.
pub proof fn lemma_cubic_extends(
    before: Seq<Point>,
    out: Seq<Point>,
    from: Point,
    ctrl1: Point,
    ctrl2: Point,
    to: Point,
    i: int,
    n: int,
)
    requires
        extends_cleanly(before, out),
        from.finite(),
        ctrl1.finite(),
        ctrl2.finite(),
        to.finite(),
        i <= n,
        n >= 1,
    ensures
        extends_cleanly(before, push_cubic(out, from, ctrl1, ctrl2, to, i, n)),
    decreases i,
{
    if i > 0 {
        lemma_cubic_extends(before, out, from, ctrl1, ctrl2, to, i - 1, n);
        crate::path::curve::lemma_cubic_finite(from, ctrl1, ctrl2, to, i, n);
        lemma_push_extends(
            before,
            push_cubic(out, from, ctrl1, ctrl2, to, i - 1, n),
            cubic_point(from, ctrl1, ctrl2, to, i, n),
        );
    }
}

/// Flattening within a subpath never gives an edge without length:
/// whatever events with finite points are flattened, none of them the
/// beginning of a subpath, no point that is added counts as one with the
/// point before it. So the point that closes a ring is added only where it
/// differs from the last point of the ring.
pub proof fn lemma_flattening_is_clean(
    out: Seq<Point>,
    points: Seq<Point>,
    verbs: Seq<PathVerb>,
    from: int,
    to: int,
    setting: u32,
)
    requires
        forall|k: int| from <= k < to ==> event_finite(#[trigger] event_at(points, verbs, k)),
        forall|k: int| from <= k < to ==> !(#[trigger] event_at(points, verbs, k) is Begin),
    ensures
        extends_cleanly(out, flatten_run(out, points, verbs, from, to, setting)),
    decreases to - from,
{
    if to <= from {
        assert(out.take(out.len() as int) =~= out);
    } else {
        lemma_flattening_is_clean(out, points, verbs, from, to - 1, setting);
        let mid = flatten_run(out, points, verbs, from, to - 1, setting);
        let event = event_at(points, verbs, to - 1);
        assert(event_finite(event));
        assert(!(event is Begin));
        match event {
            PathEvent::Begin { at } => {},
            PathEvent::Line { from, to } => {
                lemma_push_extends(out, mid, to);
            },
            PathEvent::Quadratic { from, ctrl, to } => {
                let n = quadratic_segments(setting, from, ctrl, to);
                lemma_quadratic_extends(out, mid, from, ctrl, to, n, n);
            },
            PathEvent::Cubic { from, ctrl1, ctrl2, to } => {
                let n = cubic_segments(setting, from, ctrl1, ctrl2, to);
                lemma_cubic_extends(out, mid, from, ctrl1, ctrl2, to, n, n);
            },
            PathEvent::End { contour, last, first, close } => {
                if close && mid.len() > 0 {
                    lemma_push_extends(out, mid, first);
                }
            },
        }
    }
}

/// Every event of a path has finite points.
pub proof fn lemma_events_finite(points: Seq<Point>, verbs: Seq<PathVerb>, k: int)
    requires
        path_data_ok(points, verbs),
        0 <= k < verbs.len(),
    ensures
        event_finite(event_at(points, verbs, k)),
{
    lemma_prefix(verbs, k);
}

/// Flattening a subpath of a path never gives an edge without length: the
/// verbs `from..to` begin the subpath and begin no other.
pub proof fn lemma_contour_flattens_cleanly(
    out: Seq<Point>,
    points: Seq<Point>,
    verbs: Seq<PathVerb>,
    from: int,
    to: int,
    setting: u32,
)
    requires
        path_data_ok(points, verbs),
        0 <= from < to <= verbs.len(),
        verbs[from] == PathVerb::Begin,
        forall|k: int| from < k < to ==> verbs[k] != PathVerb::Begin,
    ensures
        contour_clean(out, flatten_run(out, points, verbs, from, to, setting)),
        range_clean(
            flatten_run(out, points, verbs, from, to, setting),
            out.len() as int,
            flatten_run(out, points, verbs, from, to, setting).len() as int,
        ),
{
    assert forall|k: int| from <= k < to implies event_finite(
        #[trigger] event_at(points, verbs, k),
    ) by {
        lemma_events_finite(points, verbs, k);
    }
    let begin = event_at(points, verbs, from);
    let at = begin->Begin_at;
    assert(flatten_run(out, points, verbs, from, from, setting) == out);
    let opened = flatten_run(out, points, verbs, from, from + 1, setting);
    assert(opened == out.push(at));
    lemma_flattening_is_clean(opened, points, verbs, from + 1, to, setting);
    lemma_run_joins(out, points, verbs, from, from + 1, to, setting);
    let now = flatten_run(out, points, verbs, from, to, setting);
    assert(now.take(opened.len() as int) == opened);
    assert(now[out.len() as int] == opened[out.len() as int]);
}

/// Whether `a` and `b` count as one point.
pub fn is_near(a: Point, b: Point) -> (r: bool)
    ensures
        r == near(a, b),
{
    let dx: i64 = a.x as i64 - b.x as i64;
    let dy: i64 = a.y as i64 - b.y as i64;
    let ax: i64 = if dx < 0 {
        -dx
    } else {
        dx
    };
    let ay: i64 = if dy < 0 {
        -dy
    } else {
        dy
    };
    ax <= EPSILON && ay <= EPSILON
}

/// Appends `point` to `output` unless it counts as one with the last point
/// there.
pub fn push_point(output: &mut Vec<Point>, point: Point)
    ensures
        final(output)@ == push_filtered(old(output)@, point),
{
    let n = output.len();
    if n > 0 {
        if !is_near(point, output[n - 1]) {
            output.push(point);
        }
    } else {
        output.push(point);
    }
}

/// Distance from `a` to `b`, rounded down.
pub fn distance_exec(a: Point, b: Point) -> (d: u64)
    requires
        a.finite(),
        b.finite(),
    ensures
        d == distance(a, b),
        d <= 0xffff_ffff,
{
    let dx: i64 = b.x as i64 - a.x as i64;
    let dy: i64 = b.y as i64 - a.y as i64;
    assert(0 <= dx * dx <= 0x4000_0000 * 0x4000_0000 && 0 <= dy * dy <= 0x4000_0000 * 0x4000_0000)
        by (nonlinear_arith)
        requires
            -0x4000_0000 <= dx <= 0x4000_0000,
            -0x4000_0000 <= dy <= 0x4000_0000,
    ;
    let sum: u64 = (dx * dx + dy * dy) as u64;
    isqrt(sum)
}

fn auto_segments_exec(chord: u64, control_polygon: u64) -> (n: u32)
    requires
        control_polygon <= 0x4_0000_0000,
    ensures
        n == auto_segments(chord as int, control_polygon as int),
        MIN_SEGMENTS <= n <= MAX_SEGMENTS,
{
    if chord == 0 {
        MIN_SEGMENTS
    } else {
        let wanted: u64 = (control_polygon + TOLERANCE - 1) / TOLERANCE;
        if wanted < MIN_SEGMENTS as u64 {
            MIN_SEGMENTS
        } else if wanted > MAX_SEGMENTS as u64 {
            MAX_SEGMENTS
        } else {
            wanted as u32
        }
    }
}

/// Flattens the subpaths of a replay, one at a time.
pub struct PathGeometryBuilder<'a> {
    num_segments: u32,
    path_iter: PathEventsIter<'a>,
}

impl<'a> PathGeometryBuilder<'a> {
    /// The replay that is being flattened.
    pub closed spec fn events(&self) -> PathEventsIter<'a> {
        self.path_iter
    }

    /// The segment setting: the number of segments per curve, or zero for
    /// the automatic choice.
    pub closed spec fn setting(&self) -> u32 {
        self.num_segments
    }

    /// Whether the replay is in step and stands between two subpaths.
    pub open spec fn wf(&self) -> bool {
        &&& self.events().wf()
        &&& !in_subpath(self.events().verbs().take(self.events().position()))
    }

    /// A flattener for the rest of `path_iter`, with the automatic choice of
    /// segments.
    pub fn new(path_iter: PathEventsIter<'a>) -> (g: Self)
        requires
            path_iter.wf(),
            !in_subpath(path_iter.verbs().take(path_iter.position())),
        ensures
            g.wf(),
            g.events() == path_iter,
            g.setting() == 0,
    {
        PathGeometryBuilder { num_segments: 0, path_iter }
    }

    /// The same flattener with `num_segments` segments for every curve;
    /// zero asks for the automatic choice.
    pub fn with_segments(self, num_segments: u32) -> (g: Self)
        ensures
            g.events() == self.events(),
            g.setting() == num_segments,
    {
        PathGeometryBuilder { num_segments, path_iter: self.path_iter }
    }

    /// The same flattener with the automatic choice of segments.
    pub fn with_auto_segments(self) -> (g: Self)
        ensures
            g.events() == self.events(),
            g.setting() == 0,
    {
        PathGeometryBuilder { num_segments: 0, path_iter: self.path_iter }
    }

    /// The automatic choice of segments for a cubic curve.
    pub fn calc_cubic_segments(from: Point, ctrl1: Point, ctrl2: Point, to: Point) -> (n: u32)
        requires
            from.finite(),
            ctrl1.finite(),
            ctrl2.finite(),
            to.finite(),
        ensures
            n == cubic_segments(0, from, ctrl1, ctrl2, to),
            MIN_SEGMENTS <= n <= MAX_SEGMENTS,
    {
        let chord = distance_exec(from, to);
        let control_polygon = distance_exec(from, ctrl1) + distance_exec(ctrl1, ctrl2)
            + distance_exec(ctrl2, to);
        auto_segments_exec(chord, control_polygon)
    }

    /// The automatic choice of segments for a quadratic curve.
    pub fn calc_quadratic_segments(from: Point, ctrl: Point, to: Point) -> (n: u32)
        requires
            from.finite(),
            ctrl.finite(),
            to.finite(),
        ensures
            n == quadratic_segments(0, from, ctrl, to),
            MIN_SEGMENTS <= n <= MAX_SEGMENTS,
    {
        let chord = distance_exec(from, to);
        let control_polygon = distance_exec(from, ctrl) + distance_exec(ctrl, to);
        auto_segments_exec(chord, control_polygon)
    }

    fn flatten_quadratic(&self, from: Point, ctrl: Point, to: Point, output: &mut Vec<Point>)
        requires
            from.finite(),
            ctrl.finite(),
            to.finite(),
        ensures
            final(output)@ == flatten_step(
                old(output)@,
                PathEvent::Quadratic { from, ctrl, to },
                self.setting(),
            ),
            extends_cleanly(old(output)@, final(output)@),
            final(output)@.len() >= old(output)@.len(),
    {
        let n: u32 = if self.num_segments == 0 {
            Self::calc_quadratic_segments(from, ctrl, to)
        } else {
            self.num_segments
        };
        output.reserve(n as usize);
        assert(old(output)@.take(old(output)@.len() as int) =~= old(output)@);
        let mut i: u32 = 0;
        while i < n
            invariant
                0 <= i <= n,
                n >= 1,
                from.finite(),
                ctrl.finite(),
                to.finite(),
                output@ == push_quadratic(old(output)@, from, ctrl, to, i as int, n as int),
                extends_cleanly(old(output)@, output@),
            decreases n - i,
        {
            i += 1;
            let p = quadratic_sample(from, ctrl, to, i, n);
            proof {
                lemma_push_extends(old(output)@, output@, p);
            }
            push_point(output, p);
        }
    }

    fn flatten_cubic(
        &self,
        from: Point,
        ctrl1: Point,
        ctrl2: Point,
        to: Point,
        output: &mut Vec<Point>,
    )
        requires
            from.finite(),
            ctrl1.finite(),
            ctrl2.finite(),
            to.finite(),
        ensures
            final(output)@ == flatten_step(
                old(output)@,
                PathEvent::Cubic { from, ctrl1, ctrl2, to },
                self.setting(),
            ),
            extends_cleanly(old(output)@, final(output)@),
            final(output)@.len() >= old(output)@.len(),
    {
        let n: u32 = if self.num_segments == 0 {
            Self::calc_cubic_segments(from, ctrl1, ctrl2, to)
        } else {
            self.num_segments
        };
        output.reserve(n as usize);
        assert(old(output)@.take(old(output)@.len() as int) =~= old(output)@);
        let mut i: u32 = 0;
        while i < n
            invariant
                0 <= i <= n,
                n >= 1,
                from.finite(),
                ctrl1.finite(),
                ctrl2.finite(),
                to.finite(),
                output@ == push_cubic(old(output)@, from, ctrl1, ctrl2, to, i as int, n as int),
                extends_cleanly(old(output)@, output@),
            decreases n - i,
        {
            i += 1;
            let p = cubic_sample(from, ctrl1, ctrl2, to, i, n);
            proof {
                lemma_push_extends(old(output)@, output@, p);
            }
            push_point(output, p);
        }
    }

    /// Flattens the open subpath, whose first point is `start`, up to and
    /// with its end, and returns its handle.
    fn build_geometry_till_end(&mut self, start: Point, output: &mut Vec<Point>) -> (contour:
        Contour)
        requires
            old(self).events().wf(),
            0 < old(self).events().position(),
            old(self).events().verbs()[old(self).events().position() - 1] == PathVerb::Begin,
            !in_subpath(
                old(self).events().verbs().take(old(self).events().position() - 1),
            ),
            event_at(
                old(self).events().points(),
                old(self).events().verbs(),
                old(self).events().position() - 1,
            ) == (PathEvent::Begin { at: start }),
            start.finite(),
        ensures
            final(self).wf(),
            final(self).setting() == old(self).setting(),
            final(self).events().points() == old(self).events().points(),
            final(self).events().verbs() == old(self).events().verbs(),
            old(self).events().position() < final(self).events().position(),
            ends_subpath(old(self).events().verbs()[final(self).events().position() - 1]),
            forall|j: int|
                old(self).events().position() <= j < final(self).events().position() - 1
                    ==> !ends_subpath(#[trigger] old(self).events().verbs()[j]),
            final(output)@ == flatten_run(
                old(output)@,
                old(self).events().points(),
                old(self).events().verbs(),
                old(self).events().position() - 1,
                final(self).events().position(),
                old(self).setting(),
            ),
            contour_clean(old(output)@, final(output)@),
            contour.0 == points_used(
                old(self).events().verbs().take(final(self).events().position()),
            ),
    {
        let ghost opened = old(output)@.push(start);
        let ghost points = self.path_iter.points();
        let ghost verbs = self.path_iter.verbs();
        let ghost k0 = self.path_iter.position() - 1;
        let ghost setting = self.num_segments;
        proof {
            self.path_iter.lemma_wf();
            assert(opened.take(opened.len() as int) =~= opened);
            assert(flatten_run(old(output)@, points, verbs, k0, k0, setting) == old(output)@);
            lemma_prefix(verbs, k0);
            assert(verbs.take(k0 + 1) =~= verbs.take(k0).push(verbs[k0]));
            lemma_push_verb(verbs.take(k0), verbs[k0]);
        }
        output.push(start);
        loop
            invariant
                self.path_iter.wf(),
                self.num_segments == setting,
                self.path_iter.points() == points,
                self.path_iter.verbs() == verbs,
                setting == old(self).setting(),
                points == old(self).events().points(),
                verbs == old(self).events().verbs(),
                k0 == old(self).events().position() - 1,
                0 <= k0,
                path_data_ok(points, verbs),
                !in_subpath(verbs),
                k0 < self.path_iter.position() <= verbs.len(),
                in_subpath(verbs.take(self.path_iter.position())),
                forall|j: int|
                    k0 < j < self.path_iter.position() ==> !ends_subpath(#[trigger] verbs[j]),
                output@ == flatten_run(
                    old(output)@,
                    points,
                    verbs,
                    k0,
                    self.path_iter.position(),
                    setting,
                ),
                opened == old(output)@.push(start),
                start.finite(),
                extends_cleanly(opened, output@),
                output@.len() >= 1,
            decreases verbs.len() - self.path_iter.position(),
        {
            let ghost k = self.path_iter.position();
            let ghost before = output@;
            proof {
                if k == verbs.len() {
                    assert(verbs.take(k) =~= verbs);
                }
                lemma_prefix(verbs, k);
                assert(verbs.take(k + 1) =~= verbs.take(k).push(verbs[k]));
                lemma_push_verb(verbs.take(k), verbs[k]);
            }
            match self.path_iter.next() {
                Some(PathEvent::Cubic { from, ctrl1, ctrl2, to }) => {
                    self.flatten_cubic(from, ctrl1, ctrl2, to, output);
                    proof {
                        lemma_extends_transitive(opened, before, output@);
                    }
                },
                Some(PathEvent::Quadratic { from, ctrl, to }) => {
                    self.flatten_quadratic(from, ctrl, to, output);
                    proof {
                        lemma_extends_transitive(opened, before, output@);
                    }
                },
                Some(PathEvent::Line { from: _, to }) => {
                    proof {
                        lemma_push_extends(opened, before, to);
                    }
                    push_point(output, to);
                },
                Some(PathEvent::End { contour, last: _, first, close }) => {
                    if close {
                        // The ring is closed only by a point that differs from
                        // the last one; the filter sees to that.
                        proof {
                            lemma_push_extends(opened, before, first);
                        }
                        push_point(output, first);
                    }
                    proof {
                        assert(output@.take(opened.len() as int) == opened);
                        assert(output@[old(output)@.len() as int] == opened[old(output)@.len() as int]);
                        assert(output@[old(output)@.len() as int] == start);
                    }
                    return contour;
                },
                Some(PathEvent::Begin { at: _ }) => {
                    assert(false);
                    return vstd::pervasive::unreached();
                },
                None => {
                    assert(false);
                    return vstd::pervasive::unreached();
                },
            }
        }
    }

    /// Flattens the next subpath into `output`, behind what `output` holds,
    /// and returns the subpath's handle with the range of `output` that its
    /// points fill. `None` once every subpath has been flattened.
    ///
    /// The range begins with the first point of the subpath, whatever stands
    /// before it. Within the range no point counts as one with the point
    /// before it: the polyline has no edge of zero length, not even where a
    /// closed subpath returns to its start.
    pub fn next(&mut self, output: &mut Vec<Point>) -> (item: Option<(Contour, Range<usize>)>)
        requires
            old(self).wf(),
        ensures
            final(self).wf(),
            final(self).setting() == old(self).setting(),
            final(self).events().points() == old(self).events().points(),
            final(self).events().verbs() == old(self).events().verbs(),
            item is None <==> old(self).events().position() >= old(self).events().verbs().len(),
            item is None ==> final(output)@ == old(output)@ && final(self).events().position()
                == old(self).events().position(),
            item matches Some((contour, range)) ==> {
                &&& old(self).events().position() + 1 < final(self).events().position()
                &&& ends_subpath(old(self).events().verbs()[final(self).events().position() - 1])
                &&& forall|j: int|
                    old(self).events().position() <= j < final(self).events().position() - 1
                        ==> !ends_subpath(#[trigger] old(self).events().verbs()[j])
                &&& final(output)@ == flatten_run(
                    old(output)@,
                    old(self).events().points(),
                    old(self).events().verbs(),
                    old(self).events().position(),
                    final(self).events().position(),
                    old(self).setting(),
                )
                &&& contour_clean(old(output)@, final(output)@)
                &&& range_clean(final(output)@, range.start as int, range.end as int)
                &&& range.start == old(output)@.len()
                &&& range.end == final(output)@.len()
                &&& contour.0 == points_used(
                    old(self).events().verbs().take(final(self).events().position()),
                )
                &&& contour.0 >= 1
            },
    {
        let ghost k = self.path_iter.position();
        let ghost verbs = self.path_iter.verbs();
        proof {
            self.path_iter.lemma_wf();
            if k < verbs.len() {
                lemma_prefix(verbs, k);
                lemma_prefix(verbs, k + 1);
            }
        }
        match self.path_iter.next() {
            Some(PathEvent::Begin { at }) => {
                let start = output.len();
                let contour = self.build_geometry_till_end(at, output);
                let end = output.len();
                proof {
                    let e = self.path_iter.position();
                    lemma_prefix(verbs, e - 1);
                    lemma_prefix(verbs, e);
                    assert(points_used(verbs.take(k + 1)) >= 1);
                    lemma_used_grows(verbs, k + 1, e);
                }
                Some((contour, start..end))
            },
            None => None,
            Some(_) => {
                assert(false);
                vstd::pervasive::unreached()
            },
        }
    }

    /// Flattens every remaining subpath into `output` and returns the
    /// handles and ranges in the order of the subpaths.
    pub fn collect(&mut self, output: &mut Vec<Point>) -> (items: Vec<(Contour, Range<usize>)>)
        requires
            old(self).wf(),
        ensures
            final(self).wf(),
            final(self).events().position() == old(self).events().verbs().len(),
            old(self).events().position() >= old(self).events().verbs().len() ==> items@.len()
                == 0,
            items@ == contour_ranges(
                old(output)@,
                old(self).events().points(),
                old(self).events().verbs(),
                old(self).events().position(),
                old(self).events().verbs().len() as int,
                old(self).setting(),
            ),
            old(output)@.len() <= final(output)@.len(),
            final(output)@.take(old(output)@.len() as int) == old(output)@,
            forall|j: int|
                old(output)@.len() <= j < final(output)@.len() ==> (#[trigger] final(output)@[j]).finite(),
            forall|i: int|
                0 <= i < items@.len() ==> range_clean(
                    final(output)@,
                    (#[trigger] items@[i]).1.start as int,
                    items@[i].1.end as int,
                ),
            final(output)@ == flatten_run(
                old(output)@,
                old(self).events().points(),
                old(self).events().verbs(),
                old(self).events().position(),
                old(self).events().verbs().len() as int,
                old(self).setting(),
            ),
            forall|i: int|
                0 <= i < items@.len() ==> old(output)@.len() <= (#[trigger] items@[i]).1.start
                    <= items@[i].1.end <= final(output)@.len(),
            forall|i: int|
                0 < i < items@.len() ==> (#[trigger] items@[i]).1.start == items@[i - 1].1.end,
    {
        let mut items: Vec<(Contour, Range<usize>)> = Vec::new();
        let ghost points = self.path_iter.points();
        let ghost verbs = self.path_iter.verbs();
        let ghost k0 = self.path_iter.position();
        let ghost setting = self.num_segments;
        proof {
            self.path_iter.lemma_wf();
            assert(old(output)@.take(old(output)@.len() as int) =~= old(output)@);
        }
        loop
            invariant
                self.wf(),
                self.num_segments == setting,
                self.path_iter.points() == points,
                self.path_iter.verbs() == verbs,
                k0 <= self.path_iter.position() <= verbs.len(),
                old(output)@.len() <= output@.len(),
                output@.take(old(output)@.len() as int) == old(output)@,
                forall|j: int|
                    old(output)@.len() <= j < output@.len() ==> (#[trigger] output@[j]).finite(),
                forall|i: int|
                    0 <= i < items@.len() ==> range_clean(
                        output@,
                        (#[trigger] items@[i]).1.start as int,
                        items@[i].1.end as int,
                    ),
                output@ == flatten_run(
                    old(output)@,
                    points,
                    verbs,
                    k0,
                    self.path_iter.position(),
                    setting,
                ),
                forall|i: int|
                    0 <= i < items@.len() ==> old(output)@.len() <= (#[trigger] items@[i]).1.start
                        <= items@[i].1.end <= output@.len(),
                forall|i: int|
                    0 < i < items@.len() ==> (#[trigger] items@[i]).1.start == items@[i - 1].1.end,
                items@.len() > 0 ==> items@[items@.len() - 1].1.end == output@.len(),
                self.path_iter.position() == k0 ==> items@.len() == 0,
                items@.len() == 0 ==> output@.len() == old(output)@.len(),
                items@ == contour_ranges(
                    old(output)@,
                    points,
                    verbs,
                    k0,
                    self.path_iter.position(),
                    setting,
                ),
            ensures
                self.path_iter.position() == verbs.len(),
            decreases verbs.len() - self.path_iter.position(),
        {
            let ghost before = output@;
            let ghost k = self.path_iter.position();
            match self.next(output) {
                None => {
                    break ;
                },
                Some(item) => {
                    proof {
                        self.path_iter.lemma_wf();
                        assert(output@.take(before.len() as int + 1) == before.push(
                            output@[before.len() as int],
                        ));
                        assert(output@.take(before.len() as int) =~= before) by {
                            assert(output@.take(before.len() as int + 1).take(
                                before.len() as int,
                            ) =~= output@.take(before.len() as int));
                        }
                        assert(output@.take(old(output)@.len() as int) =~= before.take(
                            old(output)@.len() as int,
                        ));
                        assert forall|j: int|
                            old(output)@.len() <= j < output@.len() implies (
                        #[trigger] output@[j]).finite() by {
                            if j < before.len() {
                                assert(output@.take(before.len() as int)[j] == before[j]);
                            }
                        }
                        assert forall|i: int| 0 <= i < items@.len() implies range_clean(
                            output@,
                            (#[trigger] items@[i]).1.start as int,
                            items@[i].1.end as int,
                        ) by {
                            assert(range_clean(
                                before,
                                items@[i].1.start as int,
                                items@[i].1.end as int,
                            ));
                            assert forall|j: int|
                                items@[i].1.start < j < items@[i].1.end implies !near(
                                #[trigger] output@[j],
                                output@[j - 1],
                            ) by {
                                assert(output@.take(before.len() as int)[j] == before[j]);
                                assert(output@.take(before.len() as int)[j - 1] == before[j - 1]);
                            }
                        }
                        lemma_run_joins(
                            old(output)@,
                            points,
                            verbs,
                            k0,
                            k,
                            self.path_iter.position(),
                            setting,
                        );
                        lemma_ranges_rest(
                            old(output)@,
                            points,
                            verbs,
                            k0,
                            k,
                            self.path_iter.position() - 1,
                            setting,
                        );
                    }
                    items.push(item);
                },
            }
        }
        items
    }
}

/// Where the output ends after the subpaths that end among the verbs
/// `from..to` were flattened behind `out`: the handle of each subpath with
/// the range of the output that its points fill, in the order of the
/// subpaths. The first range starts where `out` ends, every other range
/// where the one before it ends.
pub open spec fn contour_ranges(
    out: Seq<Point>,
    points: Seq<Point>,
    verbs: Seq<PathVerb>,
    from: int,
    to: int,
    setting: u32,
) -> Seq<(Contour, Range<usize>)>
    decreases to - from,
{
    if to <= from {
        Seq::empty()
    } else {
        let before = contour_ranges(out, points, verbs, from, to - 1, setting);
        if ends_subpath(verbs[to - 1]) {
            before.push(
                (
                    Contour(points_used(verbs.take(to)) as usize),
                    Range {
                        start: if before.len() > 0 {
                            before.last().1.end
                        } else {
                            out.len() as usize
                        },
                        end: flatten_run(out, points, verbs, from, to, setting).len() as usize,
                    },
                ),
            )
        } else {
            before
        }
    }
}

/// Verbs that end no subpath add no range.
pub proof fn lemma_ranges_rest(
    out: Seq<Point>,
    points: Seq<Point>,
    verbs: Seq<PathVerb>,
    from: int,
    mid: int,
    to: int,
    setting: u32,
)
    requires
        from <= mid <= to,
        forall|j: int| mid <= j < to ==> !ends_subpath(#[trigger] verbs[j]),
    ensures
        contour_ranges(out, points, verbs, from, to, setting) == contour_ranges(
            out,
            points,
            verbs,
            from,
            mid,
            setting,
        ),
    decreases to - mid,
{
    if mid < to {
        lemma_ranges_rest(out, points, verbs, from, mid, to - 1, setting);
    }
}

/// Whether the verb ends a subpath.
pub open spec fn ends_subpath(verb: PathVerb) -> bool {
    verb == PathVerb::End || verb == PathVerb::Close
}

/// Extending cleanly twice extends cleanly.
pub proof fn lemma_extends_transitive(a: Seq<Point>, b: Seq<Point>, c: Seq<Point>)
    requires
        extends_cleanly(a, b),
        extends_cleanly(b, c),
    ensures
        extends_cleanly(a, c),
{
    assert(c.take(a.len() as int) =~= c.take(b.len() as int).take(a.len() as int));
    assert forall|j: int| a.len() <= j < c.len() implies (#[trigger] c[j]).finite() by {
        if j < b.len() {
            assert(c.take(b.len() as int)[j] == c[j]);
        }
    }
    assert forall|j: int| a.len() <= j < c.len() && j >= 1 implies !near(
        #[trigger] c[j],
        c[j - 1],
    ) by {
        if j < b.len() {
            assert(c.take(b.len() as int)[j] == c[j]);
            assert(c.take(b.len() as int)[j - 1] == c[j - 1]);
        }
    }
}

/// Flattening `from..mid` and then `mid..to` is flattening `from..to`.
pub proof fn lemma_run_joins(
    out: Seq<Point>,
    points: Seq<Point>,
    verbs: Seq<PathVerb>,
    from: int,
    mid: int,
    to: int,
    setting: u32,
)
    requires
        from <= mid <= to,
    ensures
        flatten_run(flatten_run(out, points, verbs, from, mid, setting), points, verbs, mid, to, setting)
            == flatten_run(out, points, verbs, from, to, setting),
    decreases to - mid,
{
    if mid < to {
        lemma_run_joins(out, points, verbs, from, mid, to - 1, setting);
    }
}

/// Longer prefixes of verbs consume no fewer points.
pub proof fn lemma_used_grows(verbs: Seq<PathVerb>, a: int, b: int)
    requires
        0 <= a <= b <= verbs.len(),
    ensures
        points_used(verbs.take(a)) <= points_used(verbs.take(b)),
    decreases b - a,
{
    if a < b {
        lemma_used_grows(verbs, a, b - 1);
        assert(verbs.take(b).drop_last() =~= verbs.take(b - 1));
    }
}

/// The least x among the first `n` points of `path`.
pub open spec fn least_x(path: Seq<Point>, n: int) -> int
    decreases n,
{
    if n <= 1 {
        path[0].x as int
    } else if path[n - 1].x < least_x(path, n - 1) {
        path[n - 1].x as int
    } else {
        least_x(path, n - 1)
    }
}

/// The greatest x among the first `n` points of `path`.
pub open spec fn greatest_x(path: Seq<Point>, n: int) -> int
    decreases n,
{
    if n <= 1 {
        path[0].x as int
    } else if path[n - 1].x > greatest_x(path, n - 1) {
        path[n - 1].x as int
    } else {
        greatest_x(path, n - 1)
    }
}

/// The least y among the first `n` points of `path`.
pub open spec fn least_y(path: Seq<Point>, n: int) -> int
    decreases n,
{
    if n <= 1 {
        path[0].y as int
    } else if path[n - 1].y < least_y(path, n - 1) {
        path[n - 1].y as int
    } else {
        least_y(path, n - 1)
    }
}

/// The greatest y among the first `n` points of `path`.
pub open spec fn greatest_y(path: Seq<Point>, n: int) -> int
    decreases n,
{
    if n <= 1 {
        path[0].y as int
    } else if path[n - 1].y > greatest_y(path, n - 1) {
        path[n - 1].y as int
    } else {
        greatest_y(path, n - 1)
    }
}

/// The bounding box of the points of `path`, of which there is one at
/// least: from the least to the greatest coordinate on each axis.
pub open spec fn bounds_of(path: Seq<Point>) -> Rect {
    let n = path.len() as int;
    Rect {
        x: least_x(path, n) as i32,
        y: least_y(path, n) as i32,
        width: (greatest_x(path, n) - least_x(path, n)) as i32,
        height: (greatest_y(path, n) - least_y(path, n)) as i32,
    }
}

/// The smallest rectangle that holds every point of `path`, or `None` for
/// no points.
pub fn get_path_bounds(path: &[Point]) -> (bounds: Option<Rect>)
    requires
        forall|i: int| 0 <= i < path@.len() ==> (#[trigger] path@[i]).finite(),
    ensures
        path@.len() == 0 <==> bounds is None,
        bounds matches Some(r) ==> {
            &&& r == bounds_of(path@)
            &&& r.wf()
            &&& forall|i: int|
                0 <= i < path@.len() ==> r.x <= (#[trigger] path@[i]).x <= r.x + r.width && r.y
                    <= path@[i].y <= r.y + r.height
            &&& exists|i: int| 0 <= i < path@.len() && (#[trigger] path@[i]).x == r.x
            &&& exists|i: int| 0 <= i < path@.len() && (#[trigger] path@[i]).x == r.x + r.width
            &&& exists|i: int| 0 <= i < path@.len() && (#[trigger] path@[i]).y == r.y
            &&& exists|i: int| 0 <= i < path@.len() && (#[trigger] path@[i]).y == r.y + r.height
        },
{
    if path.len() == 0 {
        return None;
    }
    let mut min_x: i32 = path[0].x;
    let mut max_x: i32 = path[0].x;
    let mut min_y: i32 = path[0].y;
    let mut max_y: i32 = path[0].y;
    let mut i: usize = 1;
    while i < path.len()
        invariant
            1 <= i <= path@.len(),
            forall|j: int| 0 <= j < path@.len() ==> (#[trigger] path@[j]).finite(),
            min_x == least_x(path@, i as int),
            max_x == greatest_x(path@, i as int),
            min_y == least_y(path@, i as int),
            max_y == greatest_y(path@, i as int),
            forall|j: int|
                0 <= j < i ==> min_x <= (#[trigger] path@[j]).x <= max_x && min_y <= path@[j].y
                    <= max_y,
            exists|j: int| 0 <= j < i && (#[trigger] path@[j]).x == min_x,
            exists|j: int| 0 <= j < i && (#[trigger] path@[j]).x == max_x,
            exists|j: int| 0 <= j < i && (#[trigger] path@[j]).y == min_y,
            exists|j: int| 0 <= j < i && (#[trigger] path@[j]).y == max_y,
        decreases path@.len() - i,
    {
        let x = path[i].x;
        let y = path[i].y;
        if x < min_x {
            min_x = x;
        }
        if x > max_x {
            max_x = x;
        }
        if y < min_y {
            min_y = y;
        }
        if y > max_y {
            max_y = y;
        }
        i += 1;
    }
    Some(Rect { x: min_x, y: min_y, width: max_x - min_x, height: max_y - min_y })
}

} // verus!

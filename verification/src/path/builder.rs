//! The path builder: subpaths are opened, extended edge by edge and ended,
//! under a two-state machine that every operation respects.

use super::begin_offset;
use super::in_subpath;
use super::lemma_closes_extend;
use super::lemma_push_verb;
use super::path_data_ok;
use super::Contour;
use super::Path;
use super::PathEventsIter;
use super::PathVerb;
use super::Point;
use vstd::prelude::*;

verus! {

/// The subpath state machine: idle, or inside a subpath.
#[derive(Debug, Clone, Copy, PartialEq, Eq, Structural, Default)]
pub struct DebugPathValidator {
    pub in_subpath: bool,
}

impl DebugPathValidator {
    /// Enters a subpath. Only an idle machine can.
    pub fn begin(&mut self)
        requires
            !old(self).in_subpath,
        ensures
            final(self).in_subpath,
    {
        self.in_subpath = true;
    }

    /// Leaves the subpath. Only a machine inside one can.
    pub fn end(&mut self)
        requires
            old(self).in_subpath,
        ensures
            !final(self).in_subpath,
    {
        self.in_subpath = false;
    }

    /// Admits an edge: the machine is inside a subpath.
    pub fn edge(&self) -> (ok: bool)
        requires
            self.in_subpath,
        ensures
            ok,
    {
        self.in_subpath
    }

    /// Admits finishing the path: the machine is idle.
    pub fn build(&self) -> (ok: bool)
        requires
            !self.in_subpath,
        ensures
            ok,
    {
        !self.in_subpath
    }
}

/// A path under construction.
pub struct PathBuilder {
    points: Vec<Point>,
    verbs: Vec<PathVerb>,
    validator: DebugPathValidator,
    first: Point,
}

impl PathBuilder {
    /// The points added so far.
    pub closed spec fn points(&self) -> Seq<Point> {
        self.points@
    }

    /// The verbs added so far.
    pub closed spec fn verbs(&self) -> Seq<PathVerb> {
        self.verbs@
    }

    /// Whether a subpath is open.
    pub open spec fn subpath_open(&self) -> bool {
        in_subpath(self.verbs())
    }

    /// The first point of the subpath that is open.
    pub open spec fn first_point(&self) -> Point
        recommends
            self.subpath_open(),
    {
        self.points()[begin_offset(self.verbs()) as int]
    }

    /// Whether the builder is in step with what it holds.
    pub closed spec fn wf(&self) -> bool {
        &&& path_data_ok(self.points@, self.verbs@)
        &&& self.validator.in_subpath == in_subpath(self.verbs@)
        &&& in_subpath(self.verbs@) ==> begin_offset(self.verbs@) < self.points@.len()
            && self.first == self.points@[begin_offset(self.verbs@) as int]
    }

    /// What a well-formed builder holds is path data.
    pub proof fn lemma_wf(&self)
        requires
            self.wf(),
        ensures
            path_data_ok(self.points(), self.verbs()),
            self.subpath_open() ==> begin_offset(self.verbs()) < self.points().len(),
    {
    }

    /// An empty builder.
    pub fn new() -> (b: Self)
        ensures
            b.wf(),
            b.points() == Seq::<Point>::empty(),
            b.verbs() == Seq::<PathVerb>::empty(),
            !b.subpath_open(),
    {
        PathBuilder {
            points: Vec::new(),
            verbs: Vec::new(),
            validator: DebugPathValidator { in_subpath: false },
            first: Point { x: 0, y: 0 },
        }
    }

    /// An empty builder with room for the given numbers of points and edges.
    pub fn with_capacity(points: usize, edges: usize) -> (b: Self)
        ensures
            b.wf(),
            b.points() == Seq::<Point>::empty(),
            b.verbs() == Seq::<PathVerb>::empty(),
            !b.subpath_open(),
    {
        PathBuilder {
            points: Vec::with_capacity(points),
            verbs: Vec::with_capacity(edges),
            validator: DebugPathValidator { in_subpath: false },
            first: Point { x: 0, y: 0 },
        }
    }

    /// Empties the builder and returns it to the idle state.
    pub fn clear(&mut self)
        ensures
            final(self).wf(),
            final(self).points() == Seq::<Point>::empty(),
            final(self).verbs() == Seq::<PathVerb>::empty(),
            !final(self).subpath_open(),
    {
        self.points.clear();
        self.verbs.clear();
        self.validator = DebugPathValidator { in_subpath: false };
    }

    /// Whether a subpath is open.
    pub fn in_subpath(&self) -> (open: bool)
        requires
            self.wf(),
        ensures
            open == self.subpath_open(),
    {
        self.validator.in_subpath
    }

    /// Number of points added so far.
    pub fn point_count(&self) -> (n: usize)
        ensures
            n == self.points().len(),
    {
        self.points.len()
    }

    /// The points added so far.
    pub fn get_points(&self) -> (points: &Vec<Point>)
        ensures
            points@ == self.points(),
    {
        &self.points
    }

    /// The verbs added so far.
    pub fn get_verbs(&self) -> (verbs: &Vec<PathVerb>)
        ensures
            verbs@ == self.verbs(),
    {
        &self.verbs
    }

    /// Opens a subpath at `at`.
    pub fn begin(&mut self, at: Point)
        requires
            old(self).wf(),
            !old(self).subpath_open(),
            at.finite(),
        ensures
            final(self).wf(),
            final(self).subpath_open(),
            final(self).points() == old(self).points().push(at),
            final(self).verbs() == old(self).verbs().push(PathVerb::Begin),
            final(self).first_point() == at,
    {
        proof {
            lemma_push_verb(self.verbs@, PathVerb::Begin);
            lemma_closes_extend(self.points@, self.verbs@, self.points@.push(at));
            assert(self.verbs@.push(PathVerb::Begin).drop_last() =~= self.verbs@);
        }
        self.validator.begin();
        self.first = at;
        self.points.push(at);
        self.verbs.push(PathVerb::Begin);
    }

    /// Ends the open subpath. With `close` set, a copy of the subpath's first
    /// point is appended first, so that the ring is closed. The handle that
    /// is returned is the number of points then held.
    pub fn end(&mut self, close: bool) -> (contour: Contour)
        requires
            old(self).wf(),
            old(self).subpath_open(),
        ensures
            final(self).wf(),
            !final(self).subpath_open(),
            close ==> final(self).points() == old(self).points().push(old(self).first_point()),
            close ==> final(self).verbs() == old(self).verbs().push(PathVerb::Close),
            !close ==> final(self).points() == old(self).points(),
            !close ==> final(self).verbs() == old(self).verbs().push(PathVerb::End),
            contour.0 == final(self).points().len(),
            contour.0 >= 1,
    {
        self.validator.end();
        if close {
            proof {
                lemma_push_verb(self.verbs@, PathVerb::Close);
                lemma_closes_extend(self.points@, self.verbs@, self.points@.push(self.first));
                assert(self.verbs@.push(PathVerb::Close).drop_last() =~= self.verbs@);
            }
            self.points.push(self.first);
            self.verbs.push(PathVerb::Close);
        } else {
            proof {
                lemma_push_verb(self.verbs@, PathVerb::End);
                assert(self.verbs@.push(PathVerb::End).drop_last() =~= self.verbs@);
            }
            self.verbs.push(PathVerb::End);
        }
        Contour(self.points.len())
    }

    /// Ends the open subpath as a closed ring: `end(true)`.
    pub fn close(&mut self) -> (contour: Contour)
        requires
            old(self).wf(),
            old(self).subpath_open(),
        ensures
            final(self).wf(),
            !final(self).subpath_open(),
            final(self).points() == old(self).points().push(old(self).first_point()),
            final(self).verbs() == old(self).verbs().push(PathVerb::Close),
            contour.0 == final(self).points().len(),
    {
        self.end(true)
    }

    /// A replay, from the start, of the subpaths added so far.
    pub fn path_events(&self) -> (iter: PathEventsIter<'_>)
        requires
            self.wf(),
            !self.subpath_open(),
        ensures
            iter.wf(),
            iter.points() == self.points(),
            iter.verbs() == self.verbs(),
            iter.position() == 0,
    {
        let _ = self.validator.build();
        PathEventsIter::new(&self.points, &self.verbs)
    }

    /// Adds a straight edge to `to`.
    pub fn line_to(&mut self, to: Point)
        requires
            old(self).wf(),
            old(self).subpath_open(),
            to.finite(),
        ensures
            final(self).wf(),
            final(self).subpath_open(),
            final(self).points() == old(self).points().push(to),
            final(self).verbs() == old(self).verbs().push(PathVerb::LineTo),
            final(self).first_point() == old(self).first_point(),
    {
        proof {
            lemma_push_verb(self.verbs@, PathVerb::LineTo);
            lemma_closes_extend(self.points@, self.verbs@, self.points@.push(to));
            assert(self.verbs@.push(PathVerb::LineTo).drop_last() =~= self.verbs@);
        }
        let _ = self.validator.edge();
        self.points.push(to);
        self.verbs.push(PathVerb::LineTo);
    }

    /// Adds a quadratic curve to `to` with the control point `ctrl`.
    pub fn quadratic_to(&mut self, ctrl: Point, to: Point)
        requires
            old(self).wf(),
            old(self).subpath_open(),
            ctrl.finite(),
            to.finite(),
        ensures
            final(self).wf(),
            final(self).subpath_open(),
            final(self).points() == old(self).points().push(ctrl).push(to),
            final(self).verbs() == old(self).verbs().push(PathVerb::QuadraticTo),
            final(self).first_point() == old(self).first_point(),
    {
        proof {
            lemma_push_verb(self.verbs@, PathVerb::QuadraticTo);
            lemma_closes_extend(self.points@, self.verbs@, self.points@.push(ctrl).push(to));
            assert(self.verbs@.push(PathVerb::QuadraticTo).drop_last() =~= self.verbs@);
        }
        let _ = self.validator.edge();
        self.points.push(ctrl);
        self.points.push(to);
        self.verbs.push(PathVerb::QuadraticTo);
    }

    /// Adds a cubic curve to `to` with the control points `ctrl1` and
    /// `ctrl2`.
    pub fn cubic_to(&mut self, ctrl1: Point, ctrl2: Point, to: Point)
        requires
            old(self).wf(),
            old(self).subpath_open(),
            ctrl1.finite(),
            ctrl2.finite(),
            to.finite(),
        ensures
            final(self).wf(),
            final(self).subpath_open(),
            final(self).points() == old(self).points().push(ctrl1).push(ctrl2).push(to),
            final(self).verbs() == old(self).verbs().push(PathVerb::CubicTo),
            final(self).first_point() == old(self).first_point(),
    {
        proof {
            lemma_push_verb(self.verbs@, PathVerb::CubicTo);
            lemma_closes_extend(
                self.points@,
                self.verbs@,
                self.points@.push(ctrl1).push(ctrl2).push(to),
            );
            assert(self.verbs@.push(PathVerb::CubicTo).drop_last() =~= self.verbs@);
        }
        let _ = self.validator.edge();
        self.points.push(ctrl1);
        self.points.push(ctrl2);
        self.points.push(to);
        self.verbs.push(PathVerb::CubicTo);
    }

    /// Adds a subpath that is the single point `at`.
    pub fn add_point(&mut self, at: Point)
        requires
            old(self).wf(),
            !old(self).subpath_open(),
            at.finite(),
        ensures
            final(self).wf(),
            !final(self).subpath_open(),
            final(self).points() == old(self).points().push(at),
            final(self).verbs() == old(self).verbs().push(PathVerb::Begin).push(PathVerb::End),
    {
        self.begin(at);
        let _ = self.end(false);
    }

    /// Makes room for the given numbers of end points and control points.
    pub fn reserve(&mut self, endpoints: usize, ctrl_points: usize)
        ensures
            final(self).points() == old(self).points(),
            final(self).verbs() == old(self).verbs(),
            final(self).wf() == old(self).wf(),
    {
        let total = endpoints.saturating_add(ctrl_points);
        self.points.reserve(total);
        self.verbs.reserve(endpoints);
    }

    /// Finishes the path.
    pub fn build(self) -> (path: Path)
        requires
            self.wf(),
            !self.subpath_open(),
        ensures
            path.wf(),
            path.points() == self.points(),
            path.verbs() == self.verbs(),
    {
        let _ = self.validator.build();
        Path::from_parts(self.points, self.verbs)
    }
}

impl Default for PathBuilder {
    fn default() -> (b: Self)
        ensures
            b.wf(),
            b.points() == Seq::<Point>::empty(),
            b.verbs() == Seq::<PathVerb>::empty(),
            !b.subpath_open(),
    {
        PathBuilder::new()
    }
}

} // verus!

//! The path model: points, verbs, paths and the events they replay as.
//!
//! Coordinates are fixed-point numbers with eight fractional bits: the
//! integer 256 is one pixel.

pub mod builder;
pub mod curve;
pub mod geo;
pub mod shapes;

use vstd::prelude::*;

verus! {

/// One pixel, in coordinate units.
pub const ONE: i32 = 256;

/// Largest magnitude of a coordinate that the path model accepts.
pub const COORD_MAX: i32 = 0x2000_0000;

/// A position in the plane, in coordinate units.
#[derive(Debug, Clone, Copy, PartialEq, Eq, Structural, Hash, Default)]
pub struct Point {
    pub x: i32,
    pub y: i32,
}

impl Point {
    /// Whether both coordinates lie within `-COORD_MAX..=COORD_MAX`.
    pub open spec fn finite(&self) -> bool {
        -COORD_MAX <= self.x <= COORD_MAX && -COORD_MAX <= self.y <= COORD_MAX
    }

    /// The point `(x, y)`.
    pub fn new(x: i32, y: i32) -> (p: Point)
        ensures
            p == (Point { x, y }),
    {
        Point { x, y }
    }

    /// Whether both coordinates lie within `-COORD_MAX..=COORD_MAX`.
    pub fn is_finite(&self) -> (r: bool)
        ensures
            r == self.finite(),
    {
        -COORD_MAX <= self.x && self.x <= COORD_MAX && -COORD_MAX <= self.y && self.y <= COORD_MAX
    }
}

/// How the next points of a path are consumed.
#[derive(Debug, Clone, Copy, PartialEq, Eq, Structural, Hash)]
pub enum PathVerb {
    /// Opens a subpath at one point.
    Begin,
    /// A straight edge to one point.
    LineTo,
    /// A quadratic curve: one control point, one end point.
    QuadraticTo,
    /// A cubic curve: two control points, one end point.
    CubicTo,
    /// Ends the subpath, leaving it open.
    End,
    /// Ends the subpath with one more point, a copy of its first.
    Close,
}

/// The checkpoint of a subpath: how many points the path holds where the
/// subpath ends. It serves as a key and carries no other meaning.
#[derive(Debug, Clone, Copy, PartialEq, Eq, Structural, Hash, Default)]
pub struct Contour(pub usize);

impl Contour {
    /// The handle that no subpath has: every subpath holds a point.
    pub fn invalid() -> (c: Contour)
        ensures
            c == Contour(0),
    {
        Contour(0)
    }
}

/// A run of points to be joined by straight edges.
pub struct Polygon<'a> {
    pub points: &'a [Point],
    pub closed: bool,
}

/// One step of a path as it is replayed.
#[derive(Debug, Clone, Copy, PartialEq, Eq, Structural)]
pub enum PathEvent {
    Begin { at: Point },
    Line { from: Point, to: Point },
    Quadratic { from: Point, ctrl: Point, to: Point },
    Cubic { from: Point, ctrl1: Point, ctrl2: Point, to: Point },
    End { contour: Contour, last: Point, first: Point, close: bool },
}

/// Number of points that a verb consumes.
pub open spec fn verb_points(verb: PathVerb) -> nat {
    match verb {
        PathVerb::Begin => 1,
        PathVerb::LineTo => 1,
        PathVerb::QuadraticTo => 2,
        PathVerb::CubicTo => 3,
        PathVerb::End => 0,
        PathVerb::Close => 1,
    }
}

/// Number of points that a run of verbs consumes.
pub open spec fn points_used(verbs: Seq<PathVerb>) -> nat
    decreases verbs.len(),
{
    if verbs.len() == 0 {
        0
    } else {
        points_used(verbs.drop_last()) + verb_points(verbs.last())
    }
}

/// Whether a subpath is open after the verbs.
pub open spec fn in_subpath(verbs: Seq<PathVerb>) -> bool
    decreases verbs.len(),
{
    if verbs.len() == 0 {
        false
    } else {
        match verbs.last() {
            PathVerb::Begin => true,
            PathVerb::End => false,
            PathVerb::Close => false,
            _ => in_subpath(verbs.drop_last()),
        }
    }
}

/// Whether the verbs follow the subpath state machine: `Begin` only while
/// idle, every other verb only inside a subpath.
pub open spec fn verbs_valid(verbs: Seq<PathVerb>) -> bool
    decreases verbs.len(),
{
    if verbs.len() == 0 {
        true
    } else {
        verbs_valid(verbs.drop_last()) && (verbs.last() == PathVerb::Begin) != in_subpath(
            verbs.drop_last(),
        )
    }
}

/// Index of the point at which the subpath that is open after the verbs,
/// or was closed last, began.
pub open spec fn begin_offset(verbs: Seq<PathVerb>) -> nat
    decreases verbs.len(),
{
    if verbs.len() == 0 {
        0
    } else if verbs.last() == PathVerb::Begin {
        points_used(verbs.drop_last())
    } else {
        begin_offset(verbs.drop_last())
    }
}

/// Whether every `Close` among the verbs finds, as its point, a copy of the
/// first point of its subpath.
pub open spec fn closes_match(points: Seq<Point>, verbs: Seq<PathVerb>) -> bool
    decreases verbs.len(),
{
    if verbs.len() == 0 {
        true
    } else {
        closes_match(points, verbs.drop_last()) && (verbs.last() == PathVerb::Close ==> {
            let at = points_used(verbs.drop_last()) as int;
            let first = begin_offset(verbs.drop_last()) as int;
            0 <= first < at < points.len() && points[at] == points[first]
        })
    }
}

/// What points and verbs must satisfy to be a path, finished or under
/// construction.
pub open spec fn path_data_ok(points: Seq<Point>, verbs: Seq<PathVerb>) -> bool {
    &&& verbs_valid(verbs)
    &&& points.len() == points_used(verbs)
    &&& closes_match(points, verbs)
    &&& forall|i: int| 0 <= i < points.len() ==> (#[trigger] points[i]).finite()
}

/// The event that verb `k` replays as.
pub open spec fn event_at(points: Seq<Point>, verbs: Seq<PathVerb>, k: int) -> PathEvent
    recommends
        0 <= k < verbs.len(),
{
    let at = points_used(verbs.take(k)) as int;
    let first = begin_offset(verbs.take(k)) as int;
    match verbs[k] {
        PathVerb::Begin => PathEvent::Begin { at: points[at] },
        PathVerb::LineTo => PathEvent::Line { from: points[at - 1], to: points[at] },
        PathVerb::QuadraticTo => PathEvent::Quadratic {
            from: points[at - 1],
            ctrl: points[at],
            to: points[at + 1],
        },
        PathVerb::CubicTo => PathEvent::Cubic {
            from: points[at - 1],
            ctrl1: points[at],
            ctrl2: points[at + 1],
            to: points[at + 2],
        },
        PathVerb::End => PathEvent::End {
            contour: Contour(at as usize),
            last: points[at - 1],
            first: points[first],
            close: false,
        },
        PathVerb::Close => PathEvent::End {
            contour: Contour((at + 1) as usize),
            last: points[at - 1],
            first: points[first],
            close: true,
        },
    }
}

/// Appending a verb adds the points it consumes.
pub proof fn lemma_push_verb(verbs: Seq<PathVerb>, verb: PathVerb)
    ensures
        points_used(verbs.push(verb)) == points_used(verbs) + verb_points(verb),
        in_subpath(verbs.push(verb)) == match verb {
            PathVerb::Begin => true,
            PathVerb::End => false,
            PathVerb::Close => false,
            _ => in_subpath(verbs),
        },
        verbs_valid(verbs.push(verb)) == (verbs_valid(verbs) && (verb == PathVerb::Begin)
            != in_subpath(verbs)),
        begin_offset(verbs.push(verb)) == if verb == PathVerb::Begin {
            points_used(verbs)
        } else {
            begin_offset(verbs)
        },
{
    assert(verbs.push(verb).drop_last() =~= verbs);
}

/// A prefix of valid verbs is valid and consumes no more points than the
/// whole; inside a subpath the subpath's first point has been consumed.
pub proof fn lemma_prefix(verbs: Seq<PathVerb>, k: int)
    requires
        verbs_valid(verbs),
        0 <= k <= verbs.len(),
    ensures
        verbs_valid(verbs.take(k)),
        points_used(verbs.take(k)) <= points_used(verbs),
        in_subpath(verbs.take(k)) ==> begin_offset(verbs.take(k)) < points_used(verbs.take(k)),
        k < verbs.len() ==> points_used(verbs.take(k + 1)) == points_used(verbs.take(k))
            + verb_points(verbs[k]),
        k < verbs.len() ==> (verbs[k] == PathVerb::Begin) != in_subpath(verbs.take(k)),
        k < verbs.len() ==> points_used(verbs.take(k)) + verb_points(verbs[k]) <= points_used(
            verbs,
        ),
    decreases verbs.len() - k,
{
    lemma_valid_prefix(verbs, k);
    lemma_begin_consumed(verbs.take(k));
    if k < verbs.len() {
        assert(verbs.take(k + 1).drop_last() =~= verbs.take(k));
        lemma_valid_prefix(verbs, k + 1);
    } else {
        assert(verbs.take(k) =~= verbs);
    }
}

proof fn lemma_valid_prefix(verbs: Seq<PathVerb>, k: int)
    requires
        verbs_valid(verbs),
        0 <= k <= verbs.len(),
    ensures
        verbs_valid(verbs.take(k)),
        points_used(verbs.take(k)) <= points_used(verbs),
    decreases verbs.len(),
{
    if k == verbs.len() {
        assert(verbs.take(k) =~= verbs);
    } else {
        lemma_valid_prefix(verbs.drop_last(), k);
        assert(verbs.drop_last().take(k) =~= verbs.take(k));
    }
}

/// The first point of a subpath is consumed before anything else of it.
pub proof fn lemma_begin_consumed(verbs: Seq<PathVerb>)
    requires
        verbs_valid(verbs),
    ensures
        in_subpath(verbs) ==> begin_offset(verbs) < points_used(verbs),
        begin_offset(verbs) <= points_used(verbs),
    decreases verbs.len(),
{
    if verbs.len() > 0 {
        lemma_begin_consumed(verbs.drop_last());
    }
}

/// Closing points found among the verbs are found among any longer run of
/// points and verbs that starts with them.
pub proof fn lemma_closes_extend(
    points: Seq<Point>,
    verbs: Seq<PathVerb>,
    more_points: Seq<Point>,
)
    requires
        closes_match(points, verbs),
        points.len() <= more_points.len(),
        forall|i: int| 0 <= i < points.len() ==> points[i] == more_points[i],
    ensures
        closes_match(more_points, verbs),
    decreases verbs.len(),
{
    if verbs.len() > 0 {
        lemma_closes_extend(points, verbs.drop_last(), more_points);
    }
}

/// An immutable path: points and the verbs that consume them, in whole
/// subpaths.
pub struct Path {
    points: Vec<Point>,
    verbs: Vec<PathVerb>,
}

impl Path {
    /// The points of the path.
    pub closed spec fn points(&self) -> Seq<Point> {
        self.points@
    }

    /// The verbs of the path.
    pub closed spec fn verbs(&self) -> Seq<PathVerb> {
        self.verbs@
    }

    /// Whether the path holds whole subpaths that follow the state machine.
    pub open spec fn wf(&self) -> bool {
        path_data_ok(self.points(), self.verbs()) && !in_subpath(self.verbs())
    }

    /// The path made of the given points and verbs.
    pub fn from_parts(points: Vec<Point>, verbs: Vec<PathVerb>) -> (path: Path)
        requires
            path_data_ok(points@, verbs@),
            !in_subpath(verbs@),
        ensures
            path.wf(),
            path.points() == points@,
            path.verbs() == verbs@,
    {
        Path { points, verbs }
    }

    /// Whether the path holds whole subpaths that follow the state machine.
    pub fn is_wf(&self) -> (ok: bool)
        ensures
            ok == self.wf(),
    {
        check_path_data(&self.points, &self.verbs) == Some(false)
    }

    /// A builder for a new path.
    pub fn builder() -> (b: builder::PathBuilder)
        ensures
            b.wf(),
            b.points() == Seq::<Point>::empty(),
            b.verbs() == Seq::<PathVerb>::empty(),
    {
        builder::PathBuilder::new()
    }

    /// The points of the path.
    pub fn get_points(&self) -> (points: &Vec<Point>)
        ensures
            points@ == self.points(),
    {
        &self.points
    }

    /// The verbs of the path.
    pub fn get_verbs(&self) -> (verbs: &Vec<PathVerb>)
        ensures
            verbs@ == self.verbs(),
    {
        &self.verbs
    }

    /// A fresh replay of the path from its start.
    pub fn events(&self) -> (iter: PathEventsIter<'_>)
        requires
            self.wf(),
        ensures
            iter.wf(),
            iter.points() == self.points(),
            iter.verbs() == self.verbs(),
            iter.position() == 0,
    {
        PathEventsIter::new(&self.points, &self.verbs)
    }
}

/// A replay of points and verbs as events. It owns its cursor: two replays
/// of one path do not disturb each other.
pub struct PathEventsIter<'a> {
    points: &'a Vec<Point>,
    verbs: &'a Vec<PathVerb>,
    next_verb: usize,
    next_point: usize,
    first: Point,
}

impl<'a> PathEventsIter<'a> {
    /// The points being replayed.
    pub closed spec fn points(&self) -> Seq<Point> {
        self.points@
    }

    /// The verbs being replayed.
    pub closed spec fn verbs(&self) -> Seq<PathVerb> {
        self.verbs@
    }

    /// Number of events already given.
    pub closed spec fn position(&self) -> int {
        self.next_verb as int
    }

    /// Whether the replay is in step with its data.
    pub closed spec fn wf(&self) -> bool {
        &&& path_data_ok(self.points@, self.verbs@)
        &&& !in_subpath(self.verbs@)
        &&& self.next_verb <= self.verbs@.len()
        &&& self.next_point == points_used(self.verbs@.take(self.next_verb as int))
        &&& in_subpath(self.verbs@.take(self.next_verb as int)) ==> self.first
            == self.points@[begin_offset(self.verbs@.take(self.next_verb as int)) as int]
    }

    /// What a replay in step holds is path data in whole subpaths.
    pub proof fn lemma_wf(&self)
        requires
            self.wf(),
        ensures
            path_data_ok(self.points(), self.verbs()),
            !in_subpath(self.verbs()),
            0 <= self.position() <= self.verbs().len(),
    {
    }

    /// A replay of `points` and `verbs` from their start.
    pub fn new(points: &'a Vec<Point>, verbs: &'a Vec<PathVerb>) -> (iter: Self)
        requires
            path_data_ok(points@, verbs@),
            !in_subpath(verbs@),
        ensures
            iter.wf(),
            iter.points() == points@,
            iter.verbs() == verbs@,
            iter.position() == 0,
    {
        assert(verbs@.take(0) =~= Seq::<PathVerb>::empty());
        PathEventsIter { points, verbs, next_verb: 0, next_point: 0, first: Point { x: 0, y: 0 } }
    }

    /// The next event, or `None` once every verb has been replayed.
    pub fn next(&mut self) -> (event: Option<PathEvent>)
        requires
            old(self).wf(),
        ensures
            final(self).wf(),
            final(self).points() == old(self).points(),
            final(self).verbs() == old(self).verbs(),
            old(self).position() < old(self).verbs().len() ==> {
                &&& final(self).position() == old(self).position() + 1
                &&& event == Some(
                    event_at(old(self).points(), old(self).verbs(), old(self).position()),
                )
            },
            old(self).position() >= old(self).verbs().len() ==> {
                &&& event is None
                &&& final(self).position() == old(self).position()
            },
    {
        if self.next_verb >= self.verbs.len() {
            return None;
        }
        let k = self.next_verb;
        let at = self.next_point;
        proof {
            lemma_prefix(self.verbs@, k as int);
            lemma_closes_prefix(self.points@, self.verbs@, k as int + 1);
        }
        let verb = self.verbs[k];
        let count = self.points.len();
        assert(at + verb_points(verb) <= count);
        let event = match verb {
            PathVerb::Begin => {
                self.first = self.points[at];
                self.next_point = at + 1;
                PathEvent::Begin { at: self.points[at] }
            },
            PathVerb::LineTo => {
                self.next_point = at + 1;
                PathEvent::Line { from: self.points[at - 1], to: self.points[at] }
            },
            PathVerb::QuadraticTo => {
                self.next_point = at + 2;
                PathEvent::Quadratic {
                    from: self.points[at - 1],
                    ctrl: self.points[at],
                    to: self.points[at + 1],
                }
            },
            PathVerb::CubicTo => {
                self.next_point = at + 3;
                PathEvent::Cubic {
                    from: self.points[at - 1],
                    ctrl1: self.points[at],
                    ctrl2: self.points[at + 1],
                    to: self.points[at + 2],
                }
            },
            PathVerb::End => PathEvent::End {
                contour: Contour(at),
                last: self.points[at - 1],
                first: self.first,
                close: false,
            },
            PathVerb::Close => {
                self.next_point = at + 1;
                PathEvent::End {
                    contour: Contour(at + 1),
                    last: self.points[at - 1],
                    first: self.first,
                    close: true,
                }
            },
        };
        self.next_verb = k + 1;
        proof {
            let before = self.verbs@.take(k as int);
            let after = self.verbs@.take(k as int + 1);
            assert(after =~= before.push(verb));
            lemma_push_verb(before, verb);
        }
        Some(event)
    }
}

/// Closing points found among the verbs are found among their prefixes.
pub proof fn lemma_closes_prefix(points: Seq<Point>, verbs: Seq<PathVerb>, k: int)
    requires
        closes_match(points, verbs),
        0 <= k <= verbs.len(),
    ensures
        closes_match(points, verbs.take(k)),
    decreases verbs.len(),
{
    if k == verbs.len() {
        assert(verbs.take(k) =~= verbs);
    } else {
        lemma_closes_prefix(points, verbs.drop_last(), k);
        assert(verbs.drop_last().take(k) =~= verbs.take(k));
    }
}

/// Checks points and verbs against the state machine: `None` where they are
/// no path data; otherwise whether a subpath is left open.
pub fn check_path_data(points: &Vec<Point>, verbs: &Vec<PathVerb>) -> (state: Option<bool>)
    ensures
        state is Some <==> path_data_ok(points@, verbs@),
        state matches Some(open) ==> open == in_subpath(verbs@),
{
    let mut open = false;
    let mut used: usize = 0;
    let mut first: usize = 0;
    let mut k: usize = 0;
    assert(verbs@.take(0) =~= Seq::<PathVerb>::empty());
    while k < verbs.len()
        invariant
            k <= verbs@.len(),
            verbs_valid(verbs@.take(k as int)),
            closes_match(points@, verbs@.take(k as int)),
            open == in_subpath(verbs@.take(k as int)),
            used == points_used(verbs@.take(k as int)),
            used <= points@.len(),
            first == begin_offset(verbs@.take(k as int)),
            open ==> first < used,
        decreases verbs@.len() - k,
    {
        let verb = verbs[k];
        let ghost before = verbs@.take(k as int);
        proof {
            assert(verbs@.take(k as int + 1) =~= before.push(verb));
            assert(before.push(verb).drop_last() =~= before);
            lemma_push_verb(before, verb);
        }
        let is_begin = match verb {
            PathVerb::Begin => true,
            _ => false,
        };
        let needs: usize = match verb {
            PathVerb::Begin => 1,
            PathVerb::LineTo => 1,
            PathVerb::QuadraticTo => 2,
            PathVerb::CubicTo => 3,
            PathVerb::End => 0,
            PathVerb::Close => 1,
        };
        let closes = match verb {
            PathVerb::Close => true,
            _ => false,
        };
        let fits = needs <= points.len() - used;
        let matches_first = !closes || (fits && open && points[used].x == points[first].x
            && points[used].y == points[first].y);
        if is_begin == open || !fits || !matches_first {
            proof {
                // The verbs up to here are a prefix of all verbs; what fails
                // here fails for the whole.
                if path_data_ok(points@, verbs@) {
                    lemma_prefix(verbs@, k as int);
                    lemma_closes_prefix(points@, verbs@, k as int + 1);
                    lemma_prefix(verbs@, k as int + 1);
                }
            }
            return None;
        }
        if is_begin {
            first = used;
        }
        open = match verb {
            PathVerb::Begin => true,
            PathVerb::End => false,
            PathVerb::Close => false,
            _ => open,
        };
        used = used + needs;
        k += 1;
    }
    assert(verbs@.take(verbs@.len() as int) =~= verbs@);
    if used != points.len() {
        return None;
    }
    let mut i: usize = 0;
    while i < points.len()
        invariant
            i <= points@.len(),
            forall|j: int| 0 <= j < i ==> (#[trigger] points@[j]).finite(),
        decreases points@.len() - i,
    {
        if !points[i].is_finite() {
            return None;
        }
        i += 1;
    }
    Some(open)
}

} // verus!
